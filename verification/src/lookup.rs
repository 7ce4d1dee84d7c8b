//! The decisions of looking up one run, or all runs, of a task of a project.
//! The caller performs each query the lookup asks for against the store and
//! hands back the reply, until the lookup answers.

use vstd::prelude::*;

use crate::run::{is_not_found, same_run_shown, normalize_run_for_response, shown_for_display, AppError, Run};

verus! {

/// A query that a lookup asks the store to answer.
pub enum RunsQuery {
    /// The key of the project with id `project_id`, if there is one.
    FindProject { project_id: String },
    /// Whether the task `task_id` belongs to the project with key `project_pk`.
    TaskInProject { task_id: String, project_pk: String },
    /// The run `run_id` of a session of the task `task_id`, if there is one.
    RunOfTask { run_id: String, task_id: String },
    /// The runs of the sessions of the task `task_id`, by run number, highest first.
    RunsOfTask { task_id: String },
}

/// The store's reply to a [`RunsQuery`], variant for variant.
pub enum RunsReply {
    Project(Option<String>),
    TaskExists(bool),
    Run(Option<Run>),
    Runs(Vec<Run>),
}

/// What a successful lookup answers.
pub enum RunsFound {
    One(Run),
    Many(Vec<Run>),
}

/// What a lookup does next: ask a query, or answer.
pub enum RunsAction {
    Query(RunsQuery),
    Respond(Result<RunsFound, AppError>),
}

/// Which reply a lookup waits for.
pub enum RunsStage {
    AwaitProject,
    AwaitTask,
    AwaitRuns,
    Done,
}

/// A lookup of the run `run_id` (or of all runs, where it is `None`) of the
/// task `task_id` of the project `project_id`.
pub struct RunsLookup {
    pub project_id: String,
    pub task_id: String,
    pub run_id: Option<String>,
    pub stage: RunsStage,
}

/// The message for a project that does not exist.
pub open spec fn project_missing_message(project_id: Seq<char>) -> Seq<char> {
    "Project "@ + project_id + " not found"@
}

/// The message for a task that does not exist in the project.
pub open spec fn task_missing_message(task_id: Seq<char>) -> Seq<char> {
    "Task "@ + task_id + " not found"@
}

/// The message for a run that does not exist for the task.
pub open spec fn run_missing_message(run_id: Seq<char>, task_id: Seq<char>) -> Seq<char> {
    "Run "@ + run_id + " not found for task "@ + task_id
}

impl RunsLookup {
    /// Whether the lookup waits for a reply of the kind of `reply`.
    pub open spec fn accepts(self, reply: RunsReply) -> bool {
        match self.stage {
            RunsStage::AwaitProject => reply is Project,
            RunsStage::AwaitTask => reply is TaskExists,
            RunsStage::AwaitRuns => if self.run_id is Some {
                reply is Run
            } else {
                reply is Runs
            },
            RunsStage::Done => false,
        }
    }

    /// `next` and `action` are what the lookup does on `reply`: a missing
    /// project, task or run ends it with the matching not-found error; a found
    /// project leads to checking the task in it; an existing task leads to
    /// fetching the run(s); the run(s) found are answered in display form, in
    /// the order the store gave them.
    pub open spec fn advanced(
        self,
        reply: RunsReply,
        next: RunsLookup,
        action: RunsAction,
    ) -> bool {
        &&& next.project_id == self.project_id
        &&& next.task_id == self.task_id
        &&& next.run_id == self.run_id
        &&& match (self.stage, reply) {
            (RunsStage::AwaitProject, RunsReply::Project(None)) => {
                &&& next.stage is Done
                &&& action matches RunsAction::Respond(Err(e))
                &&& is_not_found(
                    e,
                    "project_not_found"@,
                    project_missing_message(self.project_id@),
                )
            },
            (RunsStage::AwaitProject, RunsReply::Project(Some(pk))) => {
                &&& next.stage is AwaitTask
                &&& action == RunsAction::Query(
                    RunsQuery::TaskInProject { task_id: self.task_id, project_pk: pk },
                )
            },
            (RunsStage::AwaitTask, RunsReply::TaskExists(false)) => {
                &&& next.stage is Done
                &&& action matches RunsAction::Respond(Err(e))
                &&& is_not_found(e, "task_not_found"@, task_missing_message(self.task_id@))
            },
            (RunsStage::AwaitTask, RunsReply::TaskExists(true)) => {
                &&& next.stage is AwaitRuns
                &&& match self.run_id {
                    Some(r) => action == RunsAction::Query(
                        RunsQuery::RunOfTask { run_id: r, task_id: self.task_id },
                    ),
                    None => action == RunsAction::Query(
                        RunsQuery::RunsOfTask { task_id: self.task_id },
                    ),
                }
            },
            (RunsStage::AwaitRuns, RunsReply::Run(None)) => {
                &&& next.stage is Done
                &&& action matches RunsAction::Respond(Err(e))
                &&& is_not_found(
                    e,
                    "run_not_found"@,
                    run_missing_message(self.run_id->0@, self.task_id@),
                )
            },
            (RunsStage::AwaitRuns, RunsReply::Run(Some(run))) => {
                &&& next.stage is Done
                &&& action matches RunsAction::Respond(Ok(RunsFound::One(shown)))
                &&& shown_for_display(run, shown)
            },
            (RunsStage::AwaitRuns, RunsReply::Runs(runs)) => {
                &&& next.stage is Done
                &&& action matches RunsAction::Respond(Ok(RunsFound::Many(shown)))
                &&& shown@.len() == runs@.len()
                &&& forall|i: int|
                    0 <= i < runs@.len() ==> shown_for_display(
                        #[trigger] runs@[i],
                        shown@[i],
                    )
            },
            _ => false,
        }
    }

    /// Starts the lookup of the run `run_id` of the task `task_id` of the
    /// project `project_id`; it first asks for the project.
    pub fn get_run(project_id: &str, task_id: &str, run_id: &str) -> (res: (
        RunsLookup,
        RunsAction,
    ))
        ensures
            res.0.project_id@ == project_id@,
            res.0.task_id@ == task_id@,
            res.0.run_id matches Some(r) && r@ == run_id@,
            res.0.stage is AwaitProject,
            res.1 == RunsAction::Query(RunsQuery::FindProject { project_id: res.0.project_id }),
    {
        let lookup = RunsLookup {
            project_id: String::from_str(project_id),
            task_id: String::from_str(task_id),
            run_id: Some(String::from_str(run_id)),
            stage: RunsStage::AwaitProject,
        };
        let query = RunsQuery::FindProject { project_id: lookup.project_id.clone() };
        (lookup, RunsAction::Query(query))
    }

    /// Starts the lookup of all runs of the task `task_id` of the project
    /// `project_id`; it first asks for the project.
    pub fn list_runs(project_id: &str, task_id: &str) -> (res: (RunsLookup, RunsAction))
        ensures
            res.0.project_id@ == project_id@,
            res.0.task_id@ == task_id@,
            res.0.run_id is None,
            res.0.stage is AwaitProject,
            res.1 == RunsAction::Query(RunsQuery::FindProject { project_id: res.0.project_id }),
    {
        let lookup = RunsLookup {
            project_id: String::from_str(project_id),
            task_id: String::from_str(task_id),
            run_id: None,
            stage: RunsStage::AwaitProject,
        };
        let query = RunsQuery::FindProject { project_id: lookup.project_id.clone() };
        (lookup, RunsAction::Query(query))
    }

    /// Whether the lookup waits for a reply of the kind of `reply`.
    pub fn accepts_reply(&self, reply: &RunsReply) -> (res: bool)
        ensures
            res == self.accepts(*reply),
    {
        match self.stage {
            RunsStage::AwaitProject => matches!(reply, RunsReply::Project(_)),
            RunsStage::AwaitTask => matches!(reply, RunsReply::TaskExists(_)),
            RunsStage::AwaitRuns => match self.run_id {
                Some(_) => matches!(reply, RunsReply::Run(_)),
                None => matches!(reply, RunsReply::Runs(_)),
            },
            RunsStage::Done => false,
        }
    }

    /// The lookup's step on the store's `reply` to the query it asked last.
    pub fn advance(self, reply: RunsReply) -> (res: (RunsLookup, RunsAction))
        requires
            self.accepts(reply),
        ensures
            self.advanced(reply, res.0, res.1),
    {
        let RunsLookup { project_id, task_id, run_id, stage } = self;
        match (stage, reply) {
            (RunsStage::AwaitProject, RunsReply::Project(None)) => {
                let message = String::from_str("Project ").concat(project_id.as_str()).concat(
                    " not found",
                );
                let err = AppError::NotFound { code: "project_not_found", message };
                (
                    RunsLookup { project_id, task_id, run_id, stage: RunsStage::Done },
                    RunsAction::Respond(Err(err)),
                )
            },
            (RunsStage::AwaitProject, RunsReply::Project(Some(pk))) => {
                let query = RunsQuery::TaskInProject { task_id: task_id.clone(), project_pk: pk };
                (
                    RunsLookup { project_id, task_id, run_id, stage: RunsStage::AwaitTask },
                    RunsAction::Query(query),
                )
            },
            (RunsStage::AwaitTask, RunsReply::TaskExists(false)) => {
                let message = String::from_str("Task ").concat(task_id.as_str()).concat(
                    " not found",
                );
                let err = AppError::NotFound { code: "task_not_found", message };
                (
                    RunsLookup { project_id, task_id, run_id, stage: RunsStage::Done },
                    RunsAction::Respond(Err(err)),
                )
            },
            (RunsStage::AwaitTask, RunsReply::TaskExists(true)) => {
                let query = match &run_id {
                    Some(r) => RunsQuery::RunOfTask { run_id: r.clone(), task_id: task_id.clone() },
                    None => RunsQuery::RunsOfTask { task_id: task_id.clone() },
                };
                (
                    RunsLookup { project_id, task_id, run_id, stage: RunsStage::AwaitRuns },
                    RunsAction::Query(query),
                )
            },
            (RunsStage::AwaitRuns, RunsReply::Run(None)) => {
                let rid = match &run_id {
                    Some(r) => r.clone(),
                    None => String::new(),
                };
                let message = String::from_str("Run ").concat(rid.as_str()).concat(
                    " not found for task ",
                ).concat(task_id.as_str());
                let err = AppError::NotFound { code: "run_not_found", message };
                (
                    RunsLookup { project_id, task_id, run_id, stage: RunsStage::Done },
                    RunsAction::Respond(Err(err)),
                )
            },
            (RunsStage::AwaitRuns, RunsReply::Run(Some(run))) => {
                let shown = normalize_run_for_response(run);
                (
                    RunsLookup { project_id, task_id, run_id, stage: RunsStage::Done },
                    RunsAction::Respond(Ok(RunsFound::One(shown))),
                )
            },
            (RunsStage::AwaitRuns, RunsReply::Runs(runs)) => {
                let shown = normalize_runs(runs);
                (
                    RunsLookup { project_id, task_id, run_id, stage: RunsStage::Done },
                    RunsAction::Respond(Ok(RunsFound::Many(shown))),
                )
            },
            _ => {
                proof {
                    assert(false);
                }
                (
                    RunsLookup { project_id, task_id, run_id, stage: RunsStage::Done },
                    RunsAction::Respond(Ok(RunsFound::Many(Vec::new()))),
                )
            },
        }
    }
}

/// Each of `runs` in display form, in the same order.
pub fn normalize_runs(runs: Vec<Run>) -> (res: Vec<Run>)
    ensures
        res@.len() == runs@.len(),
        forall|i: int| 0 <= i < runs@.len() ==> shown_for_display(#[trigger] runs@[i], res@[i]),
{
    let mut res: Vec<Run> = Vec::new();
    let ghost all = runs@;
    for run in iter: runs
        invariant
            iter.seq() == all,
            res@.len() == iter.index(),
            forall|i: int| 0 <= i < res@.len() ==> shown_for_display(#[trigger] all[i], res@[i]),
    {
        let shown = normalize_run_for_response(run);
        res.push(shown);
    }
    res
}

/// How many more replies a lookup in `stage` waits for, at most.
pub open spec fn replies_left(stage: RunsStage) -> nat {
    match stage {
        RunsStage::AwaitProject => 3,
        RunsStage::AwaitTask => 2,
        RunsStage::AwaitRuns => 1,
        RunsStage::Done => 0,
    }
}

/// Every reply moves a lookup on: it answers exactly when it stops waiting,
/// else it asks its next query; so it answers after at most three replies,
/// and once it has answered it accepts no reply.
pub proof fn lookup_moves_on(l: RunsLookup, reply: RunsReply, next: RunsLookup, action: RunsAction)
    requires
        l.accepts(reply),
        l.advanced(reply, next, action),
    ensures
        (next.stage is Done) == (action is Respond),
        replies_left(next.stage) < replies_left(l.stage),
        next.stage is Done ==> forall|r: RunsReply| !next.accepts(r),
{
}

/// Listing the runs of a task and looking one of them up agree: where the
/// store gives the same row to both, the list's entry and the looked-up run
/// show the same run.
pub proof fn listed_and_looked_up_runs_agree(
    list: RunsLookup,
    rows: Vec<Run>,
    list_next: RunsLookup,
    list_action: RunsAction,
    get: RunsLookup,
    get_next: RunsLookup,
    get_action: RunsAction,
    i: int,
)
    requires
        list.stage is AwaitRuns,
        list.run_id is None,
        get.stage is AwaitRuns,
        get.run_id is Some,
        0 <= i < rows@.len(),
        list.advanced(RunsReply::Runs(rows), list_next, list_action),
        get.advanced(RunsReply::Run(Some(rows@[i])), get_next, get_action),
    ensures
        match (list_action, get_action) {
            (
                RunsAction::Respond(Ok(RunsFound::Many(listed))),
                RunsAction::Respond(Ok(RunsFound::One(found))),
            ) => listed@.len() == rows@.len() && same_run_shown(listed@[i], found),
            _ => false,
        },
{
    match (list_action, get_action) {
        (
            RunsAction::Respond(Ok(RunsFound::Many(listed))),
            RunsAction::Respond(Ok(RunsFound::One(found))),
        ) => {
            assert(shown_for_display(rows@[i], listed@[i]));
        },
        _ => {},
    }
}

/// A lookup takes every reply of the kind it waits for, whatever the reply
/// holds: any project or none, a task that exists or not, any run or none,
/// any list of runs (runs still in progress included).
pub proof fn lookup_accepts_every_reply_of_its_kind(l: RunsLookup)
    ensures
        l.stage is AwaitProject ==> forall|p: Option<String>| #[trigger]
            l.accepts(RunsReply::Project(p)),
        l.stage is AwaitTask ==> forall|b: bool| #[trigger] l.accepts(RunsReply::TaskExists(b)),
        l.stage is AwaitRuns && l.run_id is Some ==> forall|o: Option<Run>| #[trigger]
            l.accepts(RunsReply::Run(o)),
        l.stage is AwaitRuns && l.run_id is None ==> forall|rows: Vec<Run>| #[trigger]
            l.accepts(RunsReply::Runs(rows)),
{
}

/// What a lookup answers to each reply: a missing project, task or run is a
/// not-found error with its code and message; a found project is followed by
/// the question whether the task is in it; an existing task by the question
/// for the run (or the runs); a found run is answered with every stored field
/// kept; found runs are answered all of them, in the store's order, each with
/// every stored field kept.
pub proof fn lookup_answers(l: RunsLookup, reply: RunsReply, next: RunsLookup, action: RunsAction)
    requires
        l.accepts(reply),
        l.advanced(reply, next, action),
    ensures
        next.project_id == l.project_id && next.task_id == l.task_id && next.run_id == l.run_id,
        reply == RunsReply::Project(None) ==> (action matches RunsAction::Respond(
            Err(AppError::NotFound { code, message }),
        ) && code@ == "project_not_found"@ && message@ == "Project "@ + l.project_id@
            + " not found"@),
        reply matches RunsReply::Project(Some(pk)) ==> action == RunsAction::Query(
            RunsQuery::TaskInProject { task_id: l.task_id, project_pk: pk },
        ),
        reply == RunsReply::TaskExists(false) ==> (action matches RunsAction::Respond(
            Err(AppError::NotFound { code, message }),
        ) && code@ == "task_not_found"@ && message@ == "Task "@ + l.task_id@ + " not found"@),
        reply == RunsReply::TaskExists(true) ==> match l.run_id {
            Some(r) => action == RunsAction::Query(
                RunsQuery::RunOfTask { run_id: r, task_id: l.task_id },
            ),
            None => action == RunsAction::Query(RunsQuery::RunsOfTask { task_id: l.task_id }),
        },
        reply == RunsReply::Run(None) ==> (action matches RunsAction::Respond(
            Err(AppError::NotFound { code, message }),
        ) && code@ == "run_not_found"@ && message@ == "Run "@ + l.run_id->0@
            + " not found for task "@ + l.task_id@),
        reply matches RunsReply::Run(Some(r)) ==> (action matches RunsAction::Respond(
            Ok(RunsFound::One(s)),
        ) && s.id == r.id && s.session_id == r.session_id && s.run_number == r.run_number
            && s.input == r.input && s.exit_code == r.exit_code && s.log_path == r.log_path
            && s.started_at == r.started_at && s.ended_at == r.ended_at),
        reply matches RunsReply::Runs(rows) ==> (action matches RunsAction::Respond(
            Ok(RunsFound::Many(v)),
        ) && v@.len() == rows@.len() && forall|i: int|
            0 <= i < rows@.len() ==> {
                &&& (#[trigger] v@[i]).id == rows@[i].id
                &&& v@[i].session_id == rows@[i].session_id
                &&& v@[i].run_number == rows@[i].run_number
                &&& v@[i].input == rows@[i].input
                &&& v@[i].exit_code == rows@[i].exit_code
                &&& v@[i].log_path == rows@[i].log_path
                &&& v@[i].started_at == rows@[i].started_at
                &&& v@[i].ended_at == rows@[i].ended_at
            }),
{
    match reply {
        RunsReply::Runs(rows) => {
            match action {
                RunsAction::Respond(Ok(RunsFound::Many(v))) => {
                    assert forall|i: int| 0 <= i < rows@.len() implies {
                        &&& (#[trigger] v@[i]).id == rows@[i].id
                        &&& v@[i].session_id == rows@[i].session_id
                        &&& v@[i].run_number == rows@[i].run_number
                        &&& v@[i].input == rows@[i].input
                        &&& v@[i].exit_code == rows@[i].exit_code
                        &&& v@[i].log_path == rows@[i].log_path
                        &&& v@[i].started_at == rows@[i].started_at
                        &&& v@[i].ended_at == rows@[i].ended_at
                    } by {
                        assert(shown_for_display(rows@[i], v@[i]));
                    }
                },
                _ => {},
            }
        },
        _ => {},
    }
}

} // verus!

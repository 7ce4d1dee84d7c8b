use omni_runs::lookup::{RunsAction, RunsFound, RunsLookup, RunsQuery, RunsReply};
use omni_runs::run::{normalize_run_for_response, AppError, Run};

fn run(id: &str, run_number: i64, log_tail: Option<&str>) -> Run {
    Run {
        id: id.to_string(),
        session_id: "session-1".to_string(),
        run_number,
        input: Some("input".to_string()),
        exit_code: Some(0),
        log_path: Some("/tmp/run.log".to_string()),
        log_tail: log_tail.map(|t| t.to_string()),
        started_at: "2026-05-25T10:00:00+00:00".to_string(),
        ended_at: Some("2026-05-25T10:00:30+00:00".to_string()),
    }
}

fn expect_query(action: &RunsAction) -> &RunsQuery {
    match action {
        RunsAction::Query(q) => q,
        RunsAction::Respond(_) => panic!("expected a query"),
    }
}

fn step(lookup: RunsLookup, reply: RunsReply) -> (RunsLookup, RunsAction) {
    assert!(lookup.accepts_reply(&reply));
    lookup.advance(reply)
}

fn assert_not_found(action: RunsAction, expected_code: &str, expected_message: &str) {
    match action {
        RunsAction::Respond(Err(AppError::NotFound { code, message })) => {
            assert_eq!(code, expected_code);
            assert_eq!(message, expected_message);
        }
        _ => panic!("expected NotFound"),
    }
}

#[test]
fn get_run_by_id_happy_path() {
    let (l, a) = RunsLookup::get_run("proj-1", "OMNI-001", "run-1");
    match expect_query(&a) {
        RunsQuery::FindProject { project_id } => assert_eq!(project_id, "proj-1"),
        _ => panic!("expected FindProject"),
    }
    let (l, a) = step(l, RunsReply::Project(Some("proj-1".to_string())));
    match expect_query(&a) {
        RunsQuery::TaskInProject { task_id, project_pk } => {
            assert_eq!(task_id, "OMNI-001");
            assert_eq!(project_pk, "proj-1");
        }
        _ => panic!("expected TaskInProject"),
    }
    let (l, a) = step(l, RunsReply::TaskExists(true));
    match expect_query(&a) {
        RunsQuery::RunOfTask { run_id, task_id } => {
            assert_eq!(run_id, "run-1");
            assert_eq!(task_id, "OMNI-001");
        }
        _ => panic!("expected RunOfTask"),
    }
    let (l, a) = step(l, RunsReply::Run(Some(run("run-1", 1, Some("tail")))));
    match a {
        RunsAction::Respond(Ok(RunsFound::One(run))) => {
            assert_eq!(run.id, "run-1");
            assert_eq!(run.run_number, 1);
            assert_eq!(run.input.as_deref(), Some("input"));
            assert_eq!(run.exit_code, Some(0));
            assert_eq!(run.log_tail.as_deref(), Some("tail"));
        }
        _ => panic!("expected the run"),
    }
    assert!(!l.accepts_reply(&RunsReply::TaskExists(true)));
}

#[test]
fn get_run_by_id_returns_project_not_found_when_project_missing() {
    let (l, _) = RunsLookup::get_run("missing", "OMNI-001", "run-1");
    let (l, a) = step(l, RunsReply::Project(None));
    assert_not_found(a, "project_not_found", "Project missing not found");
    assert!(!l.accepts_reply(&RunsReply::Project(None)));
}

#[test]
fn get_run_by_id_returns_task_not_found_when_task_missing() {
    let (l, _) = RunsLookup::get_run("proj-1", "OMNI-999", "run-1");
    let (l, _) = step(l, RunsReply::Project(Some("proj-1".to_string())));
    let (_, a) = step(l, RunsReply::TaskExists(false));
    assert_not_found(a, "task_not_found", "Task OMNI-999 not found");
}

#[test]
fn get_run_by_id_returns_run_not_found_when_run_id_unknown() {
    let (l, _) = RunsLookup::get_run("proj-1", "OMNI-001", "missing");
    let (l, _) = step(l, RunsReply::Project(Some("proj-1".to_string())));
    let (l, _) = step(l, RunsReply::TaskExists(true));
    let (_, a) = step(l, RunsReply::Run(None));
    assert_not_found(a, "run_not_found", "Run missing not found for task OMNI-001");
}

#[test]
fn list_runs_for_task_returns_runs_sorted_desc_by_run_number() {
    let (l, _) = RunsLookup::list_runs("proj-1", "OMNI-001");
    let (l, _) = step(l, RunsReply::Project(Some("proj-1".to_string())));
    let (l, a) = step(l, RunsReply::TaskExists(true));
    match expect_query(&a) {
        RunsQuery::RunsOfTask { task_id } => assert_eq!(task_id, "OMNI-001"),
        _ => panic!("expected RunsOfTask"),
    }
    let rows = vec![run("run-3", 3, None), run("run-2", 2, None), run("run-1", 1, None)];
    let (_, a) = step(l, RunsReply::Runs(rows));
    match a {
        RunsAction::Respond(Ok(RunsFound::Many(runs))) => {
            let numbers: Vec<i64> = runs.iter().map(|run| run.run_number).collect();
            assert_eq!(numbers, vec![3, 2, 1]);
        }
        _ => panic!("expected the runs"),
    }
}

#[test]
fn list_runs_for_task_returns_empty_when_no_session() {
    let (l, _) = RunsLookup::list_runs("proj-1", "OMNI-001");
    let (l, _) = step(l, RunsReply::Project(Some("proj-1".to_string())));
    let (l, _) = step(l, RunsReply::TaskExists(true));
    let (_, a) = step(l, RunsReply::Runs(vec![]));
    match a {
        RunsAction::Respond(Ok(RunsFound::Many(runs))) => assert!(runs.is_empty()),
        _ => panic!("expected the runs"),
    }
}

#[test]
fn list_runs_for_task_returns_project_not_found() {
    let (l, _) = RunsLookup::list_runs("missing", "OMNI-001");
    let (_, a) = step(l, RunsReply::Project(None));
    assert_not_found(a, "project_not_found", "Project missing not found");
}

#[test]
fn list_runs_for_task_returns_task_not_found() {
    let (l, _) = RunsLookup::list_runs("proj-1", "OMNI-999");
    let (l, _) = step(l, RunsReply::Project(Some("proj-1".to_string())));
    let (_, a) = step(l, RunsReply::TaskExists(false));
    assert_not_found(a, "task_not_found", "Task OMNI-999 not found");
}

#[test]
fn lookup_refuses_a_reply_of_another_kind() {
    let (l, _) = RunsLookup::list_runs("proj-1", "OMNI-001");
    assert!(!l.accepts_reply(&RunsReply::TaskExists(true)));
    let (l, _) = step(l, RunsReply::Project(Some("proj-1".to_string())));
    let (l, _) = step(l, RunsReply::TaskExists(true));
    assert!(!l.accepts_reply(&RunsReply::Run(None)));
    assert!(l.accepts_reply(&RunsReply::Runs(vec![])));
}

#[test]
fn listed_runs_show_their_log_tail_for_display() {
    let codex = "{\"type\":\"turn.started\"}\n{\"type\":\"event_msg\",\"x\":1}";
    let (l, _) = RunsLookup::list_runs("proj-1", "OMNI-001");
    let (l, _) = step(l, RunsReply::Project(Some("proj-1".to_string())));
    let (l, _) = step(l, RunsReply::TaskExists(true));
    let (_, a) = step(l, RunsReply::Runs(vec![run("run-2", 2, Some(codex)), run("run-1", 1, Some("plain"))]));
    match a {
        RunsAction::Respond(Ok(RunsFound::Many(runs))) => {
            assert_eq!(runs[0].log_tail.as_deref(), Some("{\"type\":\"event_msg\",\"x\":1}"));
            assert_eq!(runs[1].log_tail.as_deref(), Some("plain"));
        }
        _ => panic!("expected the runs"),
    }
}

#[test]
fn normalize_run_keeps_every_other_field() {
    let shown = normalize_run_for_response(run("run-1", 7, Some("Last lines\n[stderr] some warning\n")));
    assert_eq!(shown.id, "run-1");
    assert_eq!(shown.session_id, "session-1");
    assert_eq!(shown.run_number, 7);
    assert_eq!(shown.exit_code, Some(0));
    assert_eq!(shown.log_path.as_deref(), Some("/tmp/run.log"));
    assert_eq!(shown.log_tail.as_deref(), Some("Last lines\n[stderr] some warning\n"));
    assert_eq!(shown.ended_at.as_deref(), Some("2026-05-25T10:00:30+00:00"));
    let none = normalize_run_for_response(run("run-2", 1, None));
    assert_eq!(none.log_tail, None);
}

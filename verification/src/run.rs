//! A run of an agent session, as the runs service answers it.

use vstd::prelude::*;

use crate::display::{
    normalize_log_tail_for_display, normalized_log_tail, normalizing_twice_changes_nothing, opt_view,
    written_events_read_back,
};

verus! {

/// One run of an agent in a session.
#[derive(Debug)]
pub struct Run {
    pub id: String,
    pub session_id: String,
    pub run_number: i64,
    pub input: Option<String>,
    pub exit_code: Option<i32>,
    pub log_path: Option<String>,
    pub log_tail: Option<String>,
    pub started_at: String,
    pub ended_at: Option<String>,
}

/// An error of the runs service.
#[derive(Debug)]
pub enum AppError {
    /// Something the request names does not exist; `code` says what.
    NotFound { code: &'static str, message: String },
}

/// `e` is a not-found error with this code and message.
pub open spec fn is_not_found(e: AppError, code: Seq<char>, message: Seq<char>) -> bool {
    match e {
        AppError::NotFound { code: c, message: m } => c@ == code && m@ == message,
    }
}

/// The log tail shown for a run whose stored log tail is `t`: its
/// normalised form where it has one, else the stored text.
pub open spec fn display_log_tail(t: Option<Seq<char>>) -> Option<Seq<char>> {
    match t {
        Some(x) => match normalized_log_tail(x) {
            Some(n) => Some(n),
            None => Some(x),
        },
        None => None,
    }
}

/// `shown` is `run` as the service answers it: every field as stored but the
/// log tail, which is shown in its display form.
pub open spec fn shown_for_display(run: Run, shown: Run) -> bool {
    &&& shown.id == run.id
    &&& shown.session_id == run.session_id
    &&& shown.run_number == run.run_number
    &&& shown.input == run.input
    &&& shown.exit_code == run.exit_code
    &&& shown.log_path == run.log_path
    &&& shown.started_at == run.started_at
    &&& shown.ended_at == run.ended_at
    &&& opt_view(shown.log_tail) == display_log_tail(opt_view(run.log_tail))
    &&& match run.log_tail {
        Some(t) => normalized_log_tail(t@) is None ==> shown.log_tail == run.log_tail,
        None => shown.log_tail is None,
    }
}

/// `run` with its log tail in display form.
pub fn normalize_run_for_response(run: Run) -> (res: Run)
    ensures
        shown_for_display(run, res),
        res.id == run.id,
        res.session_id == run.session_id,
        res.run_number == run.run_number,
        res.input == run.input,
        res.exit_code == run.exit_code,
        res.log_path == run.log_path,
        res.started_at == run.started_at,
        res.ended_at == run.ended_at,
{
    let mut run = run;
    let normalized = match &run.log_tail {
        Some(t) => normalize_log_tail_for_display(t.as_str()),
        None => None,
    };
    if let Some(n) = normalized {
        run.log_tail = Some(n);
    }
    run
}

/// `a` and `b` show the same run: the same fields, and the same log tail text.
pub open spec fn same_run_shown(a: Run, b: Run) -> bool {
    &&& a.id == b.id
    &&& a.session_id == b.session_id
    &&& a.run_number == b.run_number
    &&& a.input == b.input
    &&& a.exit_code == b.exit_code
    &&& a.log_path == b.log_path
    &&& a.started_at == b.started_at
    &&& a.ended_at == b.ended_at
    &&& opt_view(a.log_tail) == opt_view(b.log_tail)
}

/// Normalising a run again changes nothing, given that the event lines the
/// library writes read back, through `serde_json`, as themselves.
pub proof fn normalizing_a_run_twice_changes_nothing(run: Run, once: Run, twice: Run)
    requires
        written_events_read_back(),
        shown_for_display(run, once),
        shown_for_display(once, twice),
    ensures
        same_run_shown(once, twice),
{
    match run.log_tail {
        Some(t) => {
            normalizing_twice_changes_nothing(t@);
        },
        None => {},
    }
}

/// A run shown for display keeps every stored field but the log tail; its log
/// tail is the normalised form of the stored one where that has one, and the
/// stored text otherwise.
pub proof fn display_keeps_stored_fields(run: Run, shown: Run)
    requires
        shown_for_display(run, shown),
    ensures
        shown.id == run.id,
        shown.session_id == run.session_id,
        shown.run_number == run.run_number,
        shown.input == run.input,
        shown.exit_code == run.exit_code,
        shown.log_path == run.log_path,
        shown.started_at == run.started_at,
        shown.ended_at == run.ended_at,
        run.log_tail is None ==> shown.log_tail is None,
        run.log_tail matches Some(t) ==> (shown.log_tail matches Some(s) && match normalized_log_tail(
            t@,
        ) {
            Some(n) => s@ == n,
            None => s == t,
        }),
{
}

} // verus!

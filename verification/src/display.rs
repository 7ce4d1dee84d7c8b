//! Normalisation of a run's log tail for display: the JSON Lines that an agent
//! wrote become the events the frontend's chat view understands.

use vstd::prelude::*;

use crate::json::{
    as_integer, as_text, get_member, integer_of, decimal_string, json_quoted, member, object_of,
    parse_json, parsed_json, quote_json, text_of, decimal_text, lemma_decimal_one_line,
    lemma_quoted_one_line, JsonValue,
};
use crate::text::{
    chars_of, is_white_space, join, lemma_lines_around_newline, lemma_lines_have_no_newline,
    lemma_lines_of_join_exact, lemma_no_newline_concat, lemma_split_newlines_nonempty,
    lemma_trim_of_trimmed, lemma_trim_shape, no_newline,
    lemma_trim_drop_white_space, line_spans, lines, spans_are_lines, split_newlines, strip_cr, trim,
    trim_span,
};

verus! {

/// The views of an optional string.
pub open spec fn opt_view(o: Option<String>) -> Option<Seq<char>> {
    match o {
        Some(s) => Some(s@),
        None => None,
    }
}

/// The `"type"` of a JSON object, where it is a string.
pub open spec fn kind_of(v: JsonValue) -> Option<Seq<char>> {
    text_of(member(v, "type"@))
}

/// The `"usage"` object of a JSON object, where it has one.
pub open spec fn usage_of(v: JsonValue) -> Option<JsonValue> {
    object_of(member(v, "usage"@))
}

/// An optional integer, or zero.
pub open spec fn or_zero(n: Option<i64>) -> int {
    match n {
        Some(x) => x as int,
        None => 0,
    }
}

/// The token count `key` of a usage object, zero where it is missing or not an `i64`.
pub open spec fn token_count(usage: JsonValue, key: Seq<char>) -> int {
    or_zero(integer_of(member(usage, key)))
}

/// The event line that reports an agent's message `text` as its final answer.
pub open spec fn agent_message_event(text: Seq<char>) -> Seq<char> {
    "{\"payload\":{\"message\":"@ + json_quoted(text)
        + ",\"phase\":\"final_answer\",\"type\":\"agent_message\"},\"type\":\"event_msg\"}"@
}

/// The event line that reports the token usage of a turn.
pub open spec fn token_count_event(input: int, output: int, cached: int) -> Seq<char> {
    "{\"payload\":{\"info\":{\"total_token_usage\":{\"cached_input_tokens\":"@ + decimal_text(
        cached,
    ) + ",\"input_tokens\":"@ + decimal_text(input) + ",\"output_tokens\":"@ + decimal_text(
        output,
    ) + ",\"total_tokens\":"@ + decimal_text(input + output) + "}},\"type\":\"token_count\"},\"type\":\"event_msg\"}"@
}

/// A `"turn.completed"` record's input and output token counts add up to an `i64`
/// (the sum is computed in `i64`, which would overflow otherwise).
pub open spec fn tokens_fit(v: JsonValue) -> bool {
    kind_of(v) == Some("turn.completed"@) && usage_of(v) is Some ==> {
        let u = usage_of(v)->0;
        i64::MIN <= token_count(u, "input_tokens"@) + token_count(u, "output_tokens"@)
            <= i64::MAX
    }
}

/// The display event for the record `v` read from the trimmed log line `line`:
/// an `"event_msg"` record is kept as written; a completed agent message and a
/// completed turn's usage become events; everything else is dropped.
pub open spec fn value_event(line: Seq<char>, v: JsonValue) -> Option<Seq<char>> {
    if !(v is Object) {
        None
    } else if kind_of(v) == Some("event_msg"@) {
        Some(line)
    } else if kind_of(v) == Some("item.completed"@) {
        match object_of(member(v, "item"@)) {
            Some(item) => if text_of(member(item, "type"@)) == Some("agent_message"@) {
                match text_of(member(item, "text"@)) {
                    Some(t) => Some(agent_message_event(t)),
                    None => None,
                }
            } else {
                None
            },
            None => None,
        }
    } else if kind_of(v) == Some("turn.completed"@) {
        match usage_of(v) {
            Some(u) => Some(
                token_count_event(
                    token_count(u, "input_tokens"@),
                    token_count(u, "output_tokens"@),
                    token_count(u, "cached_input_tokens"@),
                ),
            ),
            None => None,
        }
    } else {
        None
    }
}

/// The display event for one log line: the line is trimmed, must start with
/// `'{'`, must parse as JSON, and its record gives the event.
pub open spec fn line_event(l: Seq<char>) -> Option<Seq<char>> {
    let t = trim(l);
    if t.len() == 0 || t[0] != '{' {
        None
    } else {
        match parsed_json(t) {
            Some(v) => if tokens_fit(v) {
                value_event(t, v)
            } else {
                None
            },
            None => None,
        }
    }
}

/// The display events of `ls`, in order.
pub open spec fn events(ls: Seq<Seq<char>>) -> Seq<Seq<char>>
    decreases ls.len(),
{
    if ls.len() == 0 {
        Seq::<Seq<char>>::empty()
    } else {
        let e = events(ls.drop_last());
        match line_event(ls.last()) {
            Some(x) => e.push(x),
            None => e,
        }
    }
}

/// A log tail for display: its events, one per line, or `None` where it has
/// none (the plain text then stays as it is).
pub open spec fn normalized_log_tail(log_tail: Seq<char>) -> Option<Seq<char>> {
    let e = events(lines(log_tail));
    if e.len() == 0 {
        None
    } else {
        Some(join(e, seq!['\n']))
    }
}

/// Whether the record `v` passes [`tokens_fit`].
pub fn record_tokens_fit(v: &JsonValue) -> (res: bool)
    ensures
        res == tokens_fit(*v),
{
    let type_key = String::from_str("type");
    let turn_completed = String::from_str("turn.completed");
    match as_text(get_member(v, &type_key)) {
        Some(k) => {
            if *k != turn_completed {
                return true;
            }
        },
        None => return true,
    }
    let usage_key = String::from_str("usage");
    match get_member(v, &usage_key) {
        Some(u) => match u {
            JsonValue::Object(_) => {
                let input = as_integer(get_member(u, &String::from_str("input_tokens")));
                let output = as_integer(get_member(u, &String::from_str("output_tokens")));
                let a: i64 = match input { Some(x) => x, None => 0 };
                let b: i64 = match output { Some(x) => x, None => 0 };
                a.checked_add(b).is_some()
            },
            _ => true,
        },
        None => true,
    }
}

/// The display event for the record `v` read from the trimmed log line `line`.
pub fn event_for_value(line: &str, v: &JsonValue) -> (res: Option<String>)
    requires
        tokens_fit(*v),
    ensures
        opt_view(res) == value_event(line@, *v),
{
    match v {
        JsonValue::Object(_) => {},
        _ => return None,
    }
    let kind = match as_text(get_member(v, &String::from_str("type"))) {
        Some(k) => k,
        None => return None,
    };
    if *kind == String::from_str("event_msg") {
        return Some(String::from_str(line));
    }
    if *kind == String::from_str("item.completed") {
        let item = match get_member(v, &String::from_str("item")) {
            Some(i) => i,
            None => return None,
        };
        match item {
            JsonValue::Object(_) => {},
            _ => return None,
        }
        match as_text(get_member(item, &String::from_str("type"))) {
            Some(t) => {
                if *t != String::from_str("agent_message") {
                    return None;
                }
            },
            None => return None,
        }
        let text = match as_text(get_member(item, &String::from_str("text"))) {
            Some(t) => t,
            None => return None,
        };
        let mut out = String::from_str("{\"payload\":{\"message\":");
        let quoted = quote_json(text.as_str());
        out.append(quoted.as_str());
        out.append(",\"phase\":\"final_answer\",\"type\":\"agent_message\"},\"type\":\"event_msg\"}");
        return Some(out);
    }
    if *kind == String::from_str("turn.completed") {
        let usage = match get_member(v, &String::from_str("usage")) {
            Some(u) => u,
            None => return None,
        };
        match usage {
            JsonValue::Object(_) => {},
            _ => return None,
        }
        let input: i64 = match as_integer(get_member(usage, &String::from_str("input_tokens"))) {
            Some(x) => x,
            None => 0,
        };
        let output: i64 = match as_integer(get_member(usage, &String::from_str("output_tokens"))) {
            Some(x) => x,
            None => 0,
        };
        let cached: i64 = match as_integer(
            get_member(usage, &String::from_str("cached_input_tokens")),
        ) {
            Some(x) => x,
            None => 0,
        };
        let total: i64 = input + output;
        let mut out = String::from_str(
            "{\"payload\":{\"info\":{\"total_token_usage\":{\"cached_input_tokens\":",
        );
        out.append(decimal_string(cached).as_str());
        out.append(",\"input_tokens\":");
        out.append(decimal_string(input).as_str());
        out.append(",\"output_tokens\":");
        out.append(decimal_string(output).as_str());
        out.append(",\"total_tokens\":");
        out.append(decimal_string(total).as_str());
        out.append("}},\"type\":\"token_count\"},\"type\":\"event_msg\"}");
        return Some(out);
    }
    None
}

/// The display event for one trimmed log line that starts with `'{'`: the line
/// is parsed as JSON and its record gives the event. A `"turn.completed"` record
/// whose input and output token counts overflow `i64` when added gives none
/// (computing its total would overflow).
pub fn event_for_line(line: &str) -> (res: Option<String>)
    ensures
        opt_view(res) == match parsed_json(line@) {
            Some(v) => if tokens_fit(v) {
                value_event(line@, v)
            } else {
                None
            },
            None => None,
        },
{
    match parse_json(line) {
        Some(v) => {
            if record_tokens_fit(&v) {
                event_for_value(line, &v)
            } else {
                None
            }
        },
        None => None,
    }
}

/// The log tail `log_tail` for display: the events of its lines, one per line,
/// or `None` where none of its lines gives one.
pub fn normalize_log_tail_for_display(log_tail: &str) -> (res: Option<String>)
    ensures
        opt_view(res) == normalized_log_tail(log_tail@),
{
    let cs = chars_of(log_tail);
    let spans = line_spans(&cs);
    let ghost ls = lines(log_tail@);
    let newline = "\n";
    proof {
        reveal_strlit("\n");
    }
    let mut out = String::new();
    let mut count: usize = 0;
    let mut k: usize = 0;
    assert(ls.take(0) =~= Seq::<Seq<char>>::empty());
    while k < spans.len()
        invariant
            k <= spans@.len(),
            cs@ == log_tail@,
            ls == lines(log_tail@),
            spans_are_lines(cs@, spans@),
            newline@ == seq!['\n'],
            count <= k,
            count == events(ls.take(k as int)).len(),
            count == 0 ==> out@ == Seq::<char>::empty(),
            count > 0 ==> out@ == join(events(ls.take(k as int)), seq!['\n']),
        decreases spans@.len() - k,
    {
        assert(spans@[k as int].0 <= spans@[k as int].1 <= cs@.len());
        let ghost line = ls[k as int];
        assert(ls.take(k + 1).drop_last() =~= ls.take(k as int));
        assert(ls.take(k + 1).last() == line);
        let (a, b) = trim_span(&cs, spans[k].0, spans[k].1);
        let mut event: Option<String> = None;
        if a < b && cs[a] == '{' {
            let trimmed = log_tail.substring_char(a, b);
            assert(trimmed@ == trim(line));
            event = event_for_line(trimmed);
        }
        assert(opt_view(event) == line_event(line));
        let ghost before = events(ls.take(k as int));
        match event {
            Some(e) => {
                let ghost prev = out@;
                if count > 0 {
                    out.append(newline);
                }
                out.append(e.as_str());
                count += 1;
                assert(events(ls.take(k + 1)) == before.push(e@));
                assert(before.push(e@).drop_last() =~= before);
                proof {
                if before.len() == 0 {
                    assert(out@ =~= e@);
                } else {
                    assert(out@ =~= prev + seq!['\n'] + e@);
                }
                }
            },
            None => {
                assert(events(ls.take(k + 1)) == before);
            },
        }
        k += 1;
    }
    assert(ls.take(spans@.len() as int) =~= ls);
    if count == 0 {
        None
    } else {
        Some(out)
    }
}

proof fn lemma_no_events(ls: Seq<Seq<char>>)
    requires
        forall|k: int| 0 <= k < ls.len() ==> line_event(#[trigger] ls[k]) is None,
    ensures
        events(ls).len() == 0,
    decreases ls.len(),
{
    if ls.len() > 0 {
        let init = ls.drop_last();
        assert forall|k: int| 0 <= k < init.len() implies line_event(#[trigger] init[k]) is None by {
            assert(init[k] == ls[k]);
        }
        lemma_no_events(init);
        assert(line_event(ls[ls.len() - 1]) is None);
    }
}

/// Plain output stays as it is: a log tail none of whose lines, once trimmed,
/// starts with `'{'` has no display form.
pub proof fn plain_output_is_not_normalized(log_tail: Seq<char>)
    requires
        forall|k: int|
            0 <= k < lines(log_tail).len() ==> {
                let t = trim(#[trigger] lines(log_tail)[k]);
                t.len() == 0 || t[0] != '{'
            },
    ensures
        normalized_log_tail(log_tail) is None,
{
    let ls = lines(log_tail);
    assert forall|k: int| 0 <= k < ls.len() implies line_event(#[trigger] ls[k]) is None by {
        let t = trim(ls[k]);
        assert(t.len() == 0 || t[0] != '{');
    }
    lemma_no_events(ls);
}

/// Ending a line at a `"\r\n"` does not change its event.
proof fn lemma_line_event_strip_cr(l: Seq<char>)
    ensures
        line_event(strip_cr(l)) == line_event(l),
{
    if l.len() > 0 && l.last() == '\r' {
        lemma_trim_drop_white_space(l);
    }
}

/// The events of consecutive lines are the events of each part.
proof fn lemma_events_concat(x: Seq<Seq<char>>, y: Seq<Seq<char>>)
    ensures
        events(x + y) == events(x) + events(y),
    decreases y.len(),
{
    if y.len() == 0 {
        assert(x + y =~= x);
        assert(events(x) + events(y) =~= events(x));
    } else {
        lemma_events_concat(x, y.drop_last());
        assert((x + y).drop_last() =~= x + y.drop_last());
        assert((x + y).last() == y.last());
        match line_event(y.last()) {
            Some(e) => {
                assert((events(x) + events(y.drop_last())).push(e) =~= events(x) + events(
                    y.drop_last(),
                ).push(e));
            },
            None => {},
        }
    }
}

/// Lines that give the same events, one for one, give the same events.
proof fn lemma_events_pointwise(x: Seq<Seq<char>>, y: Seq<Seq<char>>)
    requires
        x.len() == y.len(),
        forall|i: int| 0 <= i < x.len() ==> line_event(#[trigger] x[i]) == line_event(y[i]),
    ensures
        events(x) == events(y),
    decreases x.len(),
{
    if x.len() > 0 {
        let x1 = x.drop_last();
        let y1 = y.drop_last();
        assert forall|i: int| 0 <= i < x1.len() implies line_event(#[trigger] x1[i]) == line_event(
            y1[i],
        ) by {
            assert(x1[i] == x[i]);
            assert(y1[i] == y[i]);
        }
        lemma_events_pointwise(x1, y1);
        assert(line_event(x[x.len() - 1]) == line_event(y[y.len() - 1]));
    }
}

/// Ending every piece of a text at a newline gives the events of its lines.
proof fn lemma_events_of_ended_pieces(a: Seq<char>)
    ensures
        events(split_newlines(a).map_values(|l: Seq<char>| strip_cr(l))) == events(lines(a)),
{
    lemma_split_newlines_nonempty(a);
    let p = split_newlines(a);
    let ended = p.map_values(|l: Seq<char>| strip_cr(l));
    let body = p.drop_last().map_values(|l: Seq<char>| strip_cr(l));
    assert(ended =~= body.push(strip_cr(p.last())));
    assert(ended.drop_last() =~= body);
    lemma_line_event_strip_cr(p.last());
    if p.last().len() == 0 {
        assert(trim(p.last()) =~= Seq::<char>::empty());
        assert(line_event(p.last()) is None);
    } else {
        let with_last = body.push(p.last());
        assert(with_last.drop_last() =~= body);
        assert(with_last.last() == p.last());
    }
}

/// Joining two non-empty lists of lines joined is joining each and then both.
proof fn lemma_join_concat(x: Seq<Seq<char>>, y: Seq<Seq<char>>)
    requires
        x.len() > 0,
        y.len() > 0,
    ensures
        join(x + y, seq!['\n']) == join(x, seq!['\n']) + seq!['\n'] + join(y, seq!['\n']),
    decreases y.len(),
{
    let xy = x + y;
    assert(xy.drop_last() =~= x + y.drop_last());
    assert(xy.last() == y.last());
    if y.len() == 1 {
        assert(x + y.drop_last() =~= x);
    } else {
        lemma_join_concat(x, y.drop_last());
    }
}

/// Log lines are read one by one: the display form of two log tails joined
/// by a newline is that of the first, then that of the second.
pub proof fn joined_log_tails_normalize_apart(a: Seq<char>, b: Seq<char>)
    ensures
        normalized_log_tail(a + seq!['\n'] + b) == match (
            normalized_log_tail(a),
            normalized_log_tail(b),
        ) {
            (None, y) => y,
            (x, None) => x,
            (Some(x), Some(y)) => Some(x + seq!['\n'] + y),
        },
{
    lemma_lines_around_newline(a, b);
    lemma_events_concat(split_newlines(a).map_values(|l: Seq<char>| strip_cr(l)), lines(b));
    lemma_events_of_ended_pieces(a);
    let ea = events(lines(a));
    let eb = events(lines(b));
    assert(events(lines(a + seq!['\n'] + b)) == ea + eb);
    if ea.len() == 0 {
        assert(ea + eb =~= eb);
    } else if eb.len() == 0 {
        assert(ea + eb =~= ea);
    } else {
        lemma_join_concat(ea, eb);
    }
}

/// `e` is one event line: not empty, without a newline, starting with `'{'`
/// and ending in a character that is not white space.
pub open spec fn one_event_line(e: Seq<char>) -> bool {
    &&& e.len() > 0
    &&& no_newline(e)
    &&& e[0] == '{'
    &&& !is_white_space(e.last())
}

proof fn lemma_agent_message_event_shape(t: Seq<char>)
    ensures
        one_event_line(agent_message_event(t)),
{
    let a = "{\"payload\":{\"message\":"@;
    let b = ",\"phase\":\"final_answer\",\"type\":\"agent_message\"},\"type\":\"event_msg\"}"@;
    reveal_strlit("{\"payload\":{\"message\":");
    reveal_strlit(",\"phase\":\"final_answer\",\"type\":\"agent_message\"},\"type\":\"event_msg\"}");
    lemma_quoted_one_line(t);
    assert(no_newline(a));
    assert(no_newline(b));
    lemma_no_newline_concat(a, json_quoted(t));
    lemma_no_newline_concat(a + json_quoted(t), b);
    let e = agent_message_event(t);
    assert(e == a + json_quoted(t) + b);
    assert(e[0] == a[0]);
    assert(e.last() == b.last());
}

proof fn lemma_token_count_event_shape(i: int, o: int, c: int)
    ensures
        one_event_line(token_count_event(i, o, c)),
{
    let p1 = "{\"payload\":{\"info\":{\"total_token_usage\":{\"cached_input_tokens\":"@;
    let p2 = ",\"input_tokens\":"@;
    let p3 = ",\"output_tokens\":"@;
    let p4 = ",\"total_tokens\":"@;
    let p5 = "}},\"type\":\"token_count\"},\"type\":\"event_msg\"}"@;
    reveal_strlit("{\"payload\":{\"info\":{\"total_token_usage\":{\"cached_input_tokens\":");
    reveal_strlit(",\"input_tokens\":");
    reveal_strlit(",\"output_tokens\":");
    reveal_strlit(",\"total_tokens\":");
    reveal_strlit("}},\"type\":\"token_count\"},\"type\":\"event_msg\"}");
    assert(no_newline(p1));
    assert(no_newline(p2));
    assert(no_newline(p3));
    assert(no_newline(p4));
    assert(no_newline(p5));
    lemma_decimal_one_line(c);
    lemma_decimal_one_line(i);
    lemma_decimal_one_line(o);
    lemma_decimal_one_line(i + o);
    let s1 = p1 + decimal_text(c);
    lemma_no_newline_concat(p1, decimal_text(c));
    let s2 = s1 + p2;
    lemma_no_newline_concat(s1, p2);
    let s3 = s2 + decimal_text(i);
    lemma_no_newline_concat(s2, decimal_text(i));
    let s4 = s3 + p3;
    lemma_no_newline_concat(s3, p3);
    let s5 = s4 + decimal_text(o);
    lemma_no_newline_concat(s4, decimal_text(o));
    let s6 = s5 + p4;
    lemma_no_newline_concat(s5, p4);
    let s7 = s6 + decimal_text(i + o);
    lemma_no_newline_concat(s6, decimal_text(i + o));
    lemma_no_newline_concat(s7, p5);
    let e = token_count_event(i, o, c);
    assert(e == s7 + p5);
    assert(e[0] == p1[0]);
    assert(e.last() == p5.last());
}

/// The event of a line is one event line.
proof fn lemma_line_event_shape(l: Seq<char>)
    requires
        no_newline(l),
        line_event(l) is Some,
    ensures
        one_event_line(line_event(l)->0),
{
    let t = trim(l);
    lemma_trim_shape(l);
    let v = parsed_json(t)->0;
    if kind_of(v) == Some("event_msg"@) {
    } else if kind_of(v) == Some("item.completed"@) {
        lemma_agent_message_event_shape(text_of(member(object_of(member(v, "item"@))->0, "text"@))->0);
    } else {
        let u = usage_of(v)->0;
        lemma_token_count_event_shape(
            token_count(u, "input_tokens"@),
            token_count(u, "output_tokens"@),
            token_count(u, "cached_input_tokens"@),
        );
    }
}

/// Every event of lines without newlines is one event line.
proof fn lemma_events_shape(ls: Seq<Seq<char>>)
    requires
        forall|k: int| 0 <= k < ls.len() ==> no_newline(#[trigger] ls[k]),
    ensures
        forall|k: int| 0 <= k < events(ls).len() ==> one_event_line(#[trigger] events(ls)[k]),
    decreases ls.len(),
{
    if ls.len() > 0 {
        let init = ls.drop_last();
        assert forall|k: int| 0 <= k < init.len() implies no_newline(#[trigger] init[k]) by {
            assert(init[k] == ls[k]);
        }
        lemma_events_shape(init);
        assert(no_newline(ls[ls.len() - 1]));
        if line_event(ls.last()) is Some {
            lemma_line_event_shape(ls.last());
            let e = events(init);
            assert forall|k: int| 0 <= k < events(ls).len() implies one_event_line(
                #[trigger] events(ls)[k],
            ) by {
                if k < e.len() {
                    assert(events(ls)[k] == e[k]);
                }
            }
        }
    }
}

/// Every line of a display form is one event line, and its lines are the
/// events of the log tail's lines, in order.
pub proof fn display_form_lines_are_events(log_tail: Seq<char>)
    ensures
        normalized_log_tail(log_tail) matches Some(s) ==> {
            &&& lines(s) == events(lines(log_tail))
            &&& forall|k: int| 0 <= k < lines(s).len() ==> one_event_line(#[trigger] lines(s)[k])
        },
{
    let es = events(lines(log_tail));
    lemma_lines_have_no_newline(log_tail);
    lemma_events_shape(lines(log_tail));
    assert forall|k: int| 0 <= k < es.len() implies {
        &&& no_newline(#[trigger] es[k])
        &&& es[k].len() > 0
        &&& es[k].last() != '\r'
    } by {
        assert(one_event_line(es[k]));
    }
    lemma_lines_of_join_exact(es);
}

/// The event lines the library writes for agent messages and token counts
/// read back, through `serde_json`, as event records kept as they are.
pub open spec fn written_events_read_back() -> bool {
    &&& forall|t: Seq<char>|
        #[trigger] line_event(agent_message_event(t)) == Some(agent_message_event(t))
    &&& forall|i: int, o: int, c: int|
        i64::MIN <= i <= i64::MAX && i64::MIN <= o <= i64::MAX && i64::MIN <= c <= i64::MAX
            && i64::MIN <= i + o <= i64::MAX ==> #[trigger] line_event(token_count_event(i, o, c))
            == Some(token_count_event(i, o, c))
}

/// An event record kept from a line reads back as itself; so does every
/// event, where the library's own event lines read back as themselves.
proof fn lemma_event_reads_back(l: Seq<char>)
    requires
        no_newline(l),
        line_event(l) is Some,
        written_events_read_back(),
    ensures
        line_event(line_event(l)->0) == line_event(l),
{
    let t = trim(l);
    lemma_trim_shape(l);
    lemma_line_event_shape(l);
    let v = parsed_json(t)->0;
    reveal_strlit("event_msg");
    reveal_strlit("turn.completed");
    if kind_of(v) == Some("event_msg"@) {
        lemma_trim_of_trimmed(t);
        assert("event_msg"@[0] != "turn.completed"@[0]);
    } else if kind_of(v) == Some("item.completed"@) {
        let text = text_of(member(object_of(member(v, "item"@))->0, "text"@))->0;
        assert(line_event(agent_message_event(text)) == Some(agent_message_event(text)));
    } else {
        let u = usage_of(v)->0;
        let i = token_count(u, "input_tokens"@);
        let o = token_count(u, "output_tokens"@);
        let c = token_count(u, "cached_input_tokens"@);
        assert(line_event(token_count_event(i, o, c)) == Some(token_count_event(i, o, c)));
    }
}

/// Lines that are each their own event are their own events.
proof fn lemma_events_fixed(es: Seq<Seq<char>>)
    requires
        forall|k: int| 0 <= k < es.len() ==> line_event(#[trigger] es[k]) == Some(es[k]),
    ensures
        events(es) == es,
    decreases es.len(),
{
    if es.len() > 0 {
        let init = es.drop_last();
        assert forall|k: int| 0 <= k < init.len() implies line_event(#[trigger] init[k]) == Some(
            init[k],
        ) by {
            assert(init[k] == es[k]);
        }
        lemma_events_fixed(init);
        assert(line_event(es[es.len() - 1]) == Some(es[es.len() - 1]));
        assert(init.push(es.last()) =~= es);
    }
}

/// The events of lines without newlines read back as themselves, where the
/// library's own event lines do.
proof fn lemma_events_read_back(ls: Seq<Seq<char>>)
    requires
        forall|k: int| 0 <= k < ls.len() ==> no_newline(#[trigger] ls[k]),
        written_events_read_back(),
    ensures
        forall|k: int|
            0 <= k < events(ls).len() ==> line_event(#[trigger] events(ls)[k]) == Some(
                events(ls)[k],
            ),
    decreases ls.len(),
{
    if ls.len() > 0 {
        let init = ls.drop_last();
        assert forall|k: int| 0 <= k < init.len() implies no_newline(#[trigger] init[k]) by {
            assert(init[k] == ls[k]);
        }
        lemma_events_read_back(init);
        assert(no_newline(ls[ls.len() - 1]));
        if line_event(ls.last()) is Some {
            lemma_event_reads_back(ls.last());
            let e = events(init);
            assert forall|k: int| 0 <= k < events(ls).len() implies line_event(
                #[trigger] events(ls)[k],
            ) == Some(events(ls)[k]) by {
                if k < e.len() {
                    assert(events(ls)[k] == e[k]);
                }
            }
        }
    }
}

/// Normalising a display form again changes nothing, given that the event
/// lines the library writes read back, through `serde_json`, as themselves.
pub proof fn normalizing_twice_changes_nothing(log_tail: Seq<char>)
    requires
        written_events_read_back(),
    ensures
        normalized_log_tail(log_tail) matches Some(s) ==> normalized_log_tail(s) == Some(s),
{
    let es = events(lines(log_tail));
    display_form_lines_are_events(log_tail);
    lemma_lines_have_no_newline(log_tail);
    lemma_events_read_back(lines(log_tail));
    lemma_events_fixed(es);
}

/// The zero-defaulted token count under `key` of the usage object `u`.
pub open spec fn count_or_zero(u: JsonValue, key: Seq<char>) -> int {
    match integer_of(member(u, key)) {
        Some(n) => n as int,
        None => 0,
    }
}

/// What a record shows, by its `"type"`:
/// - a record that is not an object shows nothing;
/// - an `"event_msg"` record shows its line as it is;
/// - an `"item.completed"` record shows an agent message exactly when its
///   `"item"` is an object of `"type"` `"agent_message"` with a string
///   `"text"`; any other item (a reasoning item, a command, ...) shows nothing;
/// - a `"turn.completed"` record shows its token counts exactly when it has a
///   `"usage"` object, each count zero where missing or not an `i64`, the total
///   being input plus output;
/// - a record of any other type, or without a string type, shows nothing.
pub proof fn record_event_by_type(line: Seq<char>, v: JsonValue)
    ensures
        !(v is Object) ==> value_event(line, v) is None,
        v is Object && text_of(member(v, "type"@)) == Some("event_msg"@) ==> value_event(line, v)
            == Some(line),
        text_of(member(v, "type"@)) == Some("item.completed"@) && object_of(member(v, "item"@))
            is None ==> value_event(line, v) is None,
        object_of(member(v, "item"@)) matches Some(item) ==> (text_of(member(v, "type"@)) == Some(
            "item.completed"@,
        ) && text_of(member(item, "type"@)) != Some("agent_message"@) ==> value_event(line, v)
            is None),
        object_of(member(v, "item"@)) matches Some(item) ==> (text_of(member(v, "type"@)) == Some(
            "item.completed"@,
        ) && text_of(member(item, "type"@)) == Some("agent_message"@) ==> match text_of(
            member(item, "text"@),
        ) {
            Some(t) => value_event(line, v) == Some(
                "{\"payload\":{\"message\":"@ + json_quoted(t)
                    + ",\"phase\":\"final_answer\",\"type\":\"agent_message\"},\"type\":\"event_msg\"}"@,
            ),
            None => value_event(line, v) is None,
        }),
        text_of(member(v, "type"@)) == Some("turn.completed"@) && object_of(member(v, "usage"@))
            is None ==> value_event(line, v) is None,
        object_of(member(v, "usage"@)) matches Some(u) ==> (text_of(member(v, "type"@)) == Some(
            "turn.completed"@,
        ) ==> value_event(line, v) == Some(
            "{\"payload\":{\"info\":{\"total_token_usage\":{\"cached_input_tokens\":"@
                + decimal_text(count_or_zero(u, "cached_input_tokens"@)) + ",\"input_tokens\":"@
                + decimal_text(count_or_zero(u, "input_tokens"@)) + ",\"output_tokens\":"@
                + decimal_text(count_or_zero(u, "output_tokens"@)) + ",\"total_tokens\":"@
                + decimal_text(
                count_or_zero(u, "input_tokens"@) + count_or_zero(u, "output_tokens"@),
            ) + "}},\"type\":\"token_count\"},\"type\":\"event_msg\"}"@,
        )),
        text_of(member(v, "type"@)) != Some("event_msg"@) && text_of(member(v, "type"@)) != Some(
            "item.completed"@,
        ) && text_of(member(v, "type"@)) != Some("turn.completed"@) ==> value_event(line, v) is None,
{
    reveal_strlit("event_msg");
    reveal_strlit("item.completed");
    reveal_strlit("turn.completed");
    assert("event_msg"@[0] != "item.completed"@[0]);
    assert("event_msg"@[0] != "turn.completed"@[0]);
    assert("item.completed"@[0] != "turn.completed"@[0]);
}

} // verus!

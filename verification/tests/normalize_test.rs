use omni_runs::display::{event_for_line, event_for_value, normalize_log_tail_for_display};
use omni_runs::json::JsonValue;

fn codex_log_tail() -> String {
    [
        r#"{"type":"thread.started","thread_id":"019e6939-6344-7eb2-be93-bd8986505918"}"#,
        r#"{"type":"turn.started"}"#,
        r#"{"type":"item.completed","item":{"id":"item_0","type":"agent_message","text":"Xin chào. Bạn muốn mình làm gì tiếp?"}}"#,
        r#"{"type":"turn.completed","usage":{"input_tokens":63246,"cached_input_tokens":31744,"output_tokens":62,"reasoning_output_tokens":17}}"#,
    ]
    .join("\n")
}

#[test]
fn normalize_log_tail_converts_codex_jsonl_to_frontend_events() {
    let log_tail = codex_log_tail();

    let normalized = normalize_log_tail_for_display(&log_tail).unwrap();

    assert!(!normalized.contains("thread.started"));
    assert!(!normalized.contains("turn.started"));
    assert!(normalized.contains(r#""type":"agent_message""#));
    assert!(normalized.contains(r#""message":"Xin chào. Bạn muốn mình làm gì tiếp?""#));
    assert!(normalized.contains(r#""type":"token_count""#));
    assert!(normalized.contains(r#""input_tokens":63246"#));
    assert!(normalized.contains(r#""output_tokens":62"#));
    assert!(normalized.contains(r#""cached_input_tokens":31744"#));
}

#[test]
fn normalize_log_tail_leaves_plain_output_as_fallback() {
    let log_tail = "Plain agent output\nover multiple lines";
    assert_eq!(normalize_log_tail_for_display(log_tail), None);
}

fn obj(members: Vec<(&str, serde_json::Value)>) -> serde_json::Value {
    let mut m = serde_json::Map::new();
    for (k, v) in members {
        m.insert(k.to_string(), v);
    }
    serde_json::Value::Object(m)
}

fn s(v: &str) -> serde_json::Value {
    serde_json::Value::String(v.to_string())
}

fn n(v: i64) -> serde_json::Value {
    serde_json::Value::from(v)
}

#[test]
fn codex_events_are_written_as_serde_json_writes_them() {
    let normalized = normalize_log_tail_for_display(&codex_log_tail()).unwrap();
    let agent = obj(vec![
        ("type", s("event_msg")),
        (
            "payload",
            obj(vec![
                ("type", s("agent_message")),
                ("message", s("Xin chào. Bạn muốn mình làm gì tiếp?")),
                ("phase", s("final_answer")),
            ]),
        ),
    ]);
    let tokens = obj(vec![
        ("type", s("event_msg")),
        (
            "payload",
            obj(vec![
                ("type", s("token_count")),
                (
                    "info",
                    obj(vec![(
                        "total_token_usage",
                        obj(vec![
                            ("input_tokens", n(63246)),
                            ("output_tokens", n(62)),
                            ("total_tokens", n(63246 + 62)),
                            ("cached_input_tokens", n(31744)),
                        ]),
                    )]),
                ),
            ]),
        ),
    ]);
    let expected = format!("{}\n{}", agent, tokens);
    assert_eq!(normalized, expected);
}

#[test]
fn agent_message_event_exact_text() {
    let line = r#"{"type":"item.completed","item":{"type":"agent_message","text":"hi"}}"#;
    assert_eq!(
        event_for_line(line).as_deref(),
        Some(r#"{"payload":{"message":"hi","phase":"final_answer","type":"agent_message"},"type":"event_msg"}"#)
    );
}

#[test]
fn agent_message_text_is_escaped() {
    let line = r#"{"type":"item.completed","item":{"type":"agent_message","text":"say \"yes\"\nthen\tgo \\ \u0001"}}"#;
    let event = event_for_line(line).unwrap();
    assert!(event.contains(r#""message":"say \"yes\"\nthen\tgo \\ \u0001""#), "{event}");
}

#[test]
fn token_count_defaults_missing_counts_to_zero_and_sums() {
    let line = r#"{"type":"turn.completed","usage":{"input_tokens":-5}}"#;
    assert_eq!(
        event_for_line(line).as_deref(),
        Some(r#"{"payload":{"info":{"total_token_usage":{"cached_input_tokens":0,"input_tokens":-5,"output_tokens":0,"total_tokens":-5}},"type":"token_count"},"type":"event_msg"}"#)
    );
}

#[test]
fn token_count_ignores_non_integer_counts() {
    let line = r#"{"type":"turn.completed","usage":{"input_tokens":1.5,"output_tokens":18446744073709551615,"cached_input_tokens":"7"}}"#;
    let event = event_for_line(line).unwrap();
    assert!(event.contains(r#""input_tokens":0,"output_tokens":0,"total_tokens":0"#), "{event}");
    assert!(event.contains(r#""cached_input_tokens":0"#), "{event}");
}

#[test]
fn token_count_that_overflows_gives_no_event() {
    let line = r#"{"type":"turn.completed","usage":{"input_tokens":9223372036854775807,"output_tokens":1}}"#;
    assert_eq!(event_for_line(line), None);
}

#[test]
fn turn_completed_without_usage_object_is_dropped() {
    assert_eq!(event_for_line(r#"{"type":"turn.completed"}"#), None);
    assert_eq!(event_for_line(r#"{"type":"turn.completed","usage":3}"#), None);
}

#[test]
fn item_completed_other_than_agent_message_is_dropped() {
    assert_eq!(
        event_for_line(r#"{"type":"item.completed","item":{"type":"command_execution","text":"ls"}}"#),
        None
    );
    assert_eq!(
        event_for_line(r#"{"type":"item.completed","item":{"type":"agent_message"}}"#),
        None
    );
    assert_eq!(event_for_line(r#"{"type":"item.completed","item":"x"}"#), None);
}

#[test]
fn event_msg_lines_are_kept_trimmed() {
    let log_tail = "  {\"type\":\"event_msg\",\"payload\":{\"x\":1}}  \r\nnot json\n{broken\n[1,2]\n";
    assert_eq!(
        normalize_log_tail_for_display(log_tail).as_deref(),
        Some("{\"type\":\"event_msg\",\"payload\":{\"x\":1}}")
    );
}

#[test]
fn non_object_json_and_unknown_types_are_dropped() {
    let log_tail = "{\"type\":7}\n{\"kind\":\"event_msg\"}\n\n   \n";
    assert_eq!(normalize_log_tail_for_display(log_tail), None);
}

#[test]
fn events_are_joined_with_newlines_in_order() {
    let log_tail = "{\"type\":\"event_msg\",\"n\":1}\nplain\n{\"type\":\"event_msg\",\"n\":2}";
    assert_eq!(
        normalize_log_tail_for_display(log_tail).as_deref(),
        Some("{\"type\":\"event_msg\",\"n\":1}\n{\"type\":\"event_msg\",\"n\":2}")
    );
}

#[test]
fn event_for_value_reads_a_built_record() {
    let v = JsonValue::Object(vec![
        ("type".to_string(), JsonValue::Str("turn.completed".to_string())),
        (
            "usage".to_string(),
            JsonValue::Object(vec![
                ("input_tokens".to_string(), JsonValue::Number(Some(3))),
                ("output_tokens".to_string(), JsonValue::Number(Some(4))),
                ("cached_input_tokens".to_string(), JsonValue::Number(None)),
            ]),
        ),
    ]);
    assert_eq!(
        event_for_value("{}", &v).as_deref(),
        Some(r#"{"payload":{"info":{"total_token_usage":{"cached_input_tokens":0,"input_tokens":3,"output_tokens":4,"total_tokens":7}},"type":"token_count"},"type":"event_msg"}"#)
    );
    let kept = JsonValue::Object(vec![("type".to_string(), JsonValue::Str("event_msg".to_string()))]);
    assert_eq!(event_for_value("{line}", &kept).as_deref(), Some("{line}"));
    assert_eq!(event_for_value("{}", &JsonValue::Array(vec![])), None);
    assert_eq!(event_for_value("{}", &JsonValue::Null), None);
}

#[test]
fn lines_are_trimmed_of_unicode_white_space() {
    for ws in ['\t', '\u{b}', '\u{c}', ' ', '\u{85}', '\u{a0}', '\u{1680}', '\u{2000}', '\u{200a}', '\u{2028}', '\u{2029}', '\u{202f}', '\u{205f}', '\u{3000}'] {
        assert!(ws.is_whitespace());
        let line = format!("{ws}{{\"type\":\"event_msg\"}}{ws}");
        assert_eq!(
            normalize_log_tail_for_display(&line).as_deref(),
            Some(line.trim()),
            "{:?}",
            ws
        );
    }
    let not_trimmed = "\u{200b}{\"type\":\"event_msg\"}";
    assert_eq!(normalize_log_tail_for_display(not_trimmed), None);
}

#[test]
fn carriage_return_only_ends_a_line_before_a_newline() {
    let log_tail = "{\"type\":\"event_msg\"}\r\n{\"type\":\"event_msg\",\"a\":1}\r";
    assert_eq!(
        normalize_log_tail_for_display(log_tail).as_deref(),
        Some("{\"type\":\"event_msg\"}\n{\"type\":\"event_msg\",\"a\":1}")
    );
}

#[test]
fn normalizing_twice_changes_nothing_on_samples() {
    let samples = [
        codex_log_tail(),
        "{\"type\":\"item.completed\",\"item\":{\"type\":\"agent_message\",\"text\":\"a\\\"b\\\\c\\n\\u0007\\u001f\\u007f é 😀\"}}".to_string(),
        "{\"type\":\"turn.completed\",\"usage\":{\"input_tokens\":-9223372036854775808,\"output_tokens\":9223372036854775807,\"cached_input_tokens\":-1}}".to_string(),
        "  {\"type\":\"event_msg\"} \r\nplain".to_string(),
    ];
    for x in samples.iter() {
        let once = normalize_log_tail_for_display(x).unwrap();
        assert_eq!(normalize_log_tail_for_display(&once).as_deref(), Some(once.as_str()), "{x}");
    }
}

#[test]
fn joined_log_tails_normalize_apart_on_samples() {
    let parts = [
        String::new(),
        "plain".to_string(),
        "{\"type\":\"event_msg\",\"a\":1}\r".to_string(),
        codex_log_tail(),
        "x\n".to_string(),
    ];
    for a in parts.iter() {
        for b in parts.iter() {
            let joined = format!("{}\n{}", a, b);
            let expected = match (normalize_log_tail_for_display(a), normalize_log_tail_for_display(b)) {
                (None, y) => y,
                (x, None) => x,
                (Some(x), Some(y)) => Some(format!("{}\n{}", x, y)),
            };
            assert_eq!(normalize_log_tail_for_display(&joined), expected, "{a:?} {b:?}");
        }
    }
}

fn escaped_by_rule(s: &str) -> String {
    let mut out = String::from("\"");
    for c in s.chars() {
        match c {
            '"' => out.push_str("\\\""),
            '\\' => out.push_str("\\\\"),
            '\u{8}' => out.push_str("\\b"),
            '\u{c}' => out.push_str("\\f"),
            '\n' => out.push_str("\\n"),
            '\r' => out.push_str("\\r"),
            '\t' => out.push_str("\\t"),
            c if (c as u32) < 0x20 => out.push_str(&format!("\\u00{:02x}", c as u32)),
            c => out.push(c),
        }
    }
    out.push('"');
    out
}

#[test]
fn agent_message_text_is_escaped_as_stated() {
    let mut text = String::new();
    for u in 0u32..0x80 {
        text.push(char::from_u32(u).unwrap());
    }
    text.push_str("é€😀\u{2028}");
    let line = format!(
        "{{\"type\":\"item.completed\",\"item\":{{\"type\":\"agent_message\",\"text\":{}}}}}",
        serde_json::to_string(&text).unwrap()
    );
    let event = event_for_line(&line).unwrap();
    let expected = format!(
        "{{\"payload\":{{\"message\":{},\"phase\":\"final_answer\",\"type\":\"agent_message\"}},\"type\":\"event_msg\"}}",
        escaped_by_rule(&text)
    );
    assert_eq!(event, expected);
    assert!(!event.contains('\n'));
}

#[test]
fn decimal_numbers_match_serde_json() {
    for n in [0i64, 7, -7, 10, 99, 100, -100, 63246, i64::MAX, i64::MIN] {
        assert_eq!(omni_runs::json::decimal_string(n), serde_json::to_string(&n).unwrap());
    }
}

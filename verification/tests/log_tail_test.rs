use omni_runs::log_tail::{last_bytes_of, tail_text_of};

fn log_tail(content: &str, max_lines: usize, max_bytes: usize) -> String {
    let tail = tail_text_of(content, max_lines);
    last_bytes_of(&tail, max_bytes)
}

#[test]
fn read_log_tail_returns_last_lines() {
    let mut content = String::new();
    for i in 1..=150 {
        content.push_str(&format!("line {}\n", i));
    }
    let tail = log_tail(&content, 100, 10_240);
    let lines: Vec<&str> = tail.lines().collect();
    assert_eq!(lines.len(), 100);
    assert_eq!(lines[0], "line 51");
    assert_eq!(lines[99], "line 150");
}

#[test]
fn read_log_tail_caps_at_max_bytes() {
    let long_line = "x".repeat(20_480);
    let content = format!("{}\n", long_line);
    let tail = log_tail(&content, 100, 10_240);
    assert!(tail.len() <= 10_240);
}

#[test]
fn read_log_tail_fewer_lines_than_max() {
    let mut content = String::new();
    for i in 1..=10 {
        content.push_str(&format!("line {}\n", i));
    }
    let tail = log_tail(&content, 100, 10_240);
    let lines: Vec<&str> = tail.lines().collect();
    assert_eq!(lines.len(), 10);
}

#[test]
fn tail_joins_lines_without_final_newline() {
    assert_eq!(tail_text_of("a\nb\nc\n", 2), "b\nc");
    assert_eq!(tail_text_of("a\r\nb\r\n", 5), "a\nb");
    assert_eq!(tail_text_of("a\n\nb", 2), "\nb");
    assert_eq!(tail_text_of("only", 0), "");
    assert_eq!(tail_text_of("", 3), "");
    assert_eq!(tail_text_of("x\r", 1), "x\r");
}

#[test]
fn tail_matches_str_lines_and_join() {
    let content = "one\r\ntwo\n\nthree\r\r\nfour\rfive\n";
    for max in 0..8 {
        let lines: Vec<&str> = content.lines().collect();
        let start = lines.len().saturating_sub(max);
        assert_eq!(tail_text_of(content, max), lines[start..].join("\n"));
    }
}

#[test]
fn byte_cap_keeps_the_last_bytes() {
    assert_eq!(last_bytes_of("abcdef", 3), "def");
    assert_eq!(last_bytes_of("abc", 3), "abc");
    assert_eq!(last_bytes_of("abc", 10), "abc");
    assert_eq!(last_bytes_of("abc", 0), "");
    assert_eq!(last_bytes_of("xé", 2), "é");
}

#[test]
fn byte_cap_inside_a_character_keeps_whole_characters() {
    assert_eq!(last_bytes_of("éa", 2), "a");
    assert_eq!(last_bytes_of("éa", 3), "éa");
    assert_eq!(last_bytes_of("a€b", 3), "b");
    assert_eq!(last_bytes_of("a€b", 4), "€b");
    assert_eq!(last_bytes_of("😀", 3), "");
    assert_eq!(last_bytes_of("é", 5), "é");
}

#[test]
fn byte_cap_of_long_multibyte_line() {
    let content = format!("{}\n", "é".repeat(10_241));
    let tail = log_tail(&content, 100, 10_241);
    assert!(tail.len() <= 10_241);
    assert_eq!(tail.len(), 10_240);
    assert!(content.trim_end().ends_with(&tail));
}

#[test]
fn lower_limits_keep_a_suffix_on_samples() {
    let content = "alpha\r\nbé€ta\n\ngamma 😀\ndelta\n";
    for m1 in 0..6 {
        for m2 in m1..6 {
            for b1 in 0..30 {
                for b2 in b1..30 {
                    let small = log_tail(content, m1, b1);
                    let big = log_tail(content, m2, b2);
                    assert!(big.ends_with(&small), "{m1} {m2} {b1} {b2}");
                    assert!(small.len() <= b1);
                    assert!(small.lines().count() <= m1);
                }
            }
        }
    }
}

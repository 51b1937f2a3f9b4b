use sexpr_ir::utils::{escape_char, escape_str, state_machine};
use std::collections::VecDeque;

#[test]
fn decodes_newline_escape() {
    assert_eq!(escape_str("a\\nb"), "a\nb");
}

#[test]
fn decodes_every_supported_escape() {
    assert_eq!(escape_str("\\\\ \\\" \\' \\n \\r \\t"), "\\ \" ' \n \r \t");
}

#[test]
fn plain_text_is_unchanged() {
    assert_eq!(escape_str("hello, world"), "hello, world");
    assert_eq!(escape_str(""), "");
}

#[test]
fn decoded_then_encoded_gives_the_body_back() {
    let body = "line1\\nline2\\t\\\"q\\\"\\\\";
    let decoded = escape_str(body);
    let mut encoded = String::new();
    for c in decoded.chars() {
        match c {
            '\\' => encoded.push_str("\\\\"),
            '"' => encoded.push_str("\\\""),
            '\n' => encoded.push_str("\\n"),
            '\r' => encoded.push_str("\\r"),
            '\t' => encoded.push_str("\\t"),
            _ => encoded.push(c),
        }
    }
    assert_eq!(encoded, body);
}

#[test]
fn escape_char_maps_table() {
    assert_eq!(escape_char('n'), '\n');
    assert_eq!(escape_char('r'), '\r');
    assert_eq!(escape_char('t'), '\t');
    assert_eq!(escape_char('\\'), '\\');
    assert_eq!(escape_char('"'), '"');
    assert_eq!(escape_char('\''), '\'');
}

#[test]
fn state_machine_steps() {
    let (q, esc) = state_machine((VecDeque::new(), false), '\\');
    assert!(esc);
    assert!(q.is_empty());
    let (q, esc) = state_machine((q, esc), 'n');
    assert!(!esc);
    assert_eq!(q.iter().collect::<String>(), "\n");
    let (q, esc) = state_machine((q, esc), 'x');
    assert!(!esc);
    assert_eq!(q.iter().collect::<String>(), "\nx");
}

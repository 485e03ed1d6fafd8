use tmux_sessions::parse::{parse_session_line, ParseError};

#[test]
fn parse_basic_line() {
    let rec = parse_session_line("work:3:1700000000").unwrap();
    assert_eq!(rec.name, "work");
    assert_eq!(rec.windows, 3);
    assert_eq!(rec.created_epoch, 1700000000);
}

#[test]
fn parse_negative_epoch() {
    let rec = parse_session_line("old:1:-5").unwrap();
    assert_eq!(rec.name, "old");
    assert_eq!(rec.windows, 1);
    assert_eq!(rec.created_epoch, -5);
}

#[test]
fn parse_zero_fields() {
    let rec = parse_session_line("s:0:0").unwrap();
    assert_eq!(rec.name, "s");
    assert_eq!(rec.windows, 0);
    assert_eq!(rec.created_epoch, 0);
}

#[test]
fn parse_extreme_values() {
    let line = format!("big:{}:{}", usize::MAX, i64::MAX);
    let rec = parse_session_line(&line).unwrap();
    assert_eq!(rec.windows, usize::MAX);
    assert_eq!(rec.created_epoch, i64::MAX);

    let rec = parse_session_line("ancient:1:-9223372036854775808").unwrap();
    assert_eq!(rec.created_epoch, i64::MIN);
}

#[test]
fn parse_name_with_spaces() {
    let rec = parse_session_line("my session:2:100").unwrap();
    assert_eq!(rec.name, "my session");
    assert_eq!(rec.windows, 2);
}

#[test]
fn parse_rejects_single_field() {
    assert_eq!(parse_session_line("onlyonefield"), Err(ParseError::Fields));
}

#[test]
fn parse_rejects_bad_windows() {
    assert_eq!(parse_session_line("name:notanumber:123"), Err(ParseError::Windows));
}

#[test]
fn parse_rejects_extra_separator() {
    assert_eq!(parse_session_line("a:1:2:3"), Err(ParseError::Fields));
}

#[test]
fn parse_rejects_two_fields() {
    assert_eq!(parse_session_line("a:1"), Err(ParseError::Fields));
}

#[test]
fn parse_rejects_empty_name() {
    assert_eq!(parse_session_line(":1:2"), Err(ParseError::Name));
}

#[test]
fn parse_rejects_empty_windows() {
    assert_eq!(parse_session_line("a::2"), Err(ParseError::Windows));
}

#[test]
fn parse_rejects_empty_epoch() {
    assert_eq!(parse_session_line("a:1:"), Err(ParseError::Timestamp));
    assert_eq!(parse_session_line("a:1:-"), Err(ParseError::Timestamp));
}

#[test]
fn parse_rejects_trailing_garbage_epoch() {
    assert_eq!(parse_session_line("a:1:2x"), Err(ParseError::Timestamp));
    assert_eq!(parse_session_line("a:1:--2"), Err(ParseError::Timestamp));
}

#[test]
fn parse_rejects_windows_overflow() {
    // one past usize::MAX on a 64-bit machine
    assert_eq!(parse_session_line("a:18446744073709551616:0"), Err(ParseError::Windows));
}

#[test]
fn parse_rejects_epoch_overflow() {
    // one past i64::MAX, and two past i64::MIN
    assert_eq!(parse_session_line("a:1:9223372036854775808"), Err(ParseError::Timestamp));
    assert_eq!(parse_session_line("a:1:-9223372036854775809"), Err(ParseError::Timestamp));
}

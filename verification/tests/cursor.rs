use kepler::cursor::{cursor_response_complete, parse_cursor_row, CURSOR_RESPONSE_LIMIT};

#[test]
fn reads_the_row_from_the_answer() {
    assert_eq!(parse_cursor_row(&b"\x1b[12;40R".to_vec()), Some(11));
    assert_eq!(parse_cursor_row(&b"\x1b[1;1R".to_vec()), Some(0));
    assert_eq!(parse_cursor_row(&b"\x1b[+7;3R".to_vec()), Some(6));
    assert_eq!(parse_cursor_row(&b"\x1b[007;R".to_vec()), Some(6));
}

#[test]
fn rejects_malformed_answers() {
    assert_eq!(parse_cursor_row(&b"\x1b[0;1R".to_vec()), None);
    assert_eq!(parse_cursor_row(&b"\x1b[12R".to_vec()), None);
    assert_eq!(parse_cursor_row(&b"\x1b[R".to_vec()), None);
    assert_eq!(parse_cursor_row(&b"\x1b[".to_vec()), None);
    assert_eq!(parse_cursor_row(&b"[12;4R".to_vec()), None);
    assert_eq!(parse_cursor_row(&b"\x1b[12;4".to_vec()), None);
    assert_eq!(parse_cursor_row(&b"\x1b[+;4R".to_vec()), None);
    assert_eq!(parse_cursor_row(&b"\x1b[-3;4R".to_vec()), None);
    assert_eq!(parse_cursor_row(&b"\x1b[70000;4R".to_vec()), None);
    assert_eq!(parse_cursor_row(&b"\x1b[12;\xffR".to_vec()), None);
    assert_eq!(parse_cursor_row(&b"\x1b[65535;1R".to_vec()), Some(65534));
}

#[test]
fn an_answer_ends_at_r_or_at_the_limit() {
    assert!(!cursor_response_complete(&vec![]));
    assert!(!cursor_response_complete(&b"\x1b[12;4".to_vec()));
    assert!(cursor_response_complete(&b"\x1b[12;4R".to_vec()));
    assert!(cursor_response_complete(&vec![b'1'; CURSOR_RESPONSE_LIMIT]));
}

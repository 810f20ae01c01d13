//! Tests of the whole-response entry points: status lines, STAT, LIST,
//! RETR, and the separation of protocol failures from grammar errors.

use pop3_client::Pop3Error;
use pop3_client::parse_list;
use pop3_client::parse_retr_result;
use pop3_client::parse_single_list;
use pop3_client::parse_stat;
use pop3_client::parse_status_line;

#[test]
fn status_line_success_and_failure() {
    assert_eq!(parse_status_line(b"+OK\r\n".to_vec()), Ok(String::new()));
    assert_eq!(
        parse_status_line(b"+OK some message\r\n".to_vec()),
        Ok(String::from("some message"))
    );
    assert_eq!(
        parse_status_line(b"-ERR some message\r\n".to_vec()),
        Err(Pop3Error::Protocol(String::from("some message")))
    );
    assert_eq!(parse_status_line(b"-ERR\r\n".to_vec()), Err(Pop3Error::Protocol(String::new())));
}

#[test]
fn status_line_grammar_errors() {
    assert_eq!(parse_status_line(b"+OK".to_vec()), Err(Pop3Error::Grammar));
    assert_eq!(parse_status_line(b"junk\r\n".to_vec()), Err(Pop3Error::Grammar));
    assert_eq!(parse_status_line(b"+OK no terminator".to_vec()), Err(Pop3Error::Grammar));
    assert_eq!(parse_status_line(b"".to_vec()), Err(Pop3Error::Grammar));
}

#[test]
fn status_line_decodes_utf8_text() {
    assert_eq!(
        parse_status_line(b"+OK caf\xc3\xa9\r\n".to_vec()),
        Ok(String::from("caf\u{e9}"))
    );
}

#[test]
fn stat_reply() {
    assert_eq!(parse_stat(b"+OK 123 456\r\n".to_vec()), Ok((123, 456, String::new())));
    assert_eq!(
        parse_stat(b"+OK 123 456 additional\r\n".to_vec()),
        Ok((123, 456, String::from("additional")))
    );
    assert_eq!(parse_stat(b"+OK not numbers\r\n".to_vec()), Err(Pop3Error::Grammar));
    assert_eq!(parse_stat(b"+OK 123\r\n".to_vec()), Err(Pop3Error::Grammar));
    assert_eq!(
        parse_stat(b"-ERR no maildrop\r\n".to_vec()),
        Err(Pop3Error::Protocol(String::from("no maildrop")))
    );
}

#[test]
fn stat_count_must_fit_in_u64() {
    assert_eq!(
        parse_stat(b"+OK 18446744073709551615 456\r\n".to_vec()),
        Ok((u64::MAX, 456, String::new()))
    );
    assert_eq!(
        parse_stat(b"+OK 18446744073709551616 456\r\n".to_vec()),
        Err(Pop3Error::Grammar)
    );
}

#[test]
fn single_list_reply() {
    assert_eq!(parse_single_list(b"+OK 1 150\r\n".to_vec()), Ok((1, 150, String::new())));
    assert_eq!(
        parse_single_list(b"+OK 7 240 octets\r\n".to_vec()),
        Ok((7, 240, String::from("octets")))
    );
    assert_eq!(parse_single_list(b"+OK 7\r\n".to_vec()), Err(Pop3Error::Grammar));
    assert_eq!(
        parse_single_list(b"-ERR no such message\r\n".to_vec()),
        Err(Pop3Error::Protocol(String::from("no such message")))
    );
}

#[test]
fn full_list_reply() {
    assert_eq!(
        parse_list(b"+OK info\r\n12 34\r\n56 78\r\n.\r\n".to_vec()),
        Ok((vec![(12, 34), (56, 78)], String::from("info")))
    );
    assert_eq!(parse_list(b"+OK info\r\n.\r\n".to_vec()), Ok((vec![], String::from("info"))));
    assert_eq!(
        parse_list(b"+OK\r\n1 1\r\n2 2\r\n3 3\r\n.\r\n".to_vec()),
        Ok((vec![(1, 1), (2, 2), (3, 3)], String::new()))
    );
    assert_eq!(
        parse_list(b"+OK info\r\n1 2 trailing tokens\r\n.\r\n".to_vec()),
        Ok((vec![(1, 2)], String::from("info")))
    );
    assert_eq!(parse_list(b"+OK info\r\nnot a pair\r\n.\r\n".to_vec()), Err(Pop3Error::Grammar));
    assert_eq!(parse_list(b"+OK info\r\n1 2\r\n".to_vec()), Err(Pop3Error::Grammar));
    assert_eq!(
        parse_list(b"-ERR nope\r\n".to_vec()),
        Err(Pop3Error::Protocol(String::from("nope")))
    );
}

#[test]
fn retr_reply_reconstructs_body() {
    assert_eq!(
        parse_retr_result(b"+OK 120 octets\r\nHello\r\nWorld\r\n.\r\n".to_vec()),
        Ok((b"Hello\r\nWorld\r\n".to_vec(), String::from("120 octets")))
    );
    assert_eq!(parse_retr_result(b"+OK\r\n.\r\n".to_vec()), Ok((Vec::new(), String::new())));
    assert_eq!(
        parse_retr_result(b"-ERR no such message\r\n".to_vec()),
        Err(Pop3Error::Protocol(String::from("no such message")))
    );
    assert_eq!(parse_retr_result(b"+OK\r\nunterminated\r\n".to_vec()), Err(Pop3Error::Grammar));
}

#[test]
fn retr_reply_removes_stuffing() {
    // A body of the lines "Hello", "." and "World": the lone dot travels
    // doubled and decodes back to a single dot.
    assert_eq!(
        parse_retr_result(b"+OK\r\nHello\r\n..\r\nWorld\r\n.\r\n".to_vec()),
        Ok((b"Hello\r\n.\r\nWorld\r\n".to_vec(), String::new()))
    );
    // A dot-prefixed line with content loses exactly one leading dot.
    assert_eq!(
        parse_retr_result(b"+OK\r\n..dotted start\r\n.\r\n".to_vec()),
        Ok((b".dotted start\r\n".to_vec(), String::new()))
    );
    // An empty line survives as its CRLF.
    assert_eq!(
        parse_retr_result(b"+OK\r\na\r\n\r\nb\r\n.\r\n".to_vec()),
        Ok((b"a\r\n\r\nb\r\n".to_vec(), String::new()))
    );
}

#[test]
fn error_messages() {
    assert_eq!(Pop3Error::Grammar.message(), String::from("malformed response"));
    assert_eq!(Pop3Error::Protocol(String::from("gone")).message(), String::from("gone"));
    assert!(!Pop3Error::Grammar.is_protocol());
    assert!(Pop3Error::Protocol(String::new()).is_protocol());
}

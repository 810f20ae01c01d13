//! Tests of the framing predicates and the address splitter.

use pop3_client::Pop3Error;
use pop3_client::multiline_complete;
use pop3_client::parse_addr;
use pop3_client::response_complete;

#[test]
fn single_line_termination() {
    assert!(response_complete(b"+OK ready\r\n"));
    assert!(response_complete(b"\r\n"));
    assert!(!response_complete(b"+OK ready"));
    assert!(!response_complete(b"+OK ready\r"));
    assert!(!response_complete(b"+OK ready\n"));
    assert!(!response_complete(b""));
}

#[test]
fn multi_line_termination() {
    assert!(multiline_complete(b"+OK\r\nbody\r\n.\r\n"));
    assert!(multiline_complete(b"+OK\r\n.\r\n"));
    // The five terminator bytes alone are not a complete response: a
    // status line must precede them.
    assert!(!multiline_complete(b"\r\n.\r\n"));
    assert!(!multiline_complete(b"+OK\r\nbody\r\n"));
    assert!(!multiline_complete(b"+OK\r\nbody\r\n.\r"));
    assert!(!multiline_complete(b""));
}

#[test]
fn partial_reads_complete_only_at_the_end() {
    // A response arriving in arbitrary chunks: the assembly loop re-checks
    // the ending condition after every chunk and stops exactly once.
    let response = b"+OK 2 lines\r\nfirst\r\nsecond\r\n.\r\n";
    let mut buf: Vec<u8> = Vec::new();
    let mut completions = 0;
    for chunk in response.chunks(7) {
        buf.extend_from_slice(chunk);
        if multiline_complete(buf.as_slice()) {
            completions += 1;
        }
    }
    assert_eq!(completions, 1);
    assert!(multiline_complete(buf.as_slice()));
}

#[test]
fn addresses_split_into_host_and_port() {
    assert_eq!(parse_addr("example.com", false), Ok(("example.com".len(), 110)));
    assert_eq!(parse_addr("example.com", true), Ok(("example.com".len(), 995)));
    assert_eq!(parse_addr("example.com:8110", false), Ok(("example.com".len(), 8110)));
    assert_eq!(parse_addr("example.com:8110", true), Ok(("example.com".len(), 8110)));
    // The split is at the last colon.
    assert_eq!(parse_addr("a:b:25", false), Ok(("a:b".len(), 25)));
    // A leading plus sign is a number u16::from_str accepts.
    assert_eq!(parse_addr("host:+80", false), Ok(("host".len(), 80)));
}

#[test]
fn unreadable_ports_are_rejected() {
    assert_eq!(parse_addr("host:", false), Err(Pop3Error::BadArgument));
    assert_eq!(parse_addr("host:abc", false), Err(Pop3Error::BadArgument));
    assert_eq!(parse_addr("host:65536", false), Err(Pop3Error::BadArgument));
    assert_eq!(parse_addr("host:99999999999999999999", false), Err(Pop3Error::BadArgument));
    assert_eq!(parse_addr("host:-80", false), Err(Pop3Error::BadArgument));
    assert_eq!(parse_addr("host:65535", false), Ok(("host".len(), 65535)));
}

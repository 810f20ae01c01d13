//! Tests of the byte-level response parsers.

use pop3_client::get_line;
use pop3_client::get_line_with_crlf;
use pop3_client::get_list_result;
use pop3_client::get_single_list_result;
use pop3_client::get_stat_result;
use pop3_client::get_status_line;
use pop3_client::is_ok;

#[test]
fn test_is_ok() {
    assert_eq!(is_ok("+OK".as_bytes()), Ok(("".as_bytes().to_vec(), true)));
    assert_eq!(is_ok("-ERR".as_bytes()), Ok(("".as_bytes().to_vec(), false)));
    assert_eq!(
        is_ok("+OK some other message".as_bytes()),
        Ok((" some other message".as_bytes().to_vec(), true))
    );
    assert_eq!(
        is_ok("-ERR some other message".as_bytes()),
        Ok((" some other message".as_bytes().to_vec(), false))
    );
    assert!(is_ok("some random message".as_bytes()).is_err());
}

#[test]
fn test_get_status_line() {
    assert!(get_status_line("+OK".as_bytes(), true, true).is_err());
    assert!(get_status_line("-ERR".as_bytes(), true, true).is_err());
    assert!(get_status_line("some random message".as_bytes(), true, true).is_err());
    assert!(get_status_line("some random message\r\n".as_bytes(), true, true).is_err());

    assert_eq!(
        get_status_line("+OK\r\nrest".as_bytes(), true, true),
        Ok(("rest".as_bytes().to_vec(), Ok("".as_bytes().to_vec())))
    );
    assert_eq!(
        get_status_line("+OK \r\nrest".as_bytes(), true, true),
        Ok(("rest".as_bytes().to_vec(), Ok("".as_bytes().to_vec())))
    );
    assert_eq!(
        get_status_line("+OKsome message\r\nrest".as_bytes(), true, true),
        Ok(("rest".as_bytes().to_vec(), Ok("some message".as_bytes().to_vec())))
    );
    assert_eq!(
        get_status_line("+OK some message\r\nrest".as_bytes(), true, true),
        Ok(("rest".as_bytes().to_vec(), Ok("some message".as_bytes().to_vec())))
    );

    assert_eq!(
        get_status_line("-ERR\r\nrest".as_bytes(), true, true),
        Ok(("rest".as_bytes().to_vec(), Err("".as_bytes().to_vec())))
    );
    assert_eq!(
        get_status_line("-ERR \r\nrest".as_bytes(), true, true),
        Ok(("rest".as_bytes().to_vec(), Err("".as_bytes().to_vec())))
    );
    assert_eq!(
        get_status_line("-ERRsome message\r\nrest".as_bytes(), true, true),
        Ok(("rest".as_bytes().to_vec(), Err("some message".as_bytes().to_vec())))
    );
    assert_eq!(
        get_status_line("-ERR some message\r\nrest".as_bytes(), true, true),
        Ok(("rest".as_bytes().to_vec(), Err("some message".as_bytes().to_vec())))
    );
}

#[test]
fn test_get_line() {
    assert!(get_line("abcd 1234".as_bytes()).is_err());
    assert!(get_line("abcd 1234\r".as_bytes()).is_err());
    assert!(get_line("abcd 1234\n".as_bytes()).is_err());

    assert_eq!(
        get_line("abcd 1234\r\n".as_bytes()),
        Ok(("".as_bytes().to_vec(), Some("abcd 1234".as_bytes().to_vec())))
    );
    assert_eq!(
        get_line("abcd 1234\r\nabcd 1234".as_bytes()),
        Ok(("abcd 1234".as_bytes().to_vec(), Some("abcd 1234".as_bytes().to_vec())))
    );

    assert_eq!(
        get_line(".abcd 1234\r\nabcd 1234".as_bytes()),
        Ok(("abcd 1234".as_bytes().to_vec(), Some("abcd 1234".as_bytes().to_vec())))
    );
    assert_eq!(
        get_line("..abcd 1234\r\nabcd 1234".as_bytes()),
        Ok(("abcd 1234".as_bytes().to_vec(), Some(".abcd 1234".as_bytes().to_vec())))
    );
    assert_eq!(
        get_line("..\r\nabcd 1234".as_bytes()),
        Ok(("abcd 1234".as_bytes().to_vec(), Some(".".as_bytes().to_vec())))
    );
    assert_eq!(
        get_line("\r\nabcd 1234".as_bytes()),
        Ok(("abcd 1234".as_bytes().to_vec(), Some("".as_bytes().to_vec())))
    );
    assert_eq!(get_line(".\r\nabcd 1234".as_bytes()), Ok(("abcd 1234".as_bytes().to_vec(), None)));
}

#[test]
fn test_get_line_with_crlf() {
    assert!(get_line_with_crlf("abcd 1234".as_bytes()).is_err());
    assert!(get_line_with_crlf("abcd 1234\r".as_bytes()).is_err());
    assert!(get_line_with_crlf("abcd 1234\n".as_bytes()).is_err());

    assert_eq!(
        get_line_with_crlf("abcd 1234\r\n".as_bytes()),
        Ok(("".as_bytes().to_vec(), Some("abcd 1234\r\n".as_bytes().to_vec())))
    );
    assert_eq!(
        get_line_with_crlf("abcd 1234\r\nabcd 1234".as_bytes()),
        Ok(("abcd 1234".as_bytes().to_vec(), Some("abcd 1234\r\n".as_bytes().to_vec())))
    );

    assert_eq!(
        get_line_with_crlf(".abcd 1234\r\nabcd 1234".as_bytes()),
        Ok(("abcd 1234".as_bytes().to_vec(), Some("abcd 1234\r\n".as_bytes().to_vec())))
    );
    assert_eq!(
        get_line_with_crlf("..abcd 1234\r\nabcd 1234".as_bytes()),
        Ok(("abcd 1234".as_bytes().to_vec(), Some(".abcd 1234\r\n".as_bytes().to_vec())))
    );
    assert_eq!(
        get_line_with_crlf("..\r\nabcd 1234".as_bytes()),
        Ok(("abcd 1234".as_bytes().to_vec(), Some(".\r\n".as_bytes().to_vec())))
    );
    assert_eq!(
        get_line_with_crlf("\r\nabcd 1234".as_bytes()),
        Ok(("abcd 1234".as_bytes().to_vec(), Some("\r\n".as_bytes().to_vec())))
    );
    assert_eq!(
        get_line_with_crlf(".\r\nabcd 1234".as_bytes()),
        Ok(("abcd 1234".as_bytes().to_vec(), None))
    );
}

#[test]
fn test_get_stat_result() {
    assert!(get_stat_result("+OK\r\n".as_bytes()).is_err());
    assert!(get_stat_result("+OK\r\n".as_bytes()).is_err());
    assert!(get_stat_result("+OK \r\n".as_bytes()).is_err());
    assert!(get_stat_result("+OK  \r\n".as_bytes()).is_err());
    assert!(get_stat_result("+OK 123 \r\n".as_bytes()).is_err());
    assert!(get_stat_result("+OK  123 456\r\n".as_bytes()).is_err());
    assert!(get_stat_result("+OK 123  456\r\n".as_bytes()).is_err());
    assert_eq!(
        get_stat_result("+OK 123 456\r\nrest".as_bytes()),
        Ok(("rest".as_bytes().to_vec(), Ok((123, 456, "".as_bytes().to_vec()))))
    );
    assert_eq!(
        get_stat_result("+OK 123 456 \r\nrest".as_bytes()),
        Ok(("rest".as_bytes().to_vec(), Ok((123, 456, " ".as_bytes().to_vec()))))
    );
    assert_eq!(
        get_stat_result("+OK 123 456 additional message\r\nrest".as_bytes()),
        Ok(("rest".as_bytes().to_vec(), Ok((123, 456, " additional message".as_bytes().to_vec()))))
    );

    assert_eq!(
        get_stat_result("-ERR\r\nrest".as_bytes()),
        Ok(("rest".as_bytes().to_vec(), Err("".as_bytes().to_vec())))
    );
    assert_eq!(
        get_stat_result("-ERR error message\r\nrest".as_bytes()),
        Ok(("rest".as_bytes().to_vec(), Err("error message".as_bytes().to_vec())))
    );
}

#[test]
fn test_get_single_list_result() {
    assert!(get_single_list_result("+OK\r\n".as_bytes()).is_err());
    assert!(get_single_list_result("+OK \r\n".as_bytes()).is_err());
    assert!(get_single_list_result("+OK  \r\n".as_bytes()).is_err());
    assert!(get_single_list_result("+OK 123\r\n".as_bytes()).is_err());
    assert!(get_single_list_result("+OK 123 \r\n".as_bytes()).is_err());
    assert!(get_single_list_result("+OK 123  456\r\n".as_bytes()).is_err());
    assert_eq!(
        get_single_list_result("+OK 123 456\r\nrest".as_bytes()),
        Ok(("rest".as_bytes().to_vec(), Ok((123, 456, "".as_bytes().to_vec()))))
    );
    assert_eq!(
        get_single_list_result("+OK  123 456 \r\nrest".as_bytes()),
        Ok(("rest".as_bytes().to_vec(), Ok((123, 456, " ".as_bytes().to_vec()))))
    );
    assert_eq!(
        get_single_list_result("+OK 123 456 additional message\r\nrest".as_bytes()),
        Ok(("rest".as_bytes().to_vec(), Ok((123, 456, " additional message".as_bytes().to_vec()))))
    );

    assert_eq!(
        get_single_list_result("-ERR\r\nrest".as_bytes()),
        Ok(("rest".as_bytes().to_vec(), Err("".as_bytes().to_vec())))
    );
    assert_eq!(
        get_single_list_result("-ERR error message\r\nrest".as_bytes()),
        Ok(("rest".as_bytes().to_vec(), Err("error message".as_bytes().to_vec())))
    );
}

#[test]
fn test_get_list_result() {
    assert!(get_list_result("+OK\r\n".as_bytes()).is_err());
    assert!(get_list_result("+OK additional message".as_bytes()).is_err());
    assert!(get_list_result("+OK additional message\r\nrandom message".as_bytes()).is_err());

    assert_eq!(
        get_list_result("+OK additional message\r\n.\r\nrest".as_bytes()),
        Ok(("rest".as_bytes().to_vec(), Ok((vec![], "additional message".as_bytes().to_vec()))))
    );

    assert_eq!(
        get_list_result("+OK additional message\r\n123 456\r\n.\r\nrest".as_bytes()),
        Ok((
            "rest".as_bytes().to_vec(),
            Ok((vec![(123, 456)], "additional message".as_bytes().to_vec()))
        ))
    );

    assert_eq!(
        get_list_result("+OK additional message\r\n12 34\r\n56 78\r\n.\r\nrest".as_bytes()),
        Ok((
            "rest".as_bytes().to_vec(),
            Ok((vec![(12, 34), (56, 78)], "additional message".as_bytes().to_vec()))
        ))
    );

    assert_eq!(
        get_single_list_result("-ERR\r\nrest".as_bytes()),
        Ok(("rest".as_bytes().to_vec(), Err("".as_bytes().to_vec())))
    );
    assert_eq!(
        get_single_list_result("-ERR error message\r\nrest".as_bytes()),
        Ok(("rest".as_bytes().to_vec(), Err("error message".as_bytes().to_vec())))
    );
}

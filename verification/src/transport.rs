//! What the framed transport decides: when an accumulating read buffer
//! holds a complete single- or multi-line response, and how an address
//! splits into host and port.
//!
//! The transport's reads and writes themselves are I/O and live outside
//! the library; its assembly loop re-checks [`response_complete`] or
//! [`multiline_complete`] after every chunk, and its connector splits the
//! caller's address with [`parse_addr`] before resolving it.

use vstd::prelude::*;
use vstd::utf8::encode_utf8;

use crate::error::Pop3Error;
use crate::grammar::CR;
use crate::grammar::DOT;
use crate::grammar::LF;
use crate::grammar::dec_val;
use crate::grammar::digit_run;
use crate::grammar::lemma_digit_run;
use crate::parser::digit_run_exec;
use crate::parser::parse_u64;

verus! {

/// The default port of the plaintext service.
pub const PLAIN_PORT: u16 = 110;

/// The default port of the TLS service.
pub const TLS_PORT: u16 = 995;

/// A buffer that ends with CRLF: a complete single-line response.
pub open spec fn line_terminated(s: Seq<u8>) -> bool {
    s.len() >= 2 && s[s.len() - 2] == CR && s[s.len() - 1] == LF
}

/// A buffer that ends with `CRLF . CRLF` after at least one more byte: a
/// complete multi-line response (the status line must precede the
/// terminator, so the five terminator bytes alone do not qualify).
pub open spec fn block_terminated(s: Seq<u8>) -> bool {
    s.len() > 5 && s.skip(s.len() - 5) == seq![CR, LF, DOT, CR, LF]
}

/// Has the accumulating buffer of a single-line read seen its terminator?
pub fn response_complete(buf: &[u8]) -> (r: bool)
    ensures
        r == line_terminated(buf@),
{
    buf.len() >= 2 && buf[buf.len() - 2] == CR && buf[buf.len() - 1] == LF
}

/// Has the accumulating buffer of a multi-line read seen its terminator?
pub fn multiline_complete(buf: &[u8]) -> (r: bool)
    ensures
        r == block_terminated(buf@),
{
    if buf.len() > 5 {
        let n = buf.len();
        let hit = buf[n - 5] == CR && buf[n - 4] == LF && buf[n - 3] == DOT && buf[n - 2] == CR
            && buf[n - 1] == LF;
        proof {
            let tail = buf@.skip(n - 5);
            assert(tail[0] == buf@[n - 5] && tail[1] == buf@[n - 4] && tail[2] == buf@[n - 3]
                && tail[3] == buf@[n - 2] && tail[4] == buf@[n - 1]);
            if hit {
                assert(tail =~= seq![CR, LF, DOT, CR, LF]);
            } else {
                if tail == seq![CR, LF, DOT, CR, LF] {
                    assert(tail[0] == CR && tail[1] == LF && tail[2] == DOT && tail[3] == CR
                        && tail[4] == LF);
                }
            }
        }
        hit
    } else {
        false
    }
}

/// The index of the last occurrence of `b` in `s`, if any.
pub open spec fn rfind_byte(s: Seq<u8>, b: u8) -> Option<int>
    decreases s.len(),
{
    if s.len() == 0 {
        None
    } else if s.last() == b {
        Some(s.len() - 1)
    } else {
        rfind_byte(s.drop_last(), b)
    }
}

/// `rfind_byte` returns the last occurrence: `b` is there, and nowhere
/// after; `None` means `b` does not occur at all.
pub proof fn lemma_rfind_byte(s: Seq<u8>, b: u8)
    ensures
        match rfind_byte(s, b) {
            Some(i) => 0 <= i < s.len() && s[i] == b && forall|j: int|
                i < j < s.len() ==> s[j] != b,
            None => forall|j: int| 0 <= j < s.len() ==> s[j] != b,
        },
    decreases s.len(),
{
    if s.len() > 0 && s.last() != b {
        let t = s.drop_last();
        lemma_rfind_byte(t, b);
        assert forall|j: int| 0 <= j < t.len() implies #[trigger] t[j] == s[j] by {}
        match rfind_byte(s, b) {
            None => {
                assert forall|j: int| 0 <= j < s.len() implies s[j] != b by {
                    if j < t.len() {
                        assert(t[j] == s[j]);
                    }
                }
            },
            Some(i) => {
                assert(t[i] == s[i]);
                assert forall|j: int| i < j < s.len() implies s[j] != b by {
                    if j < t.len() {
                        assert(t[j] == s[j]);
                    }
                }
            },
        }
    }
}

/// The port denoted by the bytes after the colon: an optional `+` sign,
/// then digits only, with a value of at most 65535 - the numbers
/// `u16::from_str` accepts.
pub open spec fn port_of(s: Seq<u8>) -> Option<int> {
    let t = if s.len() > 0 && s[0] == 43 {
        s.skip(1)
    } else {
        s
    };
    if t.len() >= 1 && digit_run(t) == t.len() && dec_val(t) <= 65535 {
        Some(dec_val(t))
    } else {
        None
    }
}

/// Split `host[:port]` at its last colon.  Returns the byte length of the
/// host part and the port: the part after the colon read as a number, or
/// the service's default port when no colon is present.  An unreadable
/// port is an argument error, surfaced before any connection is made.
pub fn parse_addr(addr: &str, with_tls: bool) -> (r: Result<(usize, u16), Pop3Error>)
    ensures
        ({
            let bytes = encode_utf8(addr@);
            match rfind_byte(bytes, 58) {
                None => r matches Ok((hl, p)) && hl == bytes.len() && p == if with_tls {
                    TLS_PORT
                } else {
                    PLAIN_PORT
                },
                Some(i) => match port_of(bytes.skip(i + 1)) {
                    None => r matches Err(e) && e is BadArgument,
                    Some(pv) => r matches Ok((hl, p)) && hl == i && p == pv,
                },
            }
        }),
{
    let bytes = addr.as_bytes();
    let n = bytes.len();
    let mut j: usize = n;
    while j > 0 && bytes[j - 1] != 58
        invariant
            j <= n,
            n == bytes@.len(),
            forall|k: int| j <= k < n ==> bytes@[k] != 58,
        decreases j,
    {
        j -= 1;
    }
    proof {
        lemma_rfind_byte(bytes@, 58);
    }
    if j == 0 {
        proof {
            match rfind_byte(bytes@, 58) {
                None => {},
                Some(i) => {
                    assert(bytes@[i] != 58);
                },
            }
        }
        return Ok((n, if with_tls {
            TLS_PORT
        } else {
            PLAIN_PORT
        }));
    }
    let ghost i = j - 1int;
    proof {
        match rfind_byte(bytes@, 58) {
            None => {
                assert(bytes@[i] != 58);
            },
            Some(k) => {
                if k < i {
                    assert(bytes@[i] != 58);
                } else if i < k {
                    assert(bytes@[k] != 58);
                }
            },
        }
    }
    let port_bytes = vstd::slice::slice_subrange(bytes, j, n);
    let signed = port_bytes.len() > 0 && port_bytes[0] == 43;
    let digits: &[u8] = if signed {
        vstd::slice::slice_subrange(port_bytes, 1, port_bytes.len())
    } else {
        port_bytes
    };
    proof {
        assert(port_bytes@ =~= encode_utf8(addr@).skip(i + 1));
        if signed {
            assert(digits@ =~= port_bytes@.skip(1));
        }
        lemma_digit_run(digits@);
    }
    if digits.len() < 1 {
        return Err(Pop3Error::BadArgument);
    }
    let run = digit_run_exec(digits);
    if run < digits.len() {
        return Err(Pop3Error::BadArgument);
    }
    match parse_u64(digits) {
        None => Err(Pop3Error::BadArgument),
        Some(v) => {
            if v <= 65535 {
                Ok((j - 1, v as u16))
            } else {
                Err(Pop3Error::BadArgument)
            }
        },
    }
}

} // verus!

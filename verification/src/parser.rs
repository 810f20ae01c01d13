//! Executable parsers for POP3 responses, proved against the grammar.
//!
//! The byte-level functions (`is_ok`, `get_status_line`, `get_line`, ...)
//! mirror the grammar one production each and report `GrammarError` on
//! malformed input.  The `parse_*` entry points take a whole response,
//! separate the server's own `-ERR` (a protocol failure, carrying its
//! text) from malformed bytes, and decode trailing text for the caller.

use vstd::prelude::*;
use vstd::slice::slice_subrange;
use vstd::slice::slice_to_vec;

use crate::error::GrammarError;
use crate::error::Pop3Error;
use crate::grammar::CR;
use crate::grammar::DOT;
use crate::grammar::LF;
use crate::grammar::SP;
use crate::grammar::TAB;
use crate::grammar::block_line;
use crate::grammar::block_line_crlf;
use crate::grammar::crlf_at;
use crate::grammar::dec_val;
use crate::grammar::digit_run;
use crate::grammar::find_crlf;
use crate::grammar::is_digit;
use crate::grammar::lemma_block_line_shrinks;
use crate::grammar::lemma_dec_val_prefix;
use crate::grammar::lemma_digit_run;
use crate::grammar::lemma_find_crlf;
use crate::grammar::lemma_find_crlf_at;
use crate::grammar::lemma_status_prefix;
use crate::grammar::listing_block;
use crate::grammar::listing_values;
use crate::grammar::listings_fit;
use crate::grammar::message_block;
use crate::grammar::scan_listing;
use crate::grammar::stat_fields;
use crate::grammar::status_line;
use crate::grammar::status_prefix;
use crate::grammar::trim_start;
use crate::text::bytes_to_string;
use crate::text::decoded;

verus! {

/// Find the first CRLF pair of `s`, scanning left to right.
pub(crate) fn find_crlf_exec(s: &[u8]) -> (r: Option<usize>)
    ensures
        match r {
            Some(j) => find_crlf(s@) == Some(j as int),
            None => find_crlf(s@) is None,
        },
{
    let n = s.len();
    if n < 2 {
        return None;
    }
    let mut j: usize = 0;
    loop
        invariant
            j <= n,
            n == s@.len(),
            n >= 2,
            forall|k: int| 0 <= k < j ==> !crlf_at(s@, k),
        decreases n - j,
    {
        if j >= n - 1 {
            proof {
                lemma_find_crlf(s@);
                match find_crlf(s@) {
                    None => {},
                    Some(i) => {
                        assert(!crlf_at(s@, i));
                    },
                }
            }
            return None;
        }
        if s[j] == CR && s[j + 1] == LF {
            proof {
                lemma_find_crlf_at(s@, j as int);
            }
            return Some(j);
        }
        j += 1;
    }
}

/// Copy `s` with its leading spaces and tabs removed.
fn trim_copy(s: &[u8]) -> (r: Vec<u8>)
    ensures
        r@ == trim_start(s@),
{
    let mut j: usize = 0;
    proof {
        assert(s@.skip(0) =~= s@);
    }
    while j < s.len() && (s[j] == SP || s[j] == TAB)
        invariant
            j <= s@.len(),
            trim_start(s@) == trim_start(s@.skip(j as int)),
        decreases s@.len() - j,
    {
        proof {
            assert(s@.skip(j as int)[0] == s@[j as int]);
            assert(s@.skip(j as int).skip(1) =~= s@.skip(j as int + 1));
        }
        j += 1;
    }
    proof {
        assert(trim_start(s@.skip(j as int)) == s@.skip(j as int));
    }
    slice_to_vec(slice_subrange(s, j, s.len()))
}

/// Classify the reply's first bytes: `Ok((rest, true))` after `"+OK"`,
/// `Ok((rest, false))` after `"-ERR"`, a grammar error otherwise.
pub fn is_ok(msg: &[u8]) -> (r: Result<(Vec<u8>, bool), GrammarError>)
    ensures
        match status_prefix(msg@) {
            None => r is Err,
            Some((ok, p)) => r matches Ok(pair) && pair.1 == ok && pair.0@ == msg@.skip(p),
        },
{
    proof {
        lemma_status_prefix(msg@);
    }
    if msg.len() >= 3 && msg[0] == 43 && msg[1] == 79 && msg[2] == 75 {
        Ok((slice_to_vec(slice_subrange(msg, 3, msg.len())), true))
    } else if msg.len() >= 4 && msg[0] == 45 && msg[1] == 69 && msg[2] == 82 && msg[3] == 82 {
        Ok((slice_to_vec(slice_subrange(msg, 4, msg.len())), false))
    } else {
        Err(GrammarError)
    }
}

/// Parse one status line.  On a match, the reply's remaining bytes come
/// first; the inner `Result` carries the success flag, with the line's
/// trailing text (leading whitespace stripped when the matching `trim_*`
/// flag is set).
pub fn get_status_line(msg: &[u8], trim_ok: bool, trim_err: bool) -> (r: Result<
    (Vec<u8>, Result<Vec<u8>, Vec<u8>>),
    GrammarError,
>)
    ensures
        match status_line(msg@) {
            None => r is Err,
            Some((ok, text, rest)) => match r {
                Ok((rrest, st)) => rrest@ == rest && match st {
                    Ok(t) => ok && t@ == if trim_ok {
                        trim_start(text)
                    } else {
                        text
                    },
                    Err(t) => !ok && t@ == if trim_err {
                        trim_start(text)
                    } else {
                        text
                    },
                },
                Err(_) => false,
            },
        },
{
    proof {
        lemma_status_prefix(msg@);
    }
    let ok: bool;
    let p: usize;
    if msg.len() >= 3 && msg[0] == 43 && msg[1] == 79 && msg[2] == 75 {
        ok = true;
        p = 3;
    } else if msg.len() >= 4 && msg[0] == 45 && msg[1] == 69 && msg[2] == 82 && msg[3] == 82 {
        ok = false;
        p = 4;
    } else {
        return Err(GrammarError);
    }
    let rem = slice_subrange(msg, p, msg.len());
    match find_crlf_exec(rem) {
        None => Err(GrammarError),
        Some(i) => {
            proof {
                lemma_find_crlf(rem@);
            }
            let rest = slice_to_vec(slice_subrange(rem, i + 2, rem.len()));
            let text = slice_subrange(rem, 0, i);
            let t = if (ok && trim_ok) || (!ok && trim_err) {
                trim_copy(text)
            } else {
                slice_to_vec(text)
            };
            if ok {
                Ok((rest, Ok(t)))
            } else {
                Ok((rest, Err(t)))
            }
        },
    }
}

/// Read one line of a multi-line block, without its CRLF.  `Ok((rest,
/// None))` is the lone-dot terminator; on any other line a leading dot is
/// the byte-stuffing escape and is stripped.
pub fn get_line(msg: &[u8]) -> (r: Result<(Vec<u8>, Option<Vec<u8>>), GrammarError>)
    ensures
        match block_line(msg@) {
            None => r is Err,
            Some((line, rest)) => rest.len() < msg@.len() && match r {
                Ok((rrest, rl)) => rrest@ == rest && match (line, rl) {
                    (None, None) => true,
                    (Some(l), Some(rv)) => rv@ == l,
                    _ => false,
                },
                Err(_) => false,
            },
        },
{
    proof {
        lemma_block_line_shrinks(msg@);
    }
    let dotted = msg.len() > 0 && msg[0] == DOT;
    let body: &[u8] = if dotted {
        slice_subrange(msg, 1, msg.len())
    } else {
        msg
    };
    proof {
        if dotted {
            assert(body@ =~= msg@.skip(1));
        }
    }
    match find_crlf_exec(body) {
        None => Err(GrammarError),
        Some(i) => {
            proof {
                lemma_find_crlf(body@);
            }
            let rest = slice_to_vec(slice_subrange(body, i + 2, body.len()));
            if dotted && i == 0 {
                Ok((rest, None))
            } else {
                Ok((rest, Some(slice_to_vec(slice_subrange(body, 0, i)))))
            }
        },
    }
}

/// Like [`get_line`], but a content line keeps its CRLF, so that RETR can
/// reconstruct the message's original line endings.
pub fn get_line_with_crlf(msg: &[u8]) -> (r: Result<(Vec<u8>, Option<Vec<u8>>), GrammarError>)
    ensures
        match block_line_crlf(msg@) {
            None => r is Err,
            Some((line, rest)) => rest.len() < msg@.len() && match r {
                Ok((rrest, rl)) => rrest@ == rest && match (line, rl) {
                    (None, None) => true,
                    (Some(l), Some(rv)) => rv@ == l,
                    _ => false,
                },
                Err(_) => false,
            },
        },
{
    proof {
        lemma_block_line_shrinks(msg@);
    }
    let dotted = msg.len() > 0 && msg[0] == DOT;
    let body: &[u8] = if dotted {
        slice_subrange(msg, 1, msg.len())
    } else {
        msg
    };
    proof {
        if dotted {
            assert(body@ =~= msg@.skip(1));
        }
    }
    match find_crlf_exec(body) {
        None => Err(GrammarError),
        Some(i) => {
            proof {
                lemma_find_crlf(body@);
            }
            let rest = slice_to_vec(slice_subrange(body, i + 2, body.len()));
            if dotted && i == 0 {
                Ok((rest, None))
            } else {
                Ok((rest, Some(slice_to_vec(slice_subrange(body, 0, i + 2)))))
            }
        },
    }
}

/// Count the digits `s` starts with.
pub(crate) fn digit_run_exec(s: &[u8]) -> (r: usize)
    ensures
        r as int == digit_run(s@),
{
    let mut j: usize = 0;
    proof {
        assert(s@.skip(0) =~= s@);
    }
    while j < s.len() && 48 <= s[j] && s[j] <= 57
        invariant
            j <= s@.len(),
            digit_run(s@) == j + digit_run(s@.skip(j as int)),
        decreases s@.len() - j,
    {
        proof {
            assert(s@.skip(j as int)[0] == s@[j as int]);
            assert(s@.skip(j as int).skip(1) =~= s@.skip(j as int + 1));
        }
        j += 1;
    }
    proof {
        if j < s.len() {
            assert(s@.skip(j as int)[0] == s@[j as int]);
        }
        assert(digit_run(s@.skip(j as int)) == 0);
    }
    j
}

/// Read a run of digits as an unsigned 64-bit number; `None` when the
/// value does not fit.
pub(crate) fn parse_u64(s: &[u8]) -> (r: Option<u64>)
    requires
        forall|j: int| 0 <= j < s@.len() ==> is_digit(s@[j]),
    ensures
        match r {
            Some(v) => v as int == dec_val(s@),
            None => dec_val(s@) > u64::MAX,
        },
{
    let mut acc: u64 = 0;
    let mut j: usize = 0;
    proof {
        assert(s@.take(0) =~= Seq::<u8>::empty());
    }
    while j < s.len()
        invariant
            j <= s@.len(),
            forall|k: int| 0 <= k < s@.len() ==> is_digit(s@[k]),
            acc as int == dec_val(s@.take(j as int)),
        decreases s@.len() - j,
    {
        let d = s[j] - 48;
        let dd = d as u64;
        proof {
            assert(s@.take(j as int + 1).drop_last() =~= s@.take(j as int));
            assert(s@.take(j as int + 1).last() == s@[j as int]);
            assert((u64::MAX - dd) as int == 10 * (((u64::MAX - dd) as int) / 10) + (((u64::MAX
                - dd) as int) % 10));
        }
        if acc > (u64::MAX - dd) / 10 {
            proof {
                assert(dec_val(s@.take(j as int + 1)) > u64::MAX);
                lemma_dec_val_prefix(s@, j as int + 1);
                assert(s@.take(s@.len() as int) =~= s@);
            }
            return None;
        }
        acc = acc * 10 + dd;
        j += 1;
    }
    proof {
        assert(s@.take(j as int) =~= s@);
    }
    Some(acc)
}

/// Parse one scan listing, `<digits> SP <digits>`, returning the rest of
/// the line and the two numbers, as the LIST productions need them.
fn scan_listing_exec(s: &[u8]) -> (r: Result<(Vec<u8>, (u64, u64)), GrammarError>)
    ensures
        match scan_listing(s@) {
            None => r is Err,
            Some((d1, d2, rest)) => if dec_val(d1) <= u64::MAX && dec_val(d2) <= u64::MAX {
                r matches Ok((rv, (v1, v2))) && v1 as int == dec_val(d1) && v2 as int == dec_val(
                    d2,
                ) && rv@ == rest
            } else {
                r is Err
            },
        },
{
    proof {
        lemma_digit_run(s@);
    }
    let k1 = digit_run_exec(s);
    if !(1 <= k1 && k1 < s.len() && s[k1] == SP) {
        return Err(GrammarError);
    }
    let t = slice_subrange(s, k1 + 1, s.len());
    proof {
        lemma_digit_run(t@);
    }
    let k2 = digit_run_exec(t);
    if k2 < 1 {
        return Err(GrammarError);
    }
    let v1 = match parse_u64(slice_subrange(s, 0, k1)) {
        Some(v) => v,
        None => {
            return Err(GrammarError);
        },
    };
    let v2 = match parse_u64(slice_subrange(t, 0, k2)) {
        Some(v) => v,
        None => {
            return Err(GrammarError);
        },
    };
    let rest = slice_to_vec(slice_subrange(t, k2, t.len()));
    Ok((rest, (v1, v2)))
}

/// Parse a STAT reply: the remaining input, then either the failure text
/// or the message count, the maildrop size in octets, and the untouched
/// tail of the status text.
pub fn get_stat_result(msg: &[u8]) -> (r: Result<
    (Vec<u8>, Result<(u64, u64, Vec<u8>), Vec<u8>>),
    GrammarError,
>)
    ensures
        match status_line(msg@) {
            None => r is Err,
            Some((ok, text, rest)) => if !ok {
                r matches Ok((rr, Err(t))) && rr@ == rest && t@ == trim_start(text)
            } else {
                match stat_fields(text) {
                    None => r is Err,
                    Some((d1, d2, extra)) => if dec_val(d1) <= u64::MAX && dec_val(d2)
                        <= u64::MAX {
                        r matches Ok((rr, Ok((v1, v2, e)))) && rr@ == rest && v1 as int == dec_val(
                            d1,
                        ) && v2 as int == dec_val(d2) && e@ == extra
                    } else {
                        r is Err
                    },
                }
            },
        },
{
    let (rest, st) = match get_status_line(msg, false, true) {
        Ok(p) => p,
        Err(e) => {
            return Err(e);
        },
    };
    match st {
        Err(t) => Ok((rest, Err(t))),
        Ok(text) => {
            if !(text.len() >= 1 && text[0] == SP) {
                return Err(GrammarError);
            }
            let fields = slice_subrange(text.as_slice(), 1, text.len());
            match scan_listing_exec(fields) {
                Err(e) => Err(e),
                Ok((extra, (v1, v2))) => Ok((rest, Ok((v1, v2, extra)))),
            }
        },
    }
}

/// Parse a whole STAT reply into message count, total octets and trimmed
/// trailing text; the server's `-ERR` becomes a protocol failure.
pub fn parse_stat(msg: Vec<u8>) -> (r: Result<(u64, u64, String), Pop3Error>)
    ensures
        match status_line(msg@) {
            None => r matches Err(e) && e is Grammar,
            Some((ok, text, _)) => if !ok {
                r matches Err(e) && e matches Pop3Error::Protocol(t) && decoded(
                    trim_start(text),
                    t@,
                )
            } else {
                match stat_fields(text) {
                    None => r matches Err(e) && e is Grammar,
                    Some((d1, d2, extra)) => if dec_val(d1) <= u64::MAX && dec_val(d2)
                        <= u64::MAX {
                        r matches Ok((v1, v2, t)) && v1 as int == dec_val(d1) && v2 as int
                            == dec_val(d2) && decoded(trim_start(extra), t@)
                    } else {
                        r matches Err(e) && e is Grammar
                    },
                }
            },
        },
{
    match get_stat_result(msg.as_slice()) {
        Err(_) => Err(Pop3Error::Grammar),
        Ok((_, Err(t))) => Err(Pop3Error::Protocol(bytes_to_string(t.as_slice()))),
        Ok((_, Ok((v1, v2, extra)))) => {
            let t = trim_copy(extra.as_slice());
            Ok((v1, v2, bytes_to_string(t.as_slice())))
        },
    }
}

/// Parse an id-scoped LIST reply: the numeric pair is read from the
/// trimmed status text itself.
pub fn get_single_list_result(msg: &[u8]) -> (r: Result<
    (Vec<u8>, Result<(u64, u64, Vec<u8>), Vec<u8>>),
    GrammarError,
>)
    ensures
        match status_line(msg@) {
            None => r is Err,
            Some((ok, text, rest)) => if !ok {
                r matches Ok((rr, Err(t))) && rr@ == rest && t@ == trim_start(text)
            } else {
                match scan_listing(trim_start(text)) {
                    None => r is Err,
                    Some((d1, d2, extra)) => if dec_val(d1) <= u64::MAX && dec_val(d2)
                        <= u64::MAX {
                        r matches Ok((rr, Ok((v1, v2, e)))) && rr@ == rest && v1 as int == dec_val(
                            d1,
                        ) && v2 as int == dec_val(d2) && e@ == extra
                    } else {
                        r is Err
                    },
                }
            },
        },
{
    let (rest, st) = match get_status_line(msg, true, true) {
        Ok(p) => p,
        Err(e) => {
            return Err(e);
        },
    };
    match st {
        Err(t) => Ok((rest, Err(t))),
        Ok(text) => match scan_listing_exec(text.as_slice()) {
            Err(e) => Err(e),
            Ok((extra, (v1, v2))) => Ok((rest, Ok((v1, v2, extra)))),
        },
    }
}

/// Parse a whole id-scoped LIST reply into message id, size in octets and
/// trimmed trailing text; the server's `-ERR` becomes a protocol failure.
pub fn parse_single_list(msg: Vec<u8>) -> (r: Result<(u64, u64, String), Pop3Error>)
    ensures
        match status_line(msg@) {
            None => r matches Err(e) && e is Grammar,
            Some((ok, text, _)) => if !ok {
                r matches Err(e) && e matches Pop3Error::Protocol(t) && decoded(
                    trim_start(text),
                    t@,
                )
            } else {
                match scan_listing(trim_start(text)) {
                    None => r matches Err(e) && e is Grammar,
                    Some((d1, d2, extra)) => if dec_val(d1) <= u64::MAX && dec_val(d2)
                        <= u64::MAX {
                        r matches Ok((v1, v2, t)) && v1 as int == dec_val(d1) && v2 as int
                            == dec_val(d2) && decoded(trim_start(extra), t@)
                    } else {
                        r matches Err(e) && e is Grammar
                    },
                }
            },
        },
{
    match get_single_list_result(msg.as_slice()) {
        Err(_) => Err(Pop3Error::Grammar),
        Ok((_, Err(t))) => Err(Pop3Error::Protocol(bytes_to_string(t.as_slice()))),
        Ok((_, Ok((v1, v2, extra)))) => {
            let t = trim_copy(extra.as_slice());
            Ok((v1, v2, bytes_to_string(t.as_slice())))
        },
    }
}

/// Parse a full-mailbox LIST reply: a status line, then scan-listing
/// lines up to the lone-dot terminator.  On success the listings come in
/// the order received, with the trimmed status text.
#[verifier::loop_isolation(false)]
pub fn get_list_result(msg: &[u8]) -> (r: Result<
    (Vec<u8>, Result<(Vec<(u64, u64)>, Vec<u8>), Vec<u8>>),
    GrammarError,
>)
    ensures
        match status_line(msg@) {
            None => r is Err,
            Some((ok, text, after)) => if !ok {
                r matches Ok((rr, Err(t))) && rr@ == after && t@ == trim_start(text)
            } else {
                match listing_block(after) {
                    None => r is Err,
                    Some((pairs, rest2)) => if listings_fit(pairs) {
                        r matches Ok((rr, Ok((vs, t)))) && rr@ == rest2 && listing_values(
                            pairs,
                            vs@,
                        ) && t@ == trim_start(text)
                    } else {
                        r is Err
                    },
                }
            },
        },
{
    let (rest0, st) = match get_status_line(msg, true, true) {
        Ok(p) => p,
        Err(e) => {
            return Err(e);
        },
    };
    let text = match st {
        Err(t) => {
            return Ok((rest0, Err(t)));
        },
        Ok(t) => t,
    };
    let ghost after = rest0@;
    let mut cur = rest0;
    let mut acc: Vec<(u64, u64)> = Vec::new();
    let ghost mut gpairs: Seq<(Seq<u8>, Seq<u8>)> = Seq::empty();
    proof {
        match listing_block(after) {
            None => {},
            Some((tail, r2)) => {
                assert(gpairs + tail =~= tail);
            },
        }
    }
    loop
        invariant
            listings_fit(gpairs),
            listing_values(gpairs, acc@),
            match listing_block(cur@) {
                None => listing_block(after) is None,
                Some((tail, r2)) => listing_block(after) == Some((gpairs + tail, r2)),
            },
        decreases cur@.len(),
    {
        let (rest, line) = match get_line(cur.as_slice()) {
            Ok(p) => p,
            Err(_) => {
                return Err(GrammarError);
            },
        };
        match line {
            None => {
                proof {
                    assert(listing_block(cur@) == Some((Seq::<(Seq<u8>, Seq<u8>)>::empty(), rest@)));
                    assert(gpairs + Seq::<(Seq<u8>, Seq<u8>)>::empty() =~= gpairs);
                }
                return Ok((rest, Ok((acc, text))));
            },
            Some(l) => {
                match scan_listing_exec(l.as_slice()) {
                    Err(_) => {
                        proof {
                            match scan_listing(l@) {
                                None => {},
                                Some((d1, d2, _)) => {
                                    match listing_block(rest@) {
                                        None => {},
                                        Some((tail, r2)) => {
                                            let whole = gpairs + (seq![(d1, d2)] + tail);
                                            assert(whole[gpairs.len() as int] == (d1, d2));
                                        },
                                    }
                                },
                            }
                        }
                        return Err(GrammarError);
                    },
                    Ok((_, (v1, v2))) => {
                        let ghost d1 = scan_listing(l@)->Some_0.0;
                        let ghost d2 = scan_listing(l@)->Some_0.1;
                        acc.push((v1, v2));
                        proof {
                            match listing_block(rest@) {
                                None => {},
                                Some((tail, r2)) => {
                                    assert(gpairs + (seq![(d1, d2)] + tail) =~= (gpairs.push(
                                        (d1, d2),
                                    )) + tail);
                                },
                            }
                            gpairs = gpairs.push((d1, d2));
                        }
                        cur = rest;
                    },
                }
            },
        }
    }
}

/// Parse a whole full-mailbox LIST reply into the ordered scan listings
/// and the trimmed trailing text; the server's `-ERR` becomes a protocol
/// failure.
pub fn parse_list(msg: Vec<u8>) -> (r: Result<(Vec<(u64, u64)>, String), Pop3Error>)
    ensures
        match status_line(msg@) {
            None => r matches Err(e) && e is Grammar,
            Some((ok, text, after)) => if !ok {
                r matches Err(e) && e matches Pop3Error::Protocol(t) && decoded(
                    trim_start(text),
                    t@,
                )
            } else {
                match listing_block(after) {
                    None => r matches Err(e) && e is Grammar,
                    Some((pairs, _)) => if listings_fit(pairs) {
                        r matches Ok((vs, t)) && listing_values(pairs, vs@) && decoded(
                            trim_start(text),
                            t@,
                        )
                    } else {
                        r matches Err(e) && e is Grammar
                    },
                }
            },
        },
{
    match get_list_result(msg.as_slice()) {
        Err(_) => Err(Pop3Error::Grammar),
        Ok((_, Err(t))) => Err(Pop3Error::Protocol(bytes_to_string(t.as_slice()))),
        Ok((_, Ok((vs, t)))) => Ok((vs, bytes_to_string(t.as_slice()))),
    }
}

/// Parse a RETR reply: a status line, then the dot-terminated block,
/// reconstructing the message bytes with the stuffing dots stripped and
/// the original CRLF line endings kept.
#[verifier::loop_isolation(false)]
fn get_retr_result(msg: &[u8]) -> (r: Result<
    (Vec<u8>, Result<(Vec<u8>, Vec<u8>), Vec<u8>>),
    GrammarError,
>)
    ensures
        match status_line(msg@) {
            None => r is Err,
            Some((ok, text, after)) => if !ok {
                r matches Ok((rr, Err(t))) && rr@ == after && t@ == trim_start(text)
            } else {
                match message_block(after) {
                    None => r is Err,
                    Some((mail, rest2)) => r matches Ok((rr, Ok((m, t)))) && rr@ == rest2 && m@
                        == mail && t@ == trim_start(text),
                }
            },
        },
{
    let (rest0, st) = match get_status_line(msg, true, true) {
        Ok(p) => p,
        Err(e) => {
            return Err(e);
        },
    };
    let text = match st {
        Err(t) => {
            return Ok((rest0, Err(t)));
        },
        Ok(t) => t,
    };
    let ghost after = rest0@;
    let mut cur = rest0;
    let mut mail: Vec<u8> = Vec::new();
    proof {
        match message_block(after) {
            None => {},
            Some((m, r2)) => {
                assert(mail@ + m =~= m);
            },
        }
    }
    loop
        invariant
            match message_block(cur@) {
                None => message_block(after) is None,
                Some((m, r2)) => message_block(after) == Some((mail@ + m, r2)),
            },
        decreases cur@.len(),
    {
        let (rest, line) = match get_line_with_crlf(cur.as_slice()) {
            Ok(p) => p,
            Err(_) => {
                return Err(GrammarError);
            },
        };
        match line {
            None => {
                proof {
                    assert(message_block(cur@) == Some((Seq::<u8>::empty(), rest@)));
                    assert(mail@ + Seq::<u8>::empty() =~= mail@);
                }
                return Ok((rest, Ok((mail, text))));
            },
            Some(l) => {
                let ghost lv = l@;
                let ghost mail0 = mail@;
                let mut l = l;
                mail.append(&mut l);
                proof {
                    match message_block(rest@) {
                        None => {},
                        Some((m, r2)) => {
                            assert(mail0 + (lv + m) =~= (mail0 + lv) + m);
                        },
                    }
                }
                cur = rest;
            },
        }
    }
}

/// Parse a whole RETR reply into the reconstructed message bytes and the
/// trimmed trailing text; the server's `-ERR` becomes a protocol failure.
pub fn parse_retr_result(msg: Vec<u8>) -> (r: Result<(Vec<u8>, String), Pop3Error>)
    ensures
        match status_line(msg@) {
            None => r matches Err(e) && e is Grammar,
            Some((ok, text, after)) => if !ok {
                r matches Err(e) && e matches Pop3Error::Protocol(t) && decoded(
                    trim_start(text),
                    t@,
                )
            } else {
                match message_block(after) {
                    None => r matches Err(e) && e is Grammar,
                    Some((mail, _)) => r matches Ok((m, t)) && m@ == mail && decoded(
                        trim_start(text),
                        t@,
                    ),
                }
            },
        },
{
    match get_retr_result(msg.as_slice()) {
        Err(_) => Err(Pop3Error::Grammar),
        Ok((_, Err(t))) => Err(Pop3Error::Protocol(bytes_to_string(t.as_slice()))),
        Ok((_, Ok((mail, t)))) => Ok((mail, bytes_to_string(t.as_slice()))),
    }
}

/// Parse a whole single-line reply: the text of a success, the server's
/// text as a protocol failure on `-ERR`, a grammar error otherwise.
pub fn parse_status_line(msg: Vec<u8>) -> (r: Result<String, Pop3Error>)
    ensures
        match status_line(msg@) {
            None => r matches Err(e) && e is Grammar,
            Some((ok, text, rest)) => if ok {
                r matches Ok(t) && decoded(trim_start(text), t@)
            } else {
                r matches Err(e) && e matches Pop3Error::Protocol(t) && decoded(
                    trim_start(text),
                    t@,
                )
            },
        },
{
    match get_status_line(msg.as_slice(), true, true) {
        Err(_) => Err(Pop3Error::Grammar),
        Ok((_, Ok(t))) => Ok(bytes_to_string(t.as_slice())),
        Ok((_, Err(t))) => Err(Pop3Error::Protocol(bytes_to_string(t.as_slice()))),
    }
}

} // verus!

//! The mathematical model of the POP3 response grammar.
//!
//! Everything here is specification: byte-level descriptions of status
//! lines, numeric fields, scan listings and dot-terminated multi-line
//! blocks, together with the lemmas that characterise them.  The
//! executable parsers in `parser` are proved against these functions.

use vstd::prelude::*;

verus! {

pub const CR: u8 = 13;

pub const LF: u8 = 10;

pub const SP: u8 = 32;

pub const TAB: u8 = 9;

pub const DOT: u8 = 46;

/// The line terminator, `"\r\n"`.
pub open spec fn crlf() -> Seq<u8> {
    seq![CR, LF]
}

/// The success prefix, `"+OK"`.
pub open spec fn ok_tag() -> Seq<u8> {
    seq![43u8, 79u8, 75u8]
}

/// The failure prefix, `"-ERR"`.
pub open spec fn err_tag() -> Seq<u8> {
    seq![45u8, 69u8, 82u8, 82u8]
}

/// True when a CRLF pair starts at index `i` of `s`.
pub open spec fn crlf_at(s: Seq<u8>, i: int) -> bool {
    &&& 0 <= i
    &&& i + 1 < s.len()
    &&& s[i] == CR
    &&& s[i + 1] == LF
}

/// The index of the first CRLF pair in `s`, if any.
pub open spec fn find_crlf(s: Seq<u8>) -> Option<int>
    decreases s.len(),
{
    if s.len() < 2 {
        None
    } else if s[0] == CR && s[1] == LF {
        Some(0)
    } else {
        match find_crlf(s.skip(1)) {
            None => None,
            Some(i) => Some(i + 1),
        }
    }
}

/// `find_crlf` returns the first CRLF pair: the pair is there, and no pair
/// comes before it; `None` means there is no pair at all.
pub proof fn lemma_find_crlf(s: Seq<u8>)
    ensures
        match find_crlf(s) {
            Some(i) => crlf_at(s, i) && forall|j: int| 0 <= j < i ==> !crlf_at(s, j),
            None => forall|j: int| !crlf_at(s, j),
        },
    decreases s.len(),
{
    if s.len() < 2 {
    } else if s[0] == CR && s[1] == LF {
    } else {
        let t = s.skip(1);
        lemma_find_crlf(t);
        assert forall|j: int| crlf_at(s, j) implies j >= 1 && crlf_at(t, j - 1) by {
            assert(t[j - 1] == s[j]);
            assert(t[j] == s[j + 1]);
        }
        match find_crlf(t) {
            None => {
                assert forall|j: int| !crlf_at(s, j) by {
                    if crlf_at(s, j) {
                        assert(crlf_at(t, j - 1));
                    }
                }
            },
            Some(i) => {
                assert(t[i] == s[i + 1]);
                assert(t[i + 1] == s[i + 2]);
                assert(crlf_at(s, i + 1));
                assert forall|j: int| 0 <= j < i + 1 implies !crlf_at(s, j) by {
                    if j >= 1 && crlf_at(s, j) {
                        assert(crlf_at(t, j - 1));
                    }
                }
            },
        }
    }
}

/// If a CRLF pair stands at `i` and none before it, then `i` is what
/// `find_crlf` returns.
pub proof fn lemma_find_crlf_at(s: Seq<u8>, i: int)
    requires
        crlf_at(s, i),
        forall|j: int| 0 <= j < i ==> !crlf_at(s, j),
    ensures
        find_crlf(s) == Some(i),
{
    lemma_find_crlf(s);
    match find_crlf(s) {
        None => {
            assert(!crlf_at(s, i));
        },
        Some(k) => {
            if k < i {
                assert(!crlf_at(s, k));
            } else if i < k {
                assert(!crlf_at(s, i));
            }
        },
    }
}

/// The index of the first occurrence of `b` in `s`, if any.
pub open spec fn find_byte(s: Seq<u8>, b: u8) -> Option<int>
    decreases s.len(),
{
    if s.len() == 0 {
        None
    } else if s[0] == b {
        Some(0)
    } else {
        match find_byte(s.skip(1), b) {
            None => None,
            Some(i) => Some(i + 1),
        }
    }
}

/// `find_byte` returns the first occurrence: `b` is there, and nowhere
/// before; `None` means `b` does not occur at all.
pub proof fn lemma_find_byte(s: Seq<u8>, b: u8)
    ensures
        match find_byte(s, b) {
            Some(i) => 0 <= i < s.len() && s[i] == b && forall|j: int| 0 <= j < i ==> s[j] != b,
            None => forall|j: int| 0 <= j < s.len() ==> s[j] != b,
        },
    decreases s.len(),
{
    if s.len() > 0 && s[0] != b {
        let t = s.skip(1);
        lemma_find_byte(t, b);
        assert forall|j: int| 1 <= j < s.len() implies s[j] == t[j - 1] by {}
    }
}

/// If `b` stands at `i` and nowhere before, then `i` is what `find_byte`
/// returns.
pub proof fn lemma_find_byte_at(s: Seq<u8>, b: u8, i: int)
    requires
        0 <= i < s.len(),
        s[i] == b,
        forall|j: int| 0 <= j < i ==> s[j] != b,
    ensures
        find_byte(s, b) == Some(i),
{
    lemma_find_byte(s, b);
    match find_byte(s, b) {
        None => {
            assert(s[i] != b);
        },
        Some(k) => {
            if k < i {
                assert(s[k] != b);
            } else if i < k {
                assert(s[i] != b);
            }
        },
    }
}

/// The status prefix of a reply: `Some((success, prefix length))` for
/// `"+OK"` and `"-ERR"`, `None` otherwise.
pub open spec fn status_prefix(s: Seq<u8>) -> Option<(bool, int)> {
    if s.len() >= 3 && s.take(3) == ok_tag() {
        Some((true, 3))
    } else if s.len() >= 4 && s.take(4) == err_tag() {
        Some((false, 4))
    } else {
        None
    }
}

/// The prefix test, byte by byte, as an executable scanner performs it.
pub proof fn lemma_status_prefix(s: Seq<u8>)
    ensures
        status_prefix(s) == if s.len() >= 3 && s[0] == 43 && s[1] == 79 && s[2] == 75 {
            Some((true, 3int))
        } else if s.len() >= 4 && s[0] == 45 && s[1] == 69 && s[2] == 82 && s[3] == 82 {
            Some((false, 4int))
        } else {
            None::<(bool, int)>
        },
{
    if s.len() >= 3 {
        if s.take(3) == ok_tag() {
            assert(s[0] == s.take(3)[0] && s[1] == s.take(3)[1] && s[2] == s.take(3)[2]);
        }
        if s[0] == 43 && s[1] == 79 && s[2] == 75 {
            assert(s.take(3) =~= ok_tag());
        }
    }
    if s.len() >= 4 {
        if s.take(4) == err_tag() {
            assert(s[0] == s.take(4)[0] && s[1] == s.take(4)[1] && s[2] == s.take(4)[2] && s[3]
                == s.take(4)[3]);
        }
        if s[0] == 45 && s[1] == 69 && s[2] == 82 && s[3] == 82 {
            assert(s.take(4) =~= err_tag());
        }
    }
}

/// A single status line: `("+OK" | "-ERR") <text> CRLF`, followed by
/// arbitrary further bytes.  Yields the success flag, the raw text between
/// the prefix and the CRLF, and the bytes after the CRLF.
pub open spec fn status_line(s: Seq<u8>) -> Option<(bool, Seq<u8>, Seq<u8>)> {
    match status_prefix(s) {
        None => None,
        Some((ok, p)) => {
            let rem = s.skip(p);
            match find_crlf(rem) {
                None => None,
                Some(i) => Some((ok, rem.take(i), rem.skip(i + 2))),
            }
        },
    }
}

/// `s` with leading spaces and tabs removed.
pub open spec fn trim_start(s: Seq<u8>) -> Seq<u8>
    decreases s.len(),
{
    if s.len() > 0 && (s[0] == SP || s[0] == TAB) {
        trim_start(s.skip(1))
    } else {
        s
    }
}

/// An ASCII decimal digit.
pub open spec fn is_digit(b: u8) -> bool {
    48 <= b <= 57
}

/// How many digits `s` starts with.
pub open spec fn digit_run(s: Seq<u8>) -> int
    decreases s.len(),
{
    if s.len() > 0 && is_digit(s[0]) {
        1 + digit_run(s.skip(1))
    } else {
        0
    }
}

/// The digit run is a well-formed prefix: within bounds, all digits, and
/// ended by a non-digit (or the end of `s`).
pub proof fn lemma_digit_run(s: Seq<u8>)
    ensures
        0 <= digit_run(s) <= s.len(),
        forall|j: int| 0 <= j < digit_run(s) ==> is_digit(s[j]),
        digit_run(s) < s.len() ==> !is_digit(s[digit_run(s)]),
    decreases s.len(),
{
    if s.len() > 0 && is_digit(s[0]) {
        let t = s.skip(1);
        lemma_digit_run(t);
        assert forall|j: int| 0 <= j < digit_run(s) implies is_digit(s[j]) by {
            if j >= 1 {
                assert(t[j - 1] == s[j]);
            }
        }
        if digit_run(s) < s.len() {
            assert(t[digit_run(s) - 1] == s[digit_run(s)]);
        }
    }
}

/// The value of a digit string read as a decimal number.
pub open spec fn dec_val(s: Seq<u8>) -> int
    decreases s.len(),
{
    if s.len() == 0 {
        0
    } else {
        dec_val(s.drop_last()) * 10 + (s.last() - 48)
    }
}

/// A digit string's value is non-negative.
pub proof fn lemma_dec_val_nonneg(s: Seq<u8>)
    requires
        forall|j: int| 0 <= j < s.len() ==> is_digit(s[j]),
    ensures
        dec_val(s) >= 0,
    decreases s.len(),
{
    if s.len() > 0 {
        lemma_dec_val_nonneg(s.drop_last());
    }
}

/// Reading more digits never shrinks the value: the value of a prefix is a
/// lower bound for the value of the whole string.
pub proof fn lemma_dec_val_prefix(s: Seq<u8>, k: int)
    requires
        forall|j: int| 0 <= j < s.len() ==> is_digit(s[j]),
        0 <= k <= s.len(),
    ensures
        dec_val(s.take(k)) <= dec_val(s),
    decreases s.len() - k,
{
    if k < s.len() {
        let t = s.take(k + 1);
        assert(t.drop_last() =~= s.take(k));
        lemma_dec_val_nonneg(t.drop_last());
        assert(dec_val(s.take(k)) <= dec_val(t));
        lemma_dec_val_prefix(s, k + 1);
    } else {
        assert(s.take(k) =~= s);
    }
}

/// One scan listing: `<digits> SP <digits>`, with anything after the second
/// run left alone.  Yields the two digit strings and the rest of `s`.
pub open spec fn scan_listing(s: Seq<u8>) -> Option<(Seq<u8>, Seq<u8>, Seq<u8>)> {
    let k1 = digit_run(s);
    if 1 <= k1 < s.len() && s[k1] == SP {
        let t = s.skip(k1 + 1);
        let k2 = digit_run(t);
        if k2 >= 1 {
            Some((s.take(k1), t.take(k2), t.skip(k2)))
        } else {
            None
        }
    } else {
        None
    }
}

/// The STAT payload inside a successful status text: `SP <digits> SP
/// <digits>`, with anything after.  The leading space is required.
pub open spec fn stat_fields(text: Seq<u8>) -> Option<(Seq<u8>, Seq<u8>, Seq<u8>)> {
    if text.len() >= 1 && text[0] == SP {
        scan_listing(text.skip(1))
    } else {
        None
    }
}

/// One line of a multi-line block, without its CRLF.  `Some((None, rest))`
/// is the terminating lone-dot line; a leading dot on any other line is the
/// byte-stuffing escape and is stripped.
pub open spec fn block_line(s: Seq<u8>) -> Option<(Option<Seq<u8>>, Seq<u8>)> {
    let dotted = s.len() > 0 && s[0] == DOT;
    let body = if dotted {
        s.skip(1)
    } else {
        s
    };
    match find_crlf(body) {
        None => None,
        Some(i) => if dotted && i == 0 {
            Some((None, body.skip(2)))
        } else {
            Some((Some(body.take(i)), body.skip(i + 2)))
        },
    }
}

/// Like `block_line`, but the line keeps its CRLF, as RETR needs to
/// preserve the original line endings.
pub open spec fn block_line_crlf(s: Seq<u8>) -> Option<(Option<Seq<u8>>, Seq<u8>)> {
    let dotted = s.len() > 0 && s[0] == DOT;
    let body = if dotted {
        s.skip(1)
    } else {
        s
    };
    match find_crlf(body) {
        None => None,
        Some(i) => if dotted && i == 0 {
            Some((None, body.skip(2)))
        } else {
            Some((Some(body.take(i + 2)), body.skip(i + 2)))
        },
    }
}

/// Parsing a line consumes at least its CRLF.
pub proof fn lemma_block_line_shrinks(s: Seq<u8>)
    ensures
        match block_line(s) {
            Some((_, rest)) => rest.len() < s.len(),
            None => true,
        },
        match block_line_crlf(s) {
            Some((_, rest)) => rest.len() < s.len(),
            None => true,
        },
{
    let dotted = s.len() > 0 && s[0] == DOT;
    let body = if dotted {
        s.skip(1)
    } else {
        s
    };
    lemma_find_crlf(body);
}

/// A full LIST block: scan-listing lines up to the lone-dot terminator.
/// Yields the pairs of digit strings, in the order received, and the bytes
/// after the terminator.  Tokens after the second number of a line are
/// discarded.
pub open spec fn listing_block(s: Seq<u8>) -> Option<(Seq<(Seq<u8>, Seq<u8>)>, Seq<u8>)>
    decreases s.len(),
    via listing_block_dec
{
    match block_line(s) {
        None => None,
        Some((None, rest)) => Some((Seq::empty(), rest)),
        Some((Some(l), rest)) => match scan_listing(l) {
            None => None,
            Some((d1, d2, _)) => match listing_block(rest) {
                None => None,
                Some((tail, r)) => Some((seq![(d1, d2)] + tail, r)),
            },
        },
    }
}

#[via_fn]
proof fn listing_block_dec(s: Seq<u8>) {
    lemma_block_line_shrinks(s);
}

/// A full RETR block: the de-stuffed lines, CRLF endings kept, concatenated
/// up to the lone-dot terminator.  Yields the reconstructed message bytes
/// and the bytes after the terminator.
pub open spec fn message_block(s: Seq<u8>) -> Option<(Seq<u8>, Seq<u8>)>
    decreases s.len(),
    via message_block_dec
{
    match block_line_crlf(s) {
        None => None,
        Some((None, rest)) => Some((Seq::empty(), rest)),
        Some((Some(l), rest)) => match message_block(rest) {
            None => None,
            Some((mail, r)) => Some((l + mail, r)),
        },
    }
}

#[via_fn]
proof fn message_block_dec(s: Seq<u8>) {
    lemma_block_line_shrinks(s);
}

/// A line that can stand in a multi-line block: it holds no CRLF pair, so
/// appending the terminating CRLF cannot move the line's end.
pub open spec fn wire_safe_line(l: Seq<u8>) -> bool {
    forall|j: int| !crlf_at(l, j)
}

/// A body line as transmitted: a leading dot is doubled, so the lone-dot
/// terminator line stays unambiguous.
pub open spec fn stuff_line(line: Seq<u8>) -> Seq<u8> {
    if line.len() > 0 && line[0] == DOT {
        seq![DOT] + line
    } else {
        line
    }
}

/// A whole transmitted block: each line stuffed and CRLF-terminated,
/// closed by the lone-dot terminator line.
pub open spec fn stuff_block(lines: Seq<Seq<u8>>) -> Seq<u8>
    decreases lines.len(),
{
    if lines.len() == 0 {
        seq![DOT, CR, LF]
    } else {
        stuff_line(lines[0]) + crlf() + stuff_block(lines.skip(1))
    }
}

/// The original octet stream of a body: its lines joined with CRLF.
pub open spec fn joined_lines(lines: Seq<Seq<u8>>) -> Seq<u8>
    decreases lines.len(),
{
    if lines.len() == 0 {
        Seq::empty()
    } else {
        lines[0] + crlf() + joined_lines(lines.skip(1))
    }
}

/// Law: the de-stuffing round trip.  A body transmitted with byte
/// stuffing decodes back to exactly the original octet stream - each
/// line's escaping dot is the only byte removed, the CRLF endings are
/// kept, and the terminator contributes nothing - with no bytes left
/// after the terminator.
pub proof fn lemma_destuff_round_trip(lines: Seq<Seq<u8>>)
    requires
        forall|k: int| 0 <= k < lines.len() ==> wire_safe_line(#[trigger] lines[k]),
    ensures
        message_block(stuff_block(lines)) == Some((joined_lines(lines), Seq::<u8>::empty())),
    decreases lines.len(),
{
    if lines.len() == 0 {
        let s = seq![DOT, CR, LF];
        assert(s.skip(1) =~= seq![CR, LF]);
        assert(find_crlf(seq![CR, LF]) == Some(0int));
        assert(seq![CR, LF].skip(2) =~= Seq::<u8>::empty());
        assert(block_line_crlf(s) == Some((None::<Seq<u8>>, Seq::<u8>::empty())));
    } else {
        let l = lines[0];
        let rest_lines = lines.skip(1);
        let tail = stuff_block(rest_lines);
        let s = stuff_block(lines);
        let dotted = s.len() > 0 && s[0] == DOT;
        let ll = l.len() as int;
        if l.len() > 0 && l[0] == DOT {
            assert(stuff_line(l) == seq![DOT] + l);
            assert(s[0] == DOT);
            assert(dotted);
            assert(s.skip(1) =~= l + crlf() + tail);
        } else {
            assert(stuff_line(l) == l);
            if l.len() > 0 {
                assert(s[0] == l[0]);
            } else {
                assert(s[0] == CR);
            }
            assert(!dotted);
            assert(s =~= l + crlf() + tail);
        }
        let body = if dotted {
            s.skip(1)
        } else {
            s
        };
        assert(body =~= l + crlf() + tail);
        assert(body[ll] == CR && body[ll + 1] == LF);
        assert forall|j: int| 0 <= j < ll implies !(#[trigger] body[j] == CR && body[j + 1]
            == LF) by {
            assert(body[j] == l[j]);
            if j + 1 < ll {
                assert(body[j + 1] == l[j + 1]);
                assert(!crlf_at(l, j));
            } else {
                assert(body[j + 1] == CR);
            }
        }
        lemma_find_crlf_at(body, ll);
        assert(body.take(ll + 2) =~= l + crlf());
        assert(body.skip(ll + 2) =~= tail);
        assert(block_line_crlf(s) == Some((Some(l + crlf()), tail)));
        assert forall|k: int| 0 <= k < rest_lines.len() implies wire_safe_line(
            #[trigger] rest_lines[k],
        ) by {
            assert(rest_lines[k] == lines[k + 1]);
        }
        lemma_destuff_round_trip(rest_lines);
        assert((l + crlf()) + joined_lines(rest_lines) =~= joined_lines(lines));
    }
}

/// All digit strings of a listing block fit in an unsigned 64-bit number.
pub open spec fn listings_fit(ls: Seq<(Seq<u8>, Seq<u8>)>) -> bool {
    forall|k: int|
        0 <= k < ls.len() ==> dec_val(ls[k].0) <= u64::MAX && dec_val(ls[k].1) <= u64::MAX
}

/// `vs` holds, pair by pair and in order, the decimal values of the digit
/// strings in `ls`.
pub open spec fn listing_values(ls: Seq<(Seq<u8>, Seq<u8>)>, vs: Seq<(u64, u64)>) -> bool {
    &&& vs.len() == ls.len()
    &&& forall|k: int|
        0 <= k < ls.len() ==> vs[k].0 as int == dec_val(ls[k].0) && vs[k].1 as int == dec_val(
            ls[k].1,
        )
}

/// True when some byte of `s` is a CR or LF: such bytes cannot appear in a
/// command argument without breaking the line framing.
pub open spec fn has_crlf_byte(s: Seq<u8>) -> bool {
    exists|i: int| 0 <= i < s.len() && (s[i] == CR || s[i] == LF)
}

} // verus!


//! The command encoder: a logical POP3 command becomes the exact bytes of
//! one request line, `VERB [SP argument] CRLF`.
//!
//! Each builder's postcondition pins the buffer to a function of the
//! command's inputs alone, so rebuilding a command can never leak bytes of
//! an earlier one.  Arguments that hold a CR or LF are rejected before any
//! bytes are built: copied verbatim they would break the line framing and
//! let a caller-supplied string inject further command lines.

use vstd::prelude::*;
use vstd::utf8::encode_utf8;

use crate::error::Pop3Error;
use crate::grammar::CR;
use crate::grammar::LF;
use crate::grammar::SP;
use crate::grammar::crlf;
use crate::grammar::find_byte;
use crate::grammar::find_crlf;
use crate::grammar::has_crlf_byte;
use crate::grammar::lemma_find_byte_at;
use crate::grammar::lemma_find_crlf_at;
use crate::parser::find_crlf_exec;
use crate::text::bytes_to_string;
use crate::text::decoded;

verus! {

/// The decimal digits of `n`, most significant first, as ASCII bytes.
pub open spec fn dec_of(n: nat) -> Seq<u8>
    decreases n,
{
    if n < 10 {
        seq![(48 + n) as u8]
    } else {
        dec_of(n / 10) + seq![(48 + (n % 10)) as u8]
    }
}

/// `USER <name>\r\n`.
pub open spec fn user_cmd(arg: Seq<u8>) -> Seq<u8> {
    seq![85u8, 83u8, 69u8, 82u8, SP] + arg + crlf()
}

/// `PASS <secret>\r\n`.
pub open spec fn pass_cmd(arg: Seq<u8>) -> Seq<u8> {
    seq![80u8, 65u8, 83u8, 83u8, SP] + arg + crlf()
}

/// `STAT\r\n`.
pub open spec fn stat_cmd() -> Seq<u8> {
    seq![83u8, 84u8, 65u8, 84u8, CR, LF]
}

/// `LIST\r\n`.
pub open spec fn list_all_cmd() -> Seq<u8> {
    seq![76u8, 73u8, 83u8, 84u8, CR, LF]
}

/// `LIST <id>\r\n`.
pub open spec fn list_one_cmd(id: u64) -> Seq<u8> {
    seq![76u8, 73u8, 83u8, 84u8, SP] + dec_of(id as nat) + crlf()
}

/// `RETR <id>\r\n`.
pub open spec fn retr_cmd(id: u64) -> Seq<u8> {
    seq![82u8, 69u8, 84u8, 82u8, SP] + dec_of(id as nat) + crlf()
}

/// `QUIT\r\n`.
pub open spec fn quit_cmd() -> Seq<u8> {
    seq![81u8, 85u8, 73u8, 84u8, CR, LF]
}

/// A permissive reading of one request line: the bytes up to the first
/// CRLF, split at the first space into a verb and an optional argument.
pub open spec fn command_parts(s: Seq<u8>) -> Option<(Seq<u8>, Option<Seq<u8>>)> {
    match find_crlf(s) {
        None => None,
        Some(i) => {
            let line = s.take(i);
            match find_byte(line, SP) {
                None => Some((line, None)),
                Some(j) => Some((line.take(j), Some(line.skip(j + 1)))),
            }
        },
    }
}

/// Law: a command line `VERB SP <arg> CRLF`, with a space-free verb and an
/// argument free of CR and LF, splits back into exactly that verb and that
/// argument.
proof fn lemma_arg_command_parts(verb: Seq<u8>, arg: Seq<u8>)
    requires
        verb.len() == 4,
        forall|j: int| 0 <= j < verb.len() ==> verb[j] != SP && verb[j] != CR && verb[j] != LF,
        !has_crlf_byte(arg),
    ensures
        command_parts(verb + seq![SP] + arg + crlf()) == Some((verb, Some(arg))),
{
    let s = verb + seq![SP] + arg + crlf();
    let la = arg.len() as int;
    assert(s.len() == la + 7);
    assert forall|j: int| 0 <= j < 4 implies s[j] == verb[j] by {}
    assert(s[4] == SP);
    assert forall|j: int| 5 <= j < la + 5 implies s[j] == arg[j - 5] by {}
    assert(s[la + 5] == CR && s[la + 6] == LF);
    assert forall|j: int| 0 <= j < la + 5 implies !(#[trigger] s[j] == CR && s[j + 1] == LF) by {
        if 5 <= j < la + 5 {
            assert(s[j] == arg[j - 5]);
            if s[j] == CR || s[j] == LF {
                assert(has_crlf_byte(arg));
            }
        }
    }
    lemma_find_crlf_at(s, la + 5);
    let line = s.take(la + 5);
    assert(line =~= verb + seq![SP] + arg);
    lemma_find_byte_at(line, SP, 4);
    assert(line.take(4) =~= verb);
    assert(line.skip(5) =~= arg);
}

/// Law: encoding a USER command and splitting the encoded bytes back
/// through the permissive line reader recovers the exact verb and
/// argument, for every argument free of CR and LF.
pub proof fn lemma_user_round_trip(arg: Seq<u8>)
    requires
        !has_crlf_byte(arg),
    ensures
        command_parts(user_cmd(arg)) == Some((seq![85u8, 83u8, 69u8, 82u8], Some(arg))),
{
    let verb = seq![85u8, 83u8, 69u8, 82u8];
    assert(user_cmd(arg) =~= verb + seq![SP] + arg + crlf());
    lemma_arg_command_parts(verb, arg);
}

/// Law: the PASS counterpart of [`lemma_user_round_trip`].
pub proof fn lemma_pass_round_trip(arg: Seq<u8>)
    requires
        !has_crlf_byte(arg),
    ensures
        command_parts(pass_cmd(arg)) == Some((seq![80u8, 65u8, 83u8, 83u8], Some(arg))),
{
    let verb = seq![80u8, 65u8, 83u8, 83u8];
    assert(pass_cmd(arg) =~= verb + seq![SP] + arg + crlf());
    lemma_arg_command_parts(verb, arg);
}

/// Split one encoded request line into its verb and optional argument, as
/// [`command_parts`] reads it.
pub fn split_command(msg: &[u8]) -> (r: Option<(Vec<u8>, Option<Vec<u8>>)>)
    ensures
        match command_parts(msg@) {
            None => r is None,
            Some((verb, arg)) => match r {
                Some((rv, ra)) => rv@ == verb && match (arg, ra) {
                    (None, None) => true,
                    (Some(a), Some(av)) => av@ == a,
                    _ => false,
                },
                None => false,
            },
        },
{
    let i = match find_crlf_exec(msg) {
        None => {
            return None;
        },
        Some(i) => i,
    };
    proof {
        crate::grammar::lemma_find_crlf(msg@);
    }
    let line = vstd::slice::slice_subrange(msg, 0, i);
    let mut j: usize = 0;
    proof {
        assert(line@ =~= msg@.take(i as int));
    }
    while j < line.len() && line[j] != SP
        invariant
            j <= line@.len(),
            forall|k: int| 0 <= k < j ==> line@[k] != SP,
        decreases line@.len() - j,
    {
        j += 1;
    }
    if j == line.len() {
        proof {
            crate::grammar::lemma_find_byte(line@, SP);
            match find_byte(line@, SP) {
                None => {},
                Some(k) => {
                    assert(line@[k] != SP);
                },
            }
        }
        Some((vstd::slice::slice_to_vec(line), None))
    } else {
        proof {
            lemma_find_byte_at(line@, SP, j as int);
        }
        let verb = vstd::slice::slice_to_vec(vstd::slice::slice_subrange(line, 0, j));
        let arg = vstd::slice::slice_to_vec(vstd::slice::slice_subrange(line, j + 1, line.len()));
        Some((verb, Some(arg)))
    }
}

/// True when some byte of `s` is a CR or LF.
fn contains_crlf_byte(s: &[u8]) -> (r: bool)
    ensures
        r == has_crlf_byte(s@),
{
    let mut j: usize = 0;
    while j < s.len()
        invariant
            j <= s@.len(),
            forall|k: int| 0 <= k < j ==> s@[k] != CR && s@[k] != LF,
        decreases s@.len() - j,
    {
        if s[j] == CR || s[j] == LF {
            return true;
        }
        j += 1;
    }
    false
}

/// Append the decimal digits of `n`, most significant first.
fn push_dec(out: &mut Vec<u8>, n: u64)
    ensures
        final(out)@ == old(out)@ + dec_of(n as nat),
    decreases n,
{
    if n < 10 {
        out.push(48 + (n as u8));
        proof {
            assert(final(out)@ =~= old(out)@ + dec_of(n as nat));
        }
    } else {
        push_dec(out, n / 10);
        out.push(48 + ((n % 10) as u8));
        proof {
            assert((48 + ((n as nat) % 10)) as u8 == 48 + ((n % 10) as u8));
            assert(final(out)@ =~= old(out)@ + dec_of(n as nat));
        }
    }
}

/// The outbound command buffer: cleared and re-populated for every build,
/// never partially reused across commands.
pub struct Msg {
    buf: Vec<u8>,
}

impl View for Msg {
    type V = Seq<u8>;

    closed spec fn view(&self) -> Seq<u8> {
        self.buf@
    }
}

impl Msg {
    /// A fresh, empty buffer with room for `len` bytes.
    pub fn with_maximum_len(len: usize) -> (r: Self)
        ensures
            r@ == Seq::<u8>::empty(),
    {
        Msg { buf: Vec::with_capacity(len) }
    }

    /// The bytes of the command built last.
    pub fn get_msg(&self) -> (r: &[u8])
        ensures
            r@ == self@,
    {
        self.buf.as_slice()
    }

    /// The built command as text.
    pub fn into_string(self) -> (r: String)
        ensures
            decoded(self@, r@),
    {
        bytes_to_string(self.buf.as_slice())
    }

    /// Build `USER <name>\r\n`; a name holding a CR or LF is rejected and
    /// the buffer left empty.
    pub fn user(&mut self, name: &str) -> (r: Result<(), Pop3Error>)
        ensures
            ({
                let arg = encode_utf8(name@);
                if has_crlf_byte(arg) {
                    r matches Err(e) && e is BadArgument && final(self)@ == Seq::<u8>::empty()
                } else {
                    r is Ok && final(self)@ == user_cmd(arg)
                }
            }),
    {
        self.buf.clear();
        let bytes = name.as_bytes();
        if contains_crlf_byte(bytes) {
            return Err(Pop3Error::BadArgument);
        }
        self.buf.push(85);
        self.buf.push(83);
        self.buf.push(69);
        self.buf.push(82);
        self.buf.push(SP);
        self.buf.extend_from_slice(bytes);
        self.buf.push(CR);
        self.buf.push(LF);
        proof {
            assert(self.buf@ =~= user_cmd(encode_utf8(name@)));
        }
        Ok(())
    }

    /// Build `PASS <secret>\r\n`; a secret holding a CR or LF is rejected
    /// and the buffer left empty.
    pub fn pass(&mut self, secret: &str) -> (r: Result<(), Pop3Error>)
        ensures
            ({
                let arg = encode_utf8(secret@);
                if has_crlf_byte(arg) {
                    r matches Err(e) && e is BadArgument && final(self)@ == Seq::<u8>::empty()
                } else {
                    r is Ok && final(self)@ == pass_cmd(arg)
                }
            }),
    {
        self.buf.clear();
        let bytes = secret.as_bytes();
        if contains_crlf_byte(bytes) {
            return Err(Pop3Error::BadArgument);
        }
        self.buf.push(80);
        self.buf.push(65);
        self.buf.push(83);
        self.buf.push(83);
        self.buf.push(SP);
        self.buf.extend_from_slice(bytes);
        self.buf.push(CR);
        self.buf.push(LF);
        proof {
            assert(self.buf@ =~= pass_cmd(encode_utf8(secret@)));
        }
        Ok(())
    }

    /// Build `STAT\r\n`.
    pub fn stat(&mut self) -> (r: Result<(), Pop3Error>)
        ensures
            r is Ok,
            final(self)@ == stat_cmd(),
    {
        self.buf.clear();
        self.buf.push(83);
        self.buf.push(84);
        self.buf.push(65);
        self.buf.push(84);
        self.buf.push(CR);
        self.buf.push(LF);
        proof {
            assert(self.buf@ =~= stat_cmd());
        }
        Ok(())
    }

    /// Build `LIST\r\n` when `id` is absent, `LIST <id>\r\n` when present.
    pub fn list(&mut self, id: Option<u64>) -> (r: Result<(), Pop3Error>)
        ensures
            r is Ok,
            final(self)@ == match id {
                None => list_all_cmd(),
                Some(n) => list_one_cmd(n),
            },
    {
        self.buf.clear();
        self.buf.push(76);
        self.buf.push(73);
        self.buf.push(83);
        self.buf.push(84);
        match id {
            None => {
                self.buf.push(CR);
                self.buf.push(LF);
                proof {
                    assert(self.buf@ =~= list_all_cmd());
                }
            },
            Some(n) => {
                self.buf.push(SP);
                push_dec(&mut self.buf, n);
                self.buf.push(CR);
                self.buf.push(LF);
                proof {
                    assert(self.buf@ =~= list_one_cmd(n));
                }
            },
        }
        Ok(())
    }

    /// Build `RETR <id>\r\n`.
    pub fn retr(&mut self, id: u64) -> (r: Result<(), Pop3Error>)
        ensures
            r is Ok,
            final(self)@ == retr_cmd(id),
    {
        self.buf.clear();
        self.buf.push(82);
        self.buf.push(69);
        self.buf.push(84);
        self.buf.push(82);
        self.buf.push(SP);
        push_dec(&mut self.buf, id);
        self.buf.push(CR);
        self.buf.push(LF);
        proof {
            assert(self.buf@ =~= retr_cmd(id));
        }
        Ok(())
    }

    /// Build `QUIT\r\n`.
    pub fn quit(&mut self) -> (r: Result<(), Pop3Error>)
        ensures
            r is Ok,
            final(self)@ == quit_cmd(),
    {
        self.buf.clear();
        self.buf.push(81);
        self.buf.push(85);
        self.buf.push(73);
        self.buf.push(84);
        self.buf.push(CR);
        self.buf.push(LF);
        proof {
            assert(self.buf@ =~= quit_cmd());
        }
        Ok(())
    }
}

impl Default for Msg {
    /// An empty buffer pre-sized for the longest expected request line.
    fn default() -> (r: Self)
        ensures
            r@ == Seq::<u8>::empty(),
    {
        Msg::with_maximum_len(27)
    }
}

} // verus!

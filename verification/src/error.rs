use vstd::prelude::*;

verus! {

/// Why a POP3 exchange failed.
///
/// A `Protocol` failure is a cleanly parsed `-ERR` reply: the connection is
/// still framed correctly and may be reused.  A `Grammar` failure means the
/// response bytes did not match the shape the protocol promises, so the
/// connection's framing position is suspect.  `BadArgument` is an encoding
/// failure raised before any network activity: the argument (or address)
/// cannot be sent as given.
#[derive(Debug, PartialEq, Eq)]
pub enum Pop3Error {
    /// The response bytes do not match the expected grammar.
    Grammar,
    /// The server answered `-ERR`; the field holds its trailing text.
    Protocol(String),
    /// A command argument or address that would break the line framing.
    BadArgument,
}

impl Pop3Error {
    /// A human-readable description; for a `Protocol` failure it is the
    /// server's own trailing text.
    pub fn message(&self) -> (r: String)
        ensures
            match self {
                Pop3Error::Grammar => r@ == "malformed response"@,
                Pop3Error::Protocol(t) => r@ == t@,
                Pop3Error::BadArgument => r@ == "argument cannot be framed"@,
            },
    {
        match self {
            Pop3Error::Grammar => String::from_str("malformed response"),
            Pop3Error::Protocol(t) => t.clone(),
            Pop3Error::BadArgument => String::from_str("argument cannot be framed"),
        }
    }

    /// True exactly for the recoverable case: the server's own `-ERR`.
    pub fn is_protocol(&self) -> (r: bool)
        ensures
            r == (self is Protocol),
    {
        match self {
            Pop3Error::Protocol(_) => true,
            _ => false,
        }
    }
}

/// Response bytes that do not match the shape the grammar expects.  The
/// byte-level parsers report this alone; the `parse_*` entry points fold it
/// into [`Pop3Error::Grammar`].
#[derive(Clone, Copy, Debug, PartialEq, Eq, Structural)]
pub struct GrammarError;

/// A plain error message, the shape in which failures are handed to the
/// caller-facing command layer.
pub struct ErrorMsg {
    msg: String,
}

impl View for ErrorMsg {
    type V = Seq<char>;

    closed spec fn view(&self) -> Seq<char> {
        self.msg@
    }
}

impl ErrorMsg {
    /// The wrapped message text.
    pub fn message(&self) -> (r: &str)
        ensures
            r@ == self@,
    {
        self.msg.as_str()
    }
}

impl From<String> for ErrorMsg {
    fn from(msg: String) -> (r: Self) {
        ErrorMsg { msg }
    }
}

impl vstd::std_specs::convert::FromSpecImpl<String> for ErrorMsg {
    open spec fn obeys_from_spec() -> bool {
        true
    }

    closed spec fn from_spec(msg: String) -> Self {
        ErrorMsg { msg }
    }
}

} // verus!

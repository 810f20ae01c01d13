//! The structured message a MIME decoder produces from the raw bytes a
//! RETR returns.
//!
//! The decoding itself is a collaborator outside the protocol core: the
//! core's only contract with it is to hand over well-formed, fully
//! reconstructed message bytes.  These types are the plain shape of its
//! result: header texts as received, unvalidated, and an ordered sequence
//! of body parts, each tagged by its content type.

use vstd::prelude::*;

verus! {

/// One body part of a decoded message, tagged by MIME content type.
#[derive(Debug)]
pub enum PartType {
    /// A `text/html` part.
    Html(String),
    /// A `text/plain` part.
    Text(String),
    /// Any other content, kept as opaque bytes.
    Bin(Vec<u8>),
}

/// A decoded message: the received header texts, the raw reconstructed
/// text, and the ordered body parts.
#[derive(Debug, Default)]
pub struct Email {
    /// The `Subject` header, as received.
    pub subject: String,
    /// The `From` header, as received.
    pub from: String,
    /// The `To` header, as received.
    pub to: String,
    /// The whole message as text.
    pub raw: String,
    /// The `Date` header, as received.
    pub time: String,
    /// The body parts, in the order they stand in the message.
    pub parts: Vec<PartType>,
}

} // verus!

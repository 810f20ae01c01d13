//! A verified POP3 (RFC 1939) client core: a command encoder, the byte-level
//! response grammar with byte-stuffing removal, and the framing predicates a
//! transport needs to assemble single- and multi-line responses.

mod email;
pub mod encoder;
mod error;
pub mod grammar;
mod parser;
mod text;
pub mod transport;

pub use email::Email;
pub use email::PartType;
pub use encoder::Msg;
pub use encoder::split_command;
pub use error::ErrorMsg;
pub use error::GrammarError;
pub use error::Pop3Error;
pub use parser::get_line;
pub use parser::get_line_with_crlf;
pub use parser::get_list_result;
pub use parser::get_single_list_result;
pub use parser::get_stat_result;
pub use parser::get_status_line;
pub use parser::is_ok;
pub use parser::parse_list;
pub use parser::parse_retr_result;
pub use parser::parse_single_list;
pub use parser::parse_stat;
pub use parser::parse_status_line;
pub use text::decoded;
pub use text::lossy_of;
pub use transport::multiline_complete;
pub use transport::parse_addr;
pub use transport::response_complete;

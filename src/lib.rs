//! A minimal DNS lookup client: wire-format codecs for DNS messages, the
//! query/response exchange as a state machine, and resolver discovery from
//! the text of a resolver configuration file.
mod cursor;
mod error;
mod header;
mod kinds;
mod message;
mod name;
mod record;
mod resolv;
mod session;

pub use cursor::{Reader, Writer};
pub use error::DiggerError;
pub use header::{DnsHeader, DnsOperations, HEADER_LEN};
pub use kinds::{DnsClass, DnsType};
pub use message::{build_dns_request, parse_message, parse_response, Message, MAX_MESSAGE_LEN};
pub use name::{decode_name, encode_name};
pub use record::{Question, Record};
pub use resolv::{parse_ipv4, parse_resolv_conf};
pub use session::{QuerySession, SessionState};

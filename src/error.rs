use vstd::prelude::*;

verus! {

/// Every way a lookup can fail.
#[derive(Debug, Clone, Copy, PartialEq, Eq, Structural)]
pub enum DiggerError {
    /// No usable system resolver.
    ResolverNotFound,
    /// The encoded domain name would exceed 255 octets.
    NameTooLong,
    /// A label is empty or longer than 63 octets.
    LabelTooLong,
    /// An encode step exceeded the buffer's capacity.
    BufferOverflow,
    /// A decode step ran out of bytes.
    TruncatedMessage,
    /// A name follows more than one compression pointer.
    CompressionLoop,
    /// A datagram is not the response to the query that was sent.
    ResponseMismatch,
    /// No valid response came within the time budget.
    ResolverTimeout,
}

/// The process exit status that reports each error kind.
pub open spec fn exit_code_of(e: DiggerError) -> i32 {
    match e {
        DiggerError::ResolverNotFound => 2,
        DiggerError::NameTooLong => 3,
        DiggerError::LabelTooLong => 4,
        DiggerError::BufferOverflow => 5,
        DiggerError::TruncatedMessage => 6,
        DiggerError::CompressionLoop => 7,
        DiggerError::ResponseMismatch => 8,
        DiggerError::ResolverTimeout => 9,
    }
}

impl DiggerError {
    /// A human-readable message, one per error kind.
    pub fn to_str(&self) -> (r: &'static str)
        ensures
            r@ == message_of(*self),
    {
        match self {
            DiggerError::ResolverNotFound => "Could not determine system resolver.",
            DiggerError::NameTooLong => "Domain name is longer than 255 octets.",
            DiggerError::LabelTooLong => "Domain name label is empty or longer than 63 octets.",
            DiggerError::BufferOverflow => "Message does not fit in the buffer.",
            DiggerError::TruncatedMessage => "Message ended before all declared entries were read.",
            DiggerError::CompressionLoop => "Domain name compression loops.",
            DiggerError::ResponseMismatch => "Datagram is not a response to the query.",
            DiggerError::ResolverTimeout => "Resolver did not answer in time.",
        }
    }

    /// The distinct process exit status for this error kind.
    pub fn exit_code(&self) -> (r: i32)
        ensures
            r == exit_code_of(*self),
    {
        match self {
            DiggerError::ResolverNotFound => 2,
            DiggerError::NameTooLong => 3,
            DiggerError::LabelTooLong => 4,
            DiggerError::BufferOverflow => 5,
            DiggerError::TruncatedMessage => 6,
            DiggerError::CompressionLoop => 7,
            DiggerError::ResponseMismatch => 8,
            DiggerError::ResolverTimeout => 9,
        }
    }
}

/// The message text of each error kind.
pub open spec fn message_of(e: DiggerError) -> Seq<char> {
    match e {
        DiggerError::ResolverNotFound => "Could not determine system resolver."@,
        DiggerError::NameTooLong => "Domain name is longer than 255 octets."@,
        DiggerError::LabelTooLong => "Domain name label is empty or longer than 63 octets."@,
        DiggerError::BufferOverflow => "Message does not fit in the buffer."@,
        DiggerError::TruncatedMessage => "Message ended before all declared entries were read."@,
        DiggerError::CompressionLoop => "Domain name compression loops."@,
        DiggerError::ResponseMismatch => "Datagram is not a response to the query."@,
        DiggerError::ResolverTimeout => "Resolver did not answer in time."@,
    }
}

} // verus!

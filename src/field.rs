//! The named fields of a record and the delimiters that bound each of them.
use vstd::prelude::*;

verus! {

/// The number of fields of a record in the older, shorter layout.
pub const SHORT_FIELD_COUNT: usize = 14;

/// The number of fields of a record in the newer layout, which adds the user
/// agent and the SSL cipher and protocol.
pub const FULL_FIELD_COUNT: usize = 17;

/// The fields of a record, in the order in which they appear in a line.
#[derive(Debug, Clone, Copy, PartialEq, Eq, Structural)]
pub enum ELBRecordField {
    Timestamp,
    ELBName,
    ClientAddress,
    BackendAddress,
    RequestProcessingTime,
    BackendProcessingTime,
    ResponseProcessingTime,
    ELBStatusCode,
    BackendStatusCode,
    ReceivedBytes,
    SentBytes,
    RequestMethod,
    RequestURL,
    RequestHTTPVersion,
    UserAgent,
    SSLCipher,
    SSLProtocol,
}

/// The position of a field in a line.
pub open spec fn field_position(f: ELBRecordField) -> nat {
    match f {
        ELBRecordField::Timestamp => 0,
        ELBRecordField::ELBName => 1,
        ELBRecordField::ClientAddress => 2,
        ELBRecordField::BackendAddress => 3,
        ELBRecordField::RequestProcessingTime => 4,
        ELBRecordField::BackendProcessingTime => 5,
        ELBRecordField::ResponseProcessingTime => 6,
        ELBRecordField::ELBStatusCode => 7,
        ELBRecordField::BackendStatusCode => 8,
        ELBRecordField::ReceivedBytes => 9,
        ELBRecordField::SentBytes => 10,
        ELBRecordField::RequestMethod => 11,
        ELBRecordField::RequestURL => 12,
        ELBRecordField::RequestHTTPVersion => 13,
        ELBRecordField::UserAgent => 14,
        ELBRecordField::SSLCipher => 15,
        ELBRecordField::SSLProtocol => 16,
    }
}

/// The human-readable name of a field.
pub open spec fn field_label(f: ELBRecordField) -> Seq<char> {
    match f {
        ELBRecordField::Timestamp => "timestamp"@,
        ELBRecordField::ELBName => "ELB name"@,
        ELBRecordField::ClientAddress => "client address"@,
        ELBRecordField::BackendAddress => "backend address"@,
        ELBRecordField::RequestProcessingTime => "request processing time"@,
        ELBRecordField::BackendProcessingTime => "backend processing time"@,
        ELBRecordField::ResponseProcessingTime => "response processing time"@,
        ELBRecordField::ELBStatusCode => "ELB status code"@,
        ELBRecordField::BackendStatusCode => "backend status code"@,
        ELBRecordField::ReceivedBytes => "received bytes"@,
        ELBRecordField::SentBytes => "sent bytes"@,
        ELBRecordField::RequestMethod => "request method"@,
        ELBRecordField::RequestURL => "request URL"@,
        ELBRecordField::RequestHTTPVersion => "request HTTP version"@,
        ELBRecordField::UserAgent => "user agent"@,
        ELBRecordField::SSLCipher => "SSL cipher"@,
        ELBRecordField::SSLProtocol => "SSL protocol"@,
    }
}

/// The character that opens a field, if the field has one: the quote that
/// opens the request line or the user agent, and the single space that
/// separates the user agent from the SSL cipher.
pub open spec fn start_delimiter(position: nat) -> Option<char> {
    if position == 11 || position == 14 {
        Some('"')
    } else if position == 15 {
        Some(' ')
    } else {
        None
    }
}

/// The character that closes a field: the closing quote of the request line
/// and of the user agent, a space everywhere else.
pub open spec fn end_delimiter(position: nat) -> char {
    if position == 13 || position == 14 {
        '"'
    } else {
        ' '
    }
}

/// The start delimiter of the field at `position` of the delimiter table.
pub fn start_delimiter_at(position: usize) -> (r: Option<char>)
    ensures
        r == start_delimiter(position as nat),
{
    if position == 11 || position == 14 {
        Some('"')
    } else if position == 15 {
        Some(' ')
    } else {
        None
    }
}

/// The end delimiter of the field at `position` of the delimiter table.
pub fn end_delimiter_at(position: usize) -> (r: char)
    ensures
        r == end_delimiter(position as nat),
{
    if position == 13 || position == 14 {
        '"'
    } else {
        ' '
    }
}

impl ELBRecordField {
    /// The position of this field in a line.
    pub fn position(&self) -> (r: usize)
        ensures
            r as nat == field_position(*self),
            r < FULL_FIELD_COUNT,
    {
        match self {
            ELBRecordField::Timestamp => 0,
            ELBRecordField::ELBName => 1,
            ELBRecordField::ClientAddress => 2,
            ELBRecordField::BackendAddress => 3,
            ELBRecordField::RequestProcessingTime => 4,
            ELBRecordField::BackendProcessingTime => 5,
            ELBRecordField::ResponseProcessingTime => 6,
            ELBRecordField::ELBStatusCode => 7,
            ELBRecordField::BackendStatusCode => 8,
            ELBRecordField::ReceivedBytes => 9,
            ELBRecordField::SentBytes => 10,
            ELBRecordField::RequestMethod => 11,
            ELBRecordField::RequestURL => 12,
            ELBRecordField::RequestHTTPVersion => 13,
            ELBRecordField::UserAgent => 14,
            ELBRecordField::SSLCipher => 15,
            ELBRecordField::SSLProtocol => 16,
        }
    }

    /// The human-readable name of this field, as it appears in messages.
    pub fn label(&self) -> (r: &'static str)
        ensures
            r@ == field_label(*self),
    {
        let r = match self {
            ELBRecordField::Timestamp => "timestamp",
            ELBRecordField::ELBName => "ELB name",
            ELBRecordField::ClientAddress => "client address",
            ELBRecordField::BackendAddress => "backend address",
            ELBRecordField::RequestProcessingTime => "request processing time",
            ELBRecordField::BackendProcessingTime => "backend processing time",
            ELBRecordField::ResponseProcessingTime => "response processing time",
            ELBRecordField::ELBStatusCode => "ELB status code",
            ELBRecordField::BackendStatusCode => "backend status code",
            ELBRecordField::ReceivedBytes => "received bytes",
            ELBRecordField::SentBytes => "sent bytes",
            ELBRecordField::RequestMethod => "request method",
            ELBRecordField::RequestURL => "request URL",
            ELBRecordField::RequestHTTPVersion => "request HTTP version",
            ELBRecordField::UserAgent => "user agent",
            ELBRecordField::SSLCipher => "SSL cipher",
            ELBRecordField::SSLProtocol => "SSL protocol",
        };
        r
    }

    /// The human-readable name of this field as an owned string.
    pub fn to_string(&self) -> (r: String)
        ensures
            r@ == field_label(*self),
    {
        self.label().to_owned()
    }
}

} // verus!

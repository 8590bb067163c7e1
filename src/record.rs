//! Decoding a line into a record, collecting every field that fails.
use vstd::prelude::*;

use crate::decode::{
    check_float, float_check, is_socket_address, names_address, parse_socket_address,
    parse_unsigned, unsigned_from, SocketAddress, INVALID_SOCKET_ADDRESS,
};
use crate::field::{field_label, field_position, ELBRecordField, FULL_FIELD_COUNT, SHORT_FIELD_COUNT};
use crate::split::{split_fields, split_record};
use crate::time::{read_timestamp, timestamp_from, Timestamp};

verus! {

/// The text that stands for a field that the line's layout does not have.
pub const UNDEFINED_CHAR: &'static str = "-";

/// A decoded record.
///
/// The processing times are kept as the text of the line: each is a decimal
/// floating-point literal, in seconds, which may be negative.
#[derive(Debug)]
pub struct ELBRecord<'a> {
    pub timestamp: Timestamp,
    pub elb_name: &'a str,
    pub client_address: SocketAddress,
    pub backend_address: SocketAddress,
    pub request_processing_time: &'a str,
    pub backend_processing_time: &'a str,
    pub response_processing_time: &'a str,
    pub elb_status_code: u16,
    pub backend_status_code: u16,
    pub received_bytes: u64,
    pub sent_bytes: u64,
    pub request_method: &'a str,
    pub request_url: &'a str,
    pub request_http_version: &'a str,
    pub user_agent: &'a str,
    pub ssl_cipher: &'a str,
    pub ssl_protocol: &'a str,
}

/// One reason why a line could not be decoded.
#[derive(Debug, PartialEq)]
pub enum ELBRecordParsingError {
    /// The line does not have the number of fields of either layout.
    MalformedRecord,
    /// A field could not be decoded.
    ParsingError { field_name: ELBRecordField, description: String },
}

impl ELBRecordParsingError {
    /// A short description of the kind of error.
    pub fn description(&self) -> (r: &'static str)
        ensures
            r@ == match self {
                ELBRecordParsingError::MalformedRecord => "malformed record"@,
                ELBRecordParsingError::ParsingError { .. } => "field parsing failed"@,
            },
    {
        match self {
            ELBRecordParsingError::MalformedRecord => "malformed record",
            ELBRecordParsingError::ParsingError { .. } => "field parsing failed",
        }
    }

    /// The message that explains the error to a reader.
    pub fn to_string(&self) -> (r: String)
        ensures
            r@ == match self {
                ELBRecordParsingError::MalformedRecord => "Record is malformed."@,
                ELBRecordParsingError::ParsingError { field_name, description } => "Parsing of field "@
                    + field_label(*field_name) + " failed with the following error: "@
                    + description@ + "."@,
            },
    {
        match self {
            ELBRecordParsingError::MalformedRecord => "Record is malformed.".to_owned(),
            ELBRecordParsingError::ParsingError { field_name, description } => {
                let s = "Parsing of field ".to_owned();
                let s = s.concat(field_name.label());
                let s = s.concat(" failed with the following error: ");
                let s = s.concat(description.as_str());
                s.concat(".")
            },
        }
    }
}

/// What an [`ELBRecordParsingError`] says, as a mathematical value.
pub enum ErrorView {
    Malformed,
    Field(ELBRecordField, Seq<char>),
}

impl View for ELBRecordParsingError {
    type V = ErrorView;

    open spec fn view(&self) -> ErrorView {
        match self {
            ELBRecordParsingError::MalformedRecord => ErrorView::Malformed,
            ELBRecordParsingError::ParsingError { field_name, description } => ErrorView::Field(
                *field_name,
                description@,
            ),
        }
    }
}

/// The failed attempt to decode a line: the line and every reason.
#[derive(Debug, PartialEq)]
pub struct ParsingErrors<'a> {
    pub record: &'a str,
    pub errors: Vec<ELBRecordParsingError>,
}

/// The views of a sequence of errors.
pub open spec fn error_views(errors: Seq<ELBRecordParsingError>) -> Seq<ErrorView> {
    errors.map_values(|e: ELBRecordParsingError| e@)
}

/// The message with which the field `field` holding `text` fails to decode,
/// if it does. Fields that are kept as text never fail.
pub open spec fn field_failure(field: ELBRecordField, text: Seq<char>) -> Option<Seq<char>> {
    match field {
        ELBRecordField::Timestamp => match timestamp_from(text) {
            Ok(_) => None,
            Err(m) => Some(m),
        },
        ELBRecordField::ClientAddress | ELBRecordField::BackendAddress => {
            if is_socket_address(text) {
                None
            } else {
                Some(INVALID_SOCKET_ADDRESS@)
            }
        },
        ELBRecordField::RequestProcessingTime | ELBRecordField::BackendProcessingTime
        | ELBRecordField::ResponseProcessingTime => match float_check(text) {
            Ok(_) => None,
            Err(m) => Some(m),
        },
        ELBRecordField::ELBStatusCode | ELBRecordField::BackendStatusCode => match unsigned_from(
            text,
            u16::MAX as nat,
        ) {
            Ok(_) => None,
            Err(m) => Some(m),
        },
        ELBRecordField::ReceivedBytes | ELBRecordField::SentBytes => match unsigned_from(
            text,
            u64::MAX as nat,
        ) {
            Ok(_) => None,
            Err(m) => Some(m),
        },
        _ => None,
    }
}

/// Whether `field` is decoded from its text rather than kept as text.
pub open spec fn decoded_field(field: ELBRecordField) -> bool {
    match field {
        ELBRecordField::Timestamp | ELBRecordField::ClientAddress | ELBRecordField::BackendAddress
        | ELBRecordField::RequestProcessingTime | ELBRecordField::BackendProcessingTime
        | ELBRecordField::ResponseProcessingTime | ELBRecordField::ELBStatusCode
        | ELBRecordField::BackendStatusCode | ELBRecordField::ReceivedBytes
        | ELBRecordField::SentBytes => true,
        _ => false,
    }
}

/// The error that the field `field` of the raw fields `f` adds: none, or one.
pub open spec fn failure_of(f: Seq<Seq<char>>, field: ELBRecordField) -> Seq<ErrorView> {
    match field_failure(field, f[field_position(field) as int]) {
        Some(m) => seq![ErrorView::Field(field, m)],
        None => Seq::empty(),
    }
}

/// The errors of the raw fields `f`, in field order.
pub open spec fn field_failures(f: Seq<Seq<char>>) -> Seq<ErrorView> {
    failure_of(f, ELBRecordField::Timestamp) + failure_of(f, ELBRecordField::ClientAddress)
        + failure_of(f, ELBRecordField::BackendAddress) + failure_of(
        f,
        ELBRecordField::RequestProcessingTime,
    ) + failure_of(f, ELBRecordField::BackendProcessingTime) + failure_of(
        f,
        ELBRecordField::ResponseProcessingTime,
    ) + failure_of(f, ELBRecordField::ELBStatusCode) + failure_of(
        f,
        ELBRecordField::BackendStatusCode,
    ) + failure_of(f, ELBRecordField::ReceivedBytes) + failure_of(f, ELBRecordField::SentBytes)
}

/// Whether the layout with `count` fields is one of the two known ones.
pub open spec fn known_layout(count: nat) -> bool {
    count == SHORT_FIELD_COUNT || count == FULL_FIELD_COUNT
}

/// The text of an optional field at `position`: the field itself in the
/// longer layout, the placeholder in the shorter one.
pub open spec fn optional_field(f: Seq<Seq<char>>, position: int) -> Seq<char> {
    if f.len() == FULL_FIELD_COUNT {
        f[position]
    } else {
        UNDEFINED_CHAR@
    }
}

/// Whether `r` is the record that the raw fields `f` decode to.
pub open spec fn decodes_to(f: Seq<Seq<char>>, r: ELBRecord) -> bool {
    &&& timestamp_from(f[0]) == Ok::<Timestamp, Seq<char>>(r.timestamp)
    &&& r.timestamp.wf()
    &&& r.elb_name@ == f[1]
    &&& names_address(f[2], r.client_address)
    &&& names_address(f[3], r.backend_address)
    &&& r.request_processing_time@ == f[4]
    &&& r.backend_processing_time@ == f[5]
    &&& r.response_processing_time@ == f[6]
    &&& unsigned_from(f[7], u16::MAX as nat) == Ok::<nat, Seq<char>>(r.elb_status_code as nat)
    &&& unsigned_from(f[8], u16::MAX as nat) == Ok::<nat, Seq<char>>(
        r.backend_status_code as nat,
    )
    &&& unsigned_from(f[9], u64::MAX as nat) == Ok::<nat, Seq<char>>(r.received_bytes as nat)
    &&& unsigned_from(f[10], u64::MAX as nat) == Ok::<nat, Seq<char>>(r.sent_bytes as nat)
    &&& r.request_method@ == f[11]
    &&& r.request_url@ == f[12]
    &&& r.request_http_version@ == f[13]
    &&& r.user_agent@ == optional_field(f, 14)
    &&& r.ssl_cipher@ == optional_field(f, 15)
    &&& r.ssl_protocol@ == optional_field(f, 16)
}

/// What decoding `line` gives: the record when every field decodes, or the
/// line with every reason why not.
pub open spec fn parse_result_matches(line: Seq<char>, r: Result<ELBRecord, ParsingErrors>) -> bool {
    let f = split_fields(line);
    if !known_layout(f.len()) {
        r matches Err(e) && e.record@ == line && error_views(e.errors@) == seq![ErrorView::Malformed]
    } else if field_failures(f).len() == 0 {
        r matches Ok(rec) && decodes_to(f, rec)
    } else {
        r matches Err(e) && e.record@ == line && error_views(e.errors@) == field_failures(f)
    }
}

/// Appends the error of `field` with `message` to `errors`.
fn note_failure(errors: &mut Vec<ELBRecordParsingError>, field: ELBRecordField, message: String)
    ensures
        error_views(final(errors)@) == error_views(old(errors)@).push(
            ErrorView::Field(field, message@),
        ),
{
    errors.push(ELBRecordParsingError::ParsingError { field_name: field, description: message });
    assert(error_views(final(errors)@) =~= error_views(old(errors)@).push(
        ErrorView::Field(field, message@),
    ));
}

fn decode_timestamp(
    f: Ghost<Seq<Seq<char>>>,
    text: &str,
    errors: &mut Vec<ELBRecordParsingError>,
) -> (r: Option<Timestamp>)
    requires
        f@.len() > 0,
        f@[0] == text@,
    ensures
        error_views(final(errors)@) == error_views(old(errors)@) + failure_of(
            f@,
            ELBRecordField::Timestamp,
        ),
        r is Some <==> failure_of(f@, ELBRecordField::Timestamp).len() == 0,
        r matches Some(t) ==> timestamp_from(text@) == Ok::<Timestamp, Seq<char>>(t) && t.wf(),
{
    match read_timestamp(text) {
        Ok(t) => {
            assert(error_views(old(errors)@) + Seq::<ErrorView>::empty() =~= error_views(
                old(errors)@,
            ));
            Some(t)
        },
        Err(e) => {
            note_failure(errors, ELBRecordField::Timestamp, e);
            None
        },
    }
}

fn decode_address(
    f: Ghost<Seq<Seq<char>>>,
    field: ELBRecordField,
    text: &str,
    errors: &mut Vec<ELBRecordParsingError>,
) -> (r: Option<SocketAddress>)
    requires
        field == ELBRecordField::ClientAddress || field == ELBRecordField::BackendAddress,
        f@.len() > field_position(field),
        f@[field_position(field) as int] == text@,
    ensures
        error_views(final(errors)@) == error_views(old(errors)@) + failure_of(f@, field),
        r is Some <==> failure_of(f@, field).len() == 0,
        r matches Some(a) ==> names_address(text@, a),
{
    match parse_socket_address(text) {
        Ok(a) => {
            assert(error_views(old(errors)@) + Seq::<ErrorView>::empty() =~= error_views(
                old(errors)@,
            ));
            Some(a)
        },
        Err(e) => {
            note_failure(errors, field, e);
            None
        },
    }
}

fn decode_time(
    f: Ghost<Seq<Seq<char>>>,
    field: ELBRecordField,
    text: &str,
    errors: &mut Vec<ELBRecordParsingError>,
) -> (r: bool)
    requires
        field == ELBRecordField::RequestProcessingTime || field
            == ELBRecordField::BackendProcessingTime || field
            == ELBRecordField::ResponseProcessingTime,
        f@.len() > field_position(field),
        f@[field_position(field) as int] == text@,
    ensures
        error_views(final(errors)@) == error_views(old(errors)@) + failure_of(f@, field),
        r <==> failure_of(f@, field).len() == 0,
{
    match check_float(text) {
        Ok(_) => {
            assert(error_views(old(errors)@) + Seq::<ErrorView>::empty() =~= error_views(
                old(errors)@,
            ));
            true
        },
        Err(e) => {
            note_failure(errors, field, e);
            false
        },
    }
}

fn decode_unsigned(
    f: Ghost<Seq<Seq<char>>>,
    field: ELBRecordField,
    text: &str,
    max: u64,
    errors: &mut Vec<ELBRecordParsingError>,
) -> (r: Option<u64>)
    requires
        (field == ELBRecordField::ELBStatusCode || field == ELBRecordField::BackendStatusCode)
            && max == u16::MAX || (field == ELBRecordField::ReceivedBytes || field
            == ELBRecordField::SentBytes) && max == u64::MAX,
        f@.len() > field_position(field),
        f@[field_position(field) as int] == text@,
    ensures
        error_views(final(errors)@) == error_views(old(errors)@) + failure_of(f@, field),
        r is Some <==> failure_of(f@, field).len() == 0,
        r matches Some(v) ==> v <= max && unsigned_from(text@, max as nat) == Ok::<nat, Seq<char>>(v as nat),
{
    match parse_unsigned(text, max) {
        Ok(v) => {
            assert(error_views(old(errors)@) + Seq::<ErrorView>::empty() =~= error_views(
                old(errors)@,
            ));
            Some(v)
        },
        Err(e) => {
            note_failure(errors, field, e);
            None
        },
    }
}

/// Decodes one line of an access log.
///
/// A line whose raw fields are neither 14 nor 17 gives the single error
/// `MalformedRecord`. Otherwise every field is decoded, each one that fails
/// adds an error, and the record is returned only when none failed. In the
/// shorter layout the user agent and the SSL cipher and protocol are `-`.
pub fn parse_record<'a>(record: &'a str) -> (r: Result<ELBRecord<'a>, ParsingErrors<'a>>)
    ensures
        parse_result_matches(record@, r),
{
    let fields = split_record(record);
    let ghost f = split_fields(record@);
    let n = fields.len();
    if n != SHORT_FIELD_COUNT && n != FULL_FIELD_COUNT {
        let mut errors: Vec<ELBRecordParsingError> = Vec::new();
        errors.push(ELBRecordParsingError::MalformedRecord);
        assert(error_views(errors@) =~= seq![ErrorView::Malformed]);
        return Err(ParsingErrors { record, errors });
    }
    let mut errors: Vec<ELBRecordParsingError> = Vec::new();
    assert(error_views(errors@) =~= Seq::<ErrorView>::empty());
    let timestamp = decode_timestamp(Ghost(f), fields[0], &mut errors);
    let client_address = decode_address(
        Ghost(f),
        ELBRecordField::ClientAddress,
        fields[2],
        &mut errors,
    );
    let backend_address = decode_address(
        Ghost(f),
        ELBRecordField::BackendAddress,
        fields[3],
        &mut errors,
    );
    let request_time_ok = decode_time(
        Ghost(f),
        ELBRecordField::RequestProcessingTime,
        fields[4],
        &mut errors,
    );
    let backend_time_ok = decode_time(
        Ghost(f),
        ELBRecordField::BackendProcessingTime,
        fields[5],
        &mut errors,
    );
    let response_time_ok = decode_time(
        Ghost(f),
        ELBRecordField::ResponseProcessingTime,
        fields[6],
        &mut errors,
    );
    let elb_status_code = decode_unsigned(
        Ghost(f),
        ELBRecordField::ELBStatusCode,
        fields[7],
        u16::MAX as u64,
        &mut errors,
    );
    let backend_status_code = decode_unsigned(
        Ghost(f),
        ELBRecordField::BackendStatusCode,
        fields[8],
        u16::MAX as u64,
        &mut errors,
    );
    let received_bytes = decode_unsigned(
        Ghost(f),
        ELBRecordField::ReceivedBytes,
        fields[9],
        u64::MAX,
        &mut errors,
    );
    let sent_bytes = decode_unsigned(
        Ghost(f),
        ELBRecordField::SentBytes,
        fields[10],
        u64::MAX,
        &mut errors,
    );
    assert(error_views(errors@) =~= field_failures(f));
    let (user_agent, ssl_cipher, ssl_protocol) = if n == FULL_FIELD_COUNT {
        (fields[14], fields[15], fields[16])
    } else {
        (UNDEFINED_CHAR, UNDEFINED_CHAR, UNDEFINED_CHAR)
    };
    match (
        timestamp,
        client_address,
        backend_address,
        elb_status_code,
        backend_status_code,
        received_bytes,
        sent_bytes,
    ) {
        (
            Some(timestamp),
            Some(client_address),
            Some(backend_address),
            Some(elb_status_code),
            Some(backend_status_code),
            Some(received_bytes),
            Some(sent_bytes),
        ) if request_time_ok && backend_time_ok && response_time_ok => {
            Ok(
                ELBRecord {
                    timestamp,
                    elb_name: fields[1],
                    client_address,
                    backend_address,
                    request_processing_time: fields[4],
                    backend_processing_time: fields[5],
                    response_processing_time: fields[6],
                    elb_status_code: elb_status_code as u16,
                    backend_status_code: backend_status_code as u16,
                    received_bytes,
                    sent_bytes,
                    request_method: fields[11],
                    request_url: fields[12],
                    request_http_version: fields[13],
                    user_agent,
                    ssl_cipher,
                    ssl_protocol,
                },
            )
        },
        _ => Err(ParsingErrors { record, errors }),
    }
}

} // verus!

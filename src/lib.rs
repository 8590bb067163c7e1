//! Parsing of load-balancer access-log records.
//!
//! A record is one line of text. [`split::split_record`] cuts it into raw
//! fields by a per-field delimiter table, and [`record::parse_record`]
//! decodes those fields into an [`record::ELBRecord`], collecting every field
//! that fails to decode.
pub mod aggregate;
pub mod decode;
pub mod field;
pub mod files;
pub mod laws;
pub mod layout;
pub mod logging;
pub mod record;
pub mod split;
pub mod time;

pub use aggregate::{aggregate_key, aggregate_record, ipv4_text, parse_system_name, record_key, AggregateELBRecord, Aggregation};
pub use decode::SocketAddress;
pub use field::ELBRecordField;
pub use files::file_list;
pub use record::{parse_record, ELBRecord, ELBRecordParsingError, ParsingErrors};
pub use time::Timestamp;

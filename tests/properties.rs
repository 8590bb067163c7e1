use chrono::{NaiveDate, SecondsFormat};
use elp::decode::{check_float, parse_socket_address, parse_unsigned};
use elp::split::split_record;
use elp::{file_list, parse_record, ELBRecordField, ELBRecordParsingError, SocketAddress};

const SCENARIO_A: &str = "2015-08-15T23:43:05.302180Z elb-name 172.16.1.6:54814 172.16.1.5:9000 0.000039 0.145507 0.00003 200 200 0 7582 \"GET http://some.domain.com:80/path0/path1?param0=p0&param1=p1 HTTP/1.1\"";
const SCENARIO_B: &str = "2015-08-15T23:43:05.302180Z elb-name 172.16.1.6:54814 172.16.1.5:9000 0.000039 0.145507 0.00003 200 200 0 7582 \"GET http://some.domain.com:80/path0/path1?param0=p0&param1=p1 HTTP/1.1\" \"Mozilla/5.0 (cloud; like Mac OS X; en-us) AppleWebKit/537.36.0 (KHTML, like Gecko) Version/4.0.4 Mobile/7B334b Safari/537.36.0\" some_ssl_cipher some_ssl_protocol";

const PLAIN_FIELDS: [&str; 11] = [
    "2015-08-15T23:43:05.302180Z",
    "elb-name",
    "172.16.1.6:54814",
    "172.16.1.5:9000",
    "0.000039",
    "0.145507",
    "0.00003",
    "200",
    "200",
    "0",
    "7582",
];

fn line_with(replacements: &[(usize, &str)]) -> String {
    let mut fields: Vec<&str> = PLAIN_FIELDS.to_vec();
    for (i, t) in replacements {
        fields[*i] = t;
    }
    format!(
        "{} \"GET http://some.domain.com:80/path0/path1?param0=p0&param1=p1 HTTP/1.1\"",
        fields.join(" ")
    )
}

fn failed_fields(line: &str) -> Vec<ELBRecordField> {
    parse_record(line)
        .unwrap_err()
        .errors
        .into_iter()
        .map(|e| match e {
            ELBRecordParsingError::ParsingError { field_name, .. } => field_name,
            ELBRecordParsingError::MalformedRecord => panic!("unexpected malformed record"),
        })
        .collect()
}

fn descriptions(line: &str) -> Vec<String> {
    parse_record(line)
        .unwrap_err()
        .errors
        .into_iter()
        .map(|e| match e {
            ELBRecordParsingError::ParsingError { description, .. } => description,
            ELBRecordParsingError::MalformedRecord => panic!("unexpected malformed record"),
        })
        .collect()
}

#[test]
fn scenario_a_short_layout_decodes() {
    let r = parse_record(SCENARIO_A).unwrap();
    assert_eq!(r.sent_bytes, 7582);
    assert_eq!(r.received_bytes, 0);
    assert_eq!(r.request_method, "GET");
    assert_eq!(r.ssl_protocol, "-");
}

#[test]
fn scenario_b_full_layout_decodes() {
    let r = parse_record(SCENARIO_B).unwrap();
    assert_eq!(
        r.user_agent,
        "Mozilla/5.0 (cloud; like Mac OS X; en-us) AppleWebKit/537.36.0 (KHTML, like Gecko) Version/4.0.4 Mobile/7B334b Safari/537.36.0"
    );
    assert_eq!(r.ssl_cipher, "some_ssl_cipher");
    assert_eq!(r.ssl_protocol, "some_ssl_protocol");
}

#[test]
fn scenario_c_bad_sent_bytes_gives_one_error() {
    let line = SCENARIO_A.replace("7582", "bad_sent_bytes");
    let e = parse_record(&line).unwrap_err();
    assert_eq!(e.record, line);
    assert_eq!(e.errors.len(), 1);
    assert_eq!(
        e.errors[0],
        ELBRecordParsingError::ParsingError {
            field_name: ELBRecordField::SentBytes,
            description: "invalid digit found in string".to_owned(),
        }
    );
}

#[test]
fn scenario_d_thirteen_tokens_is_malformed() {
    let line = "2015-08-15T23:43:05.302180Z elb-name 172.16.1.6:54814 172.16.1.5:9000 0.000039 0.145507 200 200 0 7582 \"GET http://some.domain.com:80/path0/path1?param0=p0&param1=p1 HTTP/1.1\"";
    let e = parse_record(line).unwrap_err();
    assert_eq!(e.errors, vec![ELBRecordParsingError::MalformedRecord]);
    assert_eq!(e.record, line);
}

#[test]
fn other_field_counts_are_malformed() {
    let with_extra = format!("{} extra", SCENARIO_B);
    let fifteen = format!("{} \"agent\"", SCENARIO_A);
    for line in ["", "   ", "one", &with_extra, &fifteen] {
        let e = parse_record(line).unwrap_err();
        assert_eq!(e.errors, vec![ELBRecordParsingError::MalformedRecord], "line: {:?}", line);
    }
}

#[test]
fn each_corrupted_field_alone_gives_exactly_one_error() {
    let cases = [
        (0, ELBRecordField::Timestamp),
        (2, ELBRecordField::ClientAddress),
        (3, ELBRecordField::BackendAddress),
        (4, ELBRecordField::RequestProcessingTime),
        (5, ELBRecordField::BackendProcessingTime),
        (6, ELBRecordField::ResponseProcessingTime),
        (7, ELBRecordField::ELBStatusCode),
        (8, ELBRecordField::BackendStatusCode),
        (9, ELBRecordField::ReceivedBytes),
        (10, ELBRecordField::SentBytes),
    ];
    for (i, field) in cases {
        let line = line_with(&[(i, "corrupted")]);
        assert_eq!(failed_fields(&line), vec![field]);
    }
}

#[test]
fn two_corrupted_fields_give_two_errors_in_field_order() {
    let line = line_with(&[(10, "x"), (2, "y")]);
    assert_eq!(
        failed_fields(&line),
        vec![ELBRecordField::ClientAddress, ELBRecordField::SentBytes]
    );
    let line = line_with(&[(0, "x"), (7, "y"), (9, "z")]);
    assert_eq!(
        failed_fields(&line),
        vec![
            ELBRecordField::Timestamp,
            ELBRecordField::ELBStatusCode,
            ELBRecordField::ReceivedBytes
        ]
    );
}

#[test]
fn decoding_then_rebuilding_the_full_layout_gives_the_same_fields() {
    let r = parse_record(SCENARIO_B).unwrap();
    let t = r.timestamp;
    let timestamp = NaiveDate::from_ymd_opt(t.year, t.month, t.day)
        .unwrap()
        .and_hms_nano_opt(t.hour, t.minute, t.second, t.nanosecond)
        .unwrap()
        .and_utc()
        .to_rfc3339_opts(SecondsFormat::Micros, true);
    let address = |a: SocketAddress| {
        format!(
            "{}.{}.{}.{}:{}",
            a.octets[0], a.octets[1], a.octets[2], a.octets[3], a.port
        )
    };
    let rebuilt = format!(
        "{} {} {} {} {} {} {} {} {} {} {} \"{} {} {}\" \"{}\" {} {}",
        timestamp,
        r.elb_name,
        address(r.client_address),
        address(r.backend_address),
        r.request_processing_time,
        r.backend_processing_time,
        r.response_processing_time,
        r.elb_status_code,
        r.backend_status_code,
        r.received_bytes,
        r.sent_bytes,
        r.request_method,
        r.request_url,
        r.request_http_version,
        r.user_agent,
        r.ssl_cipher,
        r.ssl_protocol
    );
    assert_eq!(split_record(&rebuilt), split_record(SCENARIO_B));
    let again = parse_record(&rebuilt).unwrap();
    assert_eq!(again.timestamp, r.timestamp);
    assert_eq!(again.client_address, r.client_address);
    assert_eq!(again.backend_address, r.backend_address);
    assert_eq!(again.sent_bytes, r.sent_bytes);
    assert_eq!(again.user_agent, r.user_agent);
    assert_eq!(again.ssl_protocol, r.ssl_protocol);
}

#[test]
fn split_record_gives_the_raw_fields_of_both_layouts() {
    let short = split_record(SCENARIO_A);
    assert_eq!(short.len(), 14);
    assert_eq!(short[11], "GET");
    assert_eq!(short[12], "http://some.domain.com:80/path0/path1?param0=p0&param1=p1");
    assert_eq!(short[13], "HTTP/1.1");
    let full = split_record(SCENARIO_B);
    assert_eq!(full.len(), 17);
    assert_eq!(full[15], "some_ssl_cipher");
    assert_eq!(full[16], "some_ssl_protocol");
    assert_eq!(split_record("a b  c"), vec!["a", "b", "", "c"]);
    assert!(split_record(" \t ").is_empty());
}

#[test]
fn leading_white_space_is_skipped() {
    let line = format!(" \t {}", SCENARIO_A);
    let r = parse_record(&line).unwrap();
    assert_eq!(r.elb_name, "elb-name");
    assert_eq!(r.timestamp, parse_record(SCENARIO_A).unwrap().timestamp);
}

#[test]
fn the_timestamp_is_read_in_utc() {
    let t = parse_record(SCENARIO_A).unwrap().timestamp;
    assert_eq!(
        (t.year, t.month, t.day, t.hour, t.minute, t.second, t.nanosecond),
        (2015, 8, 15, 23, 43, 5, 302_180_000)
    );
    let shifted = line_with(&[(0, "2015-08-16T01:43:05.5+02:00")]);
    let t = parse_record(&shifted).unwrap().timestamp;
    assert_eq!((t.day, t.hour, t.nanosecond), (15, 23, 500_000_000));
}

#[test]
fn field_errors_carry_the_conversion_message() {
    assert_eq!(
        descriptions(&line_with(&[(0, "bad_timestamp")])),
        vec!["input contains invalid characters".to_owned()]
    );
    assert_eq!(
        descriptions(&line_with(&[(2, "1.2.3.4")])),
        vec!["invalid IPv4 socket address syntax".to_owned()]
    );
    assert_eq!(
        descriptions(&line_with(&[(4, "fast")])),
        vec!["invalid float literal".to_owned()]
    );
    assert_eq!(
        descriptions(&line_with(&[(7, "70000")])),
        vec!["number too large to fit in target type".to_owned()]
    );
    assert_eq!(
        descriptions(&line_with(&[(9, "-1")])),
        vec!["invalid digit found in string".to_owned()]
    );
}

#[test]
fn error_messages_name_the_field() {
    let e = ELBRecordParsingError::ParsingError {
        field_name: ELBRecordField::SentBytes,
        description: "invalid digit found in string".to_owned(),
    };
    assert_eq!(
        e.to_string(),
        "Parsing of field sent bytes failed with the following error: invalid digit found in string."
    );
    assert_eq!(e.description(), "field parsing failed");
    assert_eq!(ELBRecordParsingError::MalformedRecord.to_string(), "Record is malformed.");
    assert_eq!(ELBRecordParsingError::MalformedRecord.description(), "malformed record");
    assert_eq!(ELBRecordField::ELBStatusCode.to_string(), "ELB status code");
    assert_eq!(ELBRecordField::SSLProtocol.label(), "SSL protocol");
    assert_eq!(ELBRecordField::SSLProtocol.position(), 16);
}

#[test]
fn unsigned_integers_follow_the_standard_syntax() {
    assert_eq!(parse_unsigned("+200", 65535), Ok(200));
    assert_eq!(parse_unsigned("65535", 65535), Ok(65535));
    assert_eq!(
        parse_unsigned("65536", 65535),
        Err("number too large to fit in target type".to_owned())
    );
    assert_eq!(
        parse_unsigned("18446744073709551615", u64::MAX),
        Ok(u64::MAX)
    );
    assert_eq!(
        parse_unsigned("18446744073709551616", u64::MAX),
        Err("number too large to fit in target type".to_owned())
    );
    assert_eq!(
        parse_unsigned("", 10),
        Err("cannot parse integer from empty string".to_owned())
    );
    assert_eq!(parse_unsigned("+", 10), Err("invalid digit found in string".to_owned()));
    assert_eq!(parse_unsigned("1 2", 100), Err("invalid digit found in string".to_owned()));
}

#[test]
fn processing_times_follow_the_standard_float_syntax() {
    for ok in ["0.00003", "-1", "+.5", "5.", "1e-5", "2E+3", "inf", "-Infinity", "NaN"] {
        assert_eq!(check_float(ok), Ok(()), "{}", ok);
        assert!(ok.parse::<f32>().is_ok(), "{}", ok);
    }
    for bad in [".", "1e", "e5", "1.2.3", "0x10", "infinit", "-"] {
        assert_eq!(check_float(bad), Err("invalid float literal".to_owned()), "{}", bad);
        assert!(bad.parse::<f32>().is_err(), "{}", bad);
    }
    assert_eq!(check_float(""), Err("cannot parse float from empty string".to_owned()));
}

#[test]
fn socket_addresses_follow_the_standard_syntax() {
    assert_eq!(
        parse_socket_address("172.16.1.6:54814"),
        Ok(SocketAddress { octets: [172, 16, 1, 6], port: 54814 })
    );
    assert_eq!(
        parse_socket_address("0.0.0.0:0080"),
        Ok(SocketAddress { octets: [0, 0, 0, 0], port: 80 })
    );
    for bad in [
        "01.2.3.4:80",
        "256.1.1.1:80",
        "1.2.3.4:65536",
        "1.2.3:80",
        "1.2.3.4.5:80",
        "1.2.3.4",
        "1.2.3.4:",
        "1:2.3.4.80",
        "",
    ] {
        assert_eq!(
            parse_socket_address(bad),
            Err("invalid IPv4 socket address syntax".to_owned()),
            "{}",
            bad
        );
    }
}

#[test]
fn file_list_keeps_the_entries_before_the_first_failure() {
    let mut names = vec!["earlier"];
    let walk: Vec<Result<&str, u8>> = vec![Ok("a"), Ok("b")];
    assert_eq!(file_list(walk, &mut names), Ok(3));
    assert_eq!(names, vec!["earlier", "a", "b"]);

    let mut names = Vec::new();
    let walk: Vec<Result<&str, u8>> = vec![Ok("a"), Err(7), Ok("b"), Err(9)];
    assert_eq!(file_list(walk, &mut names), Err(7));
    assert_eq!(names, vec!["a"]);
}

#[test]
fn a_trailing_space_after_the_short_layout_keeps_fourteen_fields() {
    let line = format!("{} ", SCENARIO_A);
    assert_eq!(split_record(&line).len(), 14);
    let r = parse_record(&line).unwrap();
    assert_eq!(r.request_http_version, "HTTP/1.1");
    assert_eq!(r.user_agent, "-");
}

#[test]
fn a_field_that_never_finds_its_opening_delimiter_is_dropped() {
    let line = "2015-08-15T23:43:05.302180Z elb-name 172.16.1.6:54814 172.16.1.5:9000 0.000039 0.145507 0.00003 200 200 0 7582 GET http://some.domain.com:80/ HTTP/1.1";
    let fields = split_record(line);
    assert_eq!(fields.len(), 11);
    assert!(fields.iter().all(|f| !f.contains(' ')));
    assert_eq!(
        parse_record(line).unwrap_err().errors,
        vec![ELBRecordParsingError::MalformedRecord]
    );
    let agent_without_opening_quote = format!("{} Mozilla", SCENARIO_A);
    assert_eq!(split_record(&agent_without_opening_quote).len(), 14);
    let started_agent = format!("{} \"Mozilla", SCENARIO_A);
    let fields = split_record(&started_agent);
    assert_eq!(fields.len(), 15);
    assert_eq!(fields[14], "Mozilla");
}

#[test]
fn integer_errors_are_decided_by_the_first_failing_character() {
    let too_large = "number too large to fit in target type".to_owned();
    let invalid = "invalid digit found in string".to_owned();
    assert_eq!(parse_unsigned("70000x", 65535), Err(too_large.clone()));
    assert_eq!(parse_unsigned("7000x", 65535), Err(invalid.clone()));
    assert_eq!(parse_unsigned("x70000", 65535), Err(invalid.clone()));
    assert_eq!(
        parse_unsigned("184467440737095516160x", u64::MAX),
        Err(too_large.clone())
    );
    assert_eq!(
        descriptions(&line_with(&[(7, "70000x")])),
        vec![too_large]
    );
    assert_eq!(
        "70000x".parse::<u16>().unwrap_err().to_string(),
        "number too large to fit in target type"
    );
}

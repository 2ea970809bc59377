use fast_dlt::error::{DltError, ParseError};
use fast_dlt::header::{ExtendedHeader, LogInfo, MessageType, MessageTypeInfo, StandardHeader, StorageHeader};

#[test]
fn storage_header() {
    let bytes = b"DLT\x01\r\x00\x00\x00%\x00\x00\x00TEST";
    let header = StorageHeader::from_slice(bytes).unwrap();
    assert_eq!(
        header,
        StorageHeader {
            seconds: 13,
            microseconds: 37,
            ecu_id: "TEST"
        }
    );
}

#[test]
fn standard_header() {
    let bytes = b"|\n\x00dTEST\x00\x00\x00\x03\x00\x00\x059";
    let header = StandardHeader::from_slice(bytes).unwrap();
    assert_eq!(
        header,
        StandardHeader {
            header_type: 124,
            message_counter: 10,
            length: 100,
            ecu_id: Some("TEST"),
            session_id: Some(3),
            timestamp: Some(1337)
        }
    )
}

#[test]
fn extended_header() {
    let bytes = b"@\x07APPLCONT";
    let header = ExtendedHeader::from_slice(bytes).unwrap();
    assert_eq!(
        header,
        ExtendedHeader {
            message_info: 64,
            number_of_arguments: 7,
            application_id: "APPL",
            context_id: "CONT"
        }
    )
}

#[test]
fn standard_header_flags() {
    let bytes = b"|\n\x00dTEST\x00\x00\x00\x03\x00\x00\x059";
    let header = StandardHeader::from_slice(bytes).unwrap();
    assert!(!header.use_extended_header());
    assert!(!header.msb_first());
    assert!(!header.big_endian());
    assert!(header.with_ecu_id());
    assert!(header.with_session_id());
    assert!(header.with_timestamp());
    assert_eq!(header.version(), 0x60);
    assert_eq!(header.len(), 16);
}

#[test]
fn storage_header_rejects_short_input() {
    let bytes = b"DLT\x01";
    let err = StorageHeader::from_slice(bytes).unwrap_err();
    assert_eq!(
        err,
        ParseError::NotEnoughData {
            needed: 16,
            available: 4
        }
    );
}

#[test]
fn storage_header_rejects_bad_magic() {
    let bytes = b"DLT\x02\r\x00\x00\x00%\x00\x00\x00TEST";
    let err = StorageHeader::from_slice(bytes).unwrap_err();
    assert_eq!(err, ParseError::MissingDltPattern);
}

#[test]
fn storage_header_rejects_bad_utf8() {
    let mut bytes = b"DLT\x01\r\x00\x00\x00%\x00\x00\x00TEST".to_vec();
    bytes[12] = 0xff;
    let err = StorageHeader::from_slice(&bytes).unwrap_err();
    assert_eq!(err, ParseError::BadUTF8);
}

#[test]
fn standard_header_truncated_optionals_is_fatal() {
    // flag byte asks for all three optionals but only one fits
    let bytes = b"\x1c\n\x00dTEST";
    let err = StandardHeader::from_slice(bytes).unwrap_err();
    assert!(err.fatal);
    assert!(matches!(
        err.source,
        fast_dlt::error::ParseError::NotEnoughData {
            needed: 12,
            available: 4
        }
    ));
}

#[test]
fn extended_header_type_info_decoding() {
    // message_info 0x41: verbose, log, info
    let bytes = b"\x41\x01APP\x00CTX\x00";
    let header = ExtendedHeader::from_slice(bytes).unwrap();
    assert!(header.verbose());
    assert!(matches!(header.message_type(), MessageType::Log));
    assert!(matches!(
        header.type_info(),
        MessageTypeInfo::Log(LogInfo::Info)
    ));
    assert_eq!(header.number_of_arguments, 1);
    assert_eq!(header.application_id, "APP");
    assert_eq!(header.context_id, "CTX");
    assert_eq!(header.len(), 10);
}

#[test]
fn ecu_id_trailing_nuls_trimmed() {
    let bytes = b"DLT\x01\x00\x00\x00\x00\x00\x00\x00\x00AB\x00\x00";
    let header = StorageHeader::from_slice(bytes).unwrap();
    assert_eq!(header.ecu_id, "AB");
}

#[test]
fn parse_error_converts_to_framing_error() {
    let err = DltError::from(ParseError::MissingDltPattern);
    assert_eq!(err.source, ParseError::MissingDltPattern);
    assert_eq!(err.advance_by, None);
    assert!(!err.fatal);
}

use fast_dlt::error::ParseError;
use fast_dlt::header::{LogInfo, MessageType, MessageTypeInfo};
use fast_dlt::DltFile;

/// A minimal non-verbose message: storage header, bare standard header,
/// message ID 0x12345678 (little-endian) and the bytes `"ABC\0"`.
/// 28 bytes in all.
fn message_a() -> Vec<u8> {
    let mut m = Vec::new();
    m.extend_from_slice(b"DLT\x01");
    m.extend_from_slice(&[0x0d, 0x00, 0x00, 0x00]); // seconds = 13 (LE)
    m.extend_from_slice(&[0x25, 0x00, 0x00, 0x00]); // microseconds = 37 (LE)
    m.extend_from_slice(b"ECU1");
    m.extend_from_slice(&[0x00, 0x01, 0x00, 0x0c]); // plain header, length 12 (BE)
    m.extend_from_slice(&[0x78, 0x56, 0x34, 0x12]); // message id (LE)
    m.extend_from_slice(b"ABC\x00");
    m
}

/// A verbose message with one unsigned 32-bit little-endian argument,
/// value 0x01020304.  38 bytes in all.
fn message_b() -> Vec<u8> {
    let mut m = Vec::new();
    m.extend_from_slice(b"DLT\x01");
    m.extend_from_slice(&[0x01, 0x00, 0x00, 0x00]);
    m.extend_from_slice(&[0x02, 0x00, 0x00, 0x00]);
    m.extend_from_slice(b"ECU2");
    m.extend_from_slice(&[0x01, 0x02, 0x00, 0x16]); // extended header, length 22 (BE)
    m.extend_from_slice(&[0x41, 0x01]); // verbose, log info, one argument
    m.extend_from_slice(b"APP\x00CTX\x00");
    m.extend_from_slice(&[0x43, 0x00, 0x00, 0x00]); // type info: unsigned, 32-bit
    m.extend_from_slice(&[0x04, 0x03, 0x02, 0x01]); // value 0x01020304 (LE)
    m
}

#[test]
fn empty_buffer_yields_nothing() {
    let mut file = DltFile::new(&[]);
    assert!(file.next().is_none());
    assert!(file.next().is_none());
}

#[test]
fn magic_alone_yields_one_fatal_error() {
    let mut file = DltFile::new(b"DLT\x01");
    let err = file.next().unwrap().unwrap_err();
    assert!(err.fatal);
    assert_eq!(
        err.source,
        ParseError::NotEnoughData {
            needed: 16,
            available: 4
        }
    );
    assert!(file.next().is_none());
}

#[test]
fn declared_length_past_buffer_end_is_fatal() {
    let mut m = message_a();
    // declare a length far beyond what the buffer holds
    m[18] = 0x00;
    m[19] = 0x64; // length 100, but only 28 bytes exist
    let mut file = DltFile::new(&m);
    let err = file.next().unwrap().unwrap_err();
    assert!(err.fatal);
    assert_eq!(
        err.source,
        ParseError::NotEnoughData {
            needed: 116,
            available: 28
        }
    );
    assert!(file.next().is_none());
}

#[test]
fn decodes_two_messages_back_to_back() {
    let mut buf = message_a();
    buf.extend_from_slice(&message_b());
    let mut file = DltFile::new(&buf);

    let first = file.next().unwrap().unwrap();
    assert_eq!(first.ecu_id(), "ECU1");
    assert_eq!(first.len(), 28);
    assert!(!first.verbose());
    let nv = first.payload.as_non_verbose().unwrap();
    assert_eq!(nv.message_id(), 0x12345678);
    assert_eq!(nv.as_str().unwrap(), "ABC");
    assert_eq!(nv.len(), 8);

    let second = file.next().unwrap().unwrap();
    assert_eq!(second.ecu_id(), "ECU2");
    assert_eq!(second.len(), 38);
    assert!(second.verbose());
    assert_eq!(second.app_id(), Some("APP"));
    assert_eq!(second.context_id(), Some("CTX"));

    assert!(file.next().is_none());
}

#[test]
fn resynchronization_skips_garbage() {
    // magic + 20 zero bytes + a valid message: one recoverable error
    // covering the garbage, then the message
    let mut buf = Vec::new();
    buf.extend_from_slice(b"DLT\x01");
    buf.extend_from_slice(&[0u8; 20]);
    buf.extend_from_slice(&message_a());
    let mut file = DltFile::new(&buf);

    let err = file.next().unwrap().unwrap_err();
    assert!(!err.fatal);
    assert!(matches!(err.source, ParseError::NotEnoughData { .. }));

    let msg = file.next().unwrap().unwrap();
    assert_eq!(msg.ecu_id(), "ECU1");
    assert_eq!(msg.as_bytes(), &message_a()[..]);

    assert!(file.next().is_none());
}

#[test]
fn accounted_lengths_sum_to_buffer_length() {
    // two messages and a stray tail: message lengths plus the tail cover
    // the buffer exactly; the tail surfaces as one fatal error
    let mut buf = message_a();
    buf.extend_from_slice(&message_b());
    buf.extend_from_slice(&[0xaa, 0xbb, 0xcc]);
    let mut file = DltFile::new(&buf);

    let mut consumed = 0usize;
    let mut errors = 0usize;
    loop {
        match file.next() {
            Some(Ok(m)) => consumed += m.len(),
            Some(Err(e)) => {
                assert!(e.fatal);
                errors += 1;
            }
            None => break,
        }
    }
    assert_eq!(errors, 1);
    let tail = 3;
    assert_eq!(consumed + tail, buf.len());
}

#[test]
fn iterating_twice_yields_identical_sequences() {
    let mut buf = Vec::new();
    buf.extend_from_slice(b"DLT\x01");
    buf.extend_from_slice(&[0u8; 20]);
    buf.extend_from_slice(&message_a());
    buf.extend_from_slice(&message_b());

    let mut first_run: Vec<Result<Vec<u8>, fast_dlt::error::DltError>> = Vec::new();
    let mut file = DltFile::new(&buf);
    while let Some(item) = file.next() {
        first_run.push(item.map(|m| m.as_bytes().to_vec()));
    }

    let mut second_run: Vec<Result<Vec<u8>, fast_dlt::error::DltError>> = Vec::new();
    let mut file = DltFile::new(&buf);
    while let Some(item) = file.next() {
        second_run.push(item.map(|m| m.as_bytes().to_vec()));
    }

    assert_eq!(first_run.len(), 3);
    assert_eq!(first_run, second_run);
}

#[test]
fn refeeding_a_message_yields_it_alone() {
    let mut buf = message_b();
    buf.extend_from_slice(&message_a());
    let mut file = DltFile::new(&buf);
    let original = file.next().unwrap().unwrap();

    let retained = original.as_bytes().to_vec();
    let mut refeed = DltFile::new(&retained);
    let again = refeed.next().unwrap().unwrap();
    assert_eq!(again.as_bytes(), &retained[..]);
    assert_eq!(again.ecu_id(), original.ecu_id());
    assert_eq!(again.app_id(), original.app_id());
    assert_eq!(again.context_id(), original.context_id());
    assert_eq!(again.len(), original.len());
    assert_eq!(again.verbose(), original.verbose());
    assert_eq!(again.timestamp(), original.timestamp());
    assert!(refeed.next().is_none());
}

#[test]
fn size_hint_reports_upper_bound() {
    let buf = message_a();
    let file = DltFile::new(&buf);
    assert_eq!(file.size_hint(), (0, Some(28 / 20)));
}

#[test]
fn message_accessors_on_extended_message() {
    let buf = message_b();
    let mut file = DltFile::new(&buf);
    let msg = file.next().unwrap().unwrap();
    assert!(matches!(msg.message_type(), Some(MessageType::Log)));
    assert!(matches!(
        msg.type_info(),
        Some(MessageTypeInfo::Log(LogInfo::Info))
    ));
    assert_eq!(msg.timestamp(), None);
    assert_eq!(msg.storage_header.seconds, 1);
    assert_eq!(msg.storage_header.microseconds, 2);
}

#[test]
fn declared_length_smaller_than_headers_resynchronizes() {
    // a message whose declared length cannot hold its own headers is
    // untrustworthy: the iterator scans for the next magic
    let mut buf = message_a();
    buf[18] = 0x00;
    buf[19] = 0x02; // length 2 < the 4-byte standard header
    buf.extend_from_slice(&message_b());
    let mut file = DltFile::new(&buf);

    let err = file.next().unwrap().unwrap_err();
    assert!(!err.fatal);
    assert_eq!(
        err.source,
        ParseError::NotEnoughData {
            needed: 4,
            available: 2
        }
    );
    let msg = file.next().unwrap().unwrap();
    assert_eq!(msg.ecu_id(), "ECU2");
    assert!(file.next().is_none());
}

#[test]
fn unsupported_argument_does_not_break_framing() {
    // a verbose message whose lone argument carries the VariableInfo
    // modifier: the framing iterator still yields it and the next message
    let mut bad = message_b();
    bad[31] = 0x08; // set VariableInfo in the type-info word
    let mut buf = bad.clone();
    buf.extend_from_slice(&message_a());
    let mut file = DltFile::new(&buf);

    let msg = file.next().unwrap().unwrap();
    let args = msg.payload.as_verbose().unwrap();
    let mut it = args.arguments();
    let err = it.next().unwrap().unwrap_err();
    assert_eq!(err, ParseError::Unsupported("var info"));
    assert!(it.next().is_none());

    let next_msg = file.next().unwrap().unwrap();
    assert_eq!(next_msg.ecu_id(), "ECU1");
    assert!(file.next().is_none());
}

#[test]
fn maximum_declared_length_decodes() {
    // a message declaring the largest possible length, 0xffff
    let mut buf = Vec::new();
    buf.extend_from_slice(b"DLT\x01");
    buf.extend_from_slice(&[0x00, 0x00, 0x00, 0x00]);
    buf.extend_from_slice(&[0x00, 0x00, 0x00, 0x00]);
    buf.extend_from_slice(b"ECUM");
    buf.extend_from_slice(&[0x00, 0x07, 0xff, 0xff]); // plain header, length 0xffff
    buf.resize(16 + 0xffff, 0x61); // non-verbose payload filler
    let mut file = DltFile::new(&buf);
    let msg = file.next().unwrap().unwrap();
    assert_eq!(msg.len(), 16 + 0xffff);
    assert_eq!(msg.as_bytes().len(), msg.len());
    assert!(file.next().is_none());
}

#[test]
fn every_success_spans_its_total_length() {
    let mut buf = message_a();
    buf.extend_from_slice(&message_b());
    let mut file = DltFile::new(&buf);
    while let Some(item) = file.next() {
        let msg = item.unwrap();
        assert_eq!(msg.as_bytes().len(), msg.len());
    }
}

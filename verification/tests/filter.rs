use fast_dlt::filter::Filter;
use fast_dlt::DltFile;
use fast_dlt::DltMessage;

fn verbose_message() -> Vec<u8> {
    let mut m = Vec::new();
    m.extend_from_slice(b"DLT\x01");
    m.extend_from_slice(&[0x01, 0x00, 0x00, 0x00]);
    m.extend_from_slice(&[0x02, 0x00, 0x00, 0x00]);
    m.extend_from_slice(b"ECU2");
    m.extend_from_slice(&[0x01, 0x02, 0x00, 0x16]);
    m.extend_from_slice(&[0x41, 0x01]);
    m.extend_from_slice(b"APP\x00CTX\x00");
    m.extend_from_slice(&[0x43, 0x00, 0x00, 0x00]);
    m.extend_from_slice(&[0x04, 0x03, 0x02, 0x01]);
    m
}

fn plain_message() -> Vec<u8> {
    let mut m = Vec::new();
    m.extend_from_slice(b"DLT\x01");
    m.extend_from_slice(&[0x0d, 0x00, 0x00, 0x00]);
    m.extend_from_slice(&[0x25, 0x00, 0x00, 0x00]);
    m.extend_from_slice(b"ECU1");
    m.extend_from_slice(&[0x00, 0x01, 0x00, 0x0c]);
    m.extend_from_slice(&[0x78, 0x56, 0x34, 0x12]);
    m.extend_from_slice(b"ABC\x00");
    m
}

fn decode(buf: &[u8]) -> DltMessage<'_> {
    DltFile::new(buf).next().unwrap().unwrap()
}

#[test]
fn ecu_filter_compares_storage_header() {
    let buf = verbose_message();
    let msg = decode(&buf);
    assert!(Filter::Ecu { ecu_id: "ECU2".to_string() }.keep(&msg));
    assert!(!Filter::Ecu { ecu_id: "ECU1".to_string() }.keep(&msg));
}

#[test]
fn app_and_ctx_filters_need_an_extended_header() {
    let buf = verbose_message();
    let msg = decode(&buf);
    assert!(Filter::App { app_id: "APP".to_string() }.keep(&msg));
    assert!(!Filter::App { app_id: "APQ".to_string() }.keep(&msg));
    assert!(Filter::Ctx { ctx_id: "CTX".to_string() }.keep(&msg));
    assert!(!Filter::Ctx { ctx_id: "CTY".to_string() }.keep(&msg));

    let buf = plain_message();
    let plain = decode(&buf);
    assert!(!Filter::App { app_id: "APP".to_string() }.keep(&plain));
    assert!(!Filter::Ctx { ctx_id: "CTX".to_string() }.keep(&plain));
}

#[test]
fn boolean_composition() {
    let buf = verbose_message();
    let msg = decode(&buf);
    let both = Filter::And {
        left: Box::new(Filter::Ecu { ecu_id: "ECU2".to_string() }),
        right: Box::new(Filter::App { app_id: "APP".to_string() }),
    };
    assert!(both.keep(&msg));
    let either = Filter::Or {
        left: Box::new(Filter::Ecu { ecu_id: "NOPE".to_string() }),
        right: Box::new(Filter::Ctx { ctx_id: "CTX".to_string() }),
    };
    assert!(either.keep(&msg));
    let neither = Filter::And {
        left: Box::new(Filter::Ecu { ecu_id: "NOPE".to_string() }),
        right: Box::new(Filter::Ctx { ctx_id: "CTX".to_string() }),
    };
    assert!(!neither.keep(&msg));
}

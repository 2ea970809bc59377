use fast_dlt::error::ParseError;
use fast_dlt::payload::{
    ArgType, Arguments, NonVerbosePayload, StringCoding, Value, VerbosePayload,
};

fn collect(mut args: Arguments<'_>) -> Vec<Result<(u32, usize), ParseError>> {
    let mut out = Vec::new();
    while let Some(item) = args.next() {
        out.push(item.map(|a| (a.type_info, a.len())));
    }
    out
}

#[test]
fn unsigned_32bit_le_argument() {
    // type info 0x43: unsigned, 32-bit; value 0x01020304 little-endian
    let data = [0x43u8, 0x00, 0x00, 0x00, 0x04, 0x03, 0x02, 0x01];
    let payload = VerbosePayload::new(&data, false);
    let mut args = payload.arguments();
    let arg = args.next().unwrap().unwrap();
    assert_eq!(arg.type_info, 0x43);
    assert!(matches!(arg.value, Value::U32(0x01020304)));
    assert_eq!(arg.len(), 8);
    assert!(arg.name.is_none());
    assert!(arg.unit.is_none());
    assert!(args.next().is_none());
}

#[test]
fn string_argument_msb_first() {
    // type info 0x200 big-endian: string; length 3; "hi" plus a NUL
    let data = [0x00u8, 0x00, 0x02, 0x00, 0x00, 0x03, 0x68, 0x69, 0x00];
    let payload = VerbosePayload::new(&data, true);
    let mut args = payload.arguments();
    let arg = args.next().unwrap().unwrap();
    assert!(matches!(arg.value, Value::String("hi")));
    assert_eq!(arg.len(), 9);
    assert!(args.next().is_none());
}

#[test]
fn variable_info_argument_is_unsupported() {
    let data = [0x43u8, 0x08, 0x00, 0x00, 0x04, 0x03, 0x02, 0x01];
    let payload = VerbosePayload::new(&data, false);
    let mut args = payload.arguments();
    let err = args.next().unwrap().unwrap_err();
    assert_eq!(err, ParseError::Unsupported("var info"));
    // the iterator is fatal-sticky
    assert!(args.next().is_none());
}

#[test]
fn fixed_point_argument_is_unsupported() {
    let data = [0x43u8, 0x10, 0x00, 0x00, 0x04, 0x03, 0x02, 0x01];
    let payload = VerbosePayload::new(&data, false);
    let mut args = payload.arguments();
    let err = args.next().unwrap().unwrap_err();
    assert_eq!(err, ParseError::Unsupported("fixed point"));
}

#[test]
fn unknown_argument_type_reports_class_bits() {
    // type-class bits 0x2000 name no class
    let data = [0x00u8, 0x20, 0x00, 0x00];
    let payload = VerbosePayload::new(&data, false);
    let mut args = payload.arguments();
    let err = args.next().unwrap().unwrap_err();
    assert_eq!(err, ParseError::UnknownArgumentType(0x2000));
}

#[test]
fn array_and_struct_arguments_are_unimplemented() {
    let array = [0x00u8, 0x01, 0x00, 0x00];
    let payload = VerbosePayload::new(&array, false);
    let err = payload.arguments().next().unwrap().unwrap_err();
    assert_eq!(err, ParseError::UnimplementedArgumentType("array"));

    let strukt = [0x00u8, 0x40, 0x00, 0x00];
    let payload = VerbosePayload::new(&strukt, false);
    let err = payload.arguments().next().unwrap().unwrap_err();
    assert_eq!(err, ParseError::UnimplementedArgumentType("struct"));
}

#[test]
fn float_widths_two_and_sixteen_are_unsupported() {
    let f16 = [0x82u8, 0x00, 0x00, 0x00, 0x00, 0x00];
    let payload = VerbosePayload::new(&f16, false);
    let err = payload.arguments().next().unwrap().unwrap_err();
    assert_eq!(err, ParseError::Unsupported("f16"));

    let f128 = [0x85u8, 0x00, 0x00, 0x00];
    let payload = VerbosePayload::new(&f128, false);
    let err = payload.arguments().next().unwrap().unwrap_err();
    assert_eq!(err, ParseError::Unsupported("f128"));
}

#[test]
fn float_arguments_carry_their_bits() {
    // 1.0f32 is 0x3f800000; little-endian value bytes
    let data = [0x83u8, 0x00, 0x00, 0x00, 0x00, 0x00, 0x80, 0x3f];
    let payload = VerbosePayload::new(&data, false);
    let arg = payload.arguments().next().unwrap().unwrap();
    match arg.value {
        Value::F32Bits(bits) => assert_eq!(f32::from_bits(bits), 1.0f32),
        other => panic!("expected F32Bits, got {other:?}"),
    }
    assert_eq!(arg.len(), 8);
}

#[test]
fn signed_argument_decodes_negative_values() {
    // signed 16-bit, big-endian value -2
    let data = [0x00u8, 0x00, 0x00, 0x22, 0xff, 0xfe];
    let payload = VerbosePayload::new(&data, true);
    let arg = payload.arguments().next().unwrap().unwrap();
    assert!(matches!(arg.value, Value::I16(-2)));
    assert_eq!(arg.len(), 6);
}

#[test]
fn bool_argument() {
    let data = [0x11u8, 0x00, 0x00, 0x00, 0x01];
    let payload = VerbosePayload::new(&data, false);
    let arg = payload.arguments().next().unwrap().unwrap();
    assert!(matches!(arg.value, Value::Bool(true)));
    assert_eq!(arg.len(), 5);
}

#[test]
fn raw_argument_borrows_bytes() {
    let data = [0x00u8, 0x04, 0x00, 0x00, 0x02, 0x00, 0xde, 0xad];
    let payload = VerbosePayload::new(&data, false);
    let arg = payload.arguments().next().unwrap().unwrap();
    match arg.value {
        Value::Raw(bytes) => assert_eq!(bytes, &[0xde, 0xad][..]),
        other => panic!("expected Raw, got {other:?}"),
    }
    assert_eq!(arg.len(), 8);
}

#[test]
fn truncated_argument_value_is_reported() {
    let data = [0x43u8, 0x00, 0x00, 0x00, 0x04, 0x03];
    let payload = VerbosePayload::new(&data, false);
    let err = payload.arguments().next().unwrap().unwrap_err();
    assert_eq!(
        err,
        ParseError::NotEnoughData {
            needed: 4,
            available: 2
        }
    );
}

#[test]
fn argument_lengths_stay_within_payload() {
    // two arguments, 5 + 8 = 13 bytes of a 13-byte payload
    let data = [
        0x11u8, 0x00, 0x00, 0x00, 0x00, // bool false
        0x43, 0x00, 0x00, 0x00, 0x01, 0x00, 0x00, 0x00, // u32 = 1
    ];
    let payload = VerbosePayload::new(&data, false);
    let items = collect(payload.arguments());
    let total: usize = items.iter().map(|i| i.as_ref().unwrap().1).sum();
    assert_eq!(items.len(), 2);
    assert!(total <= payload.len());
    assert_eq!(total, 13);
}

#[test]
fn verbose_payload_from_slice_checks_length() {
    let data = [0u8; 4];
    assert!(VerbosePayload::from_slice(&data, 4, false).is_ok());
    let err = VerbosePayload::from_slice(&data, 5, false).unwrap_err();
    assert_eq!(
        err,
        ParseError::NotEnoughData {
            needed: 5,
            available: 4
        }
    );
}

#[test]
fn non_verbose_payload_decodes_message_id() {
    let data = [0x01u8, 0x00, 0x00, 0x00, 0x68, 0x65, 0x6c, 0x6c, 0x6f, 0x00];
    let payload = NonVerbosePayload::from_slice(&data, 10, false).unwrap();
    assert_eq!(payload.message_id(), 1);
    assert_eq!(payload.len(), 10);
    assert_eq!(payload.as_str().unwrap(), "hello");

    // the same bytes MSB-first give a different message id
    let payload = NonVerbosePayload::from_slice(&data, 10, true).unwrap();
    assert_eq!(payload.message_id(), 0x01000000);
}

#[test]
fn non_verbose_payload_rejects_short_regions() {
    let data = [0x01u8, 0x00];
    let err = NonVerbosePayload::from_slice(&data, 2, false).unwrap_err();
    assert_eq!(
        err,
        ParseError::NotEnoughData {
            needed: 4,
            available: 2
        }
    );
    let err = NonVerbosePayload::from_slice(&data, 10, false).unwrap_err();
    assert_eq!(
        err,
        ParseError::NotEnoughData {
            needed: 10,
            available: 2
        }
    );
}

#[test]
fn non_verbose_as_str_rejects_bad_utf8() {
    let data = [0x01u8, 0x00, 0x00, 0x00, 0xff, 0xfe];
    let payload = NonVerbosePayload::from_slice(&data, 6, false).unwrap();
    assert_eq!(payload.as_str().unwrap_err(), ParseError::BadUTF8);
}

#[test]
fn arg_type_try_from_masks() {
    assert!(matches!(ArgType::try_from(0x10), Ok(ArgType::Bool)));
    assert!(matches!(ArgType::try_from(0x20), Ok(ArgType::Signed)));
    assert!(matches!(ArgType::try_from(0x40), Ok(ArgType::Unsigned)));
    assert!(matches!(ArgType::try_from(0x80), Ok(ArgType::Float)));
    assert!(matches!(ArgType::try_from(0x100), Ok(ArgType::Array)));
    assert!(matches!(ArgType::try_from(0x200), Ok(ArgType::String)));
    assert!(matches!(ArgType::try_from(0x400), Ok(ArgType::Raw)));
    assert!(matches!(ArgType::try_from(0x4000), Ok(ArgType::Struct)));
    assert!(matches!(ArgType::try_from(0x30), Err(0x30)));
}

#[test]
fn string_coding_variants_exist() {
    let ascii = StringCoding::Ascii;
    let utf8 = StringCoding::Utf8;
    assert!(matches!(ascii, StringCoding::Ascii));
    assert!(matches!(utf8, StringCoding::Utf8));
}

#[test]
fn zero_length_string_and_raw_bodies() {
    let data = [0x00u8, 0x02, 0x00, 0x00, 0x00, 0x00];
    let payload = VerbosePayload::new(&data, false);
    let arg = payload.arguments().next().unwrap().unwrap();
    assert!(matches!(arg.value, Value::String("")));
    assert_eq!(arg.len(), 6);

    let data = [0x00u8, 0x04, 0x00, 0x00, 0x00, 0x00];
    let payload = VerbosePayload::new(&data, false);
    let arg = payload.arguments().next().unwrap().unwrap();
    match arg.value {
        Value::Raw(bytes) => assert!(bytes.is_empty()),
        other => panic!("expected Raw, got {other:?}"),
    }
    assert_eq!(arg.len(), 6);
}

#[test]
fn widest_numeric_arguments() {
    // unsigned 128-bit, big-endian
    let mut data = vec![0x00u8, 0x00, 0x00, 0x45];
    data.extend_from_slice(&[0x01; 16]);
    let payload = VerbosePayload::new(&data, true);
    let arg = payload.arguments().next().unwrap().unwrap();
    assert!(matches!(arg.value, Value::U128(0x01010101010101010101010101010101)));
    assert_eq!(arg.len(), 20);

    // signed 128-bit: all 0xff is -1 in either endianness
    let mut data = vec![0x25u8, 0x00, 0x00, 0x00];
    data.extend_from_slice(&[0xff; 16]);
    let payload = VerbosePayload::new(&data, false);
    let arg = payload.arguments().next().unwrap().unwrap();
    assert!(matches!(arg.value, Value::I128(-1)));
}

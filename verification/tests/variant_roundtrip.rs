use evtcollect::variant::{
    decode, encode, wire_tag, VariantBuffer, VariantError, TAG_ANSI_STRING, TAG_BINARY,
    TAG_STRING, TAG_UINT32,
};

fn roundtrip(v: VariantBuffer) {
    let bytes = encode(&v);
    let tag = wire_tag(&v);
    let back = decode(tag, &bytes).expect("a supported value must decode from its own bytes");
    assert_eq!(back, v);
}

#[test]
fn roundtrip_null_and_integers() {
    roundtrip(VariantBuffer::NullVal);
    roundtrip(VariantBuffer::SByteVal(-5));
    roundtrip(VariantBuffer::SByteVal(i8::MIN));
    roundtrip(VariantBuffer::ByteVal(0));
    roundtrip(VariantBuffer::ByteVal(255));
    roundtrip(VariantBuffer::Int16Val(-300));
    roundtrip(VariantBuffer::UInt16Val(u16::MAX));
    roundtrip(VariantBuffer::Int32Val(-70000));
    roundtrip(VariantBuffer::UInt32Val(u32::MAX));
    roundtrip(VariantBuffer::Int64Val(i64::MIN));
    roundtrip(VariantBuffer::UInt64Val(0));
    roundtrip(VariantBuffer::UInt64Val(u64::MAX));
}

#[test]
fn roundtrip_strings() {
    roundtrip(VariantBuffer::StringVal(String::new()));
    roundtrip(VariantBuffer::StringVal(String::from("Hello, world")));
    roundtrip(VariantBuffer::StringVal(String::from("p\u{1F600}q")));
    roundtrip(VariantBuffer::AnsiStringVal(String::from("abc")));
    roundtrip(VariantBuffer::AnsiStringVal(String::from("caf\u{e9}")));
}

#[test]
fn roundtrip_remaining_variants() {
    roundtrip(VariantBuffer::SingleVal(0x3F80_0000));
    roundtrip(VariantBuffer::DoubleVal(0x3FF0_0000_0000_0000));
    roundtrip(VariantBuffer::BooleanVal(true));
    roundtrip(VariantBuffer::BooleanVal(false));
    roundtrip(VariantBuffer::GuidVal(0));
    roundtrip(VariantBuffer::GuidVal(u128::MAX));
    roundtrip(VariantBuffer::GuidVal(0x0123_4567_89ab_cdef_0123_4567_89ab_cdef));
    roundtrip(VariantBuffer::EvtHandleVal(42));
}

#[test]
fn decode_utf16_string_value() {
    let bytes = [0x48u8, 0x00, 0x69, 0x00];
    let v = decode(TAG_STRING, &bytes).unwrap();
    assert_eq!(v, VariantBuffer::StringVal(String::from("Hi")));
}

#[test]
fn decode_ansi_string_value() {
    let v = decode(TAG_ANSI_STRING, b"abc").unwrap();
    assert_eq!(v, VariantBuffer::AnsiStringVal(String::from("abc")));
}

#[test]
fn decode_rejects_unsupported_tags() {
    assert_eq!(decode(TAG_BINARY, &[]), Err(VariantError::UnsupportedType(14)));
    assert_eq!(decode(99, &[1, 2]), Err(VariantError::UnsupportedType(99)));
}

#[test]
fn decode_rejects_malformed_payloads() {
    assert_eq!(decode(TAG_UINT32, &[1, 2, 3]), Err(VariantError::MalformedValue));
    assert_eq!(decode(TAG_STRING, &[0x41]), Err(VariantError::MalformedValue));
    assert_eq!(decode(TAG_STRING, &[0x00, 0xD8]), Err(VariantError::MalformedValue));
    assert_eq!(decode(TAG_ANSI_STRING, &[0xFF]), Err(VariantError::MalformedValue));
}

//! The tagged-union wire value returned by the log subsystem's metadata
//! interface, and its decoder: a (type tag, payload bytes) pair becomes one
//! typed value.  The tag alone determines the decoding rule; byte lengths are
//! checked, never guessed from.

use vstd::prelude::*;
use vstd::bytes::*;

use crate::strutil::string_from_utf8;
use crate::utf16::{decode_utf16, encode_utf16, lemma_decode_encode_utf16, utf16_decode,
    utf16_encode};

verus! {

pub const TAG_NULL: u32 = 0;

pub const TAG_STRING: u32 = 1;

pub const TAG_ANSI_STRING: u32 = 2;

pub const TAG_SBYTE: u32 = 3;

pub const TAG_BYTE: u32 = 4;

pub const TAG_INT16: u32 = 5;

pub const TAG_UINT16: u32 = 6;

pub const TAG_INT32: u32 = 7;

pub const TAG_UINT32: u32 = 8;

pub const TAG_INT64: u32 = 9;

pub const TAG_UINT64: u32 = 10;

pub const TAG_SINGLE: u32 = 11;

pub const TAG_DOUBLE: u32 = 12;

pub const TAG_BOOLEAN: u32 = 13;

pub const TAG_BINARY: u32 = 14;

pub const TAG_GUID: u32 = 15;

pub const TAG_EVT_HANDLE: u32 = 32;

/// One decoded wire value.  Floating-point payloads are carried as their raw
/// IEEE-754 bit patterns and never interpreted here.
#[derive(Debug, Clone, PartialEq)]
pub enum VariantBuffer {
    NullVal,
    StringVal(String),
    AnsiStringVal(String),
    SByteVal(i8),
    ByteVal(u8),
    Int16Val(i16),
    UInt16Val(u16),
    Int32Val(i32),
    UInt32Val(u32),
    Int64Val(i64),
    UInt64Val(u64),
    SingleVal(u32),
    DoubleVal(u64),
    BooleanVal(bool),
    GuidVal(u128),
    EvtHandleVal(u64),
}

/// The mathematical value of a `VariantBuffer`: the same cases, with strings
/// abstracted to their character sequences.
pub enum VariantValue {
    Null,
    Utf16String(Seq<char>),
    AnsiString(Seq<char>),
    SByte(i8),
    Byte(u8),
    Int16(i16),
    UInt16(u16),
    Int32(i32),
    UInt32(u32),
    Int64(i64),
    UInt64(u64),
    SingleBits(u32),
    DoubleBits(u64),
    Boolean(bool),
    Guid(u128),
    EvtHandle(u64),
}

impl View for VariantBuffer {
    type V = VariantValue;

    open spec fn view(&self) -> VariantValue {
        match self {
            VariantBuffer::NullVal => VariantValue::Null,
            VariantBuffer::StringVal(s) => VariantValue::Utf16String(s@),
            VariantBuffer::AnsiStringVal(s) => VariantValue::AnsiString(s@),
            VariantBuffer::SByteVal(x) => VariantValue::SByte(*x),
            VariantBuffer::ByteVal(x) => VariantValue::Byte(*x),
            VariantBuffer::Int16Val(x) => VariantValue::Int16(*x),
            VariantBuffer::UInt16Val(x) => VariantValue::UInt16(*x),
            VariantBuffer::Int32Val(x) => VariantValue::Int32(*x),
            VariantBuffer::UInt32Val(x) => VariantValue::UInt32(*x),
            VariantBuffer::Int64Val(x) => VariantValue::Int64(*x),
            VariantBuffer::UInt64Val(x) => VariantValue::UInt64(*x),
            VariantBuffer::SingleVal(x) => VariantValue::SingleBits(*x),
            VariantBuffer::DoubleVal(x) => VariantValue::DoubleBits(*x),
            VariantBuffer::BooleanVal(b) => VariantValue::Boolean(*b),
            VariantBuffer::GuidVal(g) => VariantValue::Guid(*g),
            VariantBuffer::EvtHandleVal(h) => VariantValue::EvtHandle(*h),
        }
    }
}

/// Why a (tag, payload) pair failed to decode.
#[derive(Debug, Clone, Copy, PartialEq, Eq, Structural)]
pub enum VariantError {
    /// The tag is one the system does not model (binary blobs, unknown tags).
    UnsupportedType(u32),
    /// The payload does not fit the tag: wrong length, or an ill-formed
    /// string encoding.
    MalformedValue,
}

/// The wire tag under which a value is transported.
pub open spec fn tag_of(v: VariantValue) -> u32 {
    match v {
        VariantValue::Null => TAG_NULL,
        VariantValue::Utf16String(_) => TAG_STRING,
        VariantValue::AnsiString(_) => TAG_ANSI_STRING,
        VariantValue::SByte(_) => TAG_SBYTE,
        VariantValue::Byte(_) => TAG_BYTE,
        VariantValue::Int16(_) => TAG_INT16,
        VariantValue::UInt16(_) => TAG_UINT16,
        VariantValue::Int32(_) => TAG_INT32,
        VariantValue::UInt32(_) => TAG_UINT32,
        VariantValue::Int64(_) => TAG_INT64,
        VariantValue::UInt64(_) => TAG_UINT64,
        VariantValue::SingleBits(_) => TAG_SINGLE,
        VariantValue::DoubleBits(_) => TAG_DOUBLE,
        VariantValue::Boolean(_) => TAG_BOOLEAN,
        VariantValue::Guid(_) => TAG_GUID,
        VariantValue::EvtHandle(_) => TAG_EVT_HANDLE,
    }
}

/// Little-endian bytes of a code unit sequence.
pub open spec fn u16s_to_bytes(u: Seq<u16>) -> Seq<u8>
    decreases u.len(),
{
    if u.len() == 0 {
        Seq::empty()
    } else {
        spec_u16_to_le_bytes(u[0]) + u16s_to_bytes(u.drop_first())
    }
}

/// Code units read off little-endian byte pairs.
pub open spec fn bytes_to_u16s(b: Seq<u8>) -> Seq<u16>
    decreases b.len(),
{
    if b.len() < 2 {
        Seq::empty()
    } else {
        seq![spec_u16_from_le_bytes(b.take(2))] + bytes_to_u16s(b.skip(2))
    }
}

/// The payload bytes of a wire value.
pub open spec fn spec_encode(v: VariantValue) -> Seq<u8> {
    match v {
        VariantValue::Null => Seq::empty(),
        VariantValue::Utf16String(s) => u16s_to_bytes(encode_utf16(s)),
        VariantValue::AnsiString(s) => vstd::utf8::encode_utf8(s),
        VariantValue::SByte(x) => seq![x as u8],
        VariantValue::Byte(x) => seq![x],
        VariantValue::Int16(x) => spec_u16_to_le_bytes(x as u16),
        VariantValue::UInt16(x) => spec_u16_to_le_bytes(x),
        VariantValue::Int32(x) => spec_u32_to_le_bytes(x as u32),
        VariantValue::UInt32(x) => spec_u32_to_le_bytes(x),
        VariantValue::Int64(x) => spec_u64_to_le_bytes(x as u64),
        VariantValue::UInt64(x) => spec_u64_to_le_bytes(x),
        VariantValue::SingleBits(x) => spec_u32_to_le_bytes(x),
        VariantValue::DoubleBits(x) => spec_u64_to_le_bytes(x),
        VariantValue::Boolean(b) => spec_u32_to_le_bytes(
            if b {
                1u32
            } else {
                0u32
            },
        ),
        VariantValue::Guid(g) => spec_u128_to_le_bytes(g),
        VariantValue::EvtHandle(h) => spec_u64_to_le_bytes(h),
    }
}

/// What a (tag, payload) pair decodes to.
pub open spec fn spec_decode(tag: u32, b: Seq<u8>) -> Result<VariantValue, VariantError> {
    if tag == TAG_NULL {
        if b.len() == 0 {
            Ok(VariantValue::Null)
        } else {
            Err(VariantError::MalformedValue)
        }
    } else if tag == TAG_STRING {
        if b.len() % 2 == 0 {
            match decode_utf16(bytes_to_u16s(b)) {
                Some(cs) => Ok(VariantValue::Utf16String(cs)),
                None => Err(VariantError::MalformedValue),
            }
        } else {
            Err(VariantError::MalformedValue)
        }
    } else if tag == TAG_ANSI_STRING {
        if vstd::utf8::valid_utf8(b) {
            Ok(VariantValue::AnsiString(vstd::utf8::decode_utf8(b)))
        } else {
            Err(VariantError::MalformedValue)
        }
    } else if tag == TAG_SBYTE {
        if b.len() == 1 {
            Ok(VariantValue::SByte(b[0] as i8))
        } else {
            Err(VariantError::MalformedValue)
        }
    } else if tag == TAG_BYTE {
        if b.len() == 1 {
            Ok(VariantValue::Byte(b[0]))
        } else {
            Err(VariantError::MalformedValue)
        }
    } else if tag == TAG_INT16 {
        if b.len() == 2 {
            Ok(VariantValue::Int16(spec_u16_from_le_bytes(b) as i16))
        } else {
            Err(VariantError::MalformedValue)
        }
    } else if tag == TAG_UINT16 {
        if b.len() == 2 {
            Ok(VariantValue::UInt16(spec_u16_from_le_bytes(b)))
        } else {
            Err(VariantError::MalformedValue)
        }
    } else if tag == TAG_INT32 {
        if b.len() == 4 {
            Ok(VariantValue::Int32(spec_u32_from_le_bytes(b) as i32))
        } else {
            Err(VariantError::MalformedValue)
        }
    } else if tag == TAG_UINT32 {
        if b.len() == 4 {
            Ok(VariantValue::UInt32(spec_u32_from_le_bytes(b)))
        } else {
            Err(VariantError::MalformedValue)
        }
    } else if tag == TAG_INT64 {
        if b.len() == 8 {
            Ok(VariantValue::Int64(spec_u64_from_le_bytes(b) as i64))
        } else {
            Err(VariantError::MalformedValue)
        }
    } else if tag == TAG_UINT64 {
        if b.len() == 8 {
            Ok(VariantValue::UInt64(spec_u64_from_le_bytes(b)))
        } else {
            Err(VariantError::MalformedValue)
        }
    } else if tag == TAG_SINGLE {
        if b.len() == 4 {
            Ok(VariantValue::SingleBits(spec_u32_from_le_bytes(b)))
        } else {
            Err(VariantError::MalformedValue)
        }
    } else if tag == TAG_DOUBLE {
        if b.len() == 8 {
            Ok(VariantValue::DoubleBits(spec_u64_from_le_bytes(b)))
        } else {
            Err(VariantError::MalformedValue)
        }
    } else if tag == TAG_BOOLEAN {
        if b.len() == 4 {
            Ok(VariantValue::Boolean(spec_u32_from_le_bytes(b) != 0))
        } else {
            Err(VariantError::MalformedValue)
        }
    } else if tag == TAG_GUID {
        if b.len() == 16 {
            Ok(VariantValue::Guid(spec_u128_from_le_bytes(b)))
        } else {
            Err(VariantError::MalformedValue)
        }
    } else if tag == TAG_EVT_HANDLE {
        if b.len() == 8 {
            Ok(VariantValue::EvtHandle(spec_u64_from_le_bytes(b)))
        } else {
            Err(VariantError::MalformedValue)
        }
    } else {
        Err(VariantError::UnsupportedType(tag))
    }
}

proof fn lemma_u16s_bytes_roundtrip(u: Seq<u16>)
    ensures
        u16s_to_bytes(u).len() == 2 * u.len(),
        bytes_to_u16s(u16s_to_bytes(u)) == u,
    decreases u.len(),
{
    lemma_auto_spec_u16_to_from_le_bytes();
    if u.len() == 0 {
        assert(bytes_to_u16s(u16s_to_bytes(u)) =~= u);
    } else {
        lemma_u16s_bytes_roundtrip(u.drop_first());
        let b = u16s_to_bytes(u);
        assert(b.take(2) =~= spec_u16_to_le_bytes(u[0]));
        assert(b.skip(2) =~= u16s_to_bytes(u.drop_first()));
        assert(bytes_to_u16s(b) =~= u);
    }
}

/// Round trip of the tagged union: every value decodes back, under its own
/// tag, from the bytes it encodes to.
pub proof fn lemma_decode_encode(v: VariantValue)
    ensures
        spec_decode(tag_of(v), spec_encode(v)) == Ok::<VariantValue, VariantError>(v),
{
    lemma_auto_spec_u16_to_from_le_bytes();
    lemma_auto_spec_u32_to_from_le_bytes();
    lemma_auto_spec_u64_to_from_le_bytes();
    lemma_auto_spec_u128_to_from_le_bytes();
    match v {
        VariantValue::Utf16String(s) => {
            lemma_u16s_bytes_roundtrip(encode_utf16(s));
            lemma_decode_encode_utf16(s);
        },
        VariantValue::AnsiString(s) => {
            broadcast use vstd::utf8::encode_utf8_valid_utf8, vstd::utf8::encode_utf8_decode_utf8;

        },
        VariantValue::SByte(x) => {
            assert(seq![x as u8].len() == 1);
            assert(seq![x as u8][0] == x as u8);
            assert((x as u8) as i8 == x) by (bit_vector);
        },
        VariantValue::Byte(x) => {
            assert(seq![x][0] == x);
        },
        VariantValue::Int16(x) => {
            assert((x as u16) as i16 == x) by (bit_vector);
        },
        VariantValue::Int32(x) => {
            assert((x as u32) as i32 == x) by (bit_vector);
        },
        VariantValue::Int64(x) => {
            assert((x as u64) as i64 == x) by (bit_vector);
        },
        _ => {},
    }
}

fn le_bytes_to_u16s(b: &[u8]) -> (r: Vec<u16>)
    requires
        b@.len() % 2 == 0,
    ensures
        r@ == bytes_to_u16s(b@),
{
    let n = b.len();
    let mut r: Vec<u16> = Vec::new();
    let mut i: usize = 0;
    proof {
        assert(b@.skip(0) =~= b@);
    }
    while i < n
        invariant
            i <= n,
            i % 2 == 0,
            n == b@.len(),
            n % 2 == 0,
            bytes_to_u16s(b@) == r@ + bytes_to_u16s(b@.skip(i as int)),
        decreases n - i,
    {
        let x = u16_from_le_bytes(vstd::slice::slice_subrange(b, i, i + 2));
        r.push(x);
        proof {
            let tail = b@.skip(i as int);
            assert(tail.take(2) =~= b@.subrange(i as int, i + 2));
            assert(tail.skip(2) =~= b@.skip(i + 2));
            assert(r@ + bytes_to_u16s(b@.skip(i + 2)) =~= (r@.drop_last() + (seq![x]
                + bytes_to_u16s(tail.skip(2)))));
        }
        i = i + 2;
    }
    proof {
        assert(b@.skip(n as int) =~= Seq::<u8>::empty());
        assert(r@ + Seq::<u16>::empty() =~= r@);
    }
    r
}

fn u16s_to_le_vec(u: &Vec<u16>) -> (r: Vec<u8>)
    ensures
        r@ == u16s_to_bytes(u@),
{
    let n = u.len();
    let mut r: Vec<u8> = Vec::new();
    let mut i: usize = 0;
    proof {
        assert(u@.skip(0) =~= u@);
    }
    while i < n
        invariant
            i <= n,
            n == u@.len(),
            u16s_to_bytes(u@) == r@ + u16s_to_bytes(u@.skip(i as int)),
        decreases n - i,
    {
        let bs = u16_to_le_bytes(u[i]);
        let b0 = bs[0];
        let b1 = bs[1];
        r.push(b0);
        r.push(b1);
        proof {
            let tail = u@.skip(i as int);
            assert(tail[0] == u@[i as int]);
            assert(tail.drop_first() =~= u@.skip(i + 1));
            assert(r@ + u16s_to_bytes(u@.skip(i + 1)) =~= (r@.drop_last().drop_last() + (
            spec_u16_to_le_bytes(tail[0]) + u16s_to_bytes(tail.drop_first()))));
        }
        i = i + 1;
    }
    proof {
        assert(u@.skip(n as int) =~= Seq::<u16>::empty());
        assert(r@ + Seq::<u8>::empty() =~= r@);
    }
    r
}

/// Decodes one wire value from its type tag and payload bytes.  The tag fully
/// determines the rule; a tag outside the model is `UnsupportedType`, a
/// payload that does not fit its tag is `MalformedValue`.
pub fn decode(tag: u32, payload: &[u8]) -> (r: Result<VariantBuffer, VariantError>)
    ensures
        match (r, spec_decode(tag, payload@)) {
            (Ok(v), Ok(sv)) => v@ == sv,
            (Err(e), Err(se)) => e == se,
            _ => false,
        },
{
    let n = payload.len();
    if tag == TAG_NULL {
        if n == 0 {
            Ok(VariantBuffer::NullVal)
        } else {
            Err(VariantError::MalformedValue)
        }
    } else if tag == TAG_STRING {
        if n % 2 == 0 {
            let units = le_bytes_to_u16s(payload);
            match utf16_decode(units.as_slice()) {
                Some(s) => Ok(VariantBuffer::StringVal(s)),
                None => Err(VariantError::MalformedValue),
            }
        } else {
            Err(VariantError::MalformedValue)
        }
    } else if tag == TAG_ANSI_STRING {
        let owned = vstd::slice::slice_to_vec(payload);
        match string_from_utf8(owned) {
            Some(s) => Ok(VariantBuffer::AnsiStringVal(s)),
            None => Err(VariantError::MalformedValue),
        }
    } else if tag == TAG_SBYTE {
        if n == 1 {
            Ok(VariantBuffer::SByteVal(payload[0] as i8))
        } else {
            Err(VariantError::MalformedValue)
        }
    } else if tag == TAG_BYTE {
        if n == 1 {
            Ok(VariantBuffer::ByteVal(payload[0]))
        } else {
            Err(VariantError::MalformedValue)
        }
    } else if tag == TAG_INT16 {
        if n == 2 {
            Ok(VariantBuffer::Int16Val(u16_from_le_bytes(payload) as i16))
        } else {
            Err(VariantError::MalformedValue)
        }
    } else if tag == TAG_UINT16 {
        if n == 2 {
            Ok(VariantBuffer::UInt16Val(u16_from_le_bytes(payload)))
        } else {
            Err(VariantError::MalformedValue)
        }
    } else if tag == TAG_INT32 {
        if n == 4 {
            Ok(VariantBuffer::Int32Val(u32_from_le_bytes(payload) as i32))
        } else {
            Err(VariantError::MalformedValue)
        }
    } else if tag == TAG_UINT32 {
        if n == 4 {
            Ok(VariantBuffer::UInt32Val(u32_from_le_bytes(payload)))
        } else {
            Err(VariantError::MalformedValue)
        }
    } else if tag == TAG_INT64 {
        if n == 8 {
            Ok(VariantBuffer::Int64Val(u64_from_le_bytes(payload) as i64))
        } else {
            Err(VariantError::MalformedValue)
        }
    } else if tag == TAG_UINT64 {
        if n == 8 {
            Ok(VariantBuffer::UInt64Val(u64_from_le_bytes(payload)))
        } else {
            Err(VariantError::MalformedValue)
        }
    } else if tag == TAG_SINGLE {
        if n == 4 {
            Ok(VariantBuffer::SingleVal(u32_from_le_bytes(payload)))
        } else {
            Err(VariantError::MalformedValue)
        }
    } else if tag == TAG_DOUBLE {
        if n == 8 {
            Ok(VariantBuffer::DoubleVal(u64_from_le_bytes(payload)))
        } else {
            Err(VariantError::MalformedValue)
        }
    } else if tag == TAG_BOOLEAN {
        if n == 4 {
            let x = u32_from_le_bytes(payload);
            Ok(VariantBuffer::BooleanVal(x != 0))
        } else {
            Err(VariantError::MalformedValue)
        }
    } else if tag == TAG_GUID {
        if n == 16 {
            Ok(VariantBuffer::GuidVal(u128_from_le_bytes(payload)))
        } else {
            Err(VariantError::MalformedValue)
        }
    } else if tag == TAG_EVT_HANDLE {
        if n == 8 {
            Ok(VariantBuffer::EvtHandleVal(u64_from_le_bytes(payload)))
        } else {
            Err(VariantError::MalformedValue)
        }
    } else {
        Err(VariantError::UnsupportedType(tag))
    }
}

fn utf8_encode(s: &str) -> (r: Vec<u8>)
    ensures
        r@ == vstd::utf8::encode_utf8(s@),
{
    let n = s.unicode_len();
    let mut r: Vec<u8> = Vec::new();
    let mut i: usize = 0;
    proof {
        assert(s@.take(0) =~= Seq::<char>::empty());
    }
    while i < n
        invariant
            i <= n,
            n == s@.len(),
            r@ == vstd::utf8::encode_utf8(s@.take(i as int)),
        decreases n - i,
    {
        let c = s.get_char(i);
        let v = c as u32;
        let ghost prev = r@;
        proof {
            vstd::utf8::char_is_scalar(c);
            lemma_encode_utf8_push(s@.take(i as int), c);
            assert(s@.take(i + 1) =~= s@.take(i as int).push(s@[i as int]));
        }
        if v <= 0x7F {
            r.push((v & 0x7F) as u8);
        } else if v <= 0x7FF {
            r.push(0xC0 | ((v >> 6) & 0x1F) as u8);
            r.push(0x80 | (v & 0x3F) as u8);
        } else if v <= 0xFFFF {
            r.push(0xE0 | ((v >> 12) & 0x0F) as u8);
            r.push(0x80 | ((v >> 6) & 0x3F) as u8);
            r.push(0x80 | (v & 0x3F) as u8);
        } else {
            r.push(0xF0 | ((v >> 18) & 0x7) as u8);
            r.push(0x80 | ((v >> 12) & 0x3F) as u8);
            r.push(0x80 | ((v >> 6) & 0x3F) as u8);
            r.push(0x80 | (v & 0x3F) as u8);
        }
        proof {
            assert(r@ =~= prev + vstd::utf8::encode_scalar(c as u32));
        }
        i = i + 1;
    }
    proof {
        assert(s@.take(n as int) =~= s@);
    }
    r
}

proof fn lemma_encode_utf8_push(s: Seq<char>, c: char)
    ensures
        vstd::utf8::encode_utf8(s.push(c)) == vstd::utf8::encode_utf8(s)
            + vstd::utf8::encode_scalar(c as u32),
    decreases s.len(),
{
    if s.len() == 0 {
        assert(s.push(c).drop_first() =~= Seq::<char>::empty());
        assert(s.push(c)[0] == c);
        assert(vstd::utf8::encode_utf8(s.push(c)) == vstd::utf8::encode_scalar(c as u32)
            + vstd::utf8::encode_utf8(Seq::<char>::empty()));
        assert(vstd::utf8::encode_scalar(c as u32) + Seq::<u8>::empty() =~= vstd::utf8::encode_scalar(c as u32));
        assert(vstd::utf8::encode_utf8(s) + vstd::utf8::encode_scalar(c as u32)
            =~= vstd::utf8::encode_scalar(c as u32));
    } else {
        assert(s.push(c).drop_first() =~= s.drop_first().push(c));
        lemma_encode_utf8_push(s.drop_first(), c);
        assert(vstd::utf8::encode_utf8(s.push(c)) =~= vstd::utf8::encode_utf8(s)
            + vstd::utf8::encode_scalar(c as u32));
    }
}

/// Encodes a wire value to the payload bytes it travels as; `decode` under
/// `spec_tag` reverses this exactly.
pub fn encode(v: &VariantBuffer) -> (r: Vec<u8>)
    ensures
        r@ == spec_encode(v@),
{
    match v {
        VariantBuffer::NullVal => Vec::new(),
        VariantBuffer::StringVal(s) => {
            let units = utf16_encode(s.as_str());
            u16s_to_le_vec(&units)
        },
        VariantBuffer::AnsiStringVal(s) => utf8_encode(s.as_str()),
        VariantBuffer::SByteVal(x) => {
            let mut r: Vec<u8> = Vec::new();
            r.push(*x as u8);
            proof {
                assert(r@ =~= seq![(*x) as u8]);
            }
            r
        },
        VariantBuffer::ByteVal(x) => {
            let mut r: Vec<u8> = Vec::new();
            r.push(*x);
            proof {
                assert(r@ =~= seq![*x]);
            }
            r
        },
        VariantBuffer::Int16Val(x) => u16_to_le_bytes(*x as u16),
        VariantBuffer::UInt16Val(x) => u16_to_le_bytes(*x),
        VariantBuffer::Int32Val(x) => u32_to_le_bytes(*x as u32),
        VariantBuffer::UInt32Val(x) => u32_to_le_bytes(*x),
        VariantBuffer::Int64Val(x) => u64_to_le_bytes(*x as u64),
        VariantBuffer::UInt64Val(x) => u64_to_le_bytes(*x),
        VariantBuffer::SingleVal(x) => u32_to_le_bytes(*x),
        VariantBuffer::DoubleVal(x) => u64_to_le_bytes(*x),
        VariantBuffer::BooleanVal(b) => {
            if *b {
                u32_to_le_bytes(1)
            } else {
                u32_to_le_bytes(0)
            }
        },
        VariantBuffer::GuidVal(g) => u128_to_le_bytes(*g),
        VariantBuffer::EvtHandleVal(h) => u64_to_le_bytes(*h),
    }
}

/// The tag a value travels under, as executable code.
pub fn wire_tag(v: &VariantBuffer) -> (t: u32)
    ensures
        t == tag_of(v@),
{
    match v {
        VariantBuffer::NullVal => TAG_NULL,
        VariantBuffer::StringVal(_) => TAG_STRING,
        VariantBuffer::AnsiStringVal(_) => TAG_ANSI_STRING,
        VariantBuffer::SByteVal(_) => TAG_SBYTE,
        VariantBuffer::ByteVal(_) => TAG_BYTE,
        VariantBuffer::Int16Val(_) => TAG_INT16,
        VariantBuffer::UInt16Val(_) => TAG_UINT16,
        VariantBuffer::Int32Val(_) => TAG_INT32,
        VariantBuffer::UInt32Val(_) => TAG_UINT32,
        VariantBuffer::Int64Val(_) => TAG_INT64,
        VariantBuffer::UInt64Val(_) => TAG_UINT64,
        VariantBuffer::SingleVal(_) => TAG_SINGLE,
        VariantBuffer::DoubleVal(_) => TAG_DOUBLE,
        VariantBuffer::BooleanVal(_) => TAG_BOOLEAN,
        VariantBuffer::GuidVal(_) => TAG_GUID,
        VariantBuffer::EvtHandleVal(_) => TAG_EVT_HANDLE,
    }
}

} // verus!

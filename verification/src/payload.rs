//! The payload layer: the non-verbose payload (a 4-byte message ID plus
//! opaque bytes) and the verbose payload (a self-describing stream of typed
//! arguments governed by a 32-bit type-info word).
//!
//! `spec_argument` is the spec-level twin of the argument decoder: it maps
//! the bytes at the front of a region to either a decoded argument model or
//! the exact error.  The executable decoder and the lazy [`Arguments`]
//! iterator are proved to follow it, and `lemma_args_within_payload` shows
//! that an argument stream never consumes more bytes than its payload
//! holds.

use vstd::prelude::*;

verus! {

use vstd::slice::slice_subrange;
use vstd::utf8::valid_utf8;
use vstd::utf8::decode_utf8;
use vstd::utf8::encode_utf8_decode_utf8;
use crate::error::{ParseError, ParseErrorModel};
use crate::wire::{
    word_value,
    to_signed,
    trim_nuls,
    pow256,
    lemma_le_word_bound,
    lemma_be_word_bound,
    read_u16,
    read_u32,
    read_u64,
    read_u128,
    read_i8,
    read_i16,
    read_i32,
    read_i64,
    read_i128,
    trim_trailing_nuls,
    utf8_from_bytes,
};

// --- non-verbose payload ------------------------------------------------

/// An opaque payload: a 4-byte message ID followed by raw bytes.
#[derive(Debug)]
pub struct NonVerbosePayload<'a> {
    message_id: u32,
    data: &'a [u8],
}

/// The mathematical image of a [`NonVerbosePayload`].
#[verifier::ext_equal]
pub ghost struct NonVerboseModel {
    pub message_id: u32,
    pub data: Seq<u8>,
}

impl<'a> View for NonVerbosePayload<'a> {
    type V = NonVerboseModel;

    closed spec fn view(&self) -> NonVerboseModel {
        NonVerboseModel { message_id: self.message_id, data: self.data@ }
    }
}

/// What decoding a non-verbose payload of `length` bytes from the front of
/// `s` yields.  The message ID takes the message's endianness; the rest of
/// the `length` bytes stay opaque.
pub open spec fn spec_non_verbose(s: Seq<u8>, length: int, msb_first: bool) -> Result<
    NonVerboseModel,
    ParseErrorModel,
> {
    if length > s.len() {
        Err(ParseErrorModel::NotEnoughData { needed: length, available: s.len() as int })
    } else if length < 4 {
        Err(ParseErrorModel::NotEnoughData { needed: 4, available: length })
    } else {
        Ok(
            NonVerboseModel {
                message_id: word_value(s.subrange(0, 4), msb_first) as u32,
                data: s.subrange(4, length),
            },
        )
    }
}

impl<'a> NonVerbosePayload<'a> {
    pub fn from_slice(buf: &'a [u8], length: usize, msb_first: bool) -> (r: Result<
        Self,
        ParseError,
    >)
        ensures
            match r {
                Ok(p) => spec_non_verbose(buf@, length as int, msb_first) == Ok::<
                    NonVerboseModel,
                    ParseErrorModel,
                >(p@),
                Err(e) => spec_non_verbose(buf@, length as int, msb_first) == Err::<
                    NonVerboseModel,
                    ParseErrorModel,
                >(e@),
            },
    {
        if length > buf.len() {
            return Err(ParseError::NotEnoughData { needed: length, available: buf.len() });
        }
        if length < 4 {
            return Err(ParseError::NotEnoughData { needed: 4, available: length });
        }
        let message_id = read_u32(slice_subrange(buf, 0, 4), msb_first);
        let data = slice_subrange(buf, 4, length);
        proof {
            lemma_le_word_bound(buf@.subrange(0, 4));
            lemma_be_word_bound(buf@.subrange(0, 4));
            reveal_with_fuel(pow256, 5);
        }
        Ok(NonVerbosePayload { message_id, data })
    }

    /// The message ID in front of the opaque bytes.
    pub fn message_id(&self) -> (r: u32)
        ensures
            r == self@.message_id,
    {
        self.message_id
    }

    /// The opaque bytes decoded as UTF-8, trailing NULs trimmed.
    pub fn as_str(&self) -> (r: Result<&str, ParseError>)
        ensures
            r is Ok <==> valid_utf8(trim_nuls(self@.data)),
            r matches Ok(s) ==> s@ == decode_utf8(trim_nuls(self@.data)),
            r matches Err(e) ==> e@ == ParseErrorModel::BadUTF8,
    {
        let trimmed = trim_trailing_nuls(self.data);
        match utf8_from_bytes(trimmed) {
            None => Err(ParseError::BadUTF8),
            Some(s) => {
                proof {
                    encode_utf8_decode_utf8(s@);
                }
                Ok(s)
            },
        }
    }

    /// The opaque bytes after the message ID.
    pub fn data(&self) -> (r: &[u8])
        ensures
            r@ == self@.data,
    {
        self.data
    }

    /// The number of payload bytes this value covers, message ID included.
    pub fn len(&self) -> (r: usize)
        requires
            4 + self@.data.len() <= usize::MAX,
        ensures
            r == 4 + self@.data.len(),
    {
        4 + self.data.len()
    }
}

// --- verbose payload ----------------------------------------------------

/// A self-describing payload: a borrowed byte region plus the endianness
/// its typed arguments are encoded in.
#[derive(Debug)]
pub struct VerbosePayload<'a> {
    data: &'a [u8],
    msb_first: bool,
}

/// The mathematical image of a [`VerbosePayload`].
#[verifier::ext_equal]
pub ghost struct VerboseModel {
    pub data: Seq<u8>,
    pub msb_first: bool,
}

impl<'a> View for VerbosePayload<'a> {
    type V = VerboseModel;

    closed spec fn view(&self) -> VerboseModel {
        VerboseModel { data: self.data@, msb_first: self.msb_first }
    }
}

/// What framing a verbose payload of `length` bytes from the front of `s`
/// yields.  The bytes stay unparsed; arguments are decoded lazily.
pub open spec fn spec_verbose(s: Seq<u8>, length: int, msb_first: bool) -> Result<
    VerboseModel,
    ParseErrorModel,
> {
    if length > s.len() {
        Err(ParseErrorModel::NotEnoughData { needed: length, available: s.len() as int })
    } else {
        Ok(VerboseModel { data: s.subrange(0, length), msb_first })
    }
}

impl<'a> VerbosePayload<'a> {
    pub fn from_slice(buf: &'a [u8], length: usize, msb_first: bool) -> (r: Result<
        Self,
        ParseError,
    >)
        ensures
            match r {
                Ok(p) => spec_verbose(buf@, length as int, msb_first) == Ok::<
                    VerboseModel,
                    ParseErrorModel,
                >(p@),
                Err(e) => spec_verbose(buf@, length as int, msb_first) == Err::<
                    VerboseModel,
                    ParseErrorModel,
                >(e@),
            },
    {
        if length > buf.len() {
            return Err(ParseError::NotEnoughData { needed: length, available: buf.len() });
        }
        Ok(VerbosePayload { data: slice_subrange(buf, 0, length), msb_first })
    }

    /// Wraps a whole region as a verbose payload.
    pub fn new(buf: &'a [u8], msb_first: bool) -> (r: Self)
        ensures
            r@ == (VerboseModel { data: buf@, msb_first }),
    {
        VerbosePayload { data: buf, msb_first }
    }

    /// A fresh iterator over the typed arguments of this payload.
    pub fn arguments(&self) -> (it: Arguments<'a>)
        ensures
            it@ == (ArgumentsModel {
                data: self@.data,
                index: 0,
                msb_first: self@.msb_first,
                fatal: false,
            }),
    {
        Arguments { data: self.data, index: 0, msb_first: self.msb_first, fatal: false }
    }

    /// The number of payload bytes this value covers.
    pub fn len(&self) -> (r: usize)
        ensures
            r == self@.data.len(),
    {
        self.data.len()
    }
}

// --- the payload union --------------------------------------------------

/// A message's payload: non-verbose or verbose.
#[derive(Debug)]
pub enum Payload<'a> {
    NonVerbose(NonVerbosePayload<'a>),
    Verbose(VerbosePayload<'a>),
}

/// The mathematical image of a [`Payload`].
#[verifier::ext_equal]
pub ghost enum PayloadModel {
    NonVerbose(NonVerboseModel),
    Verbose(VerboseModel),
}

impl PayloadModel {
    /// The number of payload bytes the value covers.
    pub open spec fn spec_len(self) -> int {
        match self {
            PayloadModel::NonVerbose(nv) => 4 + nv.data.len() as int,
            PayloadModel::Verbose(v) => v.data.len() as int,
        }
    }
}

impl<'a> View for Payload<'a> {
    type V = PayloadModel;

    open spec fn view(&self) -> PayloadModel {
        match self {
            Payload::NonVerbose(nv) => PayloadModel::NonVerbose(nv@),
            Payload::Verbose(v) => PayloadModel::Verbose(v@),
        }
    }
}

impl<'a> Payload<'a> {
    pub fn as_non_verbose(&self) -> (r: Option<&NonVerbosePayload<'a>>)
        ensures
            r is Some <==> self@ is NonVerbose,
            r matches Some(p) ==> self@ == PayloadModel::NonVerbose(p@),
    {
        match self {
            Payload::NonVerbose(nv) => Some(nv),
            Payload::Verbose(_) => None,
        }
    }

    pub fn as_verbose(&self) -> (r: Option<&VerbosePayload<'a>>)
        ensures
            r is Some <==> self@ is Verbose,
            r matches Some(p) ==> self@ == PayloadModel::Verbose(p@),
    {
        match self {
            Payload::NonVerbose(_) => None,
            Payload::Verbose(v) => Some(v),
        }
    }

    pub fn len(&self) -> (r: usize)
        requires
            self@.spec_len() <= usize::MAX,
        ensures
            r == self@.spec_len(),
    {
        match self {
            Payload::NonVerbose(nv) => nv.len(),
            Payload::Verbose(v) => v.len(),
        }
    }
}

// --- typed argument values ----------------------------------------------

/// One decoded argument value.  Floating-point arguments carry their raw
/// IEEE-754 bits; turning them into native floats is the consumer's
/// affair.
#[derive(Debug, Clone)]
pub enum Value<'a> {
    Bool(bool),
    U8(u8),
    U16(u16),
    U32(u32),
    U64(u64),
    U128(u128),
    I8(i8),
    I16(i16),
    I32(i32),
    I64(i64),
    I128(i128),
    F32Bits(u32),
    F64Bits(u64),
    String(&'a str),
    Raw(&'a [u8]),
}

/// The mathematical image of a [`Value`].
#[verifier::ext_equal]
pub ghost enum ValueModel {
    Bool(bool),
    U8(u8),
    U16(u16),
    U32(u32),
    U64(u64),
    U128(u128),
    I8(i8),
    I16(i16),
    I32(i32),
    I64(i64),
    I128(i128),
    F32Bits(u32),
    F64Bits(u64),
    String(Seq<char>),
    Raw(Seq<u8>),
}

impl<'a> View for Value<'a> {
    type V = ValueModel;

    open spec fn view(&self) -> ValueModel {
        match self {
            Value::Bool(v) => ValueModel::Bool(*v),
            Value::U8(v) => ValueModel::U8(*v),
            Value::U16(v) => ValueModel::U16(*v),
            Value::U32(v) => ValueModel::U32(*v),
            Value::U64(v) => ValueModel::U64(*v),
            Value::U128(v) => ValueModel::U128(*v),
            Value::I8(v) => ValueModel::I8(*v),
            Value::I16(v) => ValueModel::I16(*v),
            Value::I32(v) => ValueModel::I32(*v),
            Value::I64(v) => ValueModel::I64(*v),
            Value::I128(v) => ValueModel::I128(*v),
            Value::F32Bits(v) => ValueModel::F32Bits(*v),
            Value::F64Bits(v) => ValueModel::F64Bits(*v),
            Value::String(s) => ValueModel::String(s@),
            Value::Raw(r) => ValueModel::Raw(r@),
        }
    }
}

/// The mutually exclusive type classes a type-info word can name.
#[derive(Debug, Clone, Copy)]
pub enum ArgType {
    Bool,
    Signed,
    Unsigned,
    Float,
    Array,
    String,
    Raw,
    Struct,
}

/// The class named by already-masked type-class bits, if any.
pub open spec fn spec_arg_type(value: u32) -> Option<ArgType> {
    if value == 0x10 {
        Some(ArgType::Bool)
    } else if value == 0x20 {
        Some(ArgType::Signed)
    } else if value == 0x40 {
        Some(ArgType::Unsigned)
    } else if value == 0x80 {
        Some(ArgType::Float)
    } else if value == 0x100 {
        Some(ArgType::Array)
    } else if value == 0x200 {
        Some(ArgType::String)
    } else if value == 0x400 {
        Some(ArgType::Raw)
    } else if value == 0x4000 {
        Some(ArgType::Struct)
    } else {
        None
    }
}

impl ArgType {
    /// The class named by already-masked type-class bits, or those bits
    /// unchanged when they name none.
    pub fn try_from(value: u32) -> (r: Result<ArgType, u32>)
        ensures
            match r {
                Ok(t) => spec_arg_type(value) == Some(t),
                Err(u) => spec_arg_type(value) is None && u == value,
            },
    {
        if value == 0x10 {
            Ok(ArgType::Bool)
        } else if value == 0x20 {
            Ok(ArgType::Signed)
        } else if value == 0x40 {
            Ok(ArgType::Unsigned)
        } else if value == 0x80 {
            Ok(ArgType::Float)
        } else if value == 0x100 {
            Ok(ArgType::Array)
        } else if value == 0x200 {
            Ok(ArgType::String)
        } else if value == 0x400 {
            Ok(ArgType::Raw)
        } else if value == 0x4000 {
            Ok(ArgType::Struct)
        } else {
            Err(value)
        }
    }
}

/// How a string argument's text is coded.  The format defines the flag;
/// this decoder treats both codings as UTF-8, ASCII being a subset.
#[derive(Debug, Clone, Copy)]
pub enum StringCoding {
    Ascii,
    Utf8,
}

// --- the argument decoder -----------------------------------------------

/// The byte width the type-length bits `1..=5` name.
pub open spec fn spec_type_width(tl: u32) -> int {
    if tl == 1 {
        1int
    } else if tl == 2 {
        2int
    } else if tl == 3 {
        4int
    } else if tl == 4 {
        8int
    } else {
        16int
    }
}

/// The numeric value model of one `width`-byte integer argument.
pub open spec fn spec_numeric_value(raw: nat, tl: u32, signed: bool) -> ValueModel {
    if signed {
        if tl == 1 {
            ValueModel::I8(to_signed(raw, 1) as i8)
        } else if tl == 2 {
            ValueModel::I16(to_signed(raw, 2) as i16)
        } else if tl == 3 {
            ValueModel::I32(to_signed(raw, 4) as i32)
        } else if tl == 4 {
            ValueModel::I64(to_signed(raw, 8) as i64)
        } else {
            ValueModel::I128(to_signed(raw, 16) as i128)
        }
    } else {
        if tl == 1 {
            ValueModel::U8(raw as u8)
        } else if tl == 2 {
            ValueModel::U16(raw as u16)
        } else if tl == 3 {
            ValueModel::U32(raw as u32)
        } else if tl == 4 {
            ValueModel::U64(raw as u64)
        } else {
            ValueModel::U128(raw as u128)
        }
    }
}

/// The mathematical image of an [`Argument`].
#[verifier::ext_equal]
pub ghost struct ArgModel {
    pub type_info: u32,
    pub name: Option<Seq<char>>,
    pub unit: Option<Seq<char>>,
    pub value: ValueModel,
    pub byte_length: int,
}

/// What decoding one argument from the front of `b` yields: the argument
/// model, or the exact error.  The type-info word and every numeric or
/// length field take the payload endianness.  `byte_length` counts the
/// type-info word plus the value bytes; a string's or raw field's declared
/// length counts in full, trailing NUL included.
pub open spec fn spec_argument(b: Seq<u8>, msb_first: bool) -> Result<ArgModel, ParseErrorModel> {
    if b.len() < 4 {
        Err(ParseErrorModel::NotEnoughData { needed: 4, available: b.len() as int })
    } else {
        let ti = word_value(b.subrange(0, 4), msb_first) as u32;
        let cls = ti & 0x67f0;
        let tl = ti & 0x0f;
        if spec_arg_type(cls) is None {
            Err(ParseErrorModel::UnknownArgumentType(cls))
        } else if ti & 0x800 != 0 {
            Err(ParseErrorModel::Unsupported("var info"@))
        } else if ti & 0x1000 != 0 {
            Err(ParseErrorModel::Unsupported("fixed point"@))
        } else if cls == 0x10 {
            if b.len() < 5 {
                Err(ParseErrorModel::NotEnoughData { needed: 1, available: b.len() - 4 })
            } else {
                Ok(
                    ArgModel {
                        type_info: ti,
                        name: None,
                        unit: None,
                        value: ValueModel::Bool(b[4] != 0),
                        byte_length: 5,
                    },
                )
            }
        } else if cls == 0x20 || cls == 0x40 {
            if !(1 <= tl <= 5) {
                Err(ParseErrorModel::Unsupported("type length"@))
            } else {
                let w = spec_type_width(tl);
                if b.len() < 4 + w {
                    Err(ParseErrorModel::NotEnoughData { needed: w, available: b.len() - 4 })
                } else {
                    Ok(
                        ArgModel {
                            type_info: ti,
                            name: None,
                            unit: None,
                            value: spec_numeric_value(
                                word_value(b.subrange(4, 4 + w), msb_first),
                                tl,
                                cls == 0x20,
                            ),
                            byte_length: 4 + w,
                        },
                    )
                }
            }
        } else if cls == 0x80 {
            if tl == 3 {
                if b.len() < 8 {
                    Err(ParseErrorModel::NotEnoughData { needed: 4, available: b.len() - 4 })
                } else {
                    Ok(
                        ArgModel {
                            type_info: ti,
                            name: None,
                            unit: None,
                            value: ValueModel::F32Bits(
                                word_value(b.subrange(4, 8), msb_first) as u32,
                            ),
                            byte_length: 8,
                        },
                    )
                }
            } else if tl == 4 {
                if b.len() < 12 {
                    Err(ParseErrorModel::NotEnoughData { needed: 8, available: b.len() - 4 })
                } else {
                    Ok(
                        ArgModel {
                            type_info: ti,
                            name: None,
                            unit: None,
                            value: ValueModel::F64Bits(
                                word_value(b.subrange(4, 12), msb_first) as u64,
                            ),
                            byte_length: 12,
                        },
                    )
                }
            } else if tl == 2 {
                Err(ParseErrorModel::Unsupported("f16"@))
            } else if tl == 5 {
                Err(ParseErrorModel::Unsupported("f128"@))
            } else {
                Err(ParseErrorModel::Unsupported("type length"@))
            }
        } else if cls == 0x100 {
            Err(ParseErrorModel::UnimplementedArgumentType("array"@))
        } else if cls == 0x4000 {
            Err(ParseErrorModel::UnimplementedArgumentType("struct"@))
        } else {
            // String (0x200) or Raw (0x400): a 2-byte length, then the body
            if b.len() < 6 {
                Err(ParseErrorModel::NotEnoughData { needed: 2, available: b.len() - 4 })
            } else {
                let l = word_value(b.subrange(4, 6), msb_first) as int;
                if b.len() < 6 + l {
                    Err(ParseErrorModel::NotEnoughData { needed: l, available: b.len() - 6 })
                } else if cls == 0x200 {
                    if !valid_utf8(trim_nuls(b.subrange(6, 6 + l))) {
                        Err(ParseErrorModel::BadUTF8)
                    } else {
                        Ok(
                            ArgModel {
                                type_info: ti,
                                name: None,
                                unit: None,
                                value: ValueModel::String(
                                    decode_utf8(trim_nuls(b.subrange(6, 6 + l))),
                                ),
                                byte_length: 6 + l,
                            },
                        )
                    }
                } else {
                    Ok(
                        ArgModel {
                            type_info: ti,
                            name: None,
                            unit: None,
                            value: ValueModel::Raw(b.subrange(6, 6 + l)),
                            byte_length: 6 + l,
                        },
                    )
                }
            }
        }
    }
}

/// A decoded argument consumes at least its type-info word and one value
/// byte, and never more than the region it was decoded from.
pub proof fn lemma_argument_bounds(b: Seq<u8>, msb_first: bool)
    ensures
        spec_argument(b, msb_first) matches Ok(m) ==> 5 <= m.byte_length <= b.len(),
{
}

/// One self-described argument: its type-info word, its decoded value, and
/// the number of payload bytes it consumed.  Name and unit strings are not
/// decoded in this revision.
#[derive(Debug, Clone)]
pub struct Argument<'a> {
    pub type_info: u32,
    pub name: Option<&'a str>,
    pub unit: Option<&'a str>,
    pub value: Value<'a>,
    pub byte_length: usize,
}

impl<'a> View for Argument<'a> {
    type V = ArgModel;

    open spec fn view(&self) -> ArgModel {
        ArgModel {
            type_info: self.type_info,
            name: match self.name {
                Some(s) => Some(s@),
                None => None,
            },
            unit: match self.unit {
                Some(s) => Some(s@),
                None => None,
            },
            value: self.value@,
            byte_length: self.byte_length as int,
        }
    }
}

impl<'a> Argument<'a> {
    /// Decodes one argument from the front of `buf`.
    pub fn new(buf: &'a [u8], msb_first: bool) -> (r: Result<Argument<'a>, ParseError>)
        ensures
            match r {
                Ok(a) => spec_argument(buf@, msb_first) == Ok::<ArgModel, ParseErrorModel>(a@),
                Err(e) => spec_argument(buf@, msb_first) == Err::<ArgModel, ParseErrorModel>(e@),
            },
    {
        if buf.len() < 4 {
            return Err(ParseError::NotEnoughData { needed: 4, available: buf.len() });
        }
        let type_info = read_u32(slice_subrange(buf, 0, 4), msb_first);
        proof {
            lemma_le_word_bound(buf@.subrange(0, 4));
            lemma_be_word_bound(buf@.subrange(0, 4));
            reveal_with_fuel(pow256, 5);
        }
        let cls = type_info & 0x67f0;
        let tl = type_info & 0x0f;

        let arg_type = match ArgType::try_from(cls) {
            Ok(t) => t,
            Err(unknown) => {
                return Err(ParseError::UnknownArgumentType(unknown));
            },
        };
        if type_info & 0x800 != 0 {
            return Err(ParseError::Unsupported("var info"));
        }
        if type_info & 0x1000 != 0 {
            return Err(ParseError::Unsupported("fixed point"));
        }

        let (value, byte_length): (Value<'a>, usize) = match arg_type {
            ArgType::Bool => {
                if buf.len() < 5 {
                    return Err(ParseError::NotEnoughData { needed: 1, available: buf.len() - 4 });
                }
                (Value::Bool(buf[4] != 0), 5)
            },
            ArgType::Signed | ArgType::Unsigned => {
                if tl < 1 || tl > 5 {
                    return Err(ParseError::Unsupported("type length"));
                }
                let w: usize = if tl == 1 {
                    1
                } else if tl == 2 {
                    2
                } else if tl == 3 {
                    4
                } else if tl == 4 {
                    8
                } else {
                    16
                };
                if buf.len() < 4 + w {
                    return Err(ParseError::NotEnoughData { needed: w, available: buf.len() - 4 });
                }
                let field = slice_subrange(buf, 4, 4 + w);
                let v: Value<'a> = if matches!(arg_type, ArgType::Signed) {
                    if tl == 1 {
                        Value::I8(read_i8(field))
                    } else if tl == 2 {
                        Value::I16(read_i16(field, msb_first))
                    } else if tl == 3 {
                        Value::I32(read_i32(field, msb_first))
                    } else if tl == 4 {
                        Value::I64(read_i64(field, msb_first))
                    } else {
                        Value::I128(read_i128(field, msb_first))
                    }
                } else {
                    if tl == 1 {
                        Value::U8(field[0])
                    } else if tl == 2 {
                        Value::U16(read_u16(field, msb_first))
                    } else if tl == 3 {
                        Value::U32(read_u32(field, msb_first))
                    } else if tl == 4 {
                        Value::U64(read_u64(field, msb_first))
                    } else {
                        Value::U128(read_u128(field, msb_first))
                    }
                };
                proof {
                    lemma_le_word_bound(buf@.subrange(4, 4 + w));
                    lemma_be_word_bound(buf@.subrange(4, 4 + w));
                    reveal_with_fuel(pow256, 17);
                    if tl == 1 {
                        assert(buf@.subrange(4, 5).drop_last() =~= Seq::<u8>::empty());
                        assert(buf@.subrange(4, 5).skip(1) =~= Seq::<u8>::empty());
                        reveal_with_fuel(crate::wire::be_word, 2);
                        reveal_with_fuel(crate::wire::le_word, 2);
                    }
                }
                (v, 4 + w)
            },
            ArgType::Float => {
                if tl == 3 {
                    if buf.len() < 8 {
                        return Err(
                            ParseError::NotEnoughData { needed: 4, available: buf.len() - 4 },
                        );
                    }
                    proof {
                        lemma_le_word_bound(buf@.subrange(4, 8));
                        lemma_be_word_bound(buf@.subrange(4, 8));
                        reveal_with_fuel(pow256, 5);
                    }
                    (Value::F32Bits(read_u32(slice_subrange(buf, 4, 8), msb_first)), 8)
                } else if tl == 4 {
                    if buf.len() < 12 {
                        return Err(
                            ParseError::NotEnoughData { needed: 8, available: buf.len() - 4 },
                        );
                    }
                    proof {
                        lemma_le_word_bound(buf@.subrange(4, 12));
                        lemma_be_word_bound(buf@.subrange(4, 12));
                        reveal_with_fuel(pow256, 9);
                    }
                    (Value::F64Bits(read_u64(slice_subrange(buf, 4, 12), msb_first)), 12)
                } else if tl == 2 {
                    return Err(ParseError::Unsupported("f16"));
                } else if tl == 5 {
                    return Err(ParseError::Unsupported("f128"));
                } else {
                    return Err(ParseError::Unsupported("type length"));
                }
            },
            ArgType::Array => {
                return Err(ParseError::UnimplementedArgumentType("array"));
            },
            ArgType::Struct => {
                return Err(ParseError::UnimplementedArgumentType("struct"));
            },
            ArgType::String | ArgType::Raw => {
                if buf.len() < 6 {
                    return Err(ParseError::NotEnoughData { needed: 2, available: buf.len() - 4 });
                }
                let l = read_u16(slice_subrange(buf, 4, 6), msb_first) as usize;
                proof {
                    lemma_le_word_bound(buf@.subrange(4, 6));
                    lemma_be_word_bound(buf@.subrange(4, 6));
                    reveal_with_fuel(pow256, 5);
                }
                if buf.len() - 6 < l {
                    return Err(ParseError::NotEnoughData { needed: l, available: buf.len() - 6 });
                }
                let body = slice_subrange(buf, 6, 6 + l);
                if matches!(arg_type, ArgType::String) {
                    let trimmed = trim_trailing_nuls(body);
                    match utf8_from_bytes(trimmed) {
                        None => {
                            return Err(ParseError::BadUTF8);
                        },
                        Some(s) => {
                            proof {
                                encode_utf8_decode_utf8(s@);
                            }
                            (Value::String(s), 6 + l)
                        },
                    }
                } else {
                    (Value::Raw(body), 6 + l)
                }
            },
        };
        Ok(Argument { type_info, name: None, unit: None, value, byte_length })
    }

    /// The number of payload bytes this argument consumed.
    pub fn len(&self) -> (r: usize)
        ensures
            r == self@.byte_length,
    {
        self.byte_length
    }
}

// --- the argument iterator ----------------------------------------------

/// A lazy iterator over the arguments of a verbose payload.  Once an
/// argument fails to decode, the iterator turns fatal and yields nothing
/// further.
#[derive(Debug)]
pub struct Arguments<'a> {
    data: &'a [u8],
    index: usize,
    msb_first: bool,
    fatal: bool,
}

/// The mathematical image of an [`Arguments`] iterator.
#[verifier::ext_equal]
pub ghost struct ArgumentsModel {
    pub data: Seq<u8>,
    pub index: int,
    pub msb_first: bool,
    pub fatal: bool,
}

impl<'a> View for Arguments<'a> {
    type V = ArgumentsModel;

    closed spec fn view(&self) -> ArgumentsModel {
        ArgumentsModel {
            data: self.data@,
            index: self.index as int,
            msb_first: self.msb_first,
            fatal: self.fatal,
        }
    }
}

impl<'a> Arguments<'a> {
    /// Decodes the next argument, or reports why it cannot be decoded.
    /// On success the cursor advances by exactly the argument's byte
    /// length; on an error the iterator turns fatal and stops.
    pub fn next(&mut self) -> (r: Option<Result<Argument<'a>, ParseError>>)
        ensures
            final(self)@.data == old(self)@.data,
            final(self)@.msb_first == old(self)@.msb_first,
            ({
                let m = old(self)@;
                if m.fatal || m.index >= m.data.len() {
                    r is None && final(self)@ == m
                } else {
                    match spec_argument(m.data.skip(m.index), m.msb_first) {
                        Ok(am) => {
                            &&& r matches Some(Ok(a)) && a@ == am
                            &&& final(self)@.index == m.index + am.byte_length
                            &&& final(self)@.fatal == false
                        },
                        Err(em) => {
                            &&& r matches Some(Err(e)) && e@ == em
                            &&& final(self)@.index == m.index
                            &&& final(self)@.fatal == true
                        },
                    }
                }
            }),
    {
        if self.fatal || self.index >= self.data.len() {
            return None;
        }
        let rest = slice_subrange(self.data, self.index, self.data.len());
        match Argument::new(rest, self.msb_first) {
            Ok(arg) => {
                proof {
                    lemma_argument_bounds(rest@, self.msb_first);
                }
                self.index = self.index + arg.byte_length;
                Some(Ok(arg))
            },
            Err(err) => {
                self.fatal = true;
                Some(Err(err))
            },
        }
    }
}

// --- byte accounting over a whole payload -------------------------------

/// The total number of bytes consumed by decoding arguments from the front
/// of `b` until the first failure or the end of the region.
pub open spec fn spec_args_consumed(b: Seq<u8>, msb_first: bool) -> int
    decreases b.len(),
{
    if b.len() == 0 {
        0
    } else {
        match spec_argument(b, msb_first) {
            Ok(m) => if 1 <= m.byte_length <= b.len() {
                m.byte_length + spec_args_consumed(b.skip(m.byte_length), msb_first)
            } else {
                0
            },
            Err(_) => 0,
        }
    }
}

/// The arguments of a verbose payload lie within it: however far the
/// argument stream runs, the bytes it consumes never exceed the payload's
/// length.
pub proof fn lemma_args_within_payload(b: Seq<u8>, msb_first: bool)
    ensures
        0 <= spec_args_consumed(b, msb_first) <= b.len(),
    decreases b.len(),
{
    if b.len() != 0 {
        let r = spec_argument(b, msb_first);
        if r is Ok {
            let m = r->Ok_0;
            lemma_argument_bounds(b, msb_first);
            if 1 <= m.byte_length <= b.len() {
                lemma_args_within_payload(b.skip(m.byte_length), msb_first);
            }
        }
    }
}

} // verus!

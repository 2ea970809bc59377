//! The three DLT header layers: the 16-byte storage header, the standard
//! header (4 fixed bytes plus up to three optional 4-byte fields gated by
//! flag bits), and the optional 10-byte extended header.
//!
//! Each decoder has a spec-level twin (`spec_storage_header`,
//! `spec_standard_header`, `spec_extended_header`) that maps the raw bytes
//! to either a decoded model or the exact error; the executable decoders
//! are proved to return precisely that.

use vstd::prelude::*;

verus! {

use vstd::slice::slice_subrange;
use vstd::utf8::valid_utf8;
use vstd::utf8::decode_utf8;
use vstd::utf8::encode_utf8_decode_utf8;
use crate::error::{ParseError, ParseErrorModel, DltError, DltErrorModel};
use crate::wire::{
    le_word,
    be_word,
    to_signed,
    trim_nuls,
    pow256,
    lemma_le_word_bound,
    lemma_be_word_bound,
    read_u32,
    read_i32,
    read_u16,
    trim_trailing_nuls,
    utf8_from_bytes,
};

/// The four magic bytes `"DLT\x01"` that open every storage header.
pub open spec fn dlt_magic() -> Seq<u8> {
    seq![0x44u8, 0x4cu8, 0x54u8, 0x01u8]
}

// --- storage header -----------------------------------------------------

/// The 16-byte persistence prefix: magic, timestamp, ECU ID.
#[derive(Debug, PartialEq, Eq)]
pub struct StorageHeader<'a> {
    pub seconds: u32,
    pub microseconds: i32,
    pub ecu_id: &'a str,
}

/// The mathematical image of a [`StorageHeader`].
#[verifier::ext_equal]
pub ghost struct StorageModel {
    pub seconds: u32,
    pub microseconds: i32,
    pub ecu_id: Seq<char>,
}

impl<'a> View for StorageHeader<'a> {
    type V = StorageModel;

    open spec fn view(&self) -> StorageModel {
        StorageModel {
            seconds: self.seconds,
            microseconds: self.microseconds,
            ecu_id: self.ecu_id@,
        }
    }
}

/// What decoding a storage header from the front of `s` yields: the decoded
/// fields, or the error the bytes force.  `seconds` and `microseconds` are
/// little-endian; the ECU ID is the 4 bytes at 12..16 with trailing NULs
/// trimmed, decoded as UTF-8.
pub open spec fn spec_storage_header(s: Seq<u8>) -> Result<StorageModel, ParseErrorModel> {
    if s.len() < 16 {
        Err(ParseErrorModel::NotEnoughData { needed: 16, available: s.len() as int })
    } else if s.subrange(0, 4) != dlt_magic() {
        Err(ParseErrorModel::MissingDltPattern)
    } else if !valid_utf8(trim_nuls(s.subrange(12, 16))) {
        Err(ParseErrorModel::BadUTF8)
    } else {
        Ok(
            StorageModel {
                seconds: le_word(s.subrange(4, 8)) as u32,
                microseconds: to_signed(le_word(s.subrange(8, 12)), 4) as i32,
                ecu_id: decode_utf8(trim_nuls(s.subrange(12, 16))),
            },
        )
    }
}

impl<'a> StorageHeader<'a> {
    pub fn from_slice(buf: &'a [u8]) -> (r: Result<Self, ParseError>)
        ensures
            match r {
                Ok(h) => spec_storage_header(buf@) == Ok::<StorageModel, ParseErrorModel>(h@),
                Err(e) => spec_storage_header(buf@) == Err::<StorageModel, ParseErrorModel>(e@),
            },
            r matches Ok(h) ==> h.ecu_id@.len() == 0 || h.ecu_id@.last() != '\0',
    {
        if buf.len() < 16 {
            return Err(ParseError::NotEnoughData { needed: 16, available: buf.len() });
        }
        if !(buf[0] == 0x44 && buf[1] == 0x4c && buf[2] == 0x54 && buf[3] == 0x01) {
            proof {
                assert(buf@.subrange(0, 4) != dlt_magic()) by {
                    let sub = buf@.subrange(0, 4);
                    assert(sub[0] == buf@[0] && sub[1] == buf@[1] && sub[2] == buf@[2] && sub[3]
                        == buf@[3]);
                }
            }
            return Err(ParseError::MissingDltPattern);
        }
        proof {
            assert(buf@.subrange(0, 4) =~= dlt_magic());
        }
        let seconds = read_u32(slice_subrange(buf, 4, 8), false);
        let microseconds = read_i32(slice_subrange(buf, 8, 12), false);
        let ecu_trim = trim_trailing_nuls(slice_subrange(buf, 12, 16));
        match utf8_from_bytes(ecu_trim) {
            None => Err(ParseError::BadUTF8),
            Some(ecu_id) => {
                proof {
                    encode_utf8_decode_utf8(ecu_id@);
                    crate::wire::lemma_trim_nuls_props(buf@.subrange(12, 16));
                    crate::wire::lemma_no_trailing_nul_chars(ecu_id@, ecu_trim@);
                    lemma_le_word_bound(buf@.subrange(4, 8));
                    lemma_le_word_bound(buf@.subrange(8, 12));
                    reveal_with_fuel(pow256, 5);
                }
                Ok(StorageHeader { seconds, microseconds, ecu_id })
            },
        }
    }

    /// The encoded size of a storage header: always 16 bytes.
    pub fn len(&self) -> (r: usize)
        ensures
            r == 16,
    {
        16
    }
}

// --- standard header ----------------------------------------------------

/// The transport prefix: a flag byte, a counter, the declared message
/// length, and up to three optional fields selected by the flag byte.
#[derive(Debug, PartialEq, Eq)]
pub struct StandardHeader<'a> {
    pub header_type: u8,
    pub message_counter: u8,
    pub length: u16,
    pub ecu_id: Option<&'a str>,
    pub session_id: Option<u32>,
    pub timestamp: Option<u32>,
}

/// The mathematical image of a [`StandardHeader`].
#[verifier::ext_equal]
pub ghost struct StandardModel {
    pub header_type: u8,
    pub message_counter: u8,
    pub length: u16,
    pub ecu_id: Option<Seq<char>>,
    pub session_id: Option<u32>,
    pub timestamp: Option<u32>,
}

impl StandardModel {
    pub open spec fn use_extended_header(self) -> bool {
        self.header_type & 0x01 != 0
    }

    pub open spec fn msb_first(self) -> bool {
        self.header_type & 0x02 != 0
    }

    pub open spec fn with_ecu_id(self) -> bool {
        self.header_type & 0x04 != 0
    }

    pub open spec fn with_session_id(self) -> bool {
        self.header_type & 0x08 != 0
    }

    pub open spec fn with_timestamp(self) -> bool {
        self.header_type & 0x10 != 0
    }

    pub open spec fn version(self) -> u8 {
        self.header_type & 0xe0
    }

    /// The encoded size of the header: the fixed 4 bytes plus 4 for each
    /// optional field present.
    pub open spec fn spec_len(self) -> int {
        4 + (if self.ecu_id is Some {
            4int
        } else {
            0int
        }) + (if self.session_id is Some {
            4int
        } else {
            0int
        }) + (if self.timestamp is Some {
            4int
        } else {
            0int
        })
    }

    /// Presence of each optional field agrees with its flag bit.
    pub open spec fn wf(self) -> bool {
        &&& (self.ecu_id is Some) == self.with_ecu_id()
        &&& (self.session_id is Some) == self.with_session_id()
        &&& (self.timestamp is Some) == self.with_timestamp()
    }
}

/// The number of bytes the optional fields of a standard header whose flag
/// byte is `ht` occupy.
pub open spec fn spec_optionals_len(ht: u8) -> int {
    (if ht & 0x04 != 0 {
        4int
    } else {
        0int
    }) + (if ht & 0x08 != 0 {
        4int
    } else {
        0int
    }) + (if ht & 0x10 != 0 {
        4int
    } else {
        0int
    })
}

/// What decoding a standard header from the front of `s` yields.  The
/// header's own multi-byte fields are big-endian.  Truncation inside the
/// standard header is fatal: the framing iterator cannot learn a declared
/// length from it.  A bad ECU ID is not fatal: the declared length was
/// read, but the header is rejected before it is trusted, so the error
/// asks for resynchronization (`advance_by: None`).
pub open spec fn spec_standard_header(s: Seq<u8>) -> Result<StandardModel, DltErrorModel> {
    if s.len() < 4 {
        Err(
            DltErrorModel {
                source: ParseErrorModel::NotEnoughData { needed: 4, available: s.len() as int },
                offset: 0,
                advance_by: None,
                fatal: true,
            },
        )
    } else {
        let ht = s[0];
        let opt_len = spec_optionals_len(ht);
        if s.len() - 4 < opt_len {
            Err(
                DltErrorModel {
                    source: ParseErrorModel::NotEnoughData {
                        needed: opt_len,
                        available: s.len() - 4,
                    },
                    offset: 4,
                    advance_by: None,
                    fatal: true,
                },
            )
        } else if ht & 0x04 != 0 && !valid_utf8(trim_nuls(s.subrange(4, 8))) {
            Err(
                DltErrorModel {
                    source: ParseErrorModel::BadUTF8,
                    offset: 4,
                    advance_by: None,
                    fatal: false,
                },
            )
        } else {
            let session_at = 4 + (if ht & 0x04 != 0 {
                4int
            } else {
                0int
            });
            let timestamp_at = session_at + (if ht & 0x08 != 0 {
                4int
            } else {
                0int
            });
            Ok(
                StandardModel {
                    header_type: ht,
                    message_counter: s[1],
                    length: be_word(s.subrange(2, 4)) as u16,
                    ecu_id: if ht & 0x04 != 0 {
                        Some(decode_utf8(trim_nuls(s.subrange(4, 8))))
                    } else {
                        None
                    },
                    session_id: if ht & 0x08 != 0 {
                        Some(be_word(s.subrange(session_at, session_at + 4)) as u32)
                    } else {
                        None
                    },
                    timestamp: if ht & 0x10 != 0 {
                        Some(be_word(s.subrange(timestamp_at, timestamp_at + 4)) as u32)
                    } else {
                        None
                    },
                },
            )
        }
    }
}

impl<'a> View for StandardHeader<'a> {
    type V = StandardModel;

    open spec fn view(&self) -> StandardModel {
        StandardModel {
            header_type: self.header_type,
            message_counter: self.message_counter,
            length: self.length,
            ecu_id: match self.ecu_id {
                Some(s) => Some(s@),
                None => None,
            },
            session_id: self.session_id,
            timestamp: self.timestamp,
        }
    }
}

impl<'a> StandardHeader<'a> {
    pub fn from_slice(buf: &'a [u8]) -> (r: Result<Self, DltError>)
        ensures
            match r {
                Ok(h) => spec_standard_header(buf@) == Ok::<StandardModel, DltErrorModel>(h@),
                Err(e) => spec_standard_header(buf@) == Err::<StandardModel, DltErrorModel>(e@),
            },
            r matches Ok(h) ==> h@.wf(),
            r matches Ok(h) ==> (h@.ecu_id matches Some(id) ==> id.len() == 0 || id.last()
                != '\0'),
    {
        if buf.len() < 4 {
            return Err(
                DltError {
                    source: ParseError::NotEnoughData { needed: 4, available: buf.len() },
                    offset: 0,
                    advance_by: None,
                    fatal: true,
                },
            );
        }
        let header_type = buf[0];
        let message_counter = buf[1];
        let length = read_u16(slice_subrange(buf, 2, 4), true);

        let with_ecu_id = header_type & 0x04 != 0;
        let with_session_id = header_type & 0x08 != 0;
        let with_timestamp = header_type & 0x10 != 0;
        let opt_len: usize = (if with_ecu_id {
            4
        } else {
            0
        }) + (if with_session_id {
            4
        } else {
            0
        }) + (if with_timestamp {
            4
        } else {
            0
        });
        if buf.len() - 4 < opt_len {
            return Err(
                DltError {
                    source: ParseError::NotEnoughData { needed: opt_len, available: buf.len() - 4 },
                    offset: 4,
                    advance_by: None,
                    fatal: true,
                },
            );
        }

        let ecu_id = if with_ecu_id {
            let trimmed = trim_trailing_nuls(slice_subrange(buf, 4, 8));
            match utf8_from_bytes(trimmed) {
                None => {
                    return Err(
                        DltError {
                            source: ParseError::BadUTF8,
                            offset: 4,
                            advance_by: None,
                            fatal: false,
                        },
                    );
                },
                Some(id) => {
                    proof {
                        encode_utf8_decode_utf8(id@);
                        crate::wire::lemma_trim_nuls_props(buf@.subrange(4, 8));
                        crate::wire::lemma_no_trailing_nul_chars(id@, trimmed@);
                    }
                    Some(id)
                },
            }
        } else {
            None
        };

        let session_at: usize = if with_ecu_id {
            8
        } else {
            4
        };
        let session_id = if with_session_id {
            Some(read_u32(slice_subrange(buf, session_at, session_at + 4), true))
        } else {
            None
        };

        let timestamp_at: usize = session_at + (if with_session_id {
            4
        } else {
            0
        });
        let timestamp = if with_timestamp {
            Some(read_u32(slice_subrange(buf, timestamp_at, timestamp_at + 4), true))
        } else {
            None
        };

        proof {
            lemma_be_word_bound(buf@.subrange(2, 4));
            reveal_with_fuel(pow256, 5);
        }
        Ok(StandardHeader { header_type, message_counter, length, ecu_id, session_id, timestamp })
    }

    /// Whether an extended header follows this one.
    pub fn use_extended_header(&self) -> (r: bool)
        ensures
            r == self@.use_extended_header(),
    {
        self.header_type & 0x01 != 0
    }

    /// Whether the message body encodes its numerics most-significant-byte
    /// first.
    pub fn msb_first(&self) -> (r: bool)
        ensures
            r == self@.msb_first(),
    {
        self.header_type & 0x02 != 0
    }

    pub fn with_ecu_id(&self) -> (r: bool)
        ensures
            r == self@.with_ecu_id(),
    {
        self.header_type & 0x04 != 0
    }

    pub fn with_session_id(&self) -> (r: bool)
        ensures
            r == self@.with_session_id(),
    {
        self.header_type & 0x08 != 0
    }

    pub fn with_timestamp(&self) -> (r: bool)
        ensures
            r == self@.with_timestamp(),
    {
        self.header_type & 0x10 != 0
    }

    /// The version bits of the flag byte, still in place (not shifted).
    pub fn version(&self) -> (r: u8)
        ensures
            r == self@.version(),
    {
        self.header_type & 0xe0
    }

    /// Synonym for [`Self::msb_first`], kept for callers that think in
    /// terms of endianness.
    pub fn big_endian(&self) -> (r: bool)
        ensures
            r == self@.msb_first(),
    {
        self.header_type & 0x02 != 0
    }

    /// The encoded size of this header in bytes.
    pub fn len(&self) -> (r: usize)
        ensures
            r == self@.spec_len(),
    {
        4 + (if self.ecu_id.is_some() {
            4
        } else {
            0
        }) + (if self.session_id.is_some() {
            4
        } else {
            0
        }) + (if self.timestamp.is_some() {
            4
        } else {
            0
        })
    }
}

// --- extended header ----------------------------------------------------

/// The kind of message the extended header announces.
#[derive(Debug, Clone, Copy)]
pub enum MessageType {
    Log,
    AppTrace,
    NwTrace,
    Control,
}

/// Severity of a log message.
#[derive(Debug, Clone, Copy)]
pub enum LogInfo {
    Fatal,
    Error,
    Warn,
    Info,
    Debug,
    Verbose,
}

/// Kind of an application-trace message.
#[derive(Debug, Clone, Copy)]
pub enum TraceInfo {
    Variable,
    FunctionIn,
    FunctionOut,
    State,
    Vfb,
}

/// Bus of a network-trace message.
#[derive(Debug, Clone, Copy)]
pub enum BusInfo {
    Ipc,
    Can,
    Flexray,
    Most,
    Ethernet,
    SomeIP,
}

/// Direction of a control message.
#[derive(Debug, Clone, Copy)]
pub enum ControlInfo {
    Request,
    Response,
}

/// The message-type sub-enum, keyed by the message type.
#[derive(Debug, Clone, Copy)]
pub enum MessageTypeInfo {
    Log(LogInfo),
    Trace(TraceInfo),
    Bus(BusInfo),
    Control(ControlInfo),
}

/// The 10-byte descriptor of message class, argument count and IDs.
#[derive(Debug, PartialEq, Eq)]
pub struct ExtendedHeader<'a> {
    pub message_info: u8,
    pub number_of_arguments: u8,
    pub application_id: &'a str,
    pub context_id: &'a str,
}

/// The mathematical image of an [`ExtendedHeader`].
#[verifier::ext_equal]
pub ghost struct ExtendedModel {
    pub message_info: u8,
    pub number_of_arguments: u8,
    pub application_id: Seq<char>,
    pub context_id: Seq<char>,
}

/// What decoding an extended header from the front of `s` yields.
pub open spec fn spec_extended_header(s: Seq<u8>) -> Result<ExtendedModel, ParseErrorModel> {
    if s.len() < 10 {
        Err(ParseErrorModel::NotEnoughData { needed: 10, available: s.len() as int })
    } else if !valid_utf8(trim_nuls(s.subrange(2, 6))) {
        Err(ParseErrorModel::BadUTF8)
    } else if !valid_utf8(trim_nuls(s.subrange(6, 10))) {
        Err(ParseErrorModel::BadUTF8)
    } else {
        Ok(
            ExtendedModel {
                message_info: s[0],
                number_of_arguments: s[1],
                application_id: decode_utf8(trim_nuls(s.subrange(2, 6))),
                context_id: decode_utf8(trim_nuls(s.subrange(6, 10))),
            },
        )
    }
}

/// Bits 1..=3 of the message-info byte: the message type.
pub open spec fn spec_message_type_bits(mi: u8) -> u8 {
    (mi & 0x0e) >> 1u8
}

/// Bits 4..=7 of the message-info byte: the sub-enum value.
pub open spec fn spec_info_bits(mi: u8) -> u8 {
    (mi & 0xf0) >> 4u8
}

/// Whether the message-type bits name one of the four defined types.
pub open spec fn valid_message_type(mi: u8) -> bool {
    spec_message_type_bits(mi) <= 3
}

pub open spec fn spec_message_type(mi: u8) -> MessageType {
    let b = spec_message_type_bits(mi);
    if b == 0 {
        MessageType::Log
    } else if b == 1 {
        MessageType::AppTrace
    } else if b == 2 {
        MessageType::NwTrace
    } else {
        MessageType::Control
    }
}

/// Whether the pair of message type and sub-enum bits is one the format
/// defines.
pub open spec fn valid_type_info(mi: u8) -> bool {
    valid_message_type(mi) && {
        let b = spec_message_type_bits(mi);
        let v = spec_info_bits(mi);
        if b == 0 {
            1 <= v <= 6
        } else if b == 1 {
            1 <= v <= 5
        } else if b == 2 {
            1 <= v <= 6
        } else {
            1 <= v <= 2
        }
    }
}

pub open spec fn spec_type_info(mi: u8) -> MessageTypeInfo {
    let b = spec_message_type_bits(mi);
    let v = spec_info_bits(mi);
    if b == 0 {
        MessageTypeInfo::Log(
            if v == 1 {
                LogInfo::Fatal
            } else if v == 2 {
                LogInfo::Error
            } else if v == 3 {
                LogInfo::Warn
            } else if v == 4 {
                LogInfo::Info
            } else if v == 5 {
                LogInfo::Debug
            } else {
                LogInfo::Verbose
            },
        )
    } else if b == 1 {
        MessageTypeInfo::Trace(
            if v == 1 {
                TraceInfo::Variable
            } else if v == 2 {
                TraceInfo::FunctionIn
            } else if v == 3 {
                TraceInfo::FunctionOut
            } else if v == 4 {
                TraceInfo::State
            } else {
                TraceInfo::Vfb
            },
        )
    } else if b == 2 {
        MessageTypeInfo::Bus(
            if v == 1 {
                BusInfo::Ipc
            } else if v == 2 {
                BusInfo::Can
            } else if v == 3 {
                BusInfo::Flexray
            } else if v == 4 {
                BusInfo::Most
            } else if v == 5 {
                BusInfo::Ethernet
            } else {
                BusInfo::SomeIP
            },
        )
    } else {
        MessageTypeInfo::Control(
            if v == 1 {
                ControlInfo::Request
            } else {
                ControlInfo::Response
            },
        )
    }
}

impl<'a> View for ExtendedHeader<'a> {
    type V = ExtendedModel;

    open spec fn view(&self) -> ExtendedModel {
        ExtendedModel {
            message_info: self.message_info,
            number_of_arguments: self.number_of_arguments,
            application_id: self.application_id@,
            context_id: self.context_id@,
        }
    }
}

impl<'a> ExtendedHeader<'a> {
    pub fn from_slice(buf: &'a [u8]) -> (r: Result<Self, ParseError>)
        ensures
            match r {
                Ok(h) => spec_extended_header(buf@) == Ok::<ExtendedModel, ParseErrorModel>(h@),
                Err(e) => spec_extended_header(buf@) == Err::<ExtendedModel, ParseErrorModel>(e@),
            },
            r matches Ok(h) ==> (h@.application_id.len() == 0 || h@.application_id.last() != '\0')
                && (h@.context_id.len() == 0 || h@.context_id.last() != '\0'),
    {
        if buf.len() < 10 {
            return Err(ParseError::NotEnoughData { needed: 10, available: buf.len() });
        }
        let message_info = buf[0];
        let number_of_arguments = buf[1];
        let app_trim = trim_trailing_nuls(slice_subrange(buf, 2, 6));
        let application_id = match utf8_from_bytes(app_trim) {
            None => {
                return Err(ParseError::BadUTF8);
            },
            Some(id) => id,
        };
        let ctx_trim = trim_trailing_nuls(slice_subrange(buf, 6, 10));
        let context_id = match utf8_from_bytes(ctx_trim) {
            None => {
                return Err(ParseError::BadUTF8);
            },
            Some(id) => id,
        };
        proof {
            encode_utf8_decode_utf8(application_id@);
            encode_utf8_decode_utf8(context_id@);
            crate::wire::lemma_trim_nuls_props(buf@.subrange(2, 6));
            crate::wire::lemma_trim_nuls_props(buf@.subrange(6, 10));
            crate::wire::lemma_no_trailing_nul_chars(application_id@, app_trim@);
            crate::wire::lemma_no_trailing_nul_chars(context_id@, ctx_trim@);
        }
        Ok(ExtendedHeader { message_info, number_of_arguments, application_id, context_id })
    }

    /// Whether the payload is verbose (self-describing typed arguments).
    pub fn verbose(&self) -> (r: bool)
        ensures
            r == (self@.message_info & 0x01 != 0),
    {
        self.message_info & 0x01 != 0
    }

    /// The message type named by bits 1..=3 of the message-info byte.
    ///
    /// The format defines only the four values below; reserved values are
    /// excluded by precondition.
    pub fn message_type(&self) -> (r: MessageType)
        requires
            valid_message_type(self@.message_info),
        ensures
            r == spec_message_type(self@.message_info),
    {
        let b = (self.message_info & 0x0e) >> 1u8;
        match b {
            0 => MessageType::Log,
            1 => MessageType::AppTrace,
            2 => MessageType::NwTrace,
            3 => MessageType::Control,
            _ => vstd::pervasive::unreached(),
        }
    }

    /// The sub-enum value named by bits 4..=7, keyed by the message type.
    pub fn type_info(&self) -> (r: MessageTypeInfo)
        requires
            valid_type_info(self@.message_info),
        ensures
            r == spec_type_info(self@.message_info),
    {
        let b = (self.message_info & 0x0e) >> 1u8;
        let v = (self.message_info & 0xf0) >> 4u8;
        match b {
            0 => MessageTypeInfo::Log(
                match v {
                    1 => LogInfo::Fatal,
                    2 => LogInfo::Error,
                    3 => LogInfo::Warn,
                    4 => LogInfo::Info,
                    5 => LogInfo::Debug,
                    6 => LogInfo::Verbose,
                    _ => vstd::pervasive::unreached(),
                },
            ),
            1 => MessageTypeInfo::Trace(
                match v {
                    1 => TraceInfo::Variable,
                    2 => TraceInfo::FunctionIn,
                    3 => TraceInfo::FunctionOut,
                    4 => TraceInfo::State,
                    5 => TraceInfo::Vfb,
                    _ => vstd::pervasive::unreached(),
                },
            ),
            2 => MessageTypeInfo::Bus(
                match v {
                    1 => BusInfo::Ipc,
                    2 => BusInfo::Can,
                    3 => BusInfo::Flexray,
                    4 => BusInfo::Most,
                    5 => BusInfo::Ethernet,
                    6 => BusInfo::SomeIP,
                    _ => vstd::pervasive::unreached(),
                },
            ),
            3 => MessageTypeInfo::Control(
                match v {
                    1 => ControlInfo::Request,
                    2 => ControlInfo::Response,
                    _ => vstd::pervasive::unreached(),
                },
            ),
            _ => vstd::pervasive::unreached(),
        }
    }

    /// The encoded size of an extended header: always 10 bytes.
    pub fn len(&self) -> (r: usize)
        ensures
            r == 10,
    {
        10
    }
}

} // verus!

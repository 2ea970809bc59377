//! One whole DLT message: storage header, standard header, optional
//! extended header and payload, decoded from the front of a buffer.
//!
//! `spec_message` composes the per-layer specs into the spec-level twin of
//! [`DltMessage::from_slice`]: for any byte sequence it names either the
//! full decoded model or the exact error, its classification, and how the
//! framing iterator may advance past it.

use vstd::prelude::*;

verus! {

use vstd::slice::slice_subrange;
use vstd::utf8::decode_utf8;
use vstd::utf8::decode_utf8_encode_utf8;
use crate::error::{ParseError, ParseErrorModel, DltError, DltErrorModel};
use crate::header::{
    StorageHeader,
    StorageModel,
    spec_storage_header,
    StandardHeader,
    StandardModel,
    spec_standard_header,
    ExtendedHeader,
    ExtendedModel,
    spec_extended_header,
    MessageType,
    MessageTypeInfo,
    valid_message_type,
    valid_type_info,
    spec_message_type,
    spec_type_info,
};
use crate::payload::{
    Payload,
    PayloadModel,
    NonVerbosePayload,
    VerbosePayload,
    spec_non_verbose,
    spec_verbose,
};
use crate::wire::trim_nuls;
use crate::wire::lemma_trim_nuls_props;
use crate::wire::lemma_no_trailing_nul_chars;

/// The mathematical image of a [`DltMessage`].
#[verifier::ext_equal]
pub ghost struct MessageModel {
    pub storage: StorageModel,
    pub standard: StandardModel,
    pub extended: Option<ExtendedModel>,
    pub payload: PayloadModel,
    pub raw: Seq<u8>,
}

impl MessageModel {
    /// The total byte extent of the message: the 16-byte storage header
    /// plus the standard header's declared length.
    pub open spec fn total_len(self) -> int {
        16 + self.standard.length as int
    }

    /// Whether the message announces a verbose payload.
    pub open spec fn is_verbose(self) -> bool {
        self.extended matches Some(e) && e.message_info & 0x01 != 0
    }
}

/// Decodes the headers' trailing part — extended header already settled —
/// and the payload.  `ext` is the decoded extended header, if the standard
/// header called for one.
pub open spec fn spec_message_payload(
    b: Seq<u8>,
    st: StorageModel,
    sh: StandardModel,
    ext: Option<ExtendedModel>,
) -> Result<MessageModel, DltErrorModel> {
    let hlen = sh.spec_len();
    let ext_len: int = if ext is Some {
        10
    } else {
        0
    };
    let total = 16 + sh.length as int;
    if (sh.length as int) < hlen + ext_len {
        // the declared length cannot even hold the headers: it is not to
        // be trusted, so the framing iterator must resynchronize
        Err(
            DltErrorModel {
                source: ParseErrorModel::NotEnoughData {
                    needed: hlen + ext_len,
                    available: sh.length as int,
                },
                offset: 18,
                advance_by: None,
                fatal: false,
            },
        )
    } else {
        let ps = 16 + hlen + ext_len;
        let plen = (sh.length as int) - hlen - ext_len;
        let s_pl = b.subrange(ps, b.len() as int);
        let verbose = ext matches Some(e) && e.message_info & 0x01 != 0;
        if verbose {
            match spec_verbose(s_pl, plen, sh.msb_first()) {
                Ok(vm) => Ok(
                    MessageModel {
                        storage: st,
                        standard: sh,
                        extended: ext,
                        payload: PayloadModel::Verbose(vm),
                        raw: b.subrange(0, total),
                    },
                ),
                Err(pe) => Err(
                    DltErrorModel { source: pe, offset: ps, advance_by: Some(total), fatal: false },
                ),
            }
        } else {
            match spec_non_verbose(s_pl, plen, sh.msb_first()) {
                Ok(nv) => Ok(
                    MessageModel {
                        storage: st,
                        standard: sh,
                        extended: ext,
                        payload: PayloadModel::NonVerbose(nv),
                        raw: b.subrange(0, total),
                    },
                ),
                Err(pe) => Err(
                    DltErrorModel { source: pe, offset: ps, advance_by: Some(total), fatal: false },
                ),
            }
        }
    }
}

/// What decoding one message from the front of `b` yields: the full model,
/// or the exact error with its classification and skip distance.
pub open spec fn spec_message(b: Seq<u8>) -> Result<MessageModel, DltErrorModel> {
    match spec_storage_header(b) {
        Err(pe) => Err(
            DltErrorModel {
                source: pe,
                offset: if pe is BadUTF8 {
                    12int
                } else {
                    0int
                },
                advance_by: None,
                fatal: false,
            },
        ),
        Ok(st) => match spec_standard_header(b.subrange(16, b.len() as int)) {
            Err(de) => Err(
                DltErrorModel {
                    source: de.source,
                    offset: 16 + de.offset,
                    advance_by: de.advance_by,
                    fatal: de.fatal,
                },
            ),
            Ok(sh) => {
                let total = 16 + sh.length as int;
                if total > b.len() {
                    // the message extends past the end of the buffer:
                    // framing integrity is lost
                    Err(
                        DltErrorModel {
                            source: ParseErrorModel::NotEnoughData {
                                needed: total,
                                available: b.len() as int,
                            },
                            offset: 16,
                            advance_by: None,
                            fatal: true,
                        },
                    )
                } else {
                    let hlen = sh.spec_len();
                    if sh.use_extended_header() {
                        match spec_extended_header(b.subrange(16 + hlen, b.len() as int)) {
                            Err(pe) => Err(
                                DltErrorModel {
                                    source: pe,
                                    offset: 16 + hlen,
                                    advance_by: Some(total),
                                    fatal: false,
                                },
                            ),
                            Ok(eh) => spec_message_payload(b, st, sh, Some(eh)),
                        }
                    } else {
                        spec_message_payload(b, st, sh, None)
                    }
                }
            },
        },
    }
}

/// One decoded message, borrowing every textual field and its own byte
/// extent from the input buffer.
#[derive(Debug)]
pub struct DltMessage<'a> {
    pub storage_header: StorageHeader<'a>,
    pub standard_header: StandardHeader<'a>,
    pub extended_header: Option<ExtendedHeader<'a>>,
    pub payload: Payload<'a>,
    source: &'a [u8],
}

impl<'a> View for DltMessage<'a> {
    type V = MessageModel;

    closed spec fn view(&self) -> MessageModel {
        MessageModel {
            storage: self.storage_header@,
            standard: self.standard_header@,
            extended: match self.extended_header {
                Some(e) => Some(e@),
                None => None,
            },
            payload: self.payload@,
            raw: self.source@,
        }
    }
}

impl<'a> DltMessage<'a> {
    /// Decodes one message from the front of `buf`.
    pub fn from_slice(buf: &'a [u8]) -> (r: Result<Self, DltError>)
        ensures
            match r {
                Ok(m) => spec_message(buf@) == Ok::<MessageModel, DltErrorModel>(m@),
                Err(e) => spec_message(buf@) == Err::<MessageModel, DltErrorModel>(e@),
            },
    {
        let storage_header = match StorageHeader::from_slice(buf) {
            Err(e) => {
                return Err(
                    DltError {
                        source: e,
                        offset: if matches!(e, ParseError::BadUTF8) {
                            12
                        } else {
                            0
                        },
                        advance_by: None,
                        fatal: false,
                    },
                );
            },
            Ok(h) => h,
        };
        let rest = slice_subrange(buf, 16, buf.len());
        let standard_header = match StandardHeader::from_slice(rest) {
            Err(e) => {
                return Err(
                    DltError {
                        source: e.source,
                        offset: 16 + e.offset,
                        advance_by: e.advance_by,
                        fatal: e.fatal,
                    },
                );
            },
            Ok(h) => h,
        };
        let hlen = standard_header.len();
        let length = standard_header.length as usize;
        let total = 16 + length;
        if total > buf.len() {
            return Err(
                DltError {
                    source: ParseError::NotEnoughData { needed: total, available: buf.len() },
                    offset: 16,
                    advance_by: None,
                    fatal: true,
                },
            );
        }
        let extended_header = if standard_header.use_extended_header() {
            let ext_rest = slice_subrange(buf, 16 + hlen, buf.len());
            match ExtendedHeader::from_slice(ext_rest) {
                Err(e) => {
                    return Err(
                        DltError {
                            source: e,
                            offset: 16 + hlen,
                            advance_by: Some(total),
                            fatal: false,
                        },
                    );
                },
                Ok(h) => Some(h),
            }
        } else {
            None
        };
        let ext_len: usize = if extended_header.is_some() {
            10
        } else {
            0
        };
        if length < hlen + ext_len {
            return Err(
                DltError {
                    source: ParseError::NotEnoughData {
                        needed: hlen + ext_len,
                        available: length,
                    },
                    offset: 18,
                    advance_by: None,
                    fatal: false,
                },
            );
        }
        let payload_length = length - hlen - ext_len;
        let ps = 16 + hlen + ext_len;
        let pl_rest = slice_subrange(buf, ps, buf.len());
        let msb_first = standard_header.msb_first();
        let verbose = match &extended_header {
            Some(e) => e.verbose(),
            None => false,
        };
        let payload = if verbose {
            match VerbosePayload::from_slice(pl_rest, payload_length, msb_first) {
                Err(e) => {
                    return Err(
                        DltError { source: e, offset: ps, advance_by: Some(total), fatal: false },
                    );
                },
                Ok(p) => Payload::Verbose(p),
            }
        } else {
            match NonVerbosePayload::from_slice(pl_rest, payload_length, msb_first) {
                Err(e) => {
                    return Err(
                        DltError { source: e, offset: ps, advance_by: Some(total), fatal: false },
                    );
                },
                Ok(p) => Payload::NonVerbose(p),
            }
        };
        let source = slice_subrange(buf, 0, total);
        Ok(DltMessage { storage_header, standard_header, extended_header, payload, source })
    }

    /// The byte extent of the message: 16 bytes of storage header plus the
    /// standard header's declared length.
    pub fn len(&self) -> (r: usize)
        ensures
            r == self@.total_len(),
    {
        self.storage_header.len() + self.standard_header.length as usize
    }

    /// The storage header's ECU ID.
    pub fn ecu_id(&self) -> (r: &str)
        ensures
            r@ == self@.storage.ecu_id,
    {
        self.storage_header.ecu_id
    }

    /// The extended header's application ID, when there is one.
    pub fn app_id(&self) -> (r: Option<&str>)
        ensures
            r is Some <==> self@.extended is Some,
            r matches Some(s) ==> self@.extended matches Some(e) && s@ == e.application_id,
    {
        match &self.extended_header {
            Some(e) => Some(e.application_id),
            None => None,
        }
    }

    /// The extended header's context ID, when there is one.
    pub fn context_id(&self) -> (r: Option<&str>)
        ensures
            r is Some <==> self@.extended is Some,
            r matches Some(s) ==> self@.extended matches Some(e) && s@ == e.context_id,
    {
        match &self.extended_header {
            Some(e) => Some(e.context_id),
            None => None,
        }
    }

    /// The message type, when an extended header names one.
    pub fn message_type(&self) -> (r: Option<MessageType>)
        requires
            self@.extended matches Some(e) ==> valid_message_type(e.message_info),
        ensures
            r is Some <==> self@.extended is Some,
            r matches Some(t) ==> self@.extended matches Some(e) && t == spec_message_type(
                e.message_info,
            ),
    {
        match &self.extended_header {
            Some(e) => Some(e.message_type()),
            None => None,
        }
    }

    /// The message-type sub-enum, when an extended header names one.
    pub fn type_info(&self) -> (r: Option<MessageTypeInfo>)
        requires
            self@.extended matches Some(e) ==> valid_type_info(e.message_info),
        ensures
            r is Some <==> self@.extended is Some,
            r matches Some(t) ==> self@.extended matches Some(e) && t == spec_type_info(
                e.message_info,
            ),
    {
        match &self.extended_header {
            Some(e) => Some(e.type_info()),
            None => None,
        }
    }

    /// Whether the payload is verbose.  A message without an extended
    /// header is never verbose.
    pub fn verbose(&self) -> (r: bool)
        ensures
            r == self@.is_verbose(),
    {
        match &self.extended_header {
            Some(e) => e.verbose(),
            None => false,
        }
    }

    /// The standard header's timestamp, when present.
    pub fn timestamp(&self) -> (r: Option<u32>)
        ensures
            r == self@.standard.timestamp,
    {
        self.standard_header.timestamp
    }

    /// The message's own bytes, storage header included.
    pub fn as_bytes(&self) -> (r: &[u8])
        ensures
            r@ == self@.raw,
    {
        self.source
    }
}

// --- laws ---------------------------------------------------------------

/// Law: a decoded message's retained bytes span exactly its total length —
/// 16 bytes of storage header plus the standard header's declared length —
/// and that extent lies within the buffer it was decoded from.
pub proof fn lemma_message_total_length(b: Seq<u8>)
    ensures
        spec_message(b) matches Ok(m) ==> {
            &&& m.raw.len() == m.total_len()
            &&& m.total_len() == 16 + m.standard.length as int
            &&& m.raw == b.subrange(0, m.total_len())
            &&& 20 <= m.total_len() <= b.len()
        },
{
    if spec_message(b) is Ok {
        let m = spec_message(b)->Ok_0;
        let sh = spec_standard_header(b.subrange(16, b.len() as int))->Ok_0;
        assert(sh.spec_len() >= 4);
    }
}

/// Bounds on the error a message decode can produce: the failing field's
/// offset lies within the buffer, and a trusted skip distance covers at
/// least a storage header and never overruns the buffer.
pub proof fn lemma_message_err_bounds(b: Seq<u8>)
    ensures
        spec_message(b) matches Err(e) ==> {
            &&& 0 <= e.offset <= b.len()
            &&& e.offset <= 42
            &&& (e.advance_by matches Some(n) ==> 16 <= n <= b.len())
        },
{
}

/// Law: every textual field of a successfully decoded message is a
/// sequence of characters (hence valid UTF-8) with no trailing NUL.
pub proof fn lemma_message_text_fields_trimmed(b: Seq<u8>)
    requires
        spec_message(b) is Ok,
    ensures
        ({
            let m = spec_message(b)->Ok_0;
            &&& m.storage.ecu_id.len() == 0 || m.storage.ecu_id.last() != '\0'
            &&& (m.standard.ecu_id matches Some(id) ==> id.len() == 0 || id.last() != '\0')
            &&& (m.extended matches Some(e) ==> (e.application_id.len() == 0
                || e.application_id.last() != '\0') && (e.context_id.len() == 0
                || e.context_id.last() != '\0'))
        }),
{
    let m = spec_message(b)->Ok_0;
    let t_sto = trim_nuls(b.subrange(12, 16));
    lemma_trim_nuls_props(b.subrange(12, 16));
    decode_utf8_encode_utf8(t_sto);
    lemma_no_trailing_nul_chars(decode_utf8(t_sto), t_sto);

    let s_std = b.subrange(16, b.len() as int);
    let sh = spec_standard_header(s_std)->Ok_0;
    if sh.ecu_id is Some {
        let t_std = trim_nuls(s_std.subrange(4, 8));
        lemma_trim_nuls_props(s_std.subrange(4, 8));
        decode_utf8_encode_utf8(t_std);
        lemma_no_trailing_nul_chars(decode_utf8(t_std), t_std);
    }

    if m.extended is Some {
        let s_ext = b.subrange(16 + sh.spec_len(), b.len() as int);
        let t_app = trim_nuls(s_ext.subrange(2, 6));
        lemma_trim_nuls_props(s_ext.subrange(2, 6));
        decode_utf8_encode_utf8(t_app);
        lemma_no_trailing_nul_chars(decode_utf8(t_app), t_app);
        let t_ctx = trim_nuls(s_ext.subrange(6, 10));
        lemma_trim_nuls_props(s_ext.subrange(6, 10));
        decode_utf8_encode_utf8(t_ctx);
        lemma_no_trailing_nul_chars(decode_utf8(t_ctx), t_ctx);
    }
}

/// Helper for the round-trip law: a standard header decodes the same from
/// any prefix of its buffer that still holds the whole header.
proof fn lemma_standard_header_prefix(s1: Seq<u8>, s2: Seq<u8>, m: StandardModel)
    requires
        spec_standard_header(s1) == Ok::<StandardModel, DltErrorModel>(m),
        s2 == s1.subrange(0, s2.len() as int),
        m.spec_len() <= s2.len() <= s1.len(),
    ensures
        spec_standard_header(s2) == Ok::<StandardModel, DltErrorModel>(m),
{
    assert(s2[0] == s1[0] && s2[1] == s1[1]);
    assert(s2.subrange(2, 4) =~= s1.subrange(2, 4));
    assert(m.wf());
    let session_at = 4 + (if s1[0] & 0x04 != 0 {
        4int
    } else {
        0int
    });
    let timestamp_at = session_at + (if s1[0] & 0x08 != 0 {
        4int
    } else {
        0int
    });
    if s1[0] & 0x04 != 0 {
        assert(s2.subrange(4, 8) =~= s1.subrange(4, 8));
    }
    if s1[0] & 0x08 != 0 {
        assert(s2.subrange(session_at, session_at + 4) =~= s1.subrange(
            session_at,
            session_at + 4,
        ));
    }
    if s1[0] & 0x10 != 0 {
        assert(s2.subrange(timestamp_at, timestamp_at + 4) =~= s1.subrange(
            timestamp_at,
            timestamp_at + 4,
        ));
    }
    assert(spec_standard_header(s2)->Ok_0 =~= m);
}

/// Helper for the round-trip law: an extended header decodes the same from
/// any prefix of its buffer that still holds all 10 bytes.
proof fn lemma_extended_header_prefix(s1: Seq<u8>, s2: Seq<u8>, m: ExtendedModel)
    requires
        spec_extended_header(s1) == Ok::<ExtendedModel, ParseErrorModel>(m),
        s2 == s1.subrange(0, s2.len() as int),
        10 <= s2.len() <= s1.len(),
    ensures
        spec_extended_header(s2) == Ok::<ExtendedModel, ParseErrorModel>(m),
{
    assert(s2[0] == s1[0] && s2[1] == s1[1]);
    assert(s2.subrange(2, 6) =~= s1.subrange(2, 6));
    assert(s2.subrange(6, 10) =~= s1.subrange(6, 10));
    assert(spec_extended_header(s2)->Ok_0 =~= m);
}

/// Law: re-feeding a decoded message's retained bytes decodes the very
/// same message, and its extent is the whole of those bytes — so a framing
/// iterator over them yields exactly that one message.
pub proof fn lemma_message_roundtrip(b: Seq<u8>)
    requires
        spec_message(b) is Ok,
    ensures
        ({
            let m = spec_message(b)->Ok_0;
            &&& spec_message(m.raw) == Ok::<MessageModel, DltErrorModel>(m)
            &&& m.raw.len() == m.total_len()
        }),
{
    lemma_message_total_length(b);
    let m = spec_message(b)->Ok_0;
    let total = m.total_len();
    let p = b.subrange(0, total);
    let sh = spec_standard_header(b.subrange(16, b.len() as int))->Ok_0;
    let hlen = sh.spec_len();

    // storage header: identical first 16 bytes
    assert(p.subrange(0, 4) =~= b.subrange(0, 4));
    assert(p.subrange(4, 8) =~= b.subrange(4, 8));
    assert(p.subrange(8, 12) =~= b.subrange(8, 12));
    assert(p.subrange(12, 16) =~= b.subrange(12, 16));
    assert(spec_storage_header(p)->Ok_0 =~= spec_storage_header(b)->Ok_0);

    // standard header: the prefix still holds the whole header
    let s1 = b.subrange(16, b.len() as int);
    let s2 = p.subrange(16, total);
    assert(s2 =~= s1.subrange(0, s2.len() as int));
    lemma_standard_header_prefix(s1, s2, sh);

    // extended header, when present
    if sh.use_extended_header() {
        let e1 = b.subrange(16 + hlen, b.len() as int);
        let e2 = p.subrange(16 + hlen, total);
        assert(e2 =~= e1.subrange(0, e2.len() as int));
        let eh = spec_extended_header(e1)->Ok_0;
        assert((sh.length as int) >= hlen + 10);
        lemma_extended_header_prefix(e1, e2, eh);
    }

    // payload: the prefix region is exactly the payload
    let ext_len: int = if sh.use_extended_header() {
        10
    } else {
        0
    };
    let ps = 16 + hlen + ext_len;
    let plen = (sh.length as int) - hlen - ext_len;
    let pl1 = b.subrange(ps, b.len() as int);
    let pl2 = p.subrange(ps, total);
    assert(pl2.len() == plen);
    if m.is_verbose() {
        assert(pl2.subrange(0, plen) =~= pl1.subrange(0, plen));
    } else {
        assert(pl2.subrange(0, 4) =~= pl1.subrange(0, 4));
        assert(pl2.subrange(4, plen) =~= pl1.subrange(4, plen));
    }
    assert(p.subrange(0, total) =~= p);
    assert(spec_message(p)->Ok_0 =~= m);
}

} // verus!

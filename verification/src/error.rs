//! Error model: recoverable versus fatal decode failures, tagged with the
//! byte offset at which they occurred and, when the declared message length
//! can still be trusted, the distance by which the framing cursor may skip.

use vstd::prelude::*;

verus! {

/// Why a single decode step failed.
#[derive(Debug, Clone, Copy, PartialEq, Eq)]
pub enum ParseError {
    /// A supposed message start did not begin with `"DLT\x01"`.
    MissingDltPattern,
    /// A field needed more bytes than the region offered.
    NotEnoughData { needed: usize, available: usize },
    /// A verbose argument type that the format defines but this decoder
    /// does not decode (arrays, structs).
    UnimplementedArgumentType(&'static str),
    /// A feature this decoder rejects (variable info, fixed point,
    /// 16-bit and 128-bit floats, reserved type lengths).
    Unsupported(&'static str),
    /// The type-class bits of a verbose argument match no known class.
    UnknownArgumentType(u32),
    /// A textual field was not valid UTF-8.
    BadUTF8,
}

/// The mathematical image of a [`ParseError`].
#[verifier::ext_equal]
pub ghost enum ParseErrorModel {
    MissingDltPattern,
    NotEnoughData { needed: int, available: int },
    UnimplementedArgumentType(Seq<char>),
    Unsupported(Seq<char>),
    UnknownArgumentType(u32),
    BadUTF8,
}

impl View for ParseError {
    type V = ParseErrorModel;

    open spec fn view(&self) -> ParseErrorModel {
        match *self {
            ParseError::MissingDltPattern => ParseErrorModel::MissingDltPattern,
            ParseError::NotEnoughData { needed, available } => ParseErrorModel::NotEnoughData {
                needed: needed as int,
                available: available as int,
            },
            ParseError::UnimplementedArgumentType(s) => ParseErrorModel::UnimplementedArgumentType(
                s@,
            ),
            ParseError::Unsupported(s) => ParseErrorModel::Unsupported(s@),
            ParseError::UnknownArgumentType(v) => ParseErrorModel::UnknownArgumentType(v),
            ParseError::BadUTF8 => ParseErrorModel::BadUTF8,
        }
    }
}

/// A decode failure as the framing iterator reports it.
///
/// `offset` is the byte position, relative to the buffer being decoded, at
/// which the failing field starts.  `advance_by` is `Some(n)` when the
/// standard header's declared length could be read and trusted, in which
/// case skipping `n` bytes lands past the faulty message; `None` when the
/// framing iterator must fall back to scanning for the next `"DLT\x01"`.
/// `fatal` marks a failure after which framing integrity is lost.
#[derive(Debug, Clone, Copy, PartialEq, Eq)]
pub struct DltError {
    pub source: ParseError,
    pub offset: usize,
    pub advance_by: Option<usize>,
    pub fatal: bool,
}

/// The mathematical image of a [`DltError`].
#[verifier::ext_equal]
pub ghost struct DltErrorModel {
    pub source: ParseErrorModel,
    pub offset: int,
    pub advance_by: Option<int>,
    pub fatal: bool,
}

/// Wraps a bare parse error as a framing error with no skip distance:
/// the framing iterator will resynchronize.
impl From<ParseError> for DltError {
    fn from(value: ParseError) -> (r: DltError) {
        DltError { source: value, offset: 0, advance_by: None, fatal: false }
    }
}

impl vstd::std_specs::convert::FromSpecImpl<ParseError> for DltError {
    open spec fn obeys_from_spec() -> bool {
        true
    }

    open spec fn from_spec(t: ParseError) -> DltError {
        DltError { source: t, offset: 0, advance_by: None, fatal: false }
    }
}

impl View for DltError {
    type V = DltErrorModel;

    open spec fn view(&self) -> DltErrorModel {
        DltErrorModel {
            source: self.source@,
            offset: self.offset as int,
            advance_by: match self.advance_by {
                Some(n) => Some(n as int),
                None => None,
            },
            fatal: self.fatal,
        }
    }
}

} // verus!

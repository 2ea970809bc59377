//! The framing iterator: walks a buffer of concatenated DLT messages,
//! yielding one decoded message or one error per step.
//!
//! `spec_frame_step` is the spec-level twin of one [`DltFile::next`] call:
//! a function of the buffer, the cursor and the fatal flag.  `spec_run`
//! chains it into the whole output sequence, over which the laws are
//! stated: the iterator terminates within `buffer.length` steps, and the
//! cursor positions it visits partition the buffer into decoded messages,
//! skipped regions and a final untouched tail.

use vstd::prelude::*;

verus! {

use vstd::slice::slice_subrange;
use crate::error::{DltError, DltErrorModel};
use crate::header::dlt_magic;
use crate::message::{
    DltMessage,
    MessageModel,
    spec_message,
    lemma_message_total_length,
    lemma_message_err_bounds,
};
use crate::wire::find_sub;

/// A storage header plus the smallest standard header.
pub const MIN_MESSAGE_LENGTH: usize = 16 + 4;

/// Whether the four magic bytes stand at position `i` of `b`.
pub open spec fn magic_at(b: Seq<u8>, i: int) -> bool {
    i + 4 <= b.len() && b.subrange(i, i + 4) == dlt_magic()
}

/// The first position at or after `from` where the magic stands.
pub open spec fn spec_find_magic(b: Seq<u8>, from: int) -> Option<int>
    decreases b.len() - from,
{
    if from + 4 > b.len() {
        None
    } else if magic_at(b, from) {
        Some(from)
    } else {
        spec_find_magic(b, from + 1)
    }
}

proof fn lemma_find_magic_some(b: Seq<u8>, from: int, j: int)
    requires
        from <= j,
        magic_at(b, j),
        forall|k: int| from <= k < j ==> !magic_at(b, k),
    ensures
        spec_find_magic(b, from) == Some(j),
    decreases j - from,
{
    if from < j {
        lemma_find_magic_some(b, from + 1, j);
    }
}

proof fn lemma_find_magic_none(b: Seq<u8>, from: int)
    requires
        forall|k: int| from <= k ==> !magic_at(b, k),
    ensures
        spec_find_magic(b, from) is None,
    decreases b.len() - from,
{
    if from + 4 <= b.len() {
        lemma_find_magic_none(b, from + 1);
    }
}

/// What one step of the framing iterator does at cursor `offset`.
#[verifier::ext_equal]
pub ghost enum FrameStep {
    /// Iteration has ended: the flag was fatal or the buffer is spent.
    Done,
    /// A message was decoded; the cursor advances past it.
    Msg(MessageModel, int),
    /// An error is yielded; the cursor moves to the named position and the
    /// fatal flag to the named value.
    Fault(DltErrorModel, int, bool),
}

pub open spec fn spec_frame_step(b: Seq<u8>, offset: int, fatal: bool) -> FrameStep {
    if fatal || offset >= b.len() {
        FrameStep::Done
    } else {
        match spec_message(b.subrange(offset, b.len() as int)) {
            Ok(m) => FrameStep::Msg(m, offset + m.total_len()),
            Err(e) => {
                let re = DltErrorModel {
                    source: e.source,
                    offset: offset + e.offset,
                    advance_by: e.advance_by,
                    fatal: e.fatal,
                };
                if e.fatal {
                    FrameStep::Fault(re, offset, true)
                } else if e.advance_by is Some {
                    FrameStep::Fault(re, offset + e.advance_by->Some_0, false)
                } else {
                    match spec_find_magic(b, offset + 1) {
                        Some(j) => FrameStep::Fault(re, j, false),
                        None => FrameStep::Fault(
                            DltErrorModel {
                                source: re.source,
                                offset: re.offset,
                                advance_by: re.advance_by,
                                fatal: true,
                            },
                            offset,
                            true,
                        ),
                    }
                }
            },
        }
    }
}

/// Law: every step of the framing iterator makes progress — it ends the
/// iteration, advances the cursor by at least one byte within the buffer,
/// or raises the fatal flag, which ends the iteration at the next step.
/// A decoded message advances the cursor by exactly its total length.
pub proof fn lemma_frame_step_progress(b: Seq<u8>, offset: int, fatal: bool)
    requires
        0 <= offset <= b.len(),
    ensures
        match spec_frame_step(b, offset, fatal) {
            FrameStep::Done => fatal || offset >= b.len(),
            FrameStep::Msg(m, no) => no == offset + m.total_len() && offset < no <= b.len(),
            FrameStep::Fault(e, no, nf) => (offset < no || nf) && offset <= no <= b.len(),
        },
{
    if !(fatal || offset >= b.len()) {
        let rest = b.subrange(offset, b.len() as int);
        lemma_message_total_length(rest);
        lemma_message_err_bounds(rest);
        if spec_message(rest) is Err {
            let e = spec_message(rest)->Err_0;
            if !e.fatal && e.advance_by is None {
                lemma_find_magic_bounds(b, offset + 1);
            }
        }
    }
}

proof fn lemma_find_magic_bounds(b: Seq<u8>, from: int)
    ensures
        spec_find_magic(b, from) matches Some(j) ==> from <= j && j + 4 <= b.len(),
    decreases b.len() - from,
{
    if from + 4 <= b.len() && !magic_at(b, from) {
        lemma_find_magic_bounds(b, from + 1);
    }
}

/// The items the framing iterator yields from a given state, in order.
pub open spec fn spec_run(b: Seq<u8>, offset: int, fatal: bool) -> Seq<
    Result<MessageModel, DltErrorModel>,
>
    decreases b.len() - offset + (if fatal {
        0int
    } else {
        1int
    }),
    when 0 <= offset <= b.len()
    via spec_run_decreases
{
    match spec_frame_step(b, offset, fatal) {
        FrameStep::Done => seq![],
        FrameStep::Msg(m, no) => seq![Ok(m)] + spec_run(b, no, false),
        FrameStep::Fault(e, no, nf) => seq![Err(e)] + spec_run(b, no, nf),
    }
}

#[via_fn]
proof fn spec_run_decreases(b: Seq<u8>, offset: int, fatal: bool) {
    lemma_frame_step_progress(b, offset, fatal);
}

/// The cursor position at which the framing iterator comes to rest.
pub open spec fn spec_run_end(b: Seq<u8>, offset: int, fatal: bool) -> int
    decreases b.len() - offset + (if fatal {
        0int
    } else {
        1int
    }),
    when 0 <= offset <= b.len()
    via spec_run_end_decreases
{
    match spec_frame_step(b, offset, fatal) {
        FrameStep::Done => offset,
        FrameStep::Msg(m, no) => spec_run_end(b, no, false),
        FrameStep::Fault(e, no, nf) => spec_run_end(b, no, nf),
    }
}

#[via_fn]
proof fn spec_run_end_decreases(b: Seq<u8>, offset: int, fatal: bool) {
    lemma_frame_step_progress(b, offset, fatal);
}

/// The sum of the cursor distances covered by the yielded items: each
/// decoded message contributes exactly its total length, each skipped or
/// resynchronized region its width.
pub open spec fn spec_run_consumed(b: Seq<u8>, offset: int, fatal: bool) -> int
    decreases b.len() - offset + (if fatal {
        0int
    } else {
        1int
    }),
    when 0 <= offset <= b.len()
    via spec_run_consumed_decreases
{
    match spec_frame_step(b, offset, fatal) {
        FrameStep::Done => 0,
        FrameStep::Msg(m, no) => (no - offset) + spec_run_consumed(b, no, false),
        FrameStep::Fault(e, no, nf) => (no - offset) + spec_run_consumed(b, no, nf),
    }
}

#[via_fn]
proof fn spec_run_consumed_decreases(b: Seq<u8>, offset: int, fatal: bool) {
    lemma_frame_step_progress(b, offset, fatal);
}

/// Law: the framing iterator terminates in a bounded number of steps — a
/// fresh iterator over `b` yields at most `b.len()` items, since every
/// yield either advances the cursor by at least one byte or is the last.
pub proof fn lemma_run_bounded(b: Seq<u8>, offset: int, fatal: bool)
    requires
        0 <= offset <= b.len(),
    ensures
        fatal ==> spec_run(b, offset, fatal).len() == 0,
        !fatal ==> spec_run(b, offset, fatal).len() <= b.len() - offset,
    decreases b.len() - offset + (if fatal {
        0int
    } else {
        1int
    }),
{
    lemma_frame_step_progress(b, offset, fatal);
    match spec_frame_step(b, offset, fatal) {
        FrameStep::Done => {},
        FrameStep::Msg(m, no) => {
            lemma_run_bounded(b, no, false);
        },
        FrameStep::Fault(e, no, nf) => {
            lemma_run_bounded(b, no, nf);
        },
    }
}

/// Law: the regions the framing iterator accounts for partition the
/// buffer — the widths of the yielded items sum to the distance from the
/// starting cursor to the final one, and what lies past the final cursor
/// is the untouched tail.  In particular, summing every decoded message's
/// total length and every skipped region, then adding the tail, gives
/// exactly the length of the buffer.
pub proof fn lemma_run_accounting(b: Seq<u8>, offset: int, fatal: bool)
    requires
        0 <= offset <= b.len(),
    ensures
        offset <= spec_run_end(b, offset, fatal) <= b.len(),
        spec_run_consumed(b, offset, fatal) == spec_run_end(b, offset, fatal) - offset,
        spec_run_consumed(b, offset, fatal) + (b.len() - spec_run_end(b, offset, fatal)) == b.len()
            - offset,
    decreases b.len() - offset + (if fatal {
        0int
    } else {
        1int
    }),
{
    lemma_frame_step_progress(b, offset, fatal);
    match spec_frame_step(b, offset, fatal) {
        FrameStep::Done => {},
        FrameStep::Msg(m, no) => {
            lemma_run_accounting(b, no, false);
        },
        FrameStep::Fault(e, no, nf) => {
            lemma_run_accounting(b, no, nf);
        },
    }
}

/// Law: a decoded message's retained byte view, re-fed into a fresh
/// framing iterator, yields exactly that one message and then ends.
pub proof fn lemma_roundtrip_run(b: Seq<u8>)
    requires
        spec_message(b) is Ok,
    ensures
        ({
            let m = spec_message(b)->Ok_0;
            spec_run(m.raw, 0, false) == seq![Ok::<MessageModel, DltErrorModel>(m)]
        }),
{
    crate::message::lemma_message_roundtrip(b);
    lemma_message_total_length(b);
    let m = spec_message(b)->Ok_0;
    let raw = m.raw;
    assert(raw.subrange(0, raw.len() as int) =~= raw);
    assert(spec_frame_step(raw, 0, false) == FrameStep::Msg(m, m.total_len()));
    assert(spec_frame_step(raw, m.total_len(), false) == FrameStep::Done);
    assert(spec_run(raw, m.total_len(), false) =~= Seq::<
        Result<MessageModel, DltErrorModel>,
    >::empty());
    assert(spec_run(raw, 0, false) =~= seq![Ok::<MessageModel, DltErrorModel>(m)]);
}

/// The framing iterator: a buffer, a cursor and a fatal-sticky flag.
#[derive(Debug)]
pub struct DltFile<'a> {
    buf: &'a [u8],
    offset: usize,
    fatal: bool,
}

/// The mathematical image of a [`DltFile`].
#[verifier::ext_equal]
pub ghost struct FileModel {
    pub data: Seq<u8>,
    pub offset: int,
    pub fatal: bool,
}

impl<'a> View for DltFile<'a> {
    type V = FileModel;

    closed spec fn view(&self) -> FileModel {
        FileModel { data: self.buf@, offset: self.offset as int, fatal: self.fatal }
    }
}

impl<'a> DltFile<'a> {
    /// A fresh iterator over `buf`, with the cursor at its start.
    pub fn new(buf: &'a [u8]) -> (r: Self)
        ensures
            r@ == (FileModel { data: buf@, offset: 0, fatal: false }),
    {
        DltFile { buf, offset: 0, fatal: false }
    }

    /// Decodes the next message.  On a recoverable error the cursor skips
    /// the declared extent of the faulty message, or failing that, scans
    /// forward for the next `"DLT\x01"`; when neither is possible the
    /// iterator turns fatal, yields the error once, and then ends.
    pub fn next(&mut self) -> (r: Option<Result<DltMessage<'a>, DltError>>)
        ensures
            final(self)@.data == old(self)@.data,
            old(self)@.offset <= final(self)@.offset,
            ({
                let step = spec_frame_step(old(self)@.data, old(self)@.offset, old(self)@.fatal);
                match step {
                    FrameStep::Done => r is None && final(self)@ == old(self)@,
                    FrameStep::Msg(m, no) => {
                        &&& r matches Some(Ok(msg)) && msg@ == m
                        &&& final(self)@.offset == no
                        &&& final(self)@.fatal == false
                    },
                    FrameStep::Fault(e, no, nf) => {
                        &&& r matches Some(Err(err)) && err@ == e
                        &&& final(self)@.offset == no
                        &&& final(self)@.fatal == nf
                    },
                }
            }),
    {
        if self.fatal || self.offset >= self.buf.len() {
            return None;
        }
        let ghost b = self.buf@;
        let ghost off = self.offset as int;
        let rest = slice_subrange(self.buf, self.offset, self.buf.len());
        proof {
            lemma_message_total_length(rest@);
            lemma_message_err_bounds(rest@);
        }
        match DltMessage::from_slice(rest) {
            Ok(message) => {
                let l = message.len();
                self.offset = self.offset + l;
                Some(Ok(message))
            },
            Err(err) => {
                if err.fatal {
                    self.fatal = true;
                    let rebased = DltError {
                        source: err.source,
                        offset: self.offset + err.offset,
                        advance_by: err.advance_by,
                        fatal: err.fatal,
                    };
                    Some(Err(rebased))
                } else if let Some(n) = err.advance_by {
                    let rebased = DltError {
                        source: err.source,
                        offset: self.offset + err.offset,
                        advance_by: err.advance_by,
                        fatal: err.fatal,
                    };
                    self.offset = self.offset + n;
                    Some(Err(rebased))
                } else {
                    let start = self.offset + 1;
                    let tail = slice_subrange(self.buf, start, self.buf.len());
                    let needle: [u8; 4] = [0x44, 0x4c, 0x54, 0x01];
                    proof {
                        broadcast use vstd::array::group_array_axioms;

                        assert(needle@ =~= dlt_magic());
                    }
                    match find_sub(tail, needle.as_slice()) {
                        Some(i) => {
                            proof {
                                assert(tail@.subrange(i as int, i + 4) =~= b.subrange(
                                    start + i,
                                    start + i + 4,
                                ));
                                assert(magic_at(b, start + i));
                                assert forall|k: int| start <= k < start + i implies !magic_at(
                                    b,
                                    k,
                                ) by {
                                    if k + 4 <= b.len() {
                                        assert(tail@.subrange(k - start, k - start + 4) =~= b
                                            .subrange(k, k + 4));
                                    }
                                }
                                lemma_find_magic_some(b, start as int, start + i);
                            }
                            let rebased = DltError {
                                source: err.source,
                                offset: self.offset + err.offset,
                                advance_by: err.advance_by,
                                fatal: err.fatal,
                            };
                            self.offset = start + i;
                            Some(Err(rebased))
                        },
                        None => {
                            proof {
                                assert forall|k: int| start <= k implies !magic_at(b, k) by {
                                    if k + 4 <= b.len() {
                                        assert(tail@.subrange(k - start, k - start + 4) =~= b
                                            .subrange(k, k + 4));
                                    }
                                }
                                lemma_find_magic_none(b, start as int);
                            }
                            self.fatal = true;
                            let rebased = DltError {
                                source: err.source,
                                offset: self.offset + err.offset,
                                advance_by: err.advance_by,
                                fatal: true,
                            };
                            Some(Err(rebased))
                        },
                    }
                }
            },
        }
    }

    /// An upper bound on how many messages can still follow: each one
    /// needs at least [`MIN_MESSAGE_LENGTH`] bytes.
    pub fn size_hint(&self) -> (r: (usize, Option<usize>))
        ensures
            r.0 == 0,
            self@.offset <= self@.data.len() ==> r.1 == Some(
                (((self@.data.len() - self@.offset) as int) / 20) as usize,
            ),
    {
        if self.offset <= self.buf.len() {
            ((0, Some((self.buf.len() - self.offset) / MIN_MESSAGE_LENGTH)))
        } else {
            ((0, Some(0)))
        }
    }
}

} // verus!

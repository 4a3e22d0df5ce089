//! The parse session: the shared cursor state and the driver that yields
//! parts in stream order.
//!
//! A [`Multipart`] owns the shared cursor (buffer, stage, boundary
//! delimiter and bookkeeping).  The caller feeds stream chunks in with
//! [`Multipart::push_chunk`], marks the end of the source with
//! [`Multipart::close`], and pulls parts with [`Multipart::next_field`].
//! At most one [`Field`] may be live at a time: while one is, the driver
//! answers `Pending` until the field is exhausted or released
//! ([`Field::release`]); a field that is leaked without release stalls the
//! session forever, by design.

use vstd::prelude::*;

use crate::buffer::{
    crlf2, delim_of, lemma_live_shift, lemma_no_marker_lift, live_at, matches_at, no_header_block,
    no_marker, part_end_at, terminal_at, ReadOutcome, StreamBuffer, CR, DASH, LF,
};
use crate::error::Error;
use crate::field::{field_from_block, Field};
use crate::headers::{parse_header_block, spec_parse_block};
use crate::Pulled;

verus! {

/// The parser's discrete position within the overall body.
#[derive(Clone, Copy, PartialEq, Eq, Structural, Debug)]
pub enum StreamingStage {
    /// Between parts: the next end-of-part marker (or the first boundary)
    /// has not been consumed yet.
    ReadingBoundary,
    /// The marker was consumed; the next part's header block is being
    /// collected.
    ReadingHeader,
    /// A part's headers were handed out; its body is being read through a
    /// live [`Field`].
    ReadingFieldData,
    /// A field was released before its body was drained; the leftover
    /// body bytes are still to be discarded.
    CleaningPrevFieldData,
    /// The terminal marker was consumed; there are no further parts.
    Eof,
}

/// The shared cursor: buffer, stage, boundary delimiter and bookkeeping,
/// accessed by exactly one of the driver and the live field at a time.
pub(crate) struct MultipartState {
    pub(crate) buffer: StreamBuffer,
    pub(crate) delim: Vec<u8>,
    pub(crate) stage: StreamingStage,
    pub(crate) is_prev_field_consumed: bool,
    pub(crate) next_idx: usize,
}

/// One parse session over one multipart body.
pub struct Multipart {
    pub(crate) state: MultipartState,
}

impl Multipart {
    /// The unconsumed bytes of the stream (including the two virtual
    /// leading bytes `\r\n` that let the very first boundary line match
    /// the same `\r\n--boundary` delimiter as every later one).
    pub closed spec fn remaining(self) -> Seq<u8> {
        self.state.buffer.remaining()
    }

    /// The full delimiter `\r\n--boundary`.
    pub closed spec fn delim(self) -> Seq<u8> {
        self.state.delim@
    }

    pub closed spec fn stage(self) -> StreamingStage {
        self.state.stage
    }

    /// Whether [`Multipart::close`] was called.
    pub closed spec fn source_closed(self) -> bool {
        self.state.buffer.at_eof()
    }

    /// How many parts were yielded so far; the next part gets this index.
    pub closed spec fn parts_yielded(self) -> int {
        self.state.next_idx as int
    }

    /// Whether the previously yielded field has been released or
    /// exhausted (true as well when no field was yielded yet).
    pub closed spec fn prev_consumed(self) -> bool {
        self.state.is_prev_field_consumed
    }

    /// The session's structural invariant.
    pub closed spec fn wf(self) -> bool {
        &&& self.state.delim@.len() >= 4
        &&& self.state.delim@.len() + 2 < usize::MAX
        &&& (self.state.stage == StreamingStage::ReadingFieldData
            ==> !self.state.is_prev_field_consumed)
    }

    /// Start a session for the given boundary.
    pub fn new(boundary: &[u8]) -> (r: Multipart)
        requires
            boundary@.len() < usize::MAX - 6,
        ensures
            r.wf(),
            r.stage() == StreamingStage::ReadingBoundary,
            r.delim() == delim_of(boundary@),
            r.remaining() == seq![CR, LF],
            !r.source_closed(),
            r.parts_yielded() == 0,
            r.prev_consumed(),
    {
        let mut delim: Vec<u8> = Vec::new();
        delim.push(CR);
        delim.push(LF);
        delim.push(DASH);
        delim.push(DASH);
        let n = boundary.len();
        let mut i: usize = 0;
        while i < n
            invariant
                i <= n,
                n == boundary@.len(),
                delim@ == seq![CR, LF, DASH, DASH] + boundary@.take(i as int),
            decreases n - i,
        {
            delim.push(boundary[i]);
            i = i + 1;
            proof {
                assert(delim@ =~= seq![CR, LF, DASH, DASH] + boundary@.take(i as int));
            }
        }
        proof {
            assert(delim@ =~= delim_of(boundary@));
        }
        let mut buffer = StreamBuffer::new();
        let mut seed: Vec<u8> = Vec::new();
        seed.push(CR);
        seed.push(LF);
        buffer.push_chunk(seed.as_slice());
        let r = Multipart {
            state: MultipartState {
                buffer,
                delim,
                stage: StreamingStage::ReadingBoundary,
                is_prev_field_consumed: true,
                next_idx: 0,
            },
        };
        proof {
            assert(r.remaining() =~= seq![CR, LF]);
        }
        r
    }

    /// Feed one chunk of the incoming byte stream.
    pub fn push_chunk(&mut self, data: &[u8])
        requires
            old(self).wf(),
        ensures
            final(self).wf(),
            final(self).remaining() == old(self).remaining() + data@,
            final(self).stage() == old(self).stage(),
            final(self).delim() == old(self).delim(),
            final(self).parts_yielded() == old(self).parts_yielded(),
            final(self).prev_consumed() == old(self).prev_consumed(),
            final(self).source_closed() == old(self).source_closed(),
    {
        self.state.buffer.push_chunk(data);
    }

    /// Record that the byte source has ended.
    pub fn close(&mut self)
        requires
            old(self).wf(),
        ensures
            final(self).wf(),
            final(self).remaining() == old(self).remaining(),
            final(self).stage() == old(self).stage(),
            final(self).delim() == old(self).delim(),
            final(self).parts_yielded() == old(self).parts_yielded(),
            final(self).prev_consumed() == old(self).prev_consumed(),
            final(self).source_closed(),
    {
        self.state.buffer.close();
    }

    /// Discard confirmed body (or preamble) bytes until the next
    /// end-of-part marker sits at the front of the buffer.
    #[verifier::loop_isolation(false)]
    fn skip_to_marker(&mut self) -> (r: Result<Pulled<bool>, Error>)
        requires
            old(self).wf(),
        ensures
            final(self).wf(),
            final(self).stage() == old(self).stage(),
            final(self).delim() == old(self).delim(),
            final(self).parts_yielded() == old(self).parts_yielded(),
            final(self).prev_consumed() == old(self).prev_consumed(),
            final(self).source_closed() == old(self).source_closed(),
            match r {
                Ok(Pulled::Ready(terminal)) => skipped(
                    old(self).remaining(),
                    old(self).delim(),
                    terminal,
                    final(self).remaining(),
                ),
                Ok(Pulled::Pending) => {
                    &&& !final(self).source_closed()
                    &&& live_at(final(self).remaining(), final(self).delim(), 0)
                    &&& !part_end_at(final(self).remaining(), final(self).delim(), 0)
                    &&& discarded(
                        old(self).remaining(),
                        old(self).delim(),
                        final(self).remaining(),
                    )
                },
                Err(e) => {
                    &&& e == Error::IncompleteStream
                    &&& final(self).source_closed()
                    &&& no_marker(old(self).remaining(), old(self).delim())
                },
            },
    {
        let ghost rem0 = old(self).remaining();
        let ghost d = old(self).delim();
        let ghost mut k: int = 0;
        loop
            invariant
                self.wf(),
                self.stage() == old(self).stage(),
                self.delim() == d,
                d == old(self).delim(),
                self.parts_yielded() == old(self).parts_yielded(),
                self.prev_consumed() == old(self).prev_consumed(),
                self.source_closed() == old(self).source_closed(),
                rem0 == old(self).remaining(),
                0 <= k <= rem0.len(),
                forall|j: int| 0 <= j < k ==> !live_at(rem0, d, j),
                self.remaining() == rem0.skip(k),
            decreases self.remaining().len(),
        {
            match self.state.buffer.read_field_data(&self.state.delim) {
                Ok(ReadOutcome::End { bytes, terminal }) => {
                    proof {
                        let f = bytes@.len() as int;
                        assert forall|j: int| 0 <= j < k + f implies !live_at(rem0, d, j) by {
                            if j >= k {
                                lemma_live_shift(rem0, d, k, j - k);
                            }
                        }
                        lemma_live_shift(rem0, d, k, f);
                        assert(rem0.skip(k).skip(f) =~= rem0.skip(k + f));
                        assert(skip_shape(rem0, d, k + f, terminal, self.remaining()));
                        assert(skipped(rem0, d, terminal, self.remaining()));
                    }
                    return Ok(Pulled::Ready(terminal));
                },
                Ok(ReadOutcome::Chunk { bytes }) => {
                    proof {
                        let c = bytes@.len() as int;
                        assert forall|j: int| 0 <= j < k + c implies !live_at(rem0, d, j) by {
                            if j >= k {
                                lemma_live_shift(rem0, d, k, j - k);
                            }
                        }
                        assert(rem0.skip(k).skip(c) =~= rem0.skip(k + c));
                        k = k + c;
                    }
                },
                Ok(ReadOutcome::NeedData) => {
                    proof {
                        assert(discard_shape(rem0, d, k, self.remaining()));
                        assert(discarded(rem0, d, self.remaining()));
                    }
                    return Ok(Pulled::Pending);
                },
                Err(_) => {
                    proof {
                        lemma_no_marker_lift(rem0, d, k);
                    }
                    return Err(Error::IncompleteStream);
                },
            }
        }
    }

    /// Whether the field with index `idx` is the one this session
    /// currently has out.
    pub(crate) fn is_current(&self, idx: usize) -> (r: bool)
        ensures
            r == (self.stage() == StreamingStage::ReadingFieldData && !self.prev_consumed()
                && idx as int + 1 == self.parts_yielded()),
    {
        self.state.stage == StreamingStage::ReadingFieldData
            && !self.state.is_prev_field_consumed
            && self.state.next_idx > 0
            && idx == self.state.next_idx - 1
    }

    /// One body scan on behalf of the live field.
    pub(crate) fn read_body(&mut self) -> (r: Result<ReadOutcome, Error>)
        requires
            old(self).wf(),
        ensures
            final(self).wf(),
            final(self).stage() == old(self).stage(),
            final(self).delim() == old(self).delim(),
            final(self).parts_yielded() == old(self).parts_yielded(),
            final(self).prev_consumed() == old(self).prev_consumed(),
            final(self).source_closed() == old(self).source_closed(),
            match r {
                Ok(ReadOutcome::NeedData) => {
                    &&& !old(self).source_closed()
                    &&& live_at(old(self).remaining(), old(self).delim(), 0)
                    &&& !part_end_at(old(self).remaining(), old(self).delim(), 0)
                    &&& final(self).remaining() == old(self).remaining()
                },
                Ok(ReadOutcome::Chunk { bytes }) => {
                    &&& 0 < bytes@.len() <= old(self).remaining().len()
                    &&& bytes@ == old(self).remaining().take(bytes@.len() as int)
                    &&& forall|j: int| 0 <= j < bytes@.len()
                        ==> !live_at(old(self).remaining(), old(self).delim(), j)
                    &&& live_at(old(self).remaining(), old(self).delim(), bytes@.len() as int)
                    &&& !part_end_at(old(self).remaining(), old(self).delim(), bytes@.len() as int)
                    &&& final(self).remaining() == old(self).remaining().skip(bytes@.len() as int)
                },
                Ok(ReadOutcome::End { bytes, terminal }) => {
                    &&& bytes@.len() <= old(self).remaining().len()
                    &&& bytes@ == old(self).remaining().take(bytes@.len() as int)
                    &&& forall|j: int| 0 <= j < bytes@.len()
                        ==> !live_at(old(self).remaining(), old(self).delim(), j)
                    &&& part_end_at(old(self).remaining(), old(self).delim(), bytes@.len() as int)
                    &&& terminal == terminal_at(old(self).remaining(), old(self).delim(), bytes@.len() as int)
                    &&& final(self).remaining() == old(self).remaining().skip(bytes@.len() as int)
                },
                Err(e) => {
                    &&& e == Error::IncompleteFieldData
                    &&& old(self).source_closed()
                    &&& no_marker(old(self).remaining(), old(self).delim())
                    &&& final(self).remaining() == old(self).remaining()
                },
            },
    {
        self.state.buffer.read_field_data(&self.state.delim)
    }

    /// The completion hook run by a field handing itself back: when the
    /// field is the session's live one, record whether its body was
    /// drained (`done`) or abandoned, and let the driver advance.
    pub(crate) fn finish_field(&mut self, done: bool, idx: usize)
        requires
            old(self).wf(),
        ensures
            final(self).wf(),
            final(self).remaining() == old(self).remaining(),
            final(self).delim() == old(self).delim(),
            final(self).parts_yielded() == old(self).parts_yielded(),
            final(self).source_closed() == old(self).source_closed(),
            (old(self).stage() == StreamingStage::ReadingFieldData && !old(self).prev_consumed()
                && idx as int + 1 == old(self).parts_yielded()) ==> {
                &&& final(self).stage() == (if done {
                    StreamingStage::ReadingBoundary
                } else {
                    StreamingStage::CleaningPrevFieldData
                })
                &&& final(self).prev_consumed()
            },
            !(old(self).stage() == StreamingStage::ReadingFieldData && !old(self).prev_consumed()
                && idx as int + 1 == old(self).parts_yielded())
                ==> same_session(*old(self), *final(self)),
    {
        if self.is_current(idx) {
            if done {
                self.state.stage = StreamingStage::ReadingBoundary;
            } else {
                self.state.stage = StreamingStage::CleaningPrevFieldData;
            }
            self.state.is_prev_field_consumed = true;
        }
    }

    /// Advance to the next part and hand out its metadata and body
    /// handle.
    ///
    /// Yields `Ready(Some(field))` with the next part, `Ready(None)` once
    /// the terminal marker was consumed, and `Pending` when either more
    /// stream data is needed or a previously yielded field is still live
    /// (the one-part-at-a-time rule: the driver does not advance past a
    /// field that was not exhausted or released).
    #[verifier::rlimit(100)]
    pub fn next_field(&mut self) -> (r: Result<Pulled<Option<Field>>, Error>)
        requires
            old(self).wf(),
            old(self).parts_yielded() < usize::MAX,
        ensures
            final(self).wf(),
            final(self).delim() == old(self).delim(),
            final(self).source_closed() == old(self).source_closed(),
            old(self).stage() == StreamingStage::Eof
                ==> r == Ok::<Pulled<Option<Field>>, Error>(Pulled::Ready(None))
                    && same_session(*old(self), *final(self)),
            old(self).stage() == StreamingStage::ReadingFieldData
                ==> r == Ok::<Pulled<Option<Field>>, Error>(Pulled::Pending)
                    && same_session(*old(self), *final(self)),
            match r {
                Ok(Pulled::Ready(Some(f))) => {
                    &&& f.index_spec() == old(self).parts_yielded()
                    &&& !f.done_spec()
                    &&& f.acc_view() == Seq::<u8>::empty()
                    &&& final(self).parts_yielded() == old(self).parts_yielded() + 1
                    &&& final(self).stage() == StreamingStage::ReadingFieldData
                    &&& !final(self).prev_consumed()
                    &&& ((old(self).stage() == StreamingStage::ReadingBoundary
                        || old(self).stage() == StreamingStage::CleaningPrevFieldData)
                        ==> yields_part(
                        old(self).remaining(),
                        old(self).delim(),
                        f,
                        final(self).remaining(),
                    ))
                    &&& (old(self).stage() == StreamingStage::ReadingHeader ==> header_block_at(
                        old(self).remaining(),
                        f,
                        final(self).remaining(),
                    ))
                },
                Ok(Pulled::Ready(None)) => {
                    &&& final(self).stage() == StreamingStage::Eof
                    &&& final(self).parts_yielded() == old(self).parts_yielded()
                    &&& (old(self).stage() != StreamingStage::Eof ==> terminal_reached(
                        old(self).remaining(),
                        old(self).delim(),
                        final(self).remaining(),
                    ))
                },
                Ok(Pulled::Pending) => {
                    &&& final(self).stage() != StreamingStage::Eof
                    &&& final(self).parts_yielded() == old(self).parts_yielded()
                    &&& (old(self).stage() == StreamingStage::ReadingFieldData
                        || !final(self).source_closed())
                    &&& ((final(self).stage() == StreamingStage::ReadingBoundary
                        || final(self).stage() == StreamingStage::CleaningPrevFieldData) ==> {
                        &&& discarded(
                            old(self).remaining(),
                            old(self).delim(),
                            final(self).remaining(),
                        )
                        &&& live_at(final(self).remaining(), old(self).delim(), 0)
                        &&& !part_end_at(final(self).remaining(), old(self).delim(), 0)
                    })
                    &&& (final(self).stage() == StreamingStage::ReadingHeader ==> {
                        &&& no_header_block(final(self).remaining())
                        &&& (old(self).stage() == StreamingStage::ReadingHeader
                            ==> final(self).remaining() == old(self).remaining())
                        &&& (old(self).stage() != StreamingStage::ReadingHeader
                            ==> at_next_header(
                            old(self).remaining(),
                            old(self).delim(),
                            final(self).remaining(),
                        ))
                    })
                },
                Err(e) => {
                    &&& (e == Error::IncompleteStream || e == Error::IncompleteHeaders
                        || e == Error::ReadHeaderFailed)
                    &&& final(self).parts_yielded() == old(self).parts_yielded()
                    &&& (e == Error::IncompleteStream ==> final(self).source_closed()
                        && no_marker(old(self).remaining(), old(self).delim()))
                    &&& (e == Error::IncompleteHeaders ==> final(self).source_closed() && (
                    if old(self).stage() == StreamingStage::ReadingHeader {
                        no_header_block(old(self).remaining())
                    } else {
                        next_headers_unterminated(old(self).remaining(), old(self).delim())
                    }))
                    &&& (e == Error::ReadHeaderFailed ==> (
                    if old(self).stage() == StreamingStage::ReadingHeader {
                        block_unparseable(old(self).remaining())
                    } else {
                        next_block_unparseable(old(self).remaining(), old(self).delim())
                    }))
                },
            },
    {
        match self.state.stage {
            StreamingStage::Eof => {
                return Ok(Pulled::Ready(None));
            },
            StreamingStage::ReadingFieldData => {
                return Ok(Pulled::Pending);
            },
            _ => {},
        }
        let ghost rem_e = old(self).remaining();
        let ghost d = old(self).delim();
        let ghost mut k1: int = 0;
        proof {
            assert(rem_e.skip(0) =~= rem_e);
        }
        if self.state.stage == StreamingStage::CleaningPrevFieldData {
            match self.skip_to_marker() {
                Ok(Pulled::Ready(t1)) => {
                    proof {
                        k1 = choose|p: int| skip_shape(rem_e, d, p, t1, self.remaining());
                    }
                    self.state.stage = StreamingStage::ReadingBoundary;
                },
                Ok(Pulled::Pending) => {
                    return Ok(Pulled::Pending);
                },
                Err(e) => {
                    return Err(e);
                },
            }
        }
        proof {
            assert(discard_shape(rem_e, d, k1, self.remaining()));
        }
        let ghost mid = self.remaining();
        if self.state.stage == StreamingStage::ReadingBoundary {
            match self.skip_to_marker() {
                Ok(Pulled::Ready(terminal)) => {
                    let ghost p = choose|p: int|
                        skip_shape(mid, d, p, terminal, self.remaining());
                    proof {
                        lemma_live_shift(mid, d, p, 0);
                    }
                    let dlen = self.state.delim.len();
                    self.state.buffer.consume(dlen + 2);
                    proof {
                        assert(mid.skip(p).skip(dlen + 2) =~= mid.skip(p + dlen + 2));
                        assert(marker_consumed(mid, d, terminal, self.remaining()));
                        lemma_marker_consumed_lift(rem_e, d, k1, terminal, self.remaining());
                    }
                    if terminal {
                        self.state.stage = StreamingStage::Eof;
                        return Ok(Pulled::Ready(None));
                    }
                    self.state.stage = StreamingStage::ReadingHeader;
                    let ghost hdr = self.remaining();
                    match self.state.buffer.read_headers() {
                        Ok(Pulled::Ready(block)) => {
                            match parse_header_block(&block) {
                                Ok(headers) => {
                                    let idx = self.state.next_idx;
                                    let field = Field::new(headers, idx);
                                    self.state.next_idx = idx + 1;
                                    self.state.stage = StreamingStage::ReadingFieldData;
                                    self.state.is_prev_field_consumed = false;
                                    proof {
                                        if hdr.len() >= 2 && hdr[0] == CR && hdr[1] == LF {
                                            assert(block@ =~= Seq::<u8>::empty());
                                        }
                                        assert(located_block(hdr, block@, self.remaining()));
                                        assert(header_block_at(hdr, field, self.remaining()));
                                        assert(at_next_header(rem_e, d, hdr));
                                        assert(yields_part(rem_e, d, field, self.remaining()));
                                    }
                                    return Ok(Pulled::Ready(Some(field)));
                                },
                                Err(e) => {
                                    proof {
                                        if hdr.len() >= 2 && hdr[0] == CR && hdr[1] == LF {
                                            assert(block@ =~= Seq::<u8>::empty());
                                        }
                                        assert(located_block(hdr, block@, self.remaining()));
                                        assert(block_unparseable(hdr));
                                        assert(at_next_header(rem_e, d, hdr));
                                        assert(next_block_unparseable(rem_e, d));
                                    }
                                    return Err(e);
                                },
                            }
                        },
                        Ok(Pulled::Pending) => {
                            return Ok(Pulled::Pending);
                        },
                        Err(e) => {
                            proof {
                                assert(at_next_header(rem_e, d, hdr));
                                assert(next_headers_unterminated(rem_e, d));
                            }
                            return Err(e);
                        },
                    }
                },
                Ok(Pulled::Pending) => {
                    proof {
                        let k2 = choose|k: int| discard_shape(mid, d, k, self.remaining());
                        assert forall|j: int| 0 <= j < k1 + k2 implies !live_at(rem_e, d, j) by {
                            if j >= k1 {
                                lemma_live_shift(rem_e, d, k1, j - k1);
                            }
                        }
                        assert(rem_e.skip(k1).skip(k2) =~= rem_e.skip(k1 + k2));
                        assert(discard_shape(rem_e, d, k1 + k2, self.remaining()));
                        assert(discarded(rem_e, d, self.remaining()));
                    }
                    return Ok(Pulled::Pending);
                },
                Err(e) => {
                    proof {
                        lemma_no_marker_lift(rem_e, d, k1);
                    }
                    return Err(e);
                },
            }
        }
        // stage is ReadingHeader: a header block was begun on an earlier
        // call; keep collecting it.
        match self.state.buffer.read_headers() {
            Ok(Pulled::Ready(block)) => {
                match parse_header_block(&block) {
                    Ok(headers) => {
                        let idx = self.state.next_idx;
                        let field = Field::new(headers, idx);
                        self.state.next_idx = idx + 1;
                        self.state.stage = StreamingStage::ReadingFieldData;
                        self.state.is_prev_field_consumed = false;
                        proof {
                            if rem_e.len() >= 2 && rem_e[0] == CR && rem_e[1] == LF {
                                assert(block@ =~= Seq::<u8>::empty());
                            }
                            assert(located_block(rem_e, block@, self.remaining()));
                            assert(header_block_at(rem_e, field, self.remaining()));
                        }
                        Ok(Pulled::Ready(Some(field)))
                    },
                    Err(e) => {
                        proof {
                            if rem_e.len() >= 2 && rem_e[0] == CR && rem_e[1] == LF {
                                assert(block@ =~= Seq::<u8>::empty());
                            }
                            assert(located_block(rem_e, block@, self.remaining()));
                            assert(block_unparseable(rem_e));
                        }
                        Err(e)
                    },
                }
            },
            Ok(Pulled::Pending) => Ok(Pulled::Pending),
            Err(e) => Err(e),
        }
    }
}

/// Both sessions agree on all observable state.
pub open spec fn same_session(a: Multipart, b: Multipart) -> bool {
    &&& a.remaining() == b.remaining()
    &&& a.stage() == b.stage()
    &&& a.delim() == b.delim()
    &&& a.parts_yielded() == b.parts_yielded()
    &&& a.prev_consumed() == b.prev_consumed()
    &&& a.source_closed() == b.source_closed()
}

/// `post` is `rem` with the body bytes before the end-of-part marker at
/// `p` discarded; the marker itself is still unconsumed.
pub open spec fn skip_shape(rem: Seq<u8>, d: Seq<u8>, p: int, terminal: bool, post: Seq<u8>) -> bool {
    &&& 0 <= p
    &&& part_end_at(rem, d, p)
    &&& (forall|j: int| 0 <= j < p ==> !live_at(rem, d, j))
    &&& terminal == terminal_at(rem, d, p)
    &&& post == rem.skip(p)
}

/// `post` is `rem` with `k` confirmed body bytes discarded.
pub open spec fn discard_shape(rem: Seq<u8>, d: Seq<u8>, k: int, post: Seq<u8>) -> bool {
    &&& 0 <= k <= rem.len()
    &&& (forall|j: int| 0 <= j < k ==> !live_at(rem, d, j))
    &&& post == rem.skip(k)
}

/// Some end-of-part marker was reached: [`skip_shape`] holds for some
/// position.
pub open spec fn skipped(rem: Seq<u8>, d: Seq<u8>, terminal: bool, post: Seq<u8>) -> bool {
    exists|p: int| skip_shape(rem, d, p, terminal, post)
}

/// Some run of confirmed body bytes was discarded: [`discard_shape`]
/// holds for some count.
pub open spec fn discarded(rem: Seq<u8>, d: Seq<u8>, post: Seq<u8>) -> bool {
    exists|k: int| discard_shape(rem, d, k, post)
}

/// The complete header block at the front of `after` is exactly `block`:
/// an empty line right at the front is the empty block, and otherwise the
/// block runs to the first blank line; `post` is what follows the
/// blank-line terminator.
pub open spec fn located_block(after: Seq<u8>, block: Seq<u8>, post: Seq<u8>) -> bool {
    if after.len() >= 2 && after[0] == CR && after[1] == LF {
        &&& block == Seq::<u8>::empty()
        &&& post == after.skip(2)
    } else {
        &&& matches_at(after, crlf2(), block.len() as int)
        &&& (forall|j: int| 0 <= j < block.len() ==> !matches_at(after, crlf2(), j))
        &&& block == after.take(block.len() as int)
        &&& post == after.skip(block.len() as int + 4)
    }
}

/// The front of `after` holds a complete header block whose parse is the
/// field's headers and metadata; `post` is what follows the blank line.
pub open spec fn header_block_at(after: Seq<u8>, f: Field, post: Seq<u8>) -> bool {
    exists|block: Seq<u8>| {
        &&& #[trigger] located_block(after, block, post)
        &&& field_from_block(block, f)
    }
}

/// The complete header block at the front of `after` does not parse.
pub open spec fn block_unparseable(after: Seq<u8>) -> bool {
    exists|block: Seq<u8>, post: Seq<u8>| {
        &&& #[trigger] located_block(after, block, post)
        &&& spec_parse_block(block) is None
    }
}

/// The first end-of-part marker of `rem` was consumed: the body (or
/// preamble) bytes before it are all ruled out as marker starts, its
/// terminal flag is `terminal`, and `post` is what follows the marker.
pub open spec fn marker_consumed(rem: Seq<u8>, d: Seq<u8>, terminal: bool, post: Seq<u8>) -> bool {
    exists|p: int| {
        &&& 0 <= p
        &&& #[trigger] part_end_at(rem, d, p)
        &&& (forall|j: int| 0 <= j < p ==> !live_at(rem, d, j))
        &&& terminal == terminal_at(rem, d, p)
        &&& post == rem.skip(p + d.len() + 2)
    }
}

/// The first marker of `rem` is a separator, and `after` starts right at
/// the next part's header block.
pub open spec fn at_next_header(rem: Seq<u8>, d: Seq<u8>, after: Seq<u8>) -> bool {
    marker_consumed(rem, d, false, after)
}

/// The first marker of `rem` is the terminal one; `post` follows it.
pub open spec fn terminal_reached(rem: Seq<u8>, d: Seq<u8>, post: Seq<u8>) -> bool {
    marker_consumed(rem, d, true, post)
}

/// The next part's header block, located behind the first marker of
/// `rem`, is never terminated by a blank line.
pub open spec fn next_headers_unterminated(rem: Seq<u8>, d: Seq<u8>) -> bool {
    exists|after: Seq<u8>| {
        &&& #[trigger] at_next_header(rem, d, after)
        &&& no_header_block(after)
    }
}

/// The next part's header block, located behind the first marker of
/// `rem`, does not parse.
pub open spec fn next_block_unparseable(rem: Seq<u8>, d: Seq<u8>) -> bool {
    exists|after: Seq<u8>| {
        &&& #[trigger] at_next_header(rem, d, after)
        &&& block_unparseable(after)
    }
}

/// The field yielded from `rem` is exactly the one whose end-of-part
/// marker, header block and metadata are laid out at the front of `rem`:
/// body/preamble bytes up to the first marker are discarded, the marker
/// is not terminal, and the header block after it parses to the field's
/// headers and metadata; `post` is the start of the part's body.
pub open spec fn yields_part(rem: Seq<u8>, d: Seq<u8>, f: Field, post: Seq<u8>) -> bool {
    exists|after: Seq<u8>| {
        &&& #[trigger] at_next_header(rem, d, after)
        &&& header_block_at(after, f, post)
    }
}

/// A marker consumed behind a discarded run of ruled-out bytes is the
/// first marker of the whole region, consumed.
pub proof fn lemma_marker_consumed_lift(
    rem: Seq<u8>,
    d: Seq<u8>,
    k: int,
    terminal: bool,
    post: Seq<u8>,
)
    requires
        0 <= k <= rem.len(),
        forall|j: int| 0 <= j < k ==> !live_at(rem, d, j),
        marker_consumed(rem.skip(k), d, terminal, post),
    ensures
        marker_consumed(rem, d, terminal, post),
{
    let mid = rem.skip(k);
    let p = choose|p: int| {
        &&& 0 <= p
        &&& #[trigger] part_end_at(mid, d, p)
        &&& (forall|j: int| 0 <= j < p ==> !live_at(mid, d, j))
        &&& terminal == terminal_at(mid, d, p)
        &&& post == mid.skip(p + d.len() + 2)
    };
    lemma_live_shift(rem, d, k, p);
    assert forall|j: int| 0 <= j < k + p implies !live_at(rem, d, j) by {
        if j >= k {
            lemma_live_shift(rem, d, k, j - k);
        }
    }
    assert(mid.skip(p + d.len() + 2) =~= rem.skip(k + p + d.len() + 2));
    assert(part_end_at(rem, d, k + p));
    assert(marker_consumed(rem, d, terminal, post));
}

} // verus!

//! The accumulating byte buffer and the boundary-aware incremental scanner.
//!
//! The buffer holds the unconsumed bytes of the incoming stream: consumed
//! bytes are compacted away at once, so the logical read offset is always
//! zero.  The scanner classifies each position of the unconsumed region as
//! either confirmed body data or a position that could still begin the
//! end-of-part marker once more bytes arrive; this is what keeps a marker
//! split across chunk deliveries from being mis-read as body data.

use vstd::prelude::*;

use crate::error::Error;
use crate::Pulled;

verus! {

/// Carriage return.
pub const CR: u8 = 13;
/// Line feed.
pub const LF: u8 = 10;
/// The dash of the `--` boundary prefix and of the terminal `--` suffix.
pub const DASH: u8 = 45;

/// The delimiter that closes a part's body on the wire:
/// `\r\n--` followed by the boundary bytes.
pub open spec fn delim_of(boundary: Seq<u8>) -> Seq<u8> {
    seq![CR, LF, DASH, DASH] + boundary
}

/// Position `i` of `s` could still turn out to begin a complete
/// end-of-part marker (the delimiter `d` followed by either `--` or
/// `\r\n`) once more bytes are appended to `s`, judging only by the bytes
/// of `s` that are already present from `i` on.
///
/// When all `d.len() + 2` marker bytes are present this says the marker is
/// fully there; see [`part_end_at`].
pub open spec fn live_at(s: Seq<u8>, d: Seq<u8>, i: int) -> bool {
    &&& 0 <= i <= s.len()
    &&& forall|j: int| 0 <= j < d.len() && i + j < s.len() ==> s[i + j] == d[j]
    &&& (i + d.len() < s.len() ==> (s[i + d.len()] == DASH || s[i + d.len()] == CR))
    &&& (i + d.len() + 1 < s.len() ==> ((s[i + d.len()] == DASH && s[i + d.len() + 1] == DASH)
            || (s[i + d.len()] == CR && s[i + d.len() + 1] == LF)))
}

/// A complete end-of-part marker starts at position `i` of `s`: the
/// delimiter `d` followed by `--` (terminal) or `\r\n` (another part
/// follows).
pub open spec fn part_end_at(s: Seq<u8>, d: Seq<u8>, i: int) -> bool {
    i + d.len() + 2 <= s.len() && live_at(s, d, i)
}

/// The complete marker at `i` is the terminal one (`--` follows the
/// delimiter) rather than a separator before a further part.
pub open spec fn terminal_at(s: Seq<u8>, d: Seq<u8>, i: int) -> bool {
    s[i + d.len()] == DASH
}

/// A position ruled out as the start of an end-of-part marker stays ruled
/// out no matter what bytes arrive later: classifying a byte as body data
/// is a stable decision.
pub proof fn lemma_dead_stays_dead(s: Seq<u8>, ext: Seq<u8>, d: Seq<u8>, i: int)
    requires
        0 <= i <= s.len(),
        !live_at(s, d, i),
    ensures
        !live_at(s + ext, d, i),
{
    let t = s + ext;
    assert(forall|k: int| 0 <= k < s.len() ==> t[k] == s[k]);
    if !(forall|j: int| 0 <= j < d.len() && i + j < s.len() ==> s[i + j] == d[j]) {
        let j = choose|j: int| 0 <= j < d.len() && i + j < s.len() && s[i + j] != d[j];
        assert(t[i + j] != d[j]);
    }
}

/// A complete end-of-part marker stays a complete marker, with the same
/// terminal flag, no matter what bytes arrive later.
pub proof fn lemma_end_stays_end(s: Seq<u8>, ext: Seq<u8>, d: Seq<u8>, i: int)
    requires
        part_end_at(s, d, i),
    ensures
        part_end_at(s + ext, d, i),
        terminal_at(s + ext, d, i) == terminal_at(s, d, i),
{
    let t = s + ext;
    assert(forall|k: int| 0 <= k < s.len() ==> t[k] == s[k]);
    assert forall|j: int| 0 <= j < d.len() && i + j < t.len() implies t[i + j] == d[j] by {
        assert(i + j < s.len());
        assert(s[i + j] == d[j]);
    }
}

/// Chunk-delivery independence at the scanner level: every byte that a
/// partial view of the stream classified as body data is classified the
/// same way once more of the stream is seen.
pub proof fn lemma_scan_prefix_consistent(s: Seq<u8>, ext: Seq<u8>, d: Seq<u8>, f: int)
    requires
        0 <= f <= s.len(),
        forall|j: int| 0 <= j < f ==> !live_at(s, d, j),
    ensures
        forall|j: int| 0 <= j < f ==> !live_at(s + ext, d, j),
{
    assert forall|j: int| 0 <= j < f implies !live_at(s + ext, d, j) by {
        lemma_dead_stays_dead(s, ext, d, j);
    }
}

/// The bytes of `pat` occur in `s` starting at position `i`.
pub open spec fn matches_at(s: Seq<u8>, pat: Seq<u8>, i: int) -> bool {
    &&& 0 <= i
    &&& i + pat.len() <= s.len()
    &&& forall|j: int| 0 <= j < pat.len() ==> s[i + j] == pat[j]
}

/// The first occurrence of `pat` in `b`, if any.
pub open spec fn spec_find(b: Seq<u8>, pat: Seq<u8>) -> Option<int>
    decreases b.len(),
{
    if matches_at(b, pat, 0) {
        Some(0)
    } else if b.len() == 0 {
        None
    } else {
        match spec_find(b.skip(1), pat) {
            Some(i) => Some(i + 1),
            None => None,
        }
    }
}

/// An occurrence of `pat` keeps its position under a shift of the viewed
/// region: dropping `k` bytes from the front moves every occurrence back
/// by `k`.
pub proof fn lemma_matches_shift(b: Seq<u8>, pat: Seq<u8>, k: int, i: int)
    requires
        0 <= k <= b.len(),
        0 <= i,
    ensures
        matches_at(b.skip(k), pat, i) == matches_at(b, pat, k + i),
{
    if matches_at(b.skip(k), pat, i) {
        assert forall|j: int| 0 <= j < pat.len() implies b[k + i + j] == pat[j] by {
            assert(b.skip(k)[i + j] == b[k + i + j]);
        }
    }
    if matches_at(b, pat, k + i) {
        assert forall|j: int| 0 <= j < pat.len() implies b.skip(k)[i + j] == pat[j] by {
            assert(b.skip(k)[i + j] == b[k + i + j]);
        }
    }
}

/// `spec_find` returns exactly the first occurrence.
pub proof fn lemma_spec_find(b: Seq<u8>, pat: Seq<u8>)
    requires
        pat.len() >= 1,
    ensures
        match spec_find(b, pat) {
            Some(i) => matches_at(b, pat, i)
                && forall|j: int| 0 <= j < i ==> !matches_at(b, pat, j),
            None => forall|j: int| !matches_at(b, pat, j),
        },
    decreases b.len(),
{
    if matches_at(b, pat, 0) {
    } else if b.len() == 0 {
    } else {
        lemma_spec_find(b.skip(1), pat);
        assert forall|i: int| 0 <= i implies
            matches_at(b.skip(1), pat, i) == matches_at(b, pat, 1 + i) by {
            lemma_matches_shift(b, pat, 1, i);
        }
        match spec_find(b.skip(1), pat) {
            Some(i) => {
                assert(matches_at(b, pat, i + 1));
                assert forall|j: int| 0 <= j < i + 1 implies !matches_at(b, pat, j) by {
                    if j >= 1 {
                        assert(!matches_at(b.skip(1), pat, j - 1));
                    }
                }
            },
            None => {
                assert forall|j: int| !matches_at(b, pat, j) by {
                    if j >= 1 {
                        assert(!matches_at(b.skip(1), pat, j - 1));
                    }
                }
            },
        }
    }
}

/// A position still open as a marker start keeps that status, relative to
/// the front, when the consumed prefix is dropped from view.
pub proof fn lemma_live_shift(s: Seq<u8>, d: Seq<u8>, k: int, i: int)
    requires
        0 <= k <= s.len(),
        0 <= i,
    ensures
        live_at(s.skip(k), d, i) == live_at(s, d, k + i),
        part_end_at(s.skip(k), d, i) == part_end_at(s, d, k + i),
        part_end_at(s, d, k + i) ==> terminal_at(s.skip(k), d, i) == terminal_at(s, d, k + i),
{
    let t = s.skip(k);
    assert(forall|m: int| 0 <= m < t.len() ==> t[m] == s[k + m]);
    if live_at(t, d, i) {
        assert forall|j: int| 0 <= j < d.len() && k + i + j < s.len()
            implies s[k + i + j] == d[j] by {
            assert(t[i + j] == s[k + i + j]);
        }
        assert(live_at(s, d, k + i));
    }
    if live_at(s, d, k + i) {
        assert forall|j: int| 0 <= j < d.len() && i + j < t.len()
            implies t[i + j] == d[j] by {
            assert(t[i + j] == s[k + i + j]);
        }
        assert(live_at(t, d, i));
    }
    if part_end_at(s, d, k + i) {
        assert(t[i + d.len()] == s[k + i + d.len()]);
    }
}

/// Whether `pat` occurs at `i` in `buf`, by direct comparison.
fn match_at_exec(buf: &Vec<u8>, i: usize, pat: &Vec<u8>) -> (r: bool)
    requires
        i + pat@.len() <= buf@.len(),
    ensures
        r == matches_at(buf@, pat@, i as int),
{
    let n: usize = buf.len();
    let mut j: usize = 0;
    while j < pat.len()
        invariant
            j <= pat@.len(),
            i + pat@.len() <= n,
            n == buf@.len(),
            forall|k: int| 0 <= k < j ==> buf@[i + k] == pat@[k],
        decreases pat@.len() - j,
    {
        if buf[i + j] != pat[j] {
            return false;
        }
        j = j + 1;
    }
    true
}

/// The first occurrence of `pat` in `buf`, by linear scan.
pub fn find_match(buf: &Vec<u8>, pat: &Vec<u8>) -> (r: Option<usize>)
    requires
        pat@.len() >= 1,
    ensures
        match r {
            Some(i) => matches_at(buf@, pat@, i as int)
                && forall|j: int| 0 <= j < i ==> !matches_at(buf@, pat@, j),
            None => forall|j: int| !matches_at(buf@, pat@, j),
        },
{
    let n: usize = buf.len();
    if pat.len() > n {
        return None;
    }
    let last: usize = n - pat.len();
    let mut i: usize = 0;
    while i <= last
        invariant
            i <= last + 1,
            last == n - pat@.len(),
            pat@.len() >= 1,
            pat@.len() <= n,
            n == buf@.len(),
            forall|j: int| 0 <= j < i ==> !matches_at(buf@, pat@, j),
        decreases last + 1 - i,
    {
        if match_at_exec(buf, i, pat) {
            return Some(i);
        }
        i = i + 1;
    }
    None
}

/// Copy the bytes of `v` from position `start` on.
pub fn copy_skip(v: &Vec<u8>, start: usize) -> (r: Vec<u8>)
    requires
        start <= v@.len(),
    ensures
        r@ == v@.skip(start as int),
{
    let n: usize = v.len();
    let mut r: Vec<u8> = Vec::new();
    let mut i: usize = start;
    while i < n
        invariant
            start <= i <= n,
            n == v@.len(),
            r@ == v@.subrange(start as int, i as int),
        decreases n - i,
    {
        r.push(v[i]);
        i = i + 1;
        proof {
            assert(r@ =~= v@.subrange(start as int, i as int));
        }
    }
    proof {
        assert(v@.subrange(start as int, n as int) =~= v@.skip(start as int));
    }
    r
}

/// Copy the first `k` bytes of `v`.
pub fn copy_take(v: &Vec<u8>, k: usize) -> (r: Vec<u8>)
    requires
        k <= v@.len(),
    ensures
        r@ == v@.take(k as int),
{
    let mut r: Vec<u8> = Vec::new();
    let mut i: usize = 0;
    while i < k
        invariant
            i <= k,
            k <= v@.len(),
            r@ == v@.take(i as int),
        decreases k - i,
    {
        r.push(v[i]);
        i = i + 1;
        proof {
            assert(r@ =~= v@.take(i as int));
        }
    }
    r
}

/// The blank-line terminator of a header block: an empty line.
pub open spec fn crlf2() -> Seq<u8> {
    seq![CR, LF, CR, LF]
}

/// No complete header block is present in `rem` yet: it neither starts
/// with an empty line nor contains a blank-line terminator.
pub open spec fn no_header_block(rem: Seq<u8>) -> bool {
    &&& !(rem.len() >= 2 && rem[0] == CR && rem[1] == LF)
    &&& forall|j: int| !matches_at(rem, crlf2(), j)
}

/// No complete end-of-part marker occurs anywhere in `rem`.
pub open spec fn no_marker(rem: Seq<u8>, d: Seq<u8>) -> bool {
    forall|j: int| !part_end_at(rem, d, j)
}

/// Absence of a marker behind a discarded dead prefix is absence of a
/// marker in the whole region.
pub proof fn lemma_no_marker_lift(rem: Seq<u8>, d: Seq<u8>, k: int)
    requires
        0 <= k <= rem.len(),
        forall|j: int| 0 <= j < k ==> !live_at(rem, d, j),
        no_marker(rem.skip(k), d),
    ensures
        no_marker(rem, d),
{
    assert forall|j: int| !part_end_at(rem, d, j) by {
        if 0 <= j < k {
            assert(!live_at(rem, d, j));
        } else if j >= k {
            lemma_live_shift(rem, d, k, j - k);
            assert(!part_end_at(rem.skip(k), d, j - k));
        }
    }
}

/// A marker located after part of the stream was seen is the same marker,
/// at the same place, after the rest arrives: the body bytes before it and
/// its terminal flag never change.  In particular a marker whose bytes
/// arrive split across two chunk deliveries is found exactly where a
/// single delivery would have found it.
pub proof fn lemma_marker_position_stable(s: Seq<u8>, ext: Seq<u8>, d: Seq<u8>, f: int)
    requires
        part_end_at(s, d, f),
        forall|j: int| 0 <= j < f ==> !live_at(s, d, j),
    ensures
        part_end_at(s + ext, d, f),
        terminal_at(s + ext, d, f) == terminal_at(s, d, f),
        forall|j: int| 0 <= j < f ==> !live_at(s + ext, d, j),
        (s + ext).take(f) == s.take(f),
{
    lemma_end_stays_end(s, ext, d, f);
    lemma_scan_prefix_consistent(s, ext, d, f);
    assert((s + ext).take(f) =~= s.take(f));
}

/// What one scan of the unconsumed region produced.
pub enum ReadOutcome {
    /// Nothing can be decided yet: the region is empty or all of it could
    /// still be part of an upcoming end-of-part marker.
    NeedData,
    /// `bytes` are confirmed body data of the current part; the part's end
    /// was not reached yet.
    Chunk { bytes: Vec<u8> },
    /// The current part ended: `bytes` is its final run of body data, and
    /// the end-of-part marker now sits at the front of the buffer
    /// (unconsumed).  `terminal` says whether the marker closes the whole
    /// stream (`--`) or a further part follows (`\r\n`).
    End { bytes: Vec<u8>, terminal: bool },
}

/// The accumulating byte buffer with its end-of-source flag.
pub struct StreamBuffer {
    buf: Vec<u8>,
    eof: bool,
}

impl StreamBuffer {
    /// The unconsumed bytes.
    pub closed spec fn remaining(self) -> Seq<u8> {
        self.buf@
    }

    /// Whether the byte source reported end-of-stream.
    pub closed spec fn at_eof(self) -> bool {
        self.eof
    }

    pub fn new() -> (r: StreamBuffer)
        ensures
            r.remaining() == Seq::<u8>::empty(),
            !r.at_eof(),
    {
        StreamBuffer { buf: Vec::new(), eof: false }
    }

    /// Append one chunk delivered by the byte source.
    pub fn push_chunk(&mut self, data: &[u8])
        ensures
            final(self).remaining() == old(self).remaining() + data@,
            final(self).at_eof() == old(self).at_eof(),
    {
        let mut i: usize = 0;
        while i < data.len()
            invariant
                i <= data@.len(),
                self.buf@ == old(self).buf@ + data@.take(i as int),
                self.eof == old(self).eof,
            decreases data@.len() - i,
        {
            self.buf.push(data[i]);
            i = i + 1;
            proof {
                assert(self.buf@ =~= old(self).buf@ + data@.take(i as int));
            }
        }
        proof {
            assert(data@.take(data@.len() as int) =~= data@);
        }
    }

    /// Record that the byte source ended.
    pub fn close(&mut self)
        ensures
            final(self).remaining() == old(self).remaining(),
            final(self).at_eof(),
    {
        self.eof = true;
    }

    /// Remove the first `k` unconsumed bytes.
    pub fn consume(&mut self, k: usize)
        requires
            k <= old(self).remaining().len(),
        ensures
            final(self).remaining() == old(self).remaining().skip(k as int),
            final(self).at_eof() == old(self).at_eof(),
    {
        let _ = take_front(&mut self.buf, k);
    }

    /// One scan of the unconsumed region for the end-of-part marker
    /// `d ++ ("--" | "\r\n")`, where `d` is the full delimiter
    /// (`\r\n--boundary`).
    ///
    /// Bytes are handed out only once they can never belong to a marker; a
    /// partial marker at the tail of the region is held back until more
    /// data (or end-of-source) resolves it.  On end-of-source with no
    /// complete marker the stream is incomplete.
    pub fn read_field_data(&mut self, d: &Vec<u8>) -> (r: Result<ReadOutcome, Error>)
        requires
            d@.len() + 2 < usize::MAX,
        ensures
            final(self).at_eof() == old(self).at_eof(),
            match r {
                Ok(ReadOutcome::NeedData) => {
                    &&& !old(self).at_eof()
                    &&& live_at(old(self).remaining(), d@, 0)
                    &&& !part_end_at(old(self).remaining(), d@, 0)
                    &&& final(self).remaining() == old(self).remaining()
                },
                Ok(ReadOutcome::Chunk { bytes }) => {
                    &&& !old(self).at_eof()
                    &&& 0 < bytes@.len() <= old(self).remaining().len()
                    &&& bytes@ == old(self).remaining().take(bytes@.len() as int)
                    &&& forall|j: int| 0 <= j < bytes@.len()
                        ==> !live_at(old(self).remaining(), d@, j)
                    &&& live_at(old(self).remaining(), d@, bytes@.len() as int)
                    &&& !part_end_at(old(self).remaining(), d@, bytes@.len() as int)
                    &&& final(self).remaining()
                        == old(self).remaining().skip(bytes@.len() as int)
                },
                Ok(ReadOutcome::End { bytes, terminal }) => {
                    &&& bytes@.len() <= old(self).remaining().len()
                    &&& bytes@ == old(self).remaining().take(bytes@.len() as int)
                    &&& forall|j: int| 0 <= j < bytes@.len()
                        ==> !live_at(old(self).remaining(), d@, j)
                    &&& part_end_at(old(self).remaining(), d@, bytes@.len() as int)
                    &&& terminal == terminal_at(old(self).remaining(), d@, bytes@.len() as int)
                    &&& final(self).remaining()
                        == old(self).remaining().skip(bytes@.len() as int)
                },
                Err(e) => {
                    &&& e == Error::IncompleteFieldData
                    &&& old(self).at_eof()
                    &&& forall|j: int| !part_end_at(old(self).remaining(), d@, j)
                    &&& final(self).remaining() == old(self).remaining()
                },
            },
    {
        let f = find_first_live(&self.buf, d);
        if self.buf.len() - f >= d.len() + 2 {
            let terminal = self.buf[f + d.len()] == DASH;
            let bytes = take_front(&mut self.buf, f);
            Ok(ReadOutcome::End { bytes, terminal })
        } else if self.eof {
            proof {
                assert forall|j: int| !part_end_at(self.buf@, d@, j) by {
                    if part_end_at(self.buf@, d@, j) {
                        assert(live_at(self.buf@, d@, j));
                        assert(j >= f);
                        assert(j + d@.len() + 2 <= self.buf@.len());
                    }
                }
            }
            Err(Error::IncompleteFieldData)
        } else if f > 0 {
            let bytes = take_front(&mut self.buf, f);
            Ok(ReadOutcome::Chunk { bytes })
        } else {
            Ok(ReadOutcome::NeedData)
        }
    }

    /// Pull the header block of the current part off the front of the
    /// buffer: the bytes up to the first blank line.  An empty line right
    /// at the front is an empty header block.  The blank-line terminator
    /// is consumed along with the block; the body bytes follow it.
    pub fn read_headers(&mut self) -> (r: Result<Pulled<Vec<u8>>, Error>)
        ensures
            final(self).at_eof() == old(self).at_eof(),
            match r {
                Ok(Pulled::Ready(block)) => {
                    let rem = old(self).remaining();
                    if rem.len() >= 2 && rem[0] == CR && rem[1] == LF {
                        &&& block@.len() == 0
                        &&& final(self).remaining() == rem.skip(2)
                    } else {
                        &&& matches_at(rem, crlf2(), block@.len() as int)
                        &&& forall|j: int| 0 <= j < block@.len() ==> !matches_at(rem, crlf2(), j)
                        &&& block@ == rem.take(block@.len() as int)
                        &&& final(self).remaining() == rem.skip(block@.len() as int + 4)
                    }
                },
                Ok(Pulled::Pending) => {
                    &&& !old(self).at_eof()
                    &&& no_header_block(old(self).remaining())
                    &&& final(self).remaining() == old(self).remaining()
                },
                Err(e) => {
                    &&& e == Error::IncompleteHeaders
                    &&& old(self).at_eof()
                    &&& no_header_block(old(self).remaining())
                    &&& final(self).remaining() == old(self).remaining()
                },
            },
    {
        if self.buf.len() >= 2 && self.buf[0] == CR && self.buf[1] == LF {
            self.consume(2);
            return Ok(Pulled::Ready(Vec::new()));
        }
        let mut pat: Vec<u8> = Vec::new();
        pat.push(CR);
        pat.push(LF);
        pat.push(CR);
        pat.push(LF);
        proof {
            assert(pat@ =~= crlf2());
        }
        match find_match(&self.buf, &pat) {
            Some(i) => {
                let block = take_front(&mut self.buf, i);
                self.consume(4);
                proof {
                    assert(old(self).remaining().skip(i as int).skip(4)
                        =~= old(self).remaining().skip(i + 4));
                }
                Ok(Pulled::Ready(block))
            },
            None => {
                if self.eof {
                    Err(Error::IncompleteHeaders)
                } else {
                    Ok(Pulled::Pending)
                }
            },
        }
    }
}

/// Whether position `i` of `buf` could still begin an end-of-part marker,
/// judging by the bytes present.
fn is_live(buf: &Vec<u8>, i: usize, d: &Vec<u8>) -> (r: bool)
    requires
        i <= buf@.len(),
        d@.len() + 2 < usize::MAX,
    ensures
        r == live_at(buf@, d@, i as int),
{
    let n: usize = buf.len();
    let avail: usize = n - i;
    let mut j: usize = 0;
    while j < d.len() && j < avail
        invariant
            j <= d@.len(),
            j <= avail,
            i <= n,
            n == buf@.len(),
            avail == n - i,
            forall|k: int| 0 <= k < j ==> buf@[i + k] == d@[k],
        decreases d@.len() - j,
    {
        if buf[i + j] != d[j] {
            return false;
        }
        j = j + 1;
    }
    if avail <= d.len() {
        return true;
    }
    let b0 = buf[i + d.len()];
    if b0 != DASH && b0 != CR {
        return false;
    }
    if avail == d.len() + 1 {
        return true;
    }
    let b1 = buf[i + d.len() + 1];
    if b0 == DASH {
        b1 == DASH
    } else {
        b1 == LF
    }
}

/// The first position of `buf` not yet ruled out as the start of an
/// end-of-part marker; `buf.len()` when every byte is confirmed body data.
fn find_first_live(buf: &Vec<u8>, d: &Vec<u8>) -> (f: usize)
    requires
        d@.len() + 2 < usize::MAX,
    ensures
        f <= buf@.len(),
        forall|j: int| 0 <= j < f ==> !live_at(buf@, d@, j),
        live_at(buf@, d@, f as int),
{
    let mut f: usize = 0;
    while f < buf.len()
        invariant
            f <= buf@.len(),
            d@.len() + 2 < usize::MAX,
            forall|j: int| 0 <= j < f ==> !live_at(buf@, d@, j),
        decreases buf@.len() - f,
    {
        if is_live(buf, f, d) {
            return f;
        }
        f = f + 1;
    }
    f
}

/// Remove and return the first `k` elements of `v`.
fn take_front(v: &mut Vec<u8>, k: usize) -> (r: Vec<u8>)
    requires
        k <= old(v)@.len(),
    ensures
        r@ == old(v)@.take(k as int),
        final(v)@ == old(v)@.skip(k as int),
{
    let mut front: Vec<u8> = Vec::new();
    let mut i: usize = 0;
    while i < k
        invariant
            i <= k,
            k <= v@.len(),
            v@ == old(v)@,
            front@ == old(v)@.take(i as int),
        decreases k - i,
    {
        front.push(v[i]);
        i = i + 1;
        proof {
            assert(front@ =~= old(v)@.take(i as int));
        }
    }
    let mut rest: Vec<u8> = Vec::new();
    while i < v.len()
        invariant
            k <= i <= v@.len(),
            v@ == old(v)@,
            rest@ == old(v)@.subrange(k as int, i as int),
        decreases v@.len() - i,
    {
        rest.push(v[i]);
        i = i + 1;
        proof {
            assert(rest@ =~= old(v)@.subrange(k as int, i as int));
        }
    }
    *v = rest;
    proof {
        assert(v@ =~= old(v)@.skip(k as int));
    }
    front
}

} // verus!

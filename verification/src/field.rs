//! A single field (part) of a multipart stream: its metadata and its
//! lazily pulled body.
//!
//! A [`Field`] is yielded by [`Multipart::next_field`] and reads its body
//! through the session it came from.  Pulling after exhaustion keeps
//! returning `Ready(None)` without touching the session.  A field must be
//! handed back with [`Field::release`] (whether drained or abandoned);
//! until then the session will not yield the next part.  A field that is
//! simply leaked leaves the session waiting forever, by design.

use vstd::prelude::*;

use crate::buffer::{lemma_no_marker_lift, live_at, no_marker, part_end_at, ReadOutcome};
use crate::codec::{
    all_ascii, ascii_chars, ascii_to_string, decode_text, decoded, is_ascii_bytes, json_from_slice,
    json_ok, mime_parts, opt_str_view, parse_mime,
};
use crate::error::Error;
use crate::headers::{
    extract_attr, filename_attr_pat, filename_attr_vec, name_attr_pat, name_attr_vec, spec_get,
    spec_extract_attr, spec_parse_block, Headers,
};
use crate::multipart::{Multipart, StreamingStage};
use crate::Pulled;

verus! {

/// The lowercased name of the disposition header, as bytes:
/// `content-disposition`.
pub open spec fn cd_name() -> Seq<u8> {
    seq![99u8, 111, 110, 116, 101, 110, 116, 45, 100, 105, 115, 112, 111, 115, 105, 116, 105, 111, 110]
}

/// The lowercased name of the content-type header, as bytes:
/// `content-type`.
pub open spec fn ct_name() -> Seq<u8> {
    seq![99u8, 111, 110, 116, 101, 110, 116, 45, 116, 121, 112, 101]
}

/// The field name carried by the header block: the `name="..."`
/// attribute of the disposition header, when it is ASCII.
pub open spec fn spec_meta_name(hs: Seq<(Seq<u8>, Seq<u8>)>) -> Option<Seq<char>> {
    match spec_get(hs, cd_name()) {
        Some(v) => match spec_extract_attr(v, name_attr_pat()) {
            Some(b) => if all_ascii(b) {
                Some(ascii_chars(b))
            } else {
                None
            },
            None => None,
        },
        None => None,
    }
}

/// The file name carried by the header block: the `filename="..."`
/// attribute of the disposition header, when it is ASCII.
pub open spec fn spec_meta_file_name(hs: Seq<(Seq<u8>, Seq<u8>)>) -> Option<Seq<char>> {
    match spec_get(hs, cd_name()) {
        Some(v) => match spec_extract_attr(v, filename_attr_pat()) {
            Some(b) => if all_ascii(b) {
                Some(ascii_chars(b))
            } else {
                None
            },
            None => None,
        },
        None => None,
    }
}

/// The media type carried by the header block: the content-type header's
/// value parsed into essence and charset, when present, ASCII and
/// well-formed.
pub open spec fn spec_meta_content_type(
    hs: Seq<(Seq<u8>, Seq<u8>)>,
) -> Option<(Seq<char>, Option<Seq<char>>)> {
    match spec_get(hs, ct_name()) {
        Some(v) => if all_ascii(v) {
            mime_parts(ascii_chars(v))
        } else {
            None
        },
        None => None,
    }
}

/// The parsed content-type of a field: media-type essence plus the
/// optional `charset` parameter.
pub struct ContentType {
    pub(crate) essence: String,
    pub(crate) charset: Option<String>,
}

impl ContentType {
    pub closed spec fn essence_view(self) -> Seq<char> {
        self.essence@
    }

    pub closed spec fn charset_view(self) -> Option<Seq<char>> {
        opt_str_view(self.charset)
    }

    /// The media-type essence, such as `text/plain`.
    pub fn essence(&self) -> (r: &str)
        ensures
            r@ == self.essence_view(),
    {
        self.essence.as_str()
    }

    /// The `charset` parameter, if the content-type carried one.
    pub fn charset(&self) -> (r: Option<&str>)
        ensures
            match r {
                Some(s) => self.charset_view() == Some(s@),
                None => self.charset_view() is None,
            },
    {
        match &self.charset {
            Some(c) => Some(c.as_str()),
            None => None,
        }
    }
}

/// View of an optional content-type.
pub open spec fn ct_opt_view(o: Option<ContentType>) -> Option<(Seq<char>, Option<Seq<char>>)> {
    match o {
        Some(c) => Some((c.essence_view(), c.charset_view())),
        None => None,
    }
}

/// Per-part immutable metadata, captured when the header block is parsed.
pub(crate) struct FieldMeta {
    pub(crate) name: Option<String>,
    pub(crate) file_name: Option<String>,
    pub(crate) content_type: Option<ContentType>,
    pub(crate) idx: usize,
}

/// A single field in a multipart stream.
pub struct Field {
    pub(crate) headers: Headers,
    pub(crate) done: bool,
    pub(crate) acc: Vec<u8>,
    pub(crate) meta: FieldMeta,
}

/// The field's headers and metadata are exactly what the header block
/// `block` parses to.
pub open spec fn field_from_block(block: Seq<u8>, f: Field) -> bool {
    &&& spec_parse_block(block) == Some(f.headers_view())
    &&& f.name_view() == spec_meta_name(f.headers_view())
    &&& f.file_name_view() == spec_meta_file_name(f.headers_view())
    &&& f.content_type_view() == spec_meta_content_type(f.headers_view())
}

/// The two fields carry the same headers and metadata.
pub open spec fn same_meta(a: Field, b: Field) -> bool {
    &&& a.headers_view() == b.headers_view()
    &&& a.name_view() == b.name_view()
    &&& a.file_name_view() == b.file_name_view()
    &&& a.content_type_view() == b.content_type_view()
    &&& a.index_spec() == b.index_spec()
}

/// `post` is `rem` with `k` confirmed body bytes of the current part
/// consumed.
pub open spec fn body_shape(rem: Seq<u8>, d: Seq<u8>, k: int, post: Seq<u8>) -> bool {
    &&& 0 <= k <= rem.len()
    &&& (forall|j: int| 0 <= j < k ==> !live_at(rem, d, j))
    &&& post == rem.skip(k)
}

/// The rest of the body was read: some run of confirmed body bytes was
/// consumed from `rem` (up to the part's end marker unless the field was
/// already done), and `out` is the previously accumulated bytes plus that
/// run.
pub open spec fn drained_shape(
    rem: Seq<u8>,
    d: Seq<u8>,
    post: Seq<u8>,
    was_done: bool,
    acc0: Seq<u8>,
    out: Seq<u8>,
) -> bool {
    exists|k: int| {
        &&& #[trigger] body_shape(rem, d, k, post)
        &&& (!was_done ==> part_end_at(rem, d, k))
        &&& out == acc0 + rem.take(k)
    }
}

/// Some run of confirmed body bytes was consumed from `rem` and moved
/// from the stream into the accumulator.
pub open spec fn partial_shape(
    rem: Seq<u8>,
    d: Seq<u8>,
    post: Seq<u8>,
    acc0: Seq<u8>,
    acc1: Seq<u8>,
) -> bool {
    exists|k: int| {
        &&& #[trigger] body_shape(rem, d, k, post)
        &&& acc1 == acc0 + rem.take(k)
    }
}

/// The rest of the body decodes, under `label`, to the text `s`.
pub open spec fn text_shape(
    rem: Seq<u8>,
    d: Seq<u8>,
    post: Seq<u8>,
    was_done: bool,
    acc0: Seq<u8>,
    label: Seq<char>,
    s: Seq<char>,
) -> bool {
    exists|b: Seq<u8>| {
        &&& #[trigger] drained_shape(rem, d, post, was_done, acc0, b)
        &&& s == decoded(label, b)
    }
}

/// Whether the rest of the body parses as JSON is `ok`.
pub open spec fn json_shape(
    rem: Seq<u8>,
    d: Seq<u8>,
    post: Seq<u8>,
    was_done: bool,
    acc0: Seq<u8>,
    ok: bool,
) -> bool {
    exists|b: Seq<u8>| {
        &&& #[trigger] drained_shape(rem, d, post, was_done, acc0, b)
        &&& json_ok(b) == ok
    }
}

impl Field {
    pub closed spec fn headers_view(self) -> Seq<(Seq<u8>, Seq<u8>)> {
        self.headers@
    }

    pub closed spec fn name_view(self) -> Option<Seq<char>> {
        opt_str_view(self.meta.name)
    }

    pub closed spec fn file_name_view(self) -> Option<Seq<char>> {
        opt_str_view(self.meta.file_name)
    }

    pub closed spec fn content_type_view(self) -> Option<(Seq<char>, Option<Seq<char>>)> {
        ct_opt_view(self.meta.content_type)
    }

    pub closed spec fn index_spec(self) -> int {
        self.meta.idx as int
    }

    /// Whether the body has been read to its end-of-part marker.
    pub closed spec fn done_spec(self) -> bool {
        self.done
    }

    /// Body bytes accumulated by earlier [`Field::bytes`] calls.
    pub closed spec fn acc_view(self) -> Seq<u8> {
        self.acc@
    }

    /// This field is the one the session currently has out.
    pub open spec fn owns(self, m: Multipart) -> bool {
        &&& m.stage() == StreamingStage::ReadingFieldData
        &&& !m.prev_consumed()
        &&& self.index_spec() + 1 == m.parts_yielded()
    }

    /// Capture a field from its parsed header block.
    pub(crate) fn new(headers: Headers, idx: usize) -> (f: Field)
        ensures
            f.headers_view() == headers@,
            f.index_spec() == idx as int,
            !f.done_spec(),
            f.acc_view() == Seq::<u8>::empty(),
            f.name_view() == spec_meta_name(headers@),
            f.file_name_view() == spec_meta_file_name(headers@),
            f.content_type_view() == spec_meta_content_type(headers@),
    {
        let (name, file_name) = Self::parse_content_disposition(&headers);
        let content_type = Self::parse_content_type(&headers);
        Field {
            headers,
            done: false,
            acc: Vec::new(),
            meta: FieldMeta { name, file_name, content_type, idx },
        }
    }

    /// Extract the quoted `name` and `filename` attributes from the
    /// disposition header.
    fn parse_content_disposition(headers: &Headers) -> (r: (Option<String>, Option<String>))
        ensures
            opt_str_view(r.0) == spec_meta_name(headers@),
            opt_str_view(r.1) == spec_meta_file_name(headers@),
    {
        let mut cd: Vec<u8> = Vec::new();
        cd.push(99);
        cd.push(111);
        cd.push(110);
        cd.push(116);
        cd.push(101);
        cd.push(110);
        cd.push(116);
        cd.push(45);
        cd.push(100);
        cd.push(105);
        cd.push(115);
        cd.push(112);
        cd.push(111);
        cd.push(115);
        cd.push(105);
        cd.push(116);
        cd.push(105);
        cd.push(111);
        cd.push(110);
        proof {
            assert(cd@ =~= cd_name());
        }
        match headers.get(cd.as_slice()) {
            Some(v) => {
                let name_pat = name_attr_vec();
                let name = match extract_attr(v, &name_pat) {
                    Some(b) => if is_ascii_bytes(&b) {
                        Some(ascii_to_string(&b))
                    } else {
                        None
                    },
                    None => None,
                };
                let file_pat = filename_attr_vec();
                let file_name = match extract_attr(v, &file_pat) {
                    Some(b) => if is_ascii_bytes(&b) {
                        Some(ascii_to_string(&b))
                    } else {
                        None
                    },
                    None => None,
                };
                (name, file_name)
            },
            None => (None, None),
        }
    }

    /// Parse the content-type header's value into a [`ContentType`].
    fn parse_content_type(headers: &Headers) -> (r: Option<ContentType>)
        ensures
            ct_opt_view(r) == spec_meta_content_type(headers@),
    {
        let mut ct: Vec<u8> = Vec::new();
        ct.push(99);
        ct.push(111);
        ct.push(110);
        ct.push(116);
        ct.push(101);
        ct.push(110);
        ct.push(116);
        ct.push(45);
        ct.push(116);
        ct.push(121);
        ct.push(112);
        ct.push(101);
        proof {
            assert(ct@ =~= ct_name());
        }
        match headers.get(ct.as_slice()) {
            Some(v) => {
                if is_ascii_bytes(v) {
                    let s = ascii_to_string(v);
                    match parse_mime(s.as_str()) {
                        Some(p) => Some(ContentType { essence: p.0, charset: p.1 }),
                        None => None,
                    }
                } else {
                    None
                }
            },
            None => None,
        }
    }

    /// The field name found in the disposition header.
    pub fn name(&self) -> (r: Option<&str>)
        ensures
            match r {
                Some(s) => self.name_view() == Some(s@),
                None => self.name_view() is None,
            },
    {
        match &self.meta.name {
            Some(n) => Some(n.as_str()),
            None => None,
        }
    }

    /// The file name found in the disposition header.
    pub fn file_name(&self) -> (r: Option<&str>)
        ensures
            match r {
                Some(s) => self.file_name_view() == Some(s@),
                None => self.file_name_view() is None,
            },
    {
        match &self.meta.file_name {
            Some(n) => Some(n.as_str()),
            None => None,
        }
    }

    /// The parsed content type of the field, if it carried one.
    pub fn content_type(&self) -> (r: Option<&ContentType>)
        ensures
            match r {
                Some(c) => self.content_type_view() == Some((c.essence_view(), c.charset_view())),
                None => self.content_type_view() is None,
            },
    {
        match &self.meta.content_type {
            Some(c) => Some(c),
            None => None,
        }
    }

    /// The part's raw headers.
    pub fn headers(&self) -> (r: &Headers)
        ensures
            r@ == self.headers_view(),
    {
        &self.headers
    }

    /// The zero-based index of this field in stream order.
    pub fn index(&self) -> (r: usize)
        ensures
            r as int == self.index_spec(),
    {
        self.meta.idx
    }

    /// Pull the next run of body bytes.
    ///
    /// Yields `Ready(Some(bytes))` with confirmed body data (the last
    /// such run when the end-of-part marker is reached), `Ready(None)`
    /// once exhausted — and on every later pull, without touching the
    /// session — and `Pending` when more stream data is needed first.
    pub fn chunk(&mut self, session: &mut Multipart) -> (r: Result<Pulled<Option<Vec<u8>>>, Error>)
        requires
            old(session).wf(),
        ensures
            final(session).wf(),
            final(session).stage() == old(session).stage(),
            final(session).delim() == old(session).delim(),
            final(session).parts_yielded() == old(session).parts_yielded(),
            final(session).prev_consumed() == old(session).prev_consumed(),
            final(session).source_closed() == old(session).source_closed(),
            same_meta(*old(self), *final(self)),
            final(self).acc_view() == old(self).acc_view(),
            old(self).done_spec() ==> r == Ok::<Pulled<Option<Vec<u8>>>, Error>(Pulled::Ready(None))
                && *final(self) == *old(self)
                && final(session).remaining() == old(session).remaining(),
            match r {
                Ok(Pulled::Ready(Some(bytes))) => {
                    &&& !old(self).done_spec()
                    &&& old(self).owns(*old(session))
                    &&& bytes@.len() <= old(session).remaining().len()
                    &&& bytes@ == old(session).remaining().take(bytes@.len() as int)
                    &&& forall|j: int| 0 <= j < bytes@.len()
                        ==> !live_at(old(session).remaining(), old(session).delim(), j)
                    &&& live_at(old(session).remaining(), old(session).delim(), bytes@.len() as int)
                    &&& final(session).remaining()
                        == old(session).remaining().skip(bytes@.len() as int)
                    &&& (final(self).done_spec() <==> part_end_at(
                        old(session).remaining(),
                        old(session).delim(),
                        bytes@.len() as int,
                    ))
                    &&& (!final(self).done_spec() ==> bytes@.len() > 0)
                },
                Ok(Pulled::Ready(None)) => {
                    &&& old(self).done_spec()
                    &&& final(session).remaining() == old(session).remaining()
                },
                Ok(Pulled::Pending) => {
                    &&& !final(self).done_spec()
                    &&& !final(session).source_closed()
                    &&& final(session).remaining() == old(session).remaining()
                    &&& live_at(final(session).remaining(), old(session).delim(), 0)
                    &&& !part_end_at(final(session).remaining(), old(session).delim(), 0)
                },
                Err(e) => {
                    &&& final(session).remaining() == old(session).remaining()
                    &&& ((e == Error::LockFailure
                        && !old(self).done_spec()
                        && !old(self).owns(*old(session))
                        && *final(self) == *old(self))
                    || (e == Error::IncompleteFieldData
                        && old(session).source_closed()
                        && no_marker(old(session).remaining(), old(session).delim())))
                },
            },
    {
        if self.done {
            return Ok(Pulled::Ready(None));
        }
        if !session.is_current(self.meta.idx) {
            return Err(Error::LockFailure);
        }
        match session.read_body() {
            Ok(ReadOutcome::End { bytes, terminal: _ }) => {
                self.done = true;
                Ok(Pulled::Ready(Some(bytes)))
            },
            Ok(ReadOutcome::Chunk { bytes }) => Ok(Pulled::Ready(Some(bytes))),
            Ok(ReadOutcome::NeedData) => Ok(Pulled::Pending),
            Err(e) => Err(e),
        }
    }

    /// Read the rest of the body into one byte vector, accumulating
    /// across `Pending` returns.
    pub fn bytes(&mut self, session: &mut Multipart) -> (r: Result<Pulled<Vec<u8>>, Error>)
        requires
            old(session).wf(),
        ensures
            final(session).wf(),
            final(session).stage() == old(session).stage(),
            final(session).delim() == old(session).delim(),
            final(session).parts_yielded() == old(session).parts_yielded(),
            final(session).prev_consumed() == old(session).prev_consumed(),
            final(session).source_closed() == old(session).source_closed(),
            same_meta(*old(self), *final(self)),
            match r {
                Ok(Pulled::Ready(b)) => {
                    &&& final(self).done_spec()
                    &&& final(self).acc_view() == b@
                    &&& drained_shape(
                        old(session).remaining(),
                        old(session).delim(),
                        final(session).remaining(),
                        old(self).done_spec(),
                        old(self).acc_view(),
                        b@,
                    )
                },
                Ok(Pulled::Pending) => {
                    &&& !final(self).done_spec()
                    &&& !final(session).source_closed()
                    &&& live_at(final(session).remaining(), old(session).delim(), 0)
                    &&& !part_end_at(final(session).remaining(), old(session).delim(), 0)
                    &&& partial_shape(
                        old(session).remaining(),
                        old(session).delim(),
                        final(session).remaining(),
                        old(self).acc_view(),
                        final(self).acc_view(),
                    )
                },
                Err(e) => {
                    &&& (e == Error::LockFailure || e == Error::IncompleteFieldData)
                    &&& (e == Error::LockFailure ==> !old(self).done_spec()
                        && !old(self).owns(*old(session)))
                    &&& (e == Error::IncompleteFieldData ==> final(session).source_closed()
                        && no_marker(old(session).remaining(), old(session).delim()))
                },
            },
    {
        let ghost rem0 = old(session).remaining();
        let ghost d = old(session).delim();
        let ghost mut k: int = 0;
        proof {
            assert(rem0.skip(0) =~= rem0);
            assert(rem0.take(0) =~= Seq::<u8>::empty());
            assert(old(self).acc@ + Seq::<u8>::empty() =~= old(self).acc@);
        }
        loop
            invariant
                session.wf(),
                session.stage() == old(session).stage(),
                session.delim() == d,
                d == old(session).delim(),
                session.parts_yielded() == old(session).parts_yielded(),
                session.prev_consumed() == old(session).prev_consumed(),
                session.source_closed() == old(session).source_closed(),
                rem0 == old(session).remaining(),
                same_meta(*self, *old(self)),
                0 <= k <= rem0.len(),
                forall|j: int| 0 <= j < k ==> !live_at(rem0, d, j),
                session.remaining() == rem0.skip(k),
                self.acc@ == old(self).acc@ + rem0.take(k),
                old(self).done_spec() ==> (self.done && k == 0),
                (self.done && !old(self).done_spec()) ==> part_end_at(rem0, d, k),
                (self.done != old(self).done_spec() || k > 0)
                    ==> old(self).owns(*old(session)),
            decreases session.remaining().len(), (if self.done { 0int } else { 1int }),
        {
            let ghost rem_cur = session.remaining();
            let ghost done_before = self.done;
            match self.chunk(session) {
                Ok(Pulled::Ready(Some(bytes))) => {
                    proof {
                        let c = bytes@.len() as int;
                        assert forall|j: int| 0 <= j < k + c implies !live_at(rem0, d, j) by {
                            if j >= k {
                                crate::buffer::lemma_live_shift(rem0, d, k, j - k);
                            }
                        }
                        crate::buffer::lemma_live_shift(rem0, d, k, c);
                        assert(rem0.skip(k).skip(c) =~= rem0.skip(k + c));
                        assert(rem0.take(k + c) =~= rem0.take(k) + rem_cur.take(c));
                    }
                    append_from(&mut self.acc, &bytes);
                    proof {
                        k = k + bytes@.len() as int;
                    }
                },
                Ok(Pulled::Ready(None)) => {
                    let out = crate::buffer::copy_skip(&self.acc, 0);
                    proof {
                        assert(self.acc@.skip(0) =~= self.acc@);
                        assert(body_shape(rem0, d, k, session.remaining()));
                        assert(drained_shape(
                            rem0,
                            d,
                            session.remaining(),
                            old(self).done_spec(),
                            old(self).acc_view(),
                            out@,
                        ));
                    }
                    return Ok(Pulled::Ready(out));
                },
                Ok(Pulled::Pending) => {
                    proof {
                        assert(body_shape(rem0, d, k, session.remaining()));
                        assert(partial_shape(
                            rem0,
                            d,
                            session.remaining(),
                            old(self).acc_view(),
                            self.acc@,
                        ));
                    }
                    return Ok(Pulled::Pending);
                },
                Err(e) => {
                    proof {
                        if e == Error::IncompleteFieldData {
                            lemma_no_marker_lift(rem0, d, k);
                        }
                    }
                    return Err(e);
                },
            }
        }
    }

    /// The label the body text will be decoded under: the content-type's
    /// `charset` parameter when present, else the caller's default.
    pub open spec fn charset_label(self, default: Seq<char>) -> Seq<char> {
        match self.content_type_view() {
            Some((_e, Some(c))) => c,
            _ => default,
        }
    }

    /// Read the rest of the body and decode it as text, using the
    /// content-type's `charset` parameter when present and the given
    /// default label otherwise (unknown labels fall back to UTF-8, with
    /// replacement characters for malformed sequences).
    pub fn text_with_charset(&mut self, session: &mut Multipart, default_encoding: &str) -> (r:
        Result<Pulled<String>, Error>)
        requires
            old(session).wf(),
        ensures
            final(session).wf(),
            final(session).stage() == old(session).stage(),
            final(session).delim() == old(session).delim(),
            final(session).parts_yielded() == old(session).parts_yielded(),
            final(session).prev_consumed() == old(session).prev_consumed(),
            final(session).source_closed() == old(session).source_closed(),
            same_meta(*old(self), *final(self)),
            match r {
                Ok(Pulled::Ready(s)) => {
                    &&& final(self).done_spec()
                    &&& text_shape(
                        old(session).remaining(),
                        old(session).delim(),
                        final(session).remaining(),
                        old(self).done_spec(),
                        old(self).acc_view(),
                        old(self).charset_label(default_encoding@),
                        s@,
                    )
                },
                Ok(Pulled::Pending) => {
                    &&& !final(self).done_spec()
                    &&& !final(session).source_closed()
                    &&& live_at(final(session).remaining(), old(session).delim(), 0)
                    &&& !part_end_at(final(session).remaining(), old(session).delim(), 0)
                },
                Err(e) => {
                    &&& (e == Error::LockFailure || e == Error::IncompleteFieldData)
                    &&& (e == Error::LockFailure ==> !old(self).done_spec()
                        && !old(self).owns(*old(session)))
                    &&& (e == Error::IncompleteFieldData ==> final(session).source_closed()
                        && no_marker(old(session).remaining(), old(session).delim()))
                },
            },
    {
        match self.bytes(session) {
            Ok(Pulled::Ready(b)) => {
                let label: &str = match &self.meta.content_type {
                    Some(ct) => match &ct.charset {
                        Some(c) => c.as_str(),
                        None => default_encoding,
                    },
                    None => default_encoding,
                };
                let s = decode_text(label, &b);
                Ok(Pulled::Ready(s))
            },
            Ok(Pulled::Pending) => Ok(Pulled::Pending),
            Err(e) => Err(e),
        }
    }

    /// Read the rest of the body and decode it as text, defaulting to
    /// UTF-8 when the content-type names no charset.
    pub fn text(&mut self, session: &mut Multipart) -> (r: Result<Pulled<String>, Error>)
        requires
            old(session).wf(),
        ensures
            final(session).wf(),
            final(session).stage() == old(session).stage(),
            final(session).delim() == old(session).delim(),
            final(session).parts_yielded() == old(session).parts_yielded(),
            final(session).prev_consumed() == old(session).prev_consumed(),
            final(session).source_closed() == old(session).source_closed(),
            same_meta(*old(self), *final(self)),
            match r {
                Ok(Pulled::Ready(s)) => {
                    &&& final(self).done_spec()
                    &&& text_shape(
                        old(session).remaining(),
                        old(session).delim(),
                        final(session).remaining(),
                        old(self).done_spec(),
                        old(self).acc_view(),
                        old(self).charset_label("utf-8"@),
                        s@,
                    )
                },
                Ok(Pulled::Pending) => {
                    &&& !final(self).done_spec()
                    &&& !final(session).source_closed()
                    &&& live_at(final(session).remaining(), old(session).delim(), 0)
                    &&& !part_end_at(final(session).remaining(), old(session).delim(), 0)
                },
                Err(e) => {
                    &&& (e == Error::LockFailure || e == Error::IncompleteFieldData)
                    &&& (e == Error::LockFailure ==> !old(self).done_spec()
                        && !old(self).owns(*old(session)))
                    &&& (e == Error::IncompleteFieldData ==> final(session).source_closed()
                        && no_marker(old(session).remaining(), old(session).delim()))
                },
            },
    {
        self.text_with_charset(session, "utf-8")
    }

    /// Read the rest of the body and parse it as one JSON value.
    pub fn json(&mut self, session: &mut Multipart) -> (r: Result<
        Pulled<serde_json::Value>,
        Error,
    >)
        requires
            old(session).wf(),
        ensures
            final(session).wf(),
            final(session).stage() == old(session).stage(),
            final(session).delim() == old(session).delim(),
            final(session).parts_yielded() == old(session).parts_yielded(),
            final(session).prev_consumed() == old(session).prev_consumed(),
            final(session).source_closed() == old(session).source_closed(),
            same_meta(*old(self), *final(self)),
            match r {
                Ok(Pulled::Ready(_v)) => {
                    &&& final(self).done_spec()
                    &&& json_shape(
                        old(session).remaining(),
                        old(session).delim(),
                        final(session).remaining(),
                        old(self).done_spec(),
                        old(self).acc_view(),
                        true,
                    )
                },
                Ok(Pulled::Pending) => {
                    &&& !final(self).done_spec()
                    &&& !final(session).source_closed()
                    &&& live_at(final(session).remaining(), old(session).delim(), 0)
                    &&& !part_end_at(final(session).remaining(), old(session).delim(), 0)
                },
                Err(e) => {
                    &&& (e == Error::LockFailure || e == Error::IncompleteFieldData
                        || e == Error::DecodeJson)
                    &&& (e == Error::LockFailure ==> !old(self).done_spec()
                        && !old(self).owns(*old(session)))
                    &&& (e == Error::IncompleteFieldData ==> final(session).source_closed()
                        && no_marker(old(session).remaining(), old(session).delim()))
                    &&& (e == Error::DecodeJson ==> json_shape(
                        old(session).remaining(),
                        old(session).delim(),
                        final(session).remaining(),
                        old(self).done_spec(),
                        old(self).acc_view(),
                        false,
                    ))
                },
            },
    {
        match self.bytes(session) {
            Ok(Pulled::Ready(b)) => {
                match json_from_slice(&b) {
                    Some(v) => Ok(Pulled::Ready(v)),
                    None => Err(Error::DecodeJson),
                }
            },
            Ok(Pulled::Pending) => Ok(Pulled::Pending),
            Err(e) => Err(e),
        }
    }

    /// Hand the field back to its session: the completion hook.
    ///
    /// When this field is the session's live one, the session moves to
    /// `ReadingBoundary` if the body was drained, or to
    /// `CleaningPrevFieldData` if it was abandoned mid-body, and the
    /// driver may produce the next part.  On a stale field this is a
    /// no-op.
    pub fn release(self, session: &mut Multipart)
        requires
            old(session).wf(),
        ensures
            final(session).wf(),
            final(session).remaining() == old(session).remaining(),
            final(session).delim() == old(session).delim(),
            final(session).parts_yielded() == old(session).parts_yielded(),
            final(session).source_closed() == old(session).source_closed(),
            self.owns(*old(session)) ==> {
                &&& final(session).stage() == (if self.done_spec() {
                    StreamingStage::ReadingBoundary
                } else {
                    StreamingStage::CleaningPrevFieldData
                })
                &&& final(session).prev_consumed()
            },
            !self.owns(*old(session)) ==> crate::multipart::same_session(
                *old(session),
                *final(session),
            ),
    {
        session.finish_field(self.done, self.meta.idx);
    }
}

/// Append the bytes of `src` to `dst`.
fn append_from(dst: &mut Vec<u8>, src: &Vec<u8>)
    ensures
        final(dst)@ == old(dst)@ + src@,
{
    let n = src.len();
    let mut i: usize = 0;
    while i < n
        invariant
            i <= n,
            n == src@.len(),
            dst@ == old(dst)@ + src@.take(i as int),
        decreases n - i,
    {
        dst.push(src[i]);
        i = i + 1;
        proof {
            assert(dst@ =~= old(dst)@ + src@.take(i as int));
        }
    }
    proof {
        assert(src@.take(n as int) =~= src@);
    }
}

} // verus!

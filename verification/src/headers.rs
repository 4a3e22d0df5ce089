//! Parsing of a part's header block.
//!
//! A header block is a run of `Name: value` lines separated by `\r\n`.
//! The reference meaning of a block is given by [`spec_parse_block`]; the
//! executable parser is proved to return exactly that.  Header names are
//! stored lowercased (header names compare case-insensitively); values
//! keep their bytes with leading whitespace removed.

use vstd::prelude::*;

use crate::buffer::{copy_skip, copy_take, find_match, spec_find, lemma_spec_find, CR, LF};
use crate::error::Error;

verus! {

/// Colon, separating a header name from its value.
pub const COLON: u8 = 58;
/// Double quote, delimiting attribute values in a disposition header.
pub const DQUOTE: u8 = 34;
/// Space.
pub const SP: u8 = 32;
/// Horizontal tab.
pub const HTAB: u8 = 9;

/// ASCII lowercasing of one byte.
pub open spec fn ascii_lower(b: u8) -> u8 {
    if 65 <= b && b <= 90 {
        (b + 32) as u8
    } else {
        b
    }
}

/// ASCII lowercasing of a byte string.
pub open spec fn spec_lower(s: Seq<u8>) -> Seq<u8> {
    s.map_values(|b: u8| ascii_lower(b))
}

/// Optional whitespace inside a header line.
pub open spec fn is_ows(b: u8) -> bool {
    b == SP || b == HTAB
}

/// The byte string with its leading whitespace removed.
pub open spec fn spec_trim_left(s: Seq<u8>) -> Seq<u8>
    decreases s.len(),
{
    if s.len() > 0 && is_ows(s[0]) {
        spec_trim_left(s.skip(1))
    } else {
        s
    }
}

/// The meaning of one header line: the bytes before the first colon,
/// lowercased, are the name; what follows the colon, less leading
/// whitespace, is the value.  A line without a colon is malformed.
pub open spec fn spec_parse_line(l: Seq<u8>) -> Option<(Seq<u8>, Seq<u8>)> {
    match spec_find(l, seq![COLON]) {
        Some(c) => Some((spec_lower(l.take(c)), spec_trim_left(l.skip(c + 1)))),
        None => None,
    }
}

/// The meaning of a whole header block: the lines, split at each `\r\n`,
/// parsed in order; `None` when any line is malformed.
pub open spec fn spec_parse_block(b: Seq<u8>) -> Option<Seq<(Seq<u8>, Seq<u8>)>>
    decreases b.len(),
{
    if b.len() == 0 {
        Some(Seq::empty())
    } else {
        match spec_find(b, seq![CR, LF]) {
            Some(i) => if 0 <= i && i + 2 <= b.len() {
                match spec_parse_line(b.take(i)) {
                    Some(p) => match spec_parse_block(b.skip(i + 2)) {
                        Some(rest) => Some(seq![p] + rest),
                        None => None,
                    },
                    None => None,
                }
            } else {
                None
            },
            None => match spec_parse_line(b) {
                Some(p) => Some(seq![p]),
                None => None,
            },
        }
    }
}

/// The value of the first header named `name`, if any.
pub open spec fn spec_get(hs: Seq<(Seq<u8>, Seq<u8>)>, name: Seq<u8>) -> Option<Seq<u8>>
    decreases hs.len(),
{
    if hs.len() == 0 {
        None
    } else if hs[0].0 == name {
        Some(hs[0].1)
    } else {
        spec_get(hs.skip(1), name)
    }
}

/// One parsed header: a lowercased name and a value.
pub struct HeaderEntry {
    pub name: Vec<u8>,
    pub value: Vec<u8>,
}

impl View for HeaderEntry {
    type V = (Seq<u8>, Seq<u8>);

    open spec fn view(&self) -> (Seq<u8>, Seq<u8>) {
        (self.name@, self.value@)
    }
}

/// The parsed header block of one part, in line order.
pub struct Headers {
    entries: Vec<HeaderEntry>,
}

impl View for Headers {
    type V = Seq<(Seq<u8>, Seq<u8>)>;

    closed spec fn view(&self) -> Seq<(Seq<u8>, Seq<u8>)> {
        self.entries@.map_values(|e: HeaderEntry| e@)
    }
}

impl Headers {
    pub fn new() -> (h: Headers)
        ensures
            h@ == Seq::<(Seq<u8>, Seq<u8>)>::empty(),
    {
        let h = Headers { entries: Vec::new() };
        proof {
            assert(h@ =~= Seq::<(Seq<u8>, Seq<u8>)>::empty());
        }
        h
    }

    fn push_entry(&mut self, e: HeaderEntry)
        ensures
            final(self)@ == old(self)@.push(e@),
    {
        let ghost ev = e@;
        self.entries.push(e);
        proof {
            assert(self@ =~= old(self)@.push(ev));
        }
    }

    /// How many headers the block holds.
    pub fn len(&self) -> (n: usize)
        ensures
            n == self@.len(),
    {
        self.entries.len()
    }

    /// The lowercased name of the header at `i`.
    pub fn name_at(&self, i: usize) -> (r: &Vec<u8>)
        requires
            i < self@.len(),
        ensures
            r@ == self@[i as int].0,
    {
        &self.entries[i].name
    }

    /// The value of the header at `i`.
    pub fn value_at(&self, i: usize) -> (r: &Vec<u8>)
        requires
            i < self@.len(),
        ensures
            r@ == self@[i as int].1,
    {
        &self.entries[i].value
    }

    /// The value of the first header with the given (lowercased) name.
    pub fn get(&self, name: &[u8]) -> (r: Option<&Vec<u8>>)
        ensures
            match r {
                Some(v) => spec_get(self@, name@) == Some(v@),
                None => spec_get(self@, name@) is None,
            },
    {
        let n = self.entries.len();
        let mut i: usize = 0;
        proof {
            assert(self@.skip(0) =~= self@);
        }
        while i < n
            invariant
                i <= n,
                n == self@.len(),
                spec_get(self@, name@) == spec_get(self@.skip(i as int), name@),
            decreases n - i,
        {
            proof {
                assert(self@.skip(i as int)[0] == self@[i as int]);
            }
            if bytes_eq(&self.entries[i].name, name) {
                return Some(&self.entries[i].value);
            }
            i = i + 1;
            proof {
                assert(self@.skip(i - 1).skip(1) =~= self@.skip(i as int));
            }
        }
        proof {
            assert(self@.skip(i as int) =~= Seq::<(Seq<u8>, Seq<u8>)>::empty());
        }
        None
    }
}

/// Byte-wise equality of a vector and a slice.
fn bytes_eq(a: &Vec<u8>, b: &[u8]) -> (r: bool)
    ensures
        r == (a@ == b@),
{
    let n = a.len();
    if n != b.len() {
        return false;
    }
    let mut i: usize = 0;
    while i < n
        invariant
            i <= n,
            n == a@.len(),
            n == b@.len(),
            forall|j: int| 0 <= j < i ==> a@[j] == b@[j],
        decreases n - i,
    {
        if a[i] != b[i] {
            return false;
        }
        i = i + 1;
    }
    proof {
        assert(a@ =~= b@);
    }
    true
}

/// Lowercased copy of the first `k` bytes of `v`.
fn lower_copy(v: &Vec<u8>, k: usize) -> (r: Vec<u8>)
    requires
        k <= v@.len(),
    ensures
        r@ == spec_lower(v@.take(k as int)),
{
    let mut r: Vec<u8> = Vec::new();
    let mut i: usize = 0;
    while i < k
        invariant
            i <= k,
            k <= v@.len(),
            r@ == spec_lower(v@.take(i as int)),
        decreases k - i,
    {
        let b = v[i];
        let lb: u8 = if b >= 65 && b <= 90 {
            b + 32
        } else {
            b
        };
        r.push(lb);
        i = i + 1;
        proof {
            assert(r@ =~= spec_lower(v@.take(i as int)));
        }
    }
    r
}

/// Leading whitespace of the region of `v` from `start` on stays a prefix
/// of whitespace under `spec_trim_left`.
proof fn lemma_trim_left_skip(s: Seq<u8>, start: int, t: int)
    requires
        0 <= start <= t <= s.len(),
        forall|j: int| start <= j < t ==> is_ows(s[j]),
        t < s.len() ==> !is_ows(s[t]),
    ensures
        spec_trim_left(s.skip(start)) == s.skip(t),
    decreases t - start,
{
    if start == t {
        if s.skip(start).len() > 0 {
            assert(s.skip(start)[0] == s[start]);
        }
    } else {
        assert(s.skip(start)[0] == s[start]);
        lemma_trim_left_skip(s, start + 1, t);
        assert(s.skip(start).skip(1) =~= s.skip(start + 1));
    }
}

/// Copy of the region of `v` from `start` on, with leading whitespace
/// removed.
fn trim_left_copy(v: &Vec<u8>, start: usize) -> (r: Vec<u8>)
    requires
        start <= v@.len(),
    ensures
        r@ == spec_trim_left(v@.skip(start as int)),
{
    let n = v.len();
    let mut t: usize = start;
    while t < n && (v[t] == SP || v[t] == HTAB)
        invariant
            start <= t <= n,
            n == v@.len(),
            forall|j: int| start <= j < t ==> is_ows(v@[j]),
        decreases n - t,
    {
        t = t + 1;
    }
    let r = copy_skip(v, t);
    proof {
        lemma_trim_left_skip(v@, start as int, t as int);
    }
    r
}

/// Parse one header line, proved against [`spec_parse_line`].
fn parse_line(line: &Vec<u8>) -> (r: Result<HeaderEntry, Error>)
    ensures
        match r {
            Ok(e) => spec_parse_line(line@) == Some(e@),
            Err(er) => er == Error::ReadHeaderFailed && spec_parse_line(line@) is None,
        },
{
    let mut colon_pat: Vec<u8> = Vec::new();
    colon_pat.push(COLON);
    proof {
        assert(colon_pat@ =~= seq![COLON]);
    }
    match find_match(line, &colon_pat) {
        None => {
            proof {
                lemma_spec_find(line@, seq![COLON]);
            }
            Err(Error::ReadHeaderFailed)
        },
        Some(c) => {
            let ln = line.len();
            proof {
                lemma_spec_find(line@, seq![COLON]);
                assert(spec_find(line@, seq![COLON]) == Some(c as int));
                assert(c + 1 <= ln);
            }
            let name = lower_copy(line, c);
            let value = trim_left_copy(line, c + 1);
            Ok(HeaderEntry { name, value })
        },
    }
}

/// Lift an optional tail of parsed headers over an already-parsed prefix.
pub open spec fn opt_concat(
    h: Seq<(Seq<u8>, Seq<u8>)>,
    rest: Option<Seq<(Seq<u8>, Seq<u8>)>>,
) -> Option<Seq<(Seq<u8>, Seq<u8>)>> {
    match rest {
        Some(r) => Some(h + r),
        None => None,
    }
}

/// Parse a whole header block, proved against [`spec_parse_block`].
pub fn parse_header_block(block: &Vec<u8>) -> (r: Result<Headers, Error>)
    ensures
        match r {
            Ok(h) => spec_parse_block(block@) == Some(h@),
            Err(e) => e == Error::ReadHeaderFailed && spec_parse_block(block@) is None,
        },
{
    let mut crlf_pat: Vec<u8> = Vec::new();
    crlf_pat.push(CR);
    crlf_pat.push(LF);
    proof {
        assert(crlf_pat@ =~= seq![CR, LF]);
    }
    let mut headers = Headers::new();
    let mut pos: usize = 0;
    let n = block.len();
    proof {
        assert(block@.skip(0) =~= block@);
        match spec_parse_block(block@) {
            Some(rest) => {
                assert(Seq::<(Seq<u8>, Seq<u8>)>::empty() + rest =~= rest);
            },
            None => {},
        }
    }
    loop
        invariant
            pos <= n,
            n == block@.len(),
            crlf_pat@ == seq![CR, LF],
            spec_parse_block(block@) == opt_concat(headers@, spec_parse_block(block@.skip(pos as int))),
        decreases n - pos,
    {
        if pos == n {
            proof {
                assert(block@.skip(pos as int) =~= Seq::<u8>::empty());
                assert(headers@ + Seq::<(Seq<u8>, Seq<u8>)>::empty() =~= headers@);
            }
            return Ok(headers);
        }
        let sub = copy_skip(block, pos);
        let ghost s = sub@;
        let ghost h_old = headers@;
        match find_match(&sub, &crlf_pat) {
            Some(i) => {
                proof {
                    lemma_spec_find(s, seq![CR, LF]);
                    assert(spec_find(s, seq![CR, LF]) == Some(i as int));
                }
                let line = copy_take(&sub, i);
                match parse_line(&line) {
                    Ok(e) => {
                        let ghost ev = e@;
                        headers.push_entry(e);
                        pos = pos + i + 2;
                        proof {
                            assert(s.skip(i + 2) =~= block@.skip(pos as int));
                            match spec_parse_block(s.skip(i + 2)) {
                                Some(rest2) => {
                                    assert(spec_parse_block(s) == Some(seq![ev] + rest2));
                                    assert(h_old + (seq![ev] + rest2) =~= h_old.push(ev) + rest2);
                                },
                                None => {
                                    assert(spec_parse_block(s) is None);
                                },
                            }
                        }
                    },
                    Err(er) => {
                        proof {
                            assert(spec_parse_block(s) is None);
                        }
                        return Err(er);
                    },
                }
            },
            None => {
                proof {
                    lemma_spec_find(s, seq![CR, LF]);
                    assert(spec_find(s, seq![CR, LF]) is None);
                }
                match parse_line(&sub) {
                    Ok(e) => {
                        let ghost ev = e@;
                        headers.push_entry(e);
                        pos = n;
                        proof {
                            assert(spec_parse_block(s) == Some(seq![ev]));
                            assert(block@.skip(pos as int) =~= Seq::<u8>::empty());
                            assert(h_old + seq![ev] =~= h_old.push(ev));
                            assert(h_old.push(ev) + Seq::<(Seq<u8>, Seq<u8>)>::empty()
                                =~= h_old.push(ev));
                        }
                    },
                    Err(er) => {
                        proof {
                            assert(spec_parse_block(s) is None);
                        }
                        return Err(er);
                    },
                }
            },
        }
    }
}

/// The `name="..."` attribute pattern of a disposition header.
pub open spec fn name_attr_pat() -> Seq<u8> {
    seq![110u8, 97, 109, 101, 61, 34]
}

/// The `filename="..."` attribute pattern of a disposition header.
pub open spec fn filename_attr_pat() -> Seq<u8> {
    seq![102u8, 105, 108, 101, 110, 97, 109, 101, 61, 34]
}

/// Build the `name="` pattern bytes.
pub fn name_attr_vec() -> (r: Vec<u8>)
    ensures
        r@ == name_attr_pat(),
        r@.len() >= 1,
{
    let mut r: Vec<u8> = Vec::new();
    r.push(110);
    r.push(97);
    r.push(109);
    r.push(101);
    r.push(61);
    r.push(34);
    proof {
        assert(r@ =~= name_attr_pat());
    }
    r
}

/// Build the `filename="` pattern bytes.
pub fn filename_attr_vec() -> (r: Vec<u8>)
    ensures
        r@ == filename_attr_pat(),
        r@.len() >= 1,
{
    let mut r: Vec<u8> = Vec::new();
    r.push(102);
    r.push(105);
    r.push(108);
    r.push(101);
    r.push(110);
    r.push(97);
    r.push(109);
    r.push(101);
    r.push(61);
    r.push(34);
    proof {
        assert(r@ =~= filename_attr_pat());
    }
    r
}

/// The quoted attribute value after the first occurrence of `pat` in `v`:
/// the bytes between `pat` and the next double quote.
pub open spec fn spec_extract_attr(v: Seq<u8>, pat: Seq<u8>) -> Option<Seq<u8>> {
    match spec_find(v, pat) {
        Some(i) => {
            let rest = v.skip(i + pat.len() as int);
            match spec_find(rest, seq![DQUOTE]) {
                Some(j) => Some(rest.take(j)),
                None => None,
            }
        },
        None => None,
    }
}

/// Extract a quoted attribute value, proved against [`spec_extract_attr`].
pub fn extract_attr(v: &Vec<u8>, pat: &Vec<u8>) -> (r: Option<Vec<u8>>)
    requires
        pat@.len() >= 1,
    ensures
        match r {
            Some(b) => spec_extract_attr(v@, pat@) == Some(b@),
            None => spec_extract_attr(v@, pat@) is None,
        },
{
    match find_match(v, pat) {
        None => {
            proof {
                lemma_spec_find(v@, pat@);
            }
            None
        },
        Some(i) => {
            let vn = v.len();
            proof {
                lemma_spec_find(v@, pat@);
                assert(spec_find(v@, pat@) == Some(i as int));
                assert(i + pat@.len() <= vn);
            }
            let rest = copy_skip(v, i + pat.len());
            let mut q: Vec<u8> = Vec::new();
            q.push(DQUOTE);
            proof {
                assert(q@ =~= seq![DQUOTE]);
            }
            match find_match(&rest, &q) {
                None => {
                    proof {
                        lemma_spec_find(rest@, seq![DQUOTE]);
                    }
                    None
                },
                Some(j) => {
                    proof {
                        lemma_spec_find(rest@, seq![DQUOTE]);
                        assert(spec_find(rest@, seq![DQUOTE]) == Some(j as int));
                    }
                    Some(copy_take(&rest, j))
                },
            }
        },
    }
}

} // verus!

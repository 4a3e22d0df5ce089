//! Decoding helpers around the outside crates: content-type parsing,
//! charset text decoding, and JSON parsing.
//!
//! Each outside call sits behind one trusted wrapper whose contract names
//! or states what the call returns; everything that depends on those
//! results is verified against the names.

use vstd::prelude::*;

verus! {

/// Bytes read as characters one-for-one (the ASCII view; only ever
/// applied to all-ASCII byte strings).
pub open spec fn ascii_chars(s: Seq<u8>) -> Seq<char> {
    s.map_values(|b: u8| b as char)
}

/// All bytes are ASCII.
pub open spec fn all_ascii(s: Seq<u8>) -> bool {
    forall|i: int| 0 <= i < s.len() ==> s[i] < 128
}

/// Whether every byte of `v` is ASCII.
pub fn is_ascii_bytes(v: &Vec<u8>) -> (r: bool)
    ensures
        r == all_ascii(v@),
{
    let n = v.len();
    let mut i: usize = 0;
    while i < n
        invariant
            i <= n,
            n == v@.len(),
            forall|j: int| 0 <= j < i ==> v@[j] < 128,
        decreases n - i,
    {
        if v[i] >= 128 {
            return false;
        }
        i = i + 1;
    }
    true
}

/// Relies on String::from_utf8_lossy: ASCII is a subset of UTF-8, and
/// each ASCII byte decodes to the character with the same code.
#[verifier::external_body]
pub fn ascii_to_string(v: &Vec<u8>) -> (r: String)
    requires
        all_ascii(v@),
    ensures
        r@ == ascii_chars(v@),
{
    String::from_utf8_lossy(v.as_slice()).into_owned()
}

/// The media-type essence and `charset` parameter that a content-type
/// string parses to; `None` when the string is not a well-formed media
/// type.
pub uninterp spec fn mime_parts(s: Seq<char>) -> Option<(Seq<char>, Option<Seq<char>>)>;

/// View of an optional owned string.
pub open spec fn opt_str_view(o: Option<String>) -> Option<Seq<char>> {
    match o {
        Some(s) => Some(s@),
        None => None,
    }
}

/// Relies on mime::Mime's FromStr impl together with Mime::essence_str
/// and Mime::get_param(mime::CHARSET): whether a content-type string
/// parses, and its essence and charset when it does, are functions of the
/// string alone.
#[verifier::external_body]
pub fn parse_mime(s: &str) -> (r: Option<(String, Option<String>)>)
    ensures
        match r {
            Some(p) => mime_parts(s@) == Some((p.0@, opt_str_view(p.1))),
            None => mime_parts(s@) is None,
        },
{
    match s.parse::<mime::Mime>() {
        Ok(m) => {
            let essence = m.essence_str().to_string();
            let charset = m.get_param(mime::CHARSET).map(|v| v.as_str().to_string());
            Some((essence, charset))
        },
        Err(_) => None,
    }
}

/// The text that `bytes` decode to under the encoding labelled `label`
/// (WHATWG label lookup, falling back to UTF-8 for an unknown label),
/// with BOM sniffing and replacement characters for malformed sequences.
pub uninterp spec fn decoded(label: Seq<char>, bytes: Seq<u8>) -> Seq<char>;

/// Relies on encoding_rs::Encoding::for_label and Encoding::decode: the
/// label lookup and the decode (BOM sniffing, replacement characters)
/// are functions of the label and the input bytes alone.
#[verifier::external_body]
pub fn decode_text(label: &str, bytes: &Vec<u8>) -> (r: String)
    ensures
        r@ == decoded(label@, bytes@),
{
    let encoding = encoding_rs::Encoding::for_label(label.as_bytes()).unwrap_or(encoding_rs::UTF_8);
    let (text, _, _) = encoding.decode(bytes.as_slice());
    text.into_owned()
}

/// Whether the bytes parse as one JSON document.
pub uninterp spec fn json_ok(b: Seq<u8>) -> bool;

#[verifier::external_type_specification]
#[verifier::external_body]
pub struct ExValue(serde_json::Value);

/// Relies on serde_json::from_slice::<serde_json::Value>: whether the
/// bytes parse as JSON is a function of the bytes alone.
#[verifier::external_body]
pub fn json_from_slice(b: &Vec<u8>) -> (r: Option<serde_json::Value>)
    ensures
        r is Some <==> json_ok(b@),
{
    serde_json::from_slice::<serde_json::Value>(b.as_slice()).ok()
}

} // verus!

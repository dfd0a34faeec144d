//! Decoding of attribute values and character data: XML entity references are
//! replaced (by `quick_xml`) and the result is taken as text when it is UTF-8.

use vstd::prelude::*;
use vstd::utf8::valid_utf8;
use crate::names::utf8_valid;

verus! {

/// What `quick_xml::escape::unescape` gives for `raw`: the bytes with their
/// entity and character references replaced, or `None` where it reports an error.
pub uninterp spec fn xml_unescape(raw: Seq<u8>) -> Option<Seq<u8>>;

/// The byte of `&` in ASCII.
pub open spec fn ampersand() -> u8 {
    38u8
}

/// Calls `quick_xml::escape::unescape` and copies its result. Stated of it:
/// the result is `xml_unescape` of the input, and bytes without `&` come back
/// unchanged (the function then returns the input itself).
#[verifier::external_body]
fn unescape(raw: &[u8]) -> (r: Option<Vec<u8>>)
    ensures
        match r {
            Some(v) => xml_unescape(raw@) == Some(v@),
            None => xml_unescape(raw@) is None,
        },
        !raw@.contains(ampersand()) ==> r.is_some() && r.unwrap()@ == raw@,
{
    match quick_xml::escape::unescape(raw) {
        Ok(v) => Some(v.into_owned()),
        Err(_) => None,
    }
}

/// The text of an attribute value: the unescaped bytes where they are UTF-8,
/// and the empty text where unescaping fails or gives no UTF-8.
pub open spec fn attribute_text(raw: Seq<u8>) -> Seq<u8> {
    match xml_unescape(raw) {
        Some(u) => if valid_utf8(u) {
            u
        } else {
            seq![]
        },
        None => seq![],
    }
}

/// The text of character data: the raw bytes must be UTF-8, and so must the
/// unescaped bytes; `None` where either fails or unescaping fails.
pub open spec fn character_text(raw: Seq<u8>) -> Option<Seq<u8>> {
    if !valid_utf8(raw) {
        None
    } else {
        match xml_unescape(raw) {
            Some(u) => if valid_utf8(u) {
                Some(u)
            } else {
                None
            },
            None => None,
        }
    }
}

/// The text of an attribute value, as `attribute_text` says.
pub fn decode_attribute_value(raw: &[u8]) -> (r: Vec<u8>)
    ensures
        r@ == attribute_text(raw@),
        valid_utf8(raw@) && !raw@.contains(ampersand()) ==> r@ == raw@,
{
    match unescape(raw) {
        Some(u) => if utf8_valid(u.as_slice()) {
            u
        } else {
            Vec::new()
        },
        None => Vec::new(),
    }
}

/// The text of character data, as `character_text` says.
pub fn decode_text(raw: &[u8]) -> (r: Option<Vec<u8>>)
    ensures
        match r {
            Some(v) => character_text(raw@) == Some(v@),
            None => character_text(raw@) is None,
        },
        valid_utf8(raw@) && !raw@.contains(ampersand()) ==> r.is_some() && r.unwrap()@ == raw@,
{
    if !utf8_valid(raw) {
        return None;
    }
    match unescape(raw) {
        Some(u) => if utf8_valid(u.as_slice()) {
            Some(u)
        } else {
            None
        },
        None => None,
    }
}

} // verus!

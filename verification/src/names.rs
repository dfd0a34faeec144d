//! Byte-level helpers for XML qualified names (`prefix:local`).

use vstd::prelude::*;
use vstd::string::StringSliceAdditionalSpecFns;
use vstd::utf8::valid_utf8;

verus! {

/// The byte of `:` in ASCII.
pub open spec fn colon() -> u8 {
    58u8
}

/// The bytes that a string literal stands for.
pub open spec fn word(s: &str) -> Seq<u8> {
    s.spec_bytes()
}

/// The bytes of an ASCII word are its characters, one byte each.
pub proof fn lemma_ascii_word(w: &str)
    requires
        w.is_ascii(),
    ensures
        word(w) == Seq::new(w@.len(), |i: int| w@[i] as u8),
{
    vstd::string::is_ascii_spec_bytes(w);
}

/// Whether two byte strings are equal.
pub fn same_bytes(a: &[u8], b: &[u8]) -> (r: bool)
    ensures
        r == (a@ == b@),
{
    if a.len() != b.len() {
        return false;
    }
    let mut i: usize = 0;
    while i < a.len()
        invariant
            a@.len() == b@.len(),
            i <= a@.len(),
            forall|j: int| 0 <= j < i ==> a@[j] == b@[j],
        decreases a@.len() - i,
    {
        if a[i] != b[i] {
            return false;
        }
        i = i + 1;
    }
    assert(a@ =~= b@);
    true
}

/// Whether a byte string spells the given word.
pub fn is_word(a: &[u8], w: &str) -> (r: bool)
    ensures
        r == (a@ == word(w)),
{
    same_bytes(a, w.as_bytes())
}

/// `i` is the position of the first `:` in `s`.
pub open spec fn first_colon(s: Seq<u8>, i: int) -> bool {
    &&& 0 <= i < s.len()
    &&& s[i] == colon()
    &&& forall|j: int| 0 <= j < i ==> s[j] != colon()
}

/// `s` holds a `:`.
pub open spec fn has_colon(s: Seq<u8>) -> bool {
    exists|i: int| first_colon(s, i)
}

/// Where a name is cut in two: at its first `:`, or at its start when it has none.
pub open spec fn cut(s: Seq<u8>) -> int {
    if has_colon(s) {
        choose|i: int| first_colon(s, i)
    } else {
        0
    }
}

/// The part of a name before the cut (empty for a name without `:`).
pub open spec fn name_prefix(s: Seq<u8>) -> Seq<u8> {
    s.take(cut(s))
}

/// The part of a name after the byte at the cut: the local name after a `:`,
/// or, for a name without `:`, the name without its first byte.
pub open spec fn name_local(s: Seq<u8>) -> Seq<u8> {
    s.skip(cut(s) + 1)
}

/// A name can be cut in two without cutting into a character: it holds a `:`,
/// or its first byte is a one-byte character.
pub open spec fn splittable(s: Seq<u8>) -> bool {
    has_colon(s) || (s.len() > 0 && s[0] < 128)
}

/// The name that stands for raw tag-name bytes: the bytes themselves where they
/// are UTF-8, else the name `:`.
pub open spec fn decoded_name(raw: Seq<u8>) -> Seq<u8> {
    if valid_utf8(raw) {
        raw
    } else {
        seq![colon()]
    }
}

/// Whether `bytes` is well-formed UTF-8 (`std::str::from_utf8` succeeds).
#[verifier::external_body]
pub(crate) fn utf8_valid(bytes: &[u8]) -> (r: bool)
    ensures
        r == valid_utf8(bytes@),
{
    std::str::from_utf8(bytes).is_ok()
}

/// A copy of `s[from..to]`.
pub fn copy_range(s: &[u8], from: usize, to: usize) -> (r: Vec<u8>)
    requires
        from <= to <= s@.len(),
    ensures
        r@ == s@.subrange(from as int, to as int),
{
    let mut r: Vec<u8> = Vec::new();
    let mut i: usize = from;
    while i < to
        invariant
            from <= i <= to <= s@.len(),
            r@ == s@.subrange(from as int, i as int),
        decreases to - i,
    {
        r.push(s[i]);
        i = i + 1;
        assert(r@ =~= s@.subrange(from as int, i as int));
    }
    r
}

/// A name with a `:` is its prefix, the `:` and its local part, and the
/// prefix holds no `:`.
pub proof fn lemma_split_rejoins(s: Seq<u8>)
    requires
        has_colon(s),
    ensures
        name_prefix(s) + seq![colon()] + name_local(s) == s,
        !name_prefix(s).contains(colon()),
{
    let i = cut(s);
    assert(first_colon(s, i));
    assert(name_prefix(s) + seq![colon()] + name_local(s) =~= s);
}

/// The name that raw tag-name bytes stand for, as `decoded_name` says.
pub fn decode_name(raw: &[u8]) -> (r: Vec<u8>)
    ensures
        r@ == decoded_name(raw@),
{
    if utf8_valid(raw) {
        copy_range(raw, 0, raw.len())
    } else {
        let mut r: Vec<u8> = Vec::new();
        r.push(58u8);
        assert(r@ =~= seq![colon()]);
        r
    }
}

/// The position of the first `:` in `s`, if any.
pub fn find_colon(s: &[u8]) -> (r: Option<usize>)
    ensures
        match r {
            Some(i) => first_colon(s@, i as int),
            None => !has_colon(s@),
        },
{
    let mut i: usize = 0;
    while i < s.len()
        invariant
            i <= s@.len(),
            forall|j: int| 0 <= j < i ==> s@[j] != colon(),
        decreases s@.len() - i,
    {
        if s[i] == 58u8 {
            assert(first_colon(s@, i as int));
            return Some(i);
        }
        i = i + 1;
    }
    assert forall|k: int| !first_colon(s@, k) by {}
    None
}

/// Whether a name can be cut in two, as `splittable` says.
pub fn splittable_name(name: &[u8]) -> (r: bool)
    ensures
        r == splittable(name@),
{
    match find_colon(name) {
        Some(_) => true,
        None => name.len() > 0 && name[0] < 128u8,
    }
}

/// Cuts a qualified name into its prefix and local part.
pub fn split_name(name: &[u8]) -> (r: (Vec<u8>, Vec<u8>))
    requires
        splittable(name@),
    ensures
        r.0@ == name_prefix(name@),
        r.1@ == name_local(name@),
{
    let at: usize = match find_colon(name) {
        Some(i) => i,
        None => 0,
    };
    assert(at as int == cut(name@));
    let n: usize = name.len();
    assert(at < n);
    (copy_range(name, 0, at), copy_range(name, at + 1, n))
}

} // verus!

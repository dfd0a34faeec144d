//! The `content.xml` member of an ODT file's bytes (an ODT file is a zip archive).

use vstd::prelude::*;

verus! {

/// The little-endian number held by the 8 bytes of `a` from `j` on.
pub open spec fn le_u64(a: Seq<u8>, j: int) -> int {
    a[j] + a[j + 1] * 0x100 + a[j + 2] * 0x1_0000 + a[j + 3] * 0x100_0000 + a[j + 4]
        * 0x1_0000_0000 + a[j + 5] * 0x100_0000_0000 + a[j + 6] * 0x1_0000_0000_0000 + a[j + 7]
        * 0x100_0000_0000_0000
}

/// The 8 bytes from `j` (where `a` has them) hold a number small enough that
/// adding the length of `a` and the sizes of a local file header to it stays
/// within `u64`.
pub open spec fn window_fits(a: Seq<u8>, j: int) -> bool {
    j + 8 <= a.len() ==> le_u64(a, j) + a.len() + 0x4_0000 <= u64::MAX
}

/// The offsets that a ZIP64 extra field starting at `i` can give fit.
pub open spec fn zip64_windows_fit(a: Seq<u8>, i: int) -> bool {
    window_fits(a, i + 4) && window_fits(a, i + 12) && window_fits(a, i + 20)
}

/// The archive is small enough, and every offset that a ZIP64 extra field
/// (tag bytes `01 00`) may hold fits, so that `zip` computes no offset past
/// `u64::MAX` while it reads the archive.
pub open spec fn offsets_fit(a: Seq<u8>) -> bool {
    &&& a.len() <= 0x1_0000_0000_0000
    &&& forall|i: int|
        0 <= i && i + 1 < a.len() && a[i] == 1 && a[i + 1] == 0 ==> #[trigger] zip64_windows_fit(a, i)
}

/// The message given for an archive whose offsets do not fit.
pub open spec fn offsets_message() -> Seq<char> {
    "archive offsets out of range"@
}

/// The 8 bytes from `j` (where `a` has them) end in a byte below `0x80`.
pub open spec fn high_byte_small(a: Seq<u8>, j: int) -> bool {
    j + 8 <= a.len() ==> a[j + 7] < 0x80
}

proof fn lemma_window_small(a: Seq<u8>, j: int)
    requires
        0 <= j,
        a.len() <= 0x1_0000_0000_0000,
        high_byte_small(a, j),
    ensures
        window_fits(a, j),
{
    if j + 8 <= a.len() {
        assert(le_u64(a, j) < 0x8000_0000_0000_0000);
    }
}

/// An archive is refused for its offsets only when it is longer than 2^48
/// bytes or an offset that a ZIP64 extra field may hold overflows: every
/// archive of length up to 2^48 whose such offsets end in a byte below
/// `0x80` passes (so does, in particular, one with no `01 00` pair at all,
/// whatever its length up to 2^48).
pub proof fn lemma_ordinary_archives_pass(a: Seq<u8>)
    requires
        a.len() <= 0x1_0000_0000_0000,
        forall|i: int|
            0 <= i && i + 1 < a.len() && a[i] == 1 && a[i + 1] == 0 ==> #[trigger] high_byte_small(
                a,
                i + 4,
            ) && high_byte_small(a, i + 12) && high_byte_small(a, i + 20),
    ensures
        offsets_fit(a),
{
    assert forall|i: int| 0 <= i && i + 1 < a.len() && a[i] == 1 && a[i + 1] == 0 implies #[trigger] zip64_windows_fit(
        a,
        i,
    ) by {
        assert(high_byte_small(a, i + 4));
        lemma_window_small(a, i + 4);
        lemma_window_small(a, i + 12);
        lemma_window_small(a, i + 20);
    }
}

/// An archive that is refused for its offsets, and is at most 2^48 bytes
/// long, holds a `01 00` pair followed (4, 12 or 20 bytes on) by 8 bytes
/// whose number, with the archive's length and `0x40000` added, passes
/// `u64::MAX`.
pub proof fn lemma_refused_only_on_overflow(a: Seq<u8>)
    requires
        a.len() <= 0x1_0000_0000_0000,
        !offsets_fit(a),
    ensures
        exists|i: int, k: int|
            0 <= i && i + 1 < a.len() && a[i] == 1 && a[i + 1] == 0 && (k == 4 || k == 12 || k
                == 20) && i + k + 8 <= a.len() && #[trigger] le_u64(a, i + k) + a.len() + 0x4_0000
                > u64::MAX && #[trigger] a[i] == 1,
{
    let i = choose|i: int|
        0 <= i && i + 1 < a.len() && a[i] == 1 && a[i + 1] == 0 && !#[trigger] zip64_windows_fit(
            a,
            i,
        );
    if !window_fits(a, i + 4) {
        assert(le_u64(a, i + 4) + a.len() + 0x4_0000 > u64::MAX);
    } else if !window_fits(a, i + 12) {
        assert(le_u64(a, i + 12) + a.len() + 0x4_0000 > u64::MAX);
    } else {
        assert(le_u64(a, i + 20) + a.len() + 0x4_0000 > u64::MAX);
    }
}

fn le_u64_at(a: &[u8], j: usize) -> (r: u64)
    requires
        j + 8 <= a@.len(),
    ensures
        r == le_u64(a@, j as int),
{
    a[j] as u64 + a[j + 1] as u64 * 0x100 + a[j + 2] as u64 * 0x1_0000 + a[j + 3] as u64
        * 0x100_0000 + a[j + 4] as u64 * 0x1_0000_0000 + a[j + 5] as u64 * 0x100_0000_0000
        + a[j + 6] as u64 * 0x1_0000_0000_0000 + a[j + 7] as u64 * 0x100_0000_0000_0000
}

fn window_fits_at(a: &[u8], i: usize, off: usize, limit: u64) -> (r: bool)
    requires
        i < a@.len(),
        limit as int == u64::MAX - a@.len() - 0x4_0000,
    ensures
        r == window_fits(a@, i + off),
{
    let rest: usize = a.len() - i;
    if off <= rest && 8 <= rest - off {
        le_u64_at(a, i + off) <= limit
    } else {
        true
    }
}

/// Whether the archive's offsets fit, as `offsets_fit` says.
pub fn check_offsets(a: &[u8]) -> (r: bool)
    ensures
        r == offsets_fit(a@),
{
    let n: usize = a.len();
    if n as u64 > 0x1_0000_0000_0000u64 {
        return false;
    }
    let limit: u64 = u64::MAX - 0x4_0000 - n as u64;
    let mut i: usize = 0;
    while i < n
        invariant
            n == a@.len(),
            n <= 0x1_0000_0000_0000,
            limit as int == u64::MAX - a@.len() - 0x4_0000,
            forall|k: int|
                0 <= k < i && k + 1 < a@.len() && a@[k] == 1 && a@[k + 1] == 0
                    ==> #[trigger] zip64_windows_fit(a@, k),
        decreases n - i,
    {
        if i + 1 < n && a[i] == 1 && a[i + 1] == 0 {
            if !(window_fits_at(a, i, 4, limit) && window_fits_at(a, i, 12, limit)
                && window_fits_at(a, i, 20, limit)) {
                assert(!zip64_windows_fit(a@, i as int));
                return false;
            }
            assert(zip64_windows_fit(a@, i as int));
        }
        i = i + 1;
    }
    true
}

/// What `zip` gives for the `content.xml` member of the archive `archive`:
/// the message of the error met while opening the archive or looking the
/// member up, or else the member's uncompressed bytes as far as they could be
/// read, with the message of the error that stopped the reading, if one did.
pub uninterp spec fn zip_content_xml(archive: Seq<u8>) -> Result<
    (Seq<u8>, Option<Seq<char>>),
    Seq<char>,
>;

/// The bytes read, and the message of the error that stopped the reading.
pub open spec fn read_model(r: (Vec<u8>, Option<String>)) -> (Seq<u8>, Option<Seq<char>>) {
    (
        r.0@,
        match r.1 {
            Some(m) => Some(m@),
            None => None,
        },
    )
}

/// Opens the bytes with `zip::ZipArchive::new`, looks the member up with
/// `ZipArchive::by_name("content.xml")` and reads it to its end with
/// `Read::read_to_end` (which keeps the bytes read before an error). Stated
/// of it: the result is `zip_content_xml` of the bytes. Archives whose offsets
/// do not fit are left out: on them `zip` adds offsets past `u64::MAX`.
#[verifier::external_body]
pub fn content_xml(archive: &[u8]) -> (r: Result<(Vec<u8>, Option<String>), String>)
    requires
        offsets_fit(archive@),
    ensures
        match r {
            Ok(v) => zip_content_xml(archive@) == Ok::<_, Seq<char>>(read_model(v)),
            Err(m) => zip_content_xml(archive@) == Err::<(Seq<u8>, Option<Seq<char>>), _>(m@),
        },
{
    let mut out = Vec::new();
    match zip::ZipArchive::new(std::io::Cursor::new(archive)) {
        Err(e) => Err(e.to_string()),
        Ok(mut a) => match a.by_name("content.xml") {
            Err(e) => Err(e.to_string()),
            Ok(mut f) => match std::io::Read::read_to_end(&mut f, &mut out) {
                Err(e) => Ok((out, Some(e.to_string()))),
                Ok(_) => Ok((out, None)),
            },
        },
    }
}

/// The member as `zip` reads it, or the message why it cannot be read;
/// archives whose offsets do not fit are refused first.
pub open spec fn member(archive: Seq<u8>) -> Result<(Seq<u8>, Option<Seq<char>>), Seq<char>> {
    if offsets_fit(archive) {
        zip_content_xml(archive)
    } else {
        Err(offsets_message())
    }
}

/// The `content.xml` member of an archive, as `member` says.
pub fn read_member(archive: &[u8]) -> (r: Result<(Vec<u8>, Option<String>), String>)
    ensures
        match r {
            Ok(v) => member(archive@) == Ok::<_, Seq<char>>(read_model(v)),
            Err(m) => member(archive@) == Err::<(Seq<u8>, Option<Seq<char>>), _>(m@),
        },
{
    if check_offsets(archive) {
        content_xml(archive)
    } else {
        Err("archive offsets out of range".to_owned())
    }
}

} // verus!

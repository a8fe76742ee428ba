//! The name region of a record: UTF-16LE code units and lossy decoding.
//!
//! The bytes after the fixed fields are paired `(lo, hi)` into 16-bit code
//! units; a final unpaired byte is dropped.  The unit sequence is decoded as
//! UTF-16, replacing every unpaired surrogate with U+FFFD instead of failing.

use vstd::prelude::*;

verus! {

/// A code unit that may only open a surrogate pair.
pub open spec fn is_high_surrogate(u: u16) -> bool {
    0xD800 <= u <= 0xDBFF
}

/// A code unit that may only close a surrogate pair.
pub open spec fn is_low_surrogate(u: u16) -> bool {
    0xDC00 <= u <= 0xDFFF
}

/// A code unit that is not itself a Unicode scalar value.
pub open spec fn is_surrogate(u: u16) -> bool {
    0xD800 <= u <= 0xDFFF
}

/// The scalar value that a valid surrogate pair encodes.
pub open spec fn combined_scalar(hi: u16, lo: u16) -> int {
    0x10000 + (hi - 0xD800) * 0x400 + (lo - 0xDC00)
}

/// The 16-bit code units denoted by a byte sequence read as UTF-16LE:
/// consecutive byte pairs, low byte first, with a final odd byte ignored.
pub open spec fn units_of(b: Seq<u8>) -> Seq<u16> {
    Seq::new((b.len() / 2) as nat, |i: int| (b[2 * i] + 256 * b[2 * i + 1]) as u16)
}

/// Lossy UTF-16 decoding: a valid surrogate pair becomes its scalar, an
/// unpaired surrogate becomes U+FFFD, and any other unit is its own scalar.
pub open spec fn utf16_lossy(s: Seq<u16>) -> Seq<char>
    decreases s.len(),
{
    if s.len() == 0 {
        Seq::empty()
    } else if is_high_surrogate(s[0]) && s.len() >= 2 && is_low_surrogate(s[1]) {
        seq![combined_scalar(s[0], s[1]) as char] + utf16_lossy(s.skip(2))
    } else if is_surrogate(s[0]) {
        seq!['\u{FFFD}'] + utf16_lossy(s.skip(1))
    } else {
        seq![s[0] as char] + utf16_lossy(s.skip(1))
    }
}

/// A name region with an odd byte count decodes exactly as it would without
/// its final byte: the unpaired byte never reaches the decoded name.
pub proof fn lemma_odd_byte_ignored(b: Seq<u8>)
    requires
        b.len() % 2 == 1,
    ensures
        units_of(b) == units_of(b.drop_last()),
        utf16_lossy(units_of(b)) == utf16_lossy(units_of(b.drop_last())),
{
    assert(units_of(b) =~= units_of(b.drop_last()));
}

/// An invalid surrogate never fails the decoder: after any prefix of
/// ordinary units, an unpaired surrogate decodes to U+FFFD at that position.
pub proof fn lemma_replacement_at_invalid(p: Seq<u16>, s: Seq<u16>)
    requires
        forall|i: int| 0 <= i < p.len() ==> !is_surrogate(p[i]),
        s.len() > 0,
        is_surrogate(s[0]),
        !(is_high_surrogate(s[0]) && s.len() >= 2 && is_low_surrogate(s[1])),
    ensures
        utf16_lossy(p + s).len() > p.len(),
        utf16_lossy(p + s)[p.len() as int] == '\u{FFFD}',
    decreases p.len(),
{
    if p.len() == 0 {
        assert(p + s =~= s);
    } else {
        let w = p + s;
        assert(w[0] == p[0]);
        assert(!is_surrogate(w[0]));
        assert(utf16_lossy(w) == seq![w[0] as char] + utf16_lossy(w.skip(1)));
        assert(w.skip(1) =~= p.skip(1) + s);
        lemma_replacement_at_invalid(p.skip(1), s);
    }
}

/// Relies on `char::from_u32`: it returns `Some` exactly for the Unicode
/// scalar values (below the surrogate range, or in `0xE000..=0x10FFFF`),
/// and the character it returns has the given scalar value.
#[verifier::external_body]
fn char_from_u32(u: u32) -> (r: Option<char>)
    ensures
        (u < 0xD800 || (0xE000 <= u && u <= 0x10FFFF)) ==> r == Some(u as char),
        !(u < 0xD800 || (0xE000 <= u && u <= 0x10FFFF)) ==> r is None,
{
    char::from_u32(u)
}

/// Relies on `String::push`: it appends exactly the one given character.
#[verifier::external_body]
pub(crate) fn push_char(s: &mut String, c: char)
    ensures
        final(s)@ == old(s)@.push(c),
{
    s.push(c);
}

/// Collects the code units of the name region of `b` starting at `off`.
pub fn name_units(b: &[u8], off: usize) -> (units: Vec<u16>)
    requires
        off <= b@.len(),
    ensures
        units@ == units_of(b@.skip(off as int)),
{
    let len = b.len();
    let count = (len - off) / 2;
    let mut units: Vec<u16> = Vec::new();
    let mut i: usize = 0;
    while i < count
        invariant
            i <= count,
            off + 2 * count <= len,
            count == (len - off) / 2,
            len == b@.len(),
            units@.len() == i,
            forall|j: int| 0 <= j < i ==> units@[j] == units_of(b@.skip(off as int))[j],
        decreases count - i,
    {
        let lo = b[off + 2 * i];
        let hi = b[off + 2 * i + 1];
        let u: u16 = lo as u16 + 256 * (hi as u16);
        proof {
            let t = b@.skip(off as int);
            assert(t[2 * i as int] == b@[off + 2 * i]);
            assert(t[2 * i as int + 1] == b@[off + 2 * i + 1]);
        }
        units.push(u);
        i = i + 1;
    }
    proof {
        assert(units@ =~= units_of(b@.skip(off as int)));
    }
    units
}

/// Decodes a sequence of UTF-16 code units into text, substituting U+FFFD
/// for every unpaired surrogate.
pub fn decode_units_lossy(units: &Vec<u16>) -> (s: String)
    ensures
        s@ == utf16_lossy(units@),
{
    let n = units.len();
    let mut s = String::new();
    let mut i: usize = 0;
    proof {
        assert(units@.skip(0) =~= units@);
        assert(s@ + utf16_lossy(units@) =~= utf16_lossy(units@));
    }
    while i < n
        invariant
            i <= n,
            n == units@.len(),
            s@ + utf16_lossy(units@.skip(i as int)) == utf16_lossy(units@),
        decreases n - i,
    {
        let u = units[i];
        let ghost rest = units@.skip(i as int);
        let ghost pre = s@;
        if 0xD800 <= u && u <= 0xDBFF && i + 1 < n && 0xDC00 <= units[i + 1] && units[i + 1] <= 0xDFFF {
            let lo = units[i + 1];
            let v: u32 = 0x10000 + (u as u32 - 0xD800) * 0x400 + (lo as u32 - 0xDC00);
            assert(v == combined_scalar(u, lo));
            let c = match char_from_u32(v) {
                Some(c) => c,
                None => vstd::pervasive::unreached(),
            };
            push_char(&mut s, c);
            proof {
                assert(rest[0] == u && rest[1] == lo);
                assert(utf16_lossy(rest) == seq![combined_scalar(u, lo) as char] + utf16_lossy(
                    rest.skip(2),
                ));
                assert(rest.skip(2) =~= units@.skip(i + 2));
                assert(pre.push(c) + utf16_lossy(units@.skip(i + 2)) =~= pre + utf16_lossy(rest));
            }
            i = i + 2;
        } else if 0xD800 <= u && u <= 0xDFFF {
            push_char(&mut s, '\u{FFFD}');
            proof {
                assert(rest[0] == u);
                assert(utf16_lossy(rest) == seq!['\u{FFFD}'] + utf16_lossy(rest.skip(1)));
                assert(rest.skip(1) =~= units@.skip(i + 1));
                assert(pre.push('\u{FFFD}') + utf16_lossy(units@.skip(i + 1)) =~= pre
                    + utf16_lossy(rest));
            }
            i = i + 1;
        } else {
            let c = match char_from_u32(u as u32) {
                Some(c) => c,
                None => vstd::pervasive::unreached(),
            };
            push_char(&mut s, c);
            proof {
                assert(rest[0] == u);
                assert(c == u as char);
                assert(utf16_lossy(rest) == seq![rest[0] as char] + utf16_lossy(rest.skip(1)));
                assert(rest.skip(1) =~= units@.skip(i + 1));
                assert(pre.push(c) + utf16_lossy(units@.skip(i + 1)) =~= pre + utf16_lossy(rest));
            }
            i = i + 1;
        }
    }
    proof {
        assert(units@.skip(n as int) =~= Seq::<u16>::empty());
        assert(s@ + utf16_lossy(units@.skip(n as int)) =~= s@);
    }
    s
}

} // verus!

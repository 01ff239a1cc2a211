//! Byte-string helpers shared by the intent and syscall decoders.

use vstd::prelude::*;
use vstd::string::StringSliceAdditionalSpecFns;
use vstd::utf8::*;

verus! {

broadcast use vstd::utf8::group_utf8_lib;

/// Calls `core::str::from_utf8`. Its documentation: the call succeeds exactly
/// when the bytes are valid UTF-8, and the string slice it returns is made of
/// those same bytes.
#[verifier::external_body]
pub fn str_from_utf8(bytes: &[u8]) -> (r: Option<&str>)
    ensures
        r is Some <==> valid_utf8(bytes@),
        r matches Some(s) ==> s.spec_bytes() == bytes@,
{
    core::str::from_utf8(bytes).ok()
}

/// An owned copy of `s`; its characters are the UTF-8 decoding of its bytes.
pub fn owned(s: &str) -> (r: String)
    ensures
        r@ == s@,
        r@ == decode_utf8(s.spec_bytes()),
{
    s.to_owned()
}

/// Cutting valid UTF-8 around an ASCII byte leaves valid UTF-8 on both sides.
pub proof fn lemma_ascii_cut(bytes: Seq<u8>, i: int)
    requires
        valid_utf8(bytes),
        0 <= i < bytes.len(),
        bytes[i] < 0x80,
    ensures
        valid_utf8(bytes.take(i)),
        valid_utf8(bytes.skip(i + 1)),
{
    is_char_boundary_iff_not_is_continuation_byte(bytes, i);
    valid_utf8_split(bytes, i);
    let u = bytes.subrange(i, bytes.len() as int);
    assert(bytes.take(i) =~= bytes.subrange(0, i));
    assert(u[0] == bytes[i]);
    assert(length_of_first_scalar(u) == 1);
    assert(pop_first_scalar(u) =~= bytes.skip(i + 1));
}

/// `a` and `b` hold the same bytes.
pub fn bytes_eq(a: &[u8], b: &[u8]) -> (r: bool)
    ensures
        r == (a@ == b@),
{
    if a.len() != b.len() {
        return false;
    }
    let mut i: usize = 0;
    while i < a.len()
        invariant
            a@.len() == b@.len(),
            i <= a@.len(),
            forall|j: int| 0 <= j < i ==> a@[j] == b@[j],
        decreases a@.len() - i,
    {
        if a[i] != b[i] {
            return false;
        }
        i = i + 1;
    }
    assert(a@ =~= b@);
    true
}

/// The bytes hold neither `"` nor `\`.
pub open spec fn spec_ok_text(s: Seq<u8>) -> bool {
    forall|i: int| 0 <= i < s.len() ==> s[i] != 0x22 && s[i] != 0x5C
}

/// Whether `b` holds neither `"` nor `\`.
pub fn ok_text_bytes(b: &[u8]) -> (r: bool)
    ensures
        r == spec_ok_text(b@),
{
    let mut i: usize = 0;
    while i < b.len()
        invariant
            i <= b@.len(),
            forall|j: int| 0 <= j < i ==> b@[j] != 0x22 && b@[j] != 0x5C,
        decreases b@.len() - i,
    {
        if b[i] == 0x22 || b[i] == 0x5C {
            assert(b@[i as int] == 0x22 || b@[i as int] == 0x5C);
            return false;
        }
        i = i + 1;
    }
    true
}

/// Index of the first occurrence of `p` in `h` at or after `i`.
pub open spec fn find_from(h: Seq<u8>, p: Seq<u8>, i: int) -> Option<int>
    decreases h.len() + 1 - i,
{
    if i < 0 || i + p.len() > h.len() {
        None
    } else if h.subrange(i, i + p.len()) == p {
        Some(i)
    } else {
        find_from(h, p, i + 1)
    }
}

/// A found occurrence is a real one, at or after where the search started.
pub proof fn lemma_find_from_sound(h: Seq<u8>, p: Seq<u8>, i: int)
    ensures
        find_from(h, p, i) matches Some(k) ==> i <= k && k + p.len() <= h.len() && h.subrange(
            k,
            k + p.len(),
        ) == p,
    decreases h.len() + 1 - i,
{
    if !(i < 0 || i + p.len() > h.len()) && h.subrange(i, i + p.len()) != p {
        lemma_find_from_sound(h, p, i + 1);
    }
}

/// Index of the first occurrence of `p` in `h`.
pub open spec fn spec_find(h: Seq<u8>, p: Seq<u8>) -> Option<int> {
    find_from(h, p, 0)
}

/// `h` ends with `p`.
pub open spec fn spec_ends_with(h: Seq<u8>, p: Seq<u8>) -> bool {
    h.len() >= p.len() && h.subrange(h.len() - p.len(), h.len() as int) == p
}

/// Byte index of the first occurrence of `pat` in `hay`.
pub fn find(hay: &[u8], pat: &[u8]) -> (r: Option<usize>)
    requires
        pat@.len() > 0,
    ensures
        match r {
            Some(i) => spec_find(hay@, pat@) == Some(i as int),
            None => spec_find(hay@, pat@) is None,
        },
        r matches Some(i) ==> i + pat@.len() <= hay@.len() && hay@.subrange(
            i as int,
            i + pat@.len(),
        ) == pat@,
{
    let mut i: usize = 0;
    while pat.len() <= hay.len() && i <= hay.len() - pat.len()
        invariant
            pat@.len() > 0,
            i <= hay@.len(),
            find_from(hay@, pat@, 0) == find_from(hay@, pat@, i as int),
        decreases hay@.len() + 1 - i,
    {
        if bytes_eq(&hay[i..i + pat.len()], pat) {
            return Some(i);
        }
        i = i + 1;
    }
    None
}

/// `hay` ends with `pat`.
pub fn ends_with(hay: &[u8], pat: &[u8]) -> (r: bool)
    ensures
        r == spec_ends_with(hay@, pat@),
{
    if hay.len() < pat.len() {
        return false;
    }
    bytes_eq(&hay[hay.len() - pat.len()..hay.len()], pat)
}

} // verus!

//! Thin trusted shims over std's UTF-8 conversions, specified with vstd's
//! UTF-8 model (`valid_utf8`, `decode_utf8`, `encode_utf8`).

use vstd::prelude::*;
use vstd::utf8::{decode_utf8, valid_utf8};

verus! {

/// Copy a byte slice into a fresh vector.
pub fn bytes_to_vec(s: &[u8]) -> (r: Vec<u8>)
    ensures
        r@ == s@,
{
    let mut v: Vec<u8> = Vec::new();
    v.extend_from_slice(s);
    proof {
        assert(v@ =~= s@);
    }
    v
}

/// Copy the bytes between `from` and `to` into a fresh vector.
pub fn bytes_to_vec_range(data: &Vec<u8>, from: usize, to: usize) -> (r: Vec<u8>)
    requires
        from <= to <= data@.len(),
    ensures
        r@ == data@.subrange(from as int, to as int),
{
    let mut v: Vec<u8> = Vec::new();
    let mut j = from;
    while j < to
        invariant
            from <= j <= to <= data@.len(),
            v@ =~= data@.subrange(from as int, j as int),
        decreases to - j,
    {
        v.push(data[j]);
        j = j + 1;
        proof {
            assert(v@ =~= data@.subrange(from as int, j as int));
        }
    }
    v
}

/// Relies on String::push: appends exactly the one character.
#[verifier::external_body]
pub(crate) fn push_char(s: &mut String, c: char)
    ensures
        final(s)@ == old(s)@.push(c),
{
    s.push(c);
}

/// Relies on String::from_utf8: returns the decoded string exactly when the
/// bytes are valid UTF-8, and nothing otherwise.
#[verifier::external_body]
pub(crate) fn string_from_utf8(data: Vec<u8>) -> (r: Option<String>)
    ensures
        match r {
            Some(s) => valid_utf8(data@) && s@ == decode_utf8(data@),
            None => !valid_utf8(data@),
        },
{
    String::from_utf8(data).ok()
}

/// Relies on str::from_utf8: succeeds exactly when the bytes are valid UTF-8,
/// and then borrows them as the decoded string.
#[verifier::external_body]
pub(crate) fn str_from_utf8(data: &[u8]) -> (r: Option<&str>)
    ensures
        match r {
            Some(s) => valid_utf8(data@) && s@ == decode_utf8(data@),
            None => !valid_utf8(data@),
        },
{
    core::str::from_utf8(data).ok()
}

} // verus!

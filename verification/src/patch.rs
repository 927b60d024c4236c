//! Replacing one run of bytes in a buffer by another.
//!
//! The run to replace is found by its content. It must occur exactly once:
//! a buffer that holds it nowhere, or in several places, is left untouched.

use vstd::prelude::*;
use vstd::slice::slice_subrange;
use crate::error::{Error, ErrorView};

verus! {

/// `needle` stands in `buffer` at index `at`.
pub open spec fn occurs_at(buffer: Seq<u8>, needle: Seq<u8>, at: int) -> bool {
    &&& 0 <= at
    &&& at + needle.len() <= buffer.len()
    &&& buffer.subrange(at, at + needle.len()) == needle
}

/// `needle` stands in `buffer` at index `at` and nowhere else.
pub open spec fn occurs_only_at(buffer: Seq<u8>, needle: Seq<u8>, at: int) -> bool {
    &&& occurs_at(buffer, needle, at)
    &&& forall|other: int| occurs_at(buffer, needle, other) ==> other == at
}

/// `needle` stands in `buffer` in exactly one place.
pub open spec fn occurs_once(buffer: Seq<u8>, needle: Seq<u8>) -> bool {
    exists|at: int| occurs_only_at(buffer, needle, at)
}

/// The one place where `needle` stands in `buffer`, if there is exactly one.
pub open spec fn sole_occurrence(buffer: Seq<u8>, needle: Seq<u8>) -> int {
    choose|at: int| occurs_only_at(buffer, needle, at)
}

/// `buffer` with the `len` bytes from index `at` on replaced by `replacement`.
pub open spec fn spliced(buffer: Seq<u8>, at: int, len: int, replacement: Seq<u8>) -> Seq<u8> {
    buffer.subrange(0, at) + replacement + buffer.subrange(at + len, buffer.len() as int)
}

/// The outcome of patching: the buffer with the single occurrence of `needle`
/// replaced, or `NotFound` where `needle` occurs not at all or more than once.
pub open spec fn patch_spec(buffer: Seq<u8>, needle: Seq<u8>, replacement: Seq<u8>) -> Result<
    Seq<u8>,
    ErrorView,
> {
    if occurs_once(buffer, needle) {
        Ok(spliced(buffer, sole_occurrence(buffer, needle), needle.len() as int, replacement))
    } else {
        Err(ErrorView::NotFound)
    }
}

/// Whether `needle` stands in `buffer` at index `at`.
pub fn matches_at(buffer: &[u8], needle: &[u8], at: usize) -> (r: bool)
    ensures
        r == occurs_at(buffer@, needle@, at as int),
{
    let n: usize = needle.len();
    let total: usize = buffer.len();
    if at > total || n > total - at {
        return false;
    }
    let mut k: usize = 0;
    while k < n
        invariant
            n == needle@.len(),
            total == buffer@.len(),
            at + n <= total,
            k <= n,
            forall|j: int| 0 <= j < k ==> buffer@[at + j] == needle@[j],
        decreases n - k,
    {
        if buffer[at + k] != needle[k] {
            assert(buffer@.subrange(at as int, at + n)[k as int] != needle@[k as int]);
            return false;
        }
        k += 1;
    }
    assert(buffer@.subrange(at as int, at + n) =~= needle@);
    true
}

/// The index at which `needle` stands in `buffer`, where it does so in exactly
/// one place.
pub fn find_sole_occurrence(buffer: &[u8], needle: &[u8]) -> (r: Option<usize>)
    ensures
        match r {
            Some(at) => occurs_only_at(buffer@, needle@, at as int),
            None => !occurs_once(buffer@, needle@),
        },
{
    if needle.len() > buffer.len() {
        return None;
    }
    let last: usize = buffer.len() - needle.len();
    let mut found: Option<usize> = None;
    let mut i: usize = 0;
    loop
        invariant_except_break
            i <= last,
            forall|j: int| 0 <= j < i && occurs_at(buffer@, needle@, j) ==> found == Some(j as usize),
            found matches Some(f) ==> f < i,
        invariant
            last + needle@.len() == buffer@.len(),
            found matches Some(f) ==> occurs_at(buffer@, needle@, f as int),
        ensures
            forall|j: int| occurs_at(buffer@, needle@, j) ==> found == Some(j as usize),
        decreases last - i,
    {
        if matches_at(buffer, needle, i) {
            match found {
                Some(_) => {
                    return None;
                },
                None => {
                    found = Some(i);
                },
            }
        }
        if i == last {
            break ;
        }
        i += 1;
    }
    found
}

/// Replaces the single occurrence of `search_bytes` in `data` by
/// `replace_bytes`. Where `search_bytes` occurs nowhere or more than once,
/// `data` is left as it was and `NotFound` is returned.
pub fn patch_bytes(data: &mut Vec<u8>, search_bytes: &[u8], replace_bytes: &[u8]) -> (r: Result<
    (),
    Error,
>)
    ensures
        match r {
            Ok(()) => patch_spec(old(data)@, search_bytes@, replace_bytes@) == Ok::<
                Seq<u8>,
                ErrorView,
            >(final(data)@),
            Err(e) => e@ == ErrorView::NotFound && patch_spec(
                old(data)@,
                search_bytes@,
                replace_bytes@,
            ) == Err::<Seq<u8>, ErrorView>(ErrorView::NotFound) && final(data)@ == old(data)@,
        },
        r is Ok <==> occurs_once(old(data)@, search_bytes@),
{
    match find_sole_occurrence(data.as_slice(), search_bytes) {
        None => Err(Error::NotFound),
        Some(at) => {
            let total: usize = data.len();
            let end: usize = at + search_bytes.len();
            let mut out: Vec<u8> = Vec::new();
            out.extend_from_slice(slice_subrange(data.as_slice(), 0, at));
            out.extend_from_slice(replace_bytes);
            out.extend_from_slice(slice_subrange(data.as_slice(), end, total));
            assert(out@ =~= spliced(
                data@,
                at as int,
                search_bytes@.len() as int,
                replace_bytes@,
            ));
            *data = out;
            Ok(())
        },
    }
}

} // verus!

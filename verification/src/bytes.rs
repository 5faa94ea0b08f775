//! Replacing the first occurrence of a byte pattern in a buffer.

use crate::text::{append, first_at, lemma_next_occurrence, next_occurrence, occurs, occurs_at};
use vstd::prelude::*;

verus! {

/// `memchr::memmem::find` returns the index of the first occurrence of
/// `needle` in `haystack`, and `None` where `needle` does not occur in it.
pub assume_specification[ memchr::memmem::find ](haystack: &[u8], needle: &[u8]) -> (r: Option<
    usize,
>)
    ensures
        match r {
            Some(i) => first_at(haystack@, needle@, i as int),
            None => !occurs(haystack@, needle@),
        },
;

/// `s` with the first occurrence of `pat` replaced by `rep`; `s` itself where
/// `pat` does not occur in it.
pub open spec fn splice_first<T>(s: Seq<T>, pat: Seq<T>, rep: Seq<T>) -> Seq<T> {
    let p = next_occurrence(s, pat, 0);
    if p < 0 || p + pat.len() > s.len() {
        s
    } else {
        s.take(p) + rep + s.skip(p + pat.len())
    }
}

/// Whether `needle` occurs in `hay`.
pub fn found_in(hay: &[u8], needle: &[u8]) -> (r: bool)
    ensures
        r == occurs(hay@, needle@),
{
    memchr::memmem::find(hay, needle).is_some()
}

/// Replaces the first occurrence of `pattern` in `codebuf` by `replace_with`
/// and says whether there was one. Without one the buffer stays as it is.
pub fn replace_bytes(codebuf: &mut Vec<u8>, pattern: &[u8], replace_with: &[u8]) -> (replaced:
    bool)
    ensures
        replaced == occurs(old(codebuf)@, pattern@),
        final(codebuf)@ == splice_first(old(codebuf)@, pattern@, replace_with@),
{
    proof {
        lemma_next_occurrence(codebuf@, pattern@, 0);
    }
    let at = match memchr::memmem::find(codebuf.as_slice(), pattern) {
        Some(at) => at,
        None => { return false; },
    };
    assert(occurs_at(codebuf@, pattern@, at as int));
    let len = codebuf.len();
    let mut out: Vec<u8> = Vec::new();
    append(&mut out, codebuf.as_slice(), 0, at);
    append(&mut out, replace_with, 0, replace_with.len());
    append(&mut out, codebuf.as_slice(), at + pattern.len(), len);
    proof {
        assert(replace_with@.subrange(0, replace_with@.len() as int) =~= replace_with@);
        assert(out@ =~= codebuf@.take(at as int) + replace_with@ + codebuf@.skip(
            at + pattern@.len(),
        ));
    }
    *codebuf = out;
    true
}

} // verus!

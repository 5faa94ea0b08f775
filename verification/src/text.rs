//! Searching and replacing in sequences, and the way from strings to
//! sequences of characters and back.

use vstd::prelude::*;

verus! {

/// `needle` stands in `hay` at offset `i`.
pub open spec fn occurs_at<T>(hay: Seq<T>, needle: Seq<T>, i: int) -> bool {
    &&& 0 <= i
    &&& i + needle.len() <= hay.len()
    &&& hay.subrange(i, i + needle.len()) == needle
}

/// `needle` stands somewhere in `hay`.
pub open spec fn occurs<T>(hay: Seq<T>, needle: Seq<T>) -> bool {
    exists|i: int| occurs_at(hay, needle, i)
}

/// `i` is the least offset at which `needle` stands in `hay`.
pub open spec fn first_at<T>(hay: Seq<T>, needle: Seq<T>, i: int) -> bool {
    &&& occurs_at(hay, needle, i)
    &&& forall|j: int| 0 <= j < i ==> !occurs_at(hay, needle, j)
}

/// The least offset not below `from` at which `needle` stands in `hay`, or
/// `hay.len() + 1` where there is none.
pub open spec fn next_occurrence<T>(hay: Seq<T>, needle: Seq<T>, from: int) -> int
    decreases hay.len() + 1 - from,
{
    if from < 0 || from + needle.len() > hay.len() {
        hay.len() as int + 1
    } else if occurs_at(hay, needle, from) {
        from
    } else {
        next_occurrence(hay, needle, from + 1)
    }
}

/// What `next_occurrence` finds is an occurrence, nothing lies between `from`
/// and it, and where it finds none there is none from `from` on.
pub proof fn lemma_next_occurrence<T>(hay: Seq<T>, needle: Seq<T>, from: int)
    requires
        0 <= from,
    ensures
        ({
            let p = next_occurrence(hay, needle, from);
            &&& from <= hay.len() ==> from <= p
            &&& p <= hay.len() ==> occurs_at(hay, needle, p)
            &&& p > hay.len() ==> p == hay.len() + 1
            &&& forall|j: int| from <= j < p ==> !occurs_at(hay, needle, j)
        }),
    decreases hay.len() + 1 - from,
{
    if from + needle.len() > hay.len() {
    } else if occurs_at(hay, needle, from) {
    } else {
        lemma_next_occurrence(hay, needle, from + 1);
    }
}

/// The characters of a string slice, in order.
pub fn chars_of(s: &str) -> (out: Vec<char>)
    ensures
        out@ == s@,
{
    broadcast use vstd::string::group_string_axioms;

    let mut out: Vec<char> = Vec::new();
    let chars = s.chars();
    for c in it: chars
        invariant
            it.seq() == s@,
            out@ == s@.take(it.index()),
    {
        out.push(c);
    }
    out
}

/// `String::push` appends the character `c` to the end of the string.
pub assume_specification[ String::push ](s: &mut String, c: char)
    ensures
        final(s)@ == old(s)@.push(c),
;

/// The string that holds the characters of `chars`, in order.
pub fn string_of(chars: &[char]) -> (out: String)
    ensures
        out@ == chars@,
{
    let mut out = String::new();
    let mut i: usize = 0;
    while i < chars.len()
        invariant
            i <= chars.len(),
            out@ == chars@.take(i as int),
        decreases chars.len() - i,
    {
        out.push(chars[i]);
        i += 1;
    }
    out
}

/// Whether `needle` stands in `hay` at offset `at`.
pub fn matches_at(hay: &[char], needle: &[char], at: usize) -> (r: bool)
    ensures
        r == occurs_at(hay@, needle@, at as int),
{
    if at > hay.len() || needle.len() > hay.len() - at {
        return false;
    }
    let mut k: usize = 0;
    while k < needle.len()
        invariant
            k <= needle.len(),
            at + needle.len() <= hay.len(),
            forall|j: int| 0 <= j < k ==> hay@[at + j] == needle@[j],
        decreases needle.len() - k,
    {
        if hay[at + k] != needle[k] {
            assert(hay@.subrange(at as int, at + needle@.len())[k as int] != needle@[k as int]);
            return false;
        }
        k += 1;
    }
    assert(hay@.subrange(at as int, at + needle@.len()) =~= needle@);
    true
}

/// Whether two texts hold the same characters.
pub fn same(a: &[char], b: &[char]) -> (r: bool)
    ensures
        r == (a@ == b@),
{
    if a.len() != b.len() {
        return false;
    }
    let alike = matches_at(a, b, 0);
    assert(a@.subrange(0, a@.len() as int) =~= a@);
    alike
}

/// Whether the strings `a` and `b` hold the same characters.
pub fn same_str(a: &str, b: &str) -> (r: bool)
    ensures
        r == (a@ == b@),
{
    let left = chars_of(a);
    let right = chars_of(b);
    same(left.as_slice(), right.as_slice())
}

/// Whether `s` begins with `prefix`.
pub fn starts_with(s: &[char], prefix: &[char]) -> (r: bool)
    ensures
        r == occurs_at(s@, prefix@, 0),
{
    matches_at(s, prefix, 0)
}

/// The least offset not below `from` at which `needle` stands in `hay`.
pub fn find_from(hay: &[char], needle: &[char], from: usize) -> (r: Option<usize>)
    ensures
        match r {
            Some(p) => p as int == next_occurrence(hay@, needle@, from as int) && p <= hay@.len(),
            None => next_occurrence(hay@, needle@, from as int) > hay@.len(),
        },
{
    if needle.len() > hay.len() || from > hay.len() - needle.len() {
        return None;
    }
    let last: usize = hay.len() - needle.len();
    let mut p: usize = from;
    loop
        invariant
            from <= p <= last,
            last == hay@.len() - needle@.len(),
            next_occurrence(hay@, needle@, from as int) == next_occurrence(hay@, needle@, p as int),
        decreases last - p,
    {
        if matches_at(hay, needle, p) {
            return Some(p);
        }
        if p == last {
            assert(next_occurrence(hay@, needle@, p + 1) == hay@.len() + 1);
            return None;
        }
        p += 1;
    }
}

/// Whether `needle` stands somewhere in `hay`.
pub fn contains(hay: &[char], needle: &[char]) -> (r: bool)
    ensures
        r == occurs(hay@, needle@),
{
    proof {
        lemma_next_occurrence(hay@, needle@, 0);
    }
    find_from(hay, needle, 0).is_some()
}

/// `s` with each occurrence of `pat` replaced by `rep`, taken from the left
/// and without overlap. An empty `pat` replaces nothing.
pub open spec fn replace_all<T>(s: Seq<T>, pat: Seq<T>, rep: Seq<T>) -> Seq<T>
    decreases s.len(),
{
    let p = next_occurrence(s, pat, 0);
    if pat.len() == 0 || p < 0 || p + pat.len() > s.len() {
        s
    } else {
        s.take(p) + rep + replace_all(s.skip(p + pat.len()), pat, rep)
    }
}

/// Searching the tail of `hay` behind its first `k` items is searching `hay`
/// from `k` on.
pub proof fn lemma_next_occurrence_skip<T>(hay: Seq<T>, needle: Seq<T>, k: int, from: int)
    requires
        0 <= k <= from,
        k <= hay.len(),
    ensures
        next_occurrence(hay.skip(k), needle, from - k) == next_occurrence(hay, needle, from) - k,
    decreases hay.len() + 1 - from,
{
    let tail = hay.skip(k);
    if from + needle.len() > hay.len() {
    } else {
        assert(tail.subrange(from - k, from - k + needle.len()) =~= hay.subrange(
            from,
            from + needle.len(),
        ));
        if occurs_at(hay, needle, from) {
        } else {
            lemma_next_occurrence_skip(hay, needle, k, from + 1);
        }
    }
}

/// `text` with each occurrence of `pat` replaced by `rep`.
pub fn replace(text: &[char], pat: &[char], rep: &[char]) -> (out: Vec<char>)
    ensures
        out@ == replace_all(text@, pat@, rep@),
{
    let mut out: Vec<char> = Vec::new();
    let mut pos: usize = 0;
    if pat.len() == 0 {
        append(&mut out, text, 0, text.len());
        assert(out@ =~= text@);
        return out;
    }
    assert(text@.skip(0) =~= text@);
    let len = text.len();
    loop
        invariant
            len == text@.len(),
            pat@.len() > 0,
            pos <= text@.len(),
            out@ + replace_all(text@.skip(pos as int), pat@, rep@) == replace_all(
                text@,
                pat@,
                rep@,
            ),
        decreases text@.len() - pos,
    {
        let ghost rest = text@.skip(pos as int);
        proof {
            lemma_next_occurrence_skip(text@, pat@, pos as int, pos as int);
            lemma_next_occurrence(text@, pat@, pos as int);
        }
        match find_from(text, pat, pos) {
            None => {
                append(&mut out, text, pos, text.len());
                assert(text@.subrange(pos as int, text@.len() as int) =~= rest);
                assert(replace_all(rest, pat@, rep@) == rest);
                return out;
            },
            Some(p) => {
                assert(occurs_at(text@, pat@, p as int));
                let ghost before = out@;
                append(&mut out, text, pos, p);
                append(&mut out, rep, 0, rep.len());
                assert(rep@.subrange(0, rep@.len() as int) =~= rep@);
                assert(text@.subrange(pos as int, p as int) =~= rest.take(p - pos));
                assert(rest.skip(p - pos + pat@.len()) =~= text@.skip(p + pat@.len()));
                assert(out@ + replace_all(text@.skip(p + pat@.len()), pat@, rep@) =~= before
                    + replace_all(rest, pat@, rep@));
                pos = p + pat.len();
            },
        }
    }
}

/// Appends the items of `src` from `from` up to `to` to `out`.
pub fn append<T: Copy>(out: &mut Vec<T>, src: &[T], from: usize, to: usize)
    requires
        from <= to <= src@.len(),
    ensures
        final(out)@ == old(out)@ + src@.subrange(from as int, to as int),
{
    let mut i: usize = from;
    while i < to
        invariant
            from <= i <= to <= src@.len(),
            out@ == old(out)@ + src@.subrange(from as int, i as int),
        decreases to - i,
    {
        out.push(src[i]);
        i += 1;
    }
}

} // verus!

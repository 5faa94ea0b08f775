//! Counting the occurrences of a pattern, and what replacing does to the
//! count.

use crate::text::{lemma_next_occurrence, next_occurrence, occurs, occurs_at, replace_all};
use vstd::prelude::*;

verus! {

/// The number of offsets from `from` up to, not including, `to` at which
/// `needle` stands in `hay`.
pub open spec fn count_between<T>(hay: Seq<T>, needle: Seq<T>, from: int, to: int) -> nat
    decreases to - from,
{
    if from >= to {
        0
    } else if occurs_at(hay, needle, from) {
        1 + count_between(hay, needle, from + 1, to)
    } else {
        count_between(hay, needle, from + 1, to)
    }
}

/// The number of offsets at which `needle` stands in `hay`.
pub open spec fn count<T>(hay: Seq<T>, needle: Seq<T>) -> nat {
    count_between(hay, needle, 0, hay.len() as int + 1)
}

/// The first item of `s` stands nowhere else in `s`.
pub open spec fn head_unique<T>(s: Seq<T>) -> bool {
    s.len() > 0 && forall|i: int| 0 < i < s.len() ==> #[trigger] s[i] != s[0]
}

/// `item` stands nowhere in `s`.
pub open spec fn absent<T>(item: T, s: Seq<T>) -> bool {
    forall|i: int| 0 <= i < s.len() ==> #[trigger] s[i] != item
}

/// `pat` and `rep` cannot overlap, neither with themselves nor with each
/// other: the first item of each stands nowhere else in the two.
pub open spec fn apart<T>(pat: Seq<T>, rep: Seq<T>) -> bool {
    head_unique(pat) && head_unique(rep) && absent(pat[0], rep) && absent(rep[0], pat)
}

/// Counting over a range is counting over its two parts.
pub proof fn lemma_count_split<T>(hay: Seq<T>, needle: Seq<T>, from: int, mid: int, to: int)
    requires
        from <= mid <= to,
    ensures
        count_between(hay, needle, from, to) == count_between(hay, needle, from, mid)
            + count_between(hay, needle, mid, to),
    decreases mid - from,
{
    if from < mid {
        lemma_count_split(hay, needle, from + 1, mid, to);
    }
}

/// A range without an occurrence counts zero.
pub proof fn lemma_count_none<T>(hay: Seq<T>, needle: Seq<T>, from: int, to: int)
    requires
        forall|j: int| from <= j < to ==> !occurs_at(hay, needle, j),
    ensures
        count_between(hay, needle, from, to) == 0,
    decreases to - from,
{
    if from < to {
        lemma_count_none(hay, needle, from + 1, to);
    }
}

/// Two ranges of the same length in which the occurrences stand at the same
/// places count the same.
pub proof fn lemma_count_same<T>(
    a: Seq<T>,
    b: Seq<T>,
    needle: Seq<T>,
    from: int,
    to: int,
    shift: int,
)
    requires
        forall|j: int| from <= j < to ==> occurs_at(a, needle, j) == occurs_at(b, needle, j + shift),
    ensures
        count_between(a, needle, from, to) == count_between(b, needle, from + shift, to + shift),
    decreases to - from,
{
    if from < to {
        lemma_count_same(a, b, needle, from + 1, to, shift);
    }
}

/// An occurrence puts each item of the needle at its place in the hay.
pub proof fn lemma_occurrence_items<T>(hay: Seq<T>, needle: Seq<T>, at: int, k: int)
    requires
        occurs_at(hay, needle, at),
        0 <= k < needle.len(),
    ensures
        hay[at + k] == needle[k],
{
    assert(hay.subrange(at, at + needle.len())[k] == hay[at + k]);
}

/// Behind the first `cut` items of `hay`, the needle stands where it stands
/// in the rest.
pub proof fn lemma_occurrence_in_rest<T>(hay: Seq<T>, needle: Seq<T>, cut: int, at: int)
    requires
        0 <= cut <= at,
        cut <= hay.len(),
    ensures
        occurs_at(hay, needle, at) == occurs_at(hay.skip(cut), needle, at - cut),
{
    if at + needle.len() <= hay.len() {
        assert(hay.subrange(at, at + needle.len()) =~= hay.skip(cut).subrange(
            at - cut,
            at - cut + needle.len(),
        ));
    }
}

/// Within the first items of a concatenation the needle stands where it
/// stands in the first part.
pub proof fn lemma_occurrence_in_front<T>(front: Seq<T>, back: Seq<T>, needle: Seq<T>, at: int)
    requires
        0 <= at,
        at + needle.len() <= front.len(),
    ensures
        occurs_at(front + back, needle, at) == occurs_at(front, needle, at),
{
    assert((front + back).subrange(at, at + needle.len()) =~= front.subrange(
        at,
        at + needle.len(),
    ));
}

/// Replacing each occurrence of `pat` by `rep`, where the two cannot
/// overlap, leaves no occurrence of `pat`, and leaves as many occurrences of
/// `rep` as there were of `rep` and of `pat` together.
pub proof fn lemma_replace_counts<T>(s: Seq<T>, pat: Seq<T>, rep: Seq<T>)
    requires
        apart(pat, rep),
    ensures
        !occurs(replace_all(s, pat, rep), pat),
        count(replace_all(s, pat, rep), pat) == 0,
        count(replace_all(s, pat, rep), rep) == count(s, rep) + count(s, pat),
    decreases s.len(),
{
    let p = next_occurrence(s, pat, 0);
    let m = pat.len() as int;
    let n = rep.len() as int;
    let out = replace_all(s, pat, rep);
    lemma_next_occurrence(s, pat, 0);
    if p + m > s.len() {
        assert forall|j: int| !occurs_at(s, pat, j) by {}
        lemma_count_none(s, pat, 0, s.len() as int + 1);
    } else {
        let front = s.take(p);
        let rest = s.skip(p + m);
        let done = replace_all(rest, pat, rep);
        lemma_replace_counts(rest, pat, rep);
        let tail = rep + done;
        assert(out =~= front + tail);
        assert(s =~= front + s.skip(p));
        // Where `pat` and `rep` stand in the patched text.
        assert forall|j: int| 0 <= j < p implies !occurs_at(out, pat, j) && occurs_at(out, rep, j)
            == occurs_at(s, rep, j) by {
            if j + m <= p {
                lemma_occurrence_in_front(front, tail, pat, j);
                lemma_occurrence_in_front(front, s.skip(p), pat, j);
            } else if occurs_at(out, pat, j) {
                lemma_occurrence_items(out, pat, j, p - j);
            }
            if j + n <= p {
                lemma_occurrence_in_front(front, tail, rep, j);
                lemma_occurrence_in_front(front, s.skip(p), rep, j);
            } else {
                if occurs_at(out, rep, j) {
                    lemma_occurrence_items(out, rep, j, p - j);
                }
                if occurs_at(s, rep, j) {
                    lemma_occurrence_items(s, rep, j, p - j);
                    lemma_occurrence_items(s, pat, p, 0);
                }
            }
        }
        assert(out.subrange(p, p + n) =~= rep);
        assert(occurs_at(out, rep, p));
        assert forall|j: int| p <= j < p + n implies !occurs_at(out, pat, j) by {
            if occurs_at(out, pat, j) {
                lemma_occurrence_items(out, pat, j, 0);
                assert(out[j] == rep[j - p]);
            }
        }
        assert forall|j: int| p < j < p + n implies !occurs_at(out, rep, j) by {
            if occurs_at(out, rep, j) {
                lemma_occurrence_items(out, rep, j, 0);
                assert(out[j] == rep[j - p]);
            }
        }
        assert(out.skip(p + n) =~= done);
        assert forall|j: int| p + n <= j implies occurs_at(out, pat, j) == occurs_at(
            done,
            pat,
            j - (p + n),
        ) && occurs_at(out, rep, j) == occurs_at(done, rep, j - (p + n)) by {
            if j <= out.len() {
                lemma_occurrence_in_rest(out, pat, p + n, j);
                lemma_occurrence_in_rest(out, rep, p + n, j);
            }
        }
        assert forall|j: int| !occurs_at(out, pat, j) by {
            if p + n <= j && occurs_at(out, pat, j) {
                assert(occurs_at(done, pat, j - (p + n)));
            }
        }
        lemma_count_none(out, pat, 0, out.len() as int + 1);
        // Where they stand in the text as it was.
        assert forall|j: int| p < j < p + m implies !occurs_at(s, pat, j) by {
            if occurs_at(s, pat, j) {
                lemma_occurrence_items(s, pat, j, 0);
                lemma_occurrence_items(s, pat, p, j - p);
            }
        }
        assert forall|j: int| p <= j < p + m implies !occurs_at(s, rep, j) by {
            if occurs_at(s, rep, j) {
                lemma_occurrence_items(s, rep, j, 0);
                lemma_occurrence_items(s, pat, p, j - p);
            }
        }
        assert forall|j: int| p + m <= j implies occurs_at(s, pat, j) == occurs_at(
            rest,
            pat,
            j - (p + m),
        ) && occurs_at(s, rep, j) == occurs_at(rest, rep, j - (p + m)) by {
            if j <= s.len() {
                lemma_occurrence_in_rest(s, pat, p + m, j);
                lemma_occurrence_in_rest(s, rep, p + m, j);
            }
        }
        // The counts, range by range.
        let s_end = s.len() as int + 1;
        let out_end = out.len() as int + 1;
        lemma_count_split(out, rep, 0, p, out_end);
        lemma_count_split(out, rep, p, p + 1, out_end);
        lemma_count_split(out, rep, p + 1, p + n, out_end);
        lemma_count_same(out, s, rep, 0, p, 0);
        lemma_count_none(out, rep, p + 1, p + n);
        lemma_count_same(done, out, rep, 0, done.len() as int + 1, p + n);
        assert(count_between(out, rep, p, p + 1) == 1) by {
            assert(count_between(out, rep, p + 1, p + 1) == 0);
        }
        lemma_count_split(s, rep, 0, p, s_end);
        lemma_count_split(s, rep, p, p + m, s_end);
        lemma_count_none(s, rep, p, p + m);
        lemma_count_same(rest, s, rep, 0, rest.len() as int + 1, p + m);
        lemma_count_split(s, pat, 0, p, s_end);
        lemma_count_split(s, pat, p, p + 1, s_end);
        lemma_count_split(s, pat, p + 1, p + m, s_end);
        lemma_count_none(s, pat, 0, p);
        lemma_count_none(s, pat, p + 1, p + m);
        lemma_count_same(rest, s, pat, 0, rest.len() as int + 1, p + m);
        assert(count_between(s, pat, p, p + 1) == 1) by {
            assert(count_between(s, pat, p + 1, p + 1) == 0);
        }
    }
}

/// A text into which `with` was put between `front` and `back` holds
/// `marker` once, where neither `front` nor `back` holds it, `with` holds it
/// behind its first item, the first item of `marker` stands nowhere else in
/// `with`, and the first item of `with` stands nowhere in `marker`.
pub proof fn lemma_insert_holds_once<T>(front: Seq<T>, with: Seq<T>, back: Seq<T>, marker: Seq<T>)
    requires
        marker.len() > 0,
        with.len() > marker.len(),
        !occurs(front, marker),
        !occurs(back, marker),
        absent(with[0], marker),
        with.subrange(1, 1 + marker.len() as int) == marker,
        forall|i: int| 0 <= i < with.len() && #[trigger] with[i] == marker[0] ==> i == 1,
    ensures
        count(front + with + back, marker) == 1,
{
    let after = front + with + back;
    let p = front.len() as int;
    let m = marker.len() as int;
    let n = with.len() as int;
    assert(after =~= front + (with + back));
    assert(after.skip(p + n) =~= back);
    assert forall|j: int| 0 <= j <= p implies !occurs_at(after, marker, j) by {
        if occurs_at(after, marker, j) {
            if j + m <= p {
                lemma_occurrence_in_front(front, with + back, marker, j);
                assert(occurs_at(front, marker, j));
            } else {
                lemma_occurrence_items(after, marker, j, p - j);
                assert(after[p] == with[0]);
            }
        }
    }
    assert(after.subrange(p + 1, p + 1 + m) =~= with.subrange(1, 1 + m));
    assert(occurs_at(after, marker, p + 1));
    assert forall|j: int| p + 1 < j < after.len() + 1 implies !occurs_at(after, marker, j) by {
        if occurs_at(after, marker, j) {
            lemma_occurrence_items(after, marker, j, 0);
            if j < p + n {
                assert(after[j] == with[j - p]);
            } else {
                lemma_occurrence_in_rest(after, marker, p + n, j);
                assert(occurs_at(back, marker, j - (p + n)));
            }
        }
    }
    lemma_count_split(after, marker, 0, p + 1, after.len() as int + 1);
    lemma_count_split(after, marker, p + 1, p + 2, after.len() as int + 1);
    lemma_count_none(after, marker, 0, p + 1);
    lemma_count_none(after, marker, p + 2, after.len() as int + 1);
    assert(count_between(after, marker, p + 1, p + 2) == 1) by {
        assert(count_between(after, marker, p + 2, p + 2) == 0);
    }
}

/// The number of occurrences of `needle` in `lines`, line by line.
pub open spec fn count_in_lines<T>(lines: Seq<Seq<T>>, needle: Seq<T>) -> nat
    decreases lines.len(),
{
    if lines.len() == 0 {
        0
    } else {
        count_in_lines(lines.drop_last(), needle) + count(lines.last(), needle)
    }
}

/// Counting over two runs of lines is counting over each.
pub proof fn lemma_count_in_lines_concat<T>(a: Seq<Seq<T>>, b: Seq<Seq<T>>, needle: Seq<T>)
    ensures
        count_in_lines(a + b, needle) == count_in_lines(a, needle) + count_in_lines(b, needle),
    decreases b.len(),
{
    if b.len() == 0 {
        assert(a + b =~= a);
    } else {
        lemma_count_in_lines_concat(a, b.drop_last(), needle);
        assert((a + b).drop_last() =~= a + b.drop_last());
    }
}

/// A line in which the first item of the needle stands nowhere holds no
/// occurrence of the needle.
pub proof fn lemma_count_without_head<T>(line: Seq<T>, needle: Seq<T>)
    requires
        needle.len() > 0,
        absent(needle[0], line),
    ensures
        count(line, needle) == 0,
{
    assert forall|j: int| 0 <= j < line.len() + 1 implies !occurs_at(line, needle, j) by {
        if occurs_at(line, needle, j) {
            lemma_occurrence_items(line, needle, j, 0);
        }
    }
    lemma_count_none(line, needle, 0, line.len() as int + 1);
}

/// Wherever the first item of `needle` stands in `piece`, the item behind it
/// belongs to `piece` and is not the second item of `needle`: no occurrence
/// of `needle` begins in `piece`.
pub open spec fn begins_none<T>(piece: Seq<T>, needle: Seq<T>) -> bool {
    forall|i: int|
        0 <= i < piece.len() && #[trigger] piece[i] == needle[0] ==> i + 1 < piece.len() && piece[i
            + 1] != needle[1]
}

/// `piece` is the needle itself, or does not hold the first item of the
/// needle at all.
pub open spec fn is_or_lacks<T>(piece: Seq<T>, needle: Seq<T>) -> bool {
    piece == needle || absent(needle[0], piece)
}

/// One for the needle itself, zero for anything else.
pub open spec fn one_if_same<T>(piece: Seq<T>, needle: Seq<T>) -> nat {
    if piece == needle {
        1
    } else {
        0
    }
}

/// The part of a line from `from` on that is `piece` counts one where the
/// piece is the needle and zero where it lacks the first item of the needle.
proof fn lemma_count_operand<T>(line: Seq<T>, piece: Seq<T>, needle: Seq<T>, from: int)
    requires
        head_unique(needle),
        is_or_lacks(piece, needle),
        0 <= from,
        from + piece.len() <= line.len(),
        line.subrange(from, from + piece.len()) == piece,
    ensures
        count_between(line, needle, from, from + piece.len()) == one_if_same(piece, needle),
{
    let to = from + piece.len();
    assert forall|j: int| from <= j < to implies line[j] == piece[j - from] by {
        assert(line.subrange(from, to)[j - from] == line[j]);
    }
    if piece == needle {
        assert forall|j: int| from < j < to implies !occurs_at(line, needle, j) by {
            if occurs_at(line, needle, j) {
                lemma_occurrence_items(line, needle, j, 0);
            }
        }
        lemma_count_split(line, needle, from, from + 1, to);
        lemma_count_none(line, needle, from + 1, to);
        assert(count_between(line, needle, from + 1, from + 1) == 0);
    } else {
        assert forall|j: int| from <= j < to implies !occurs_at(line, needle, j) by {
            if occurs_at(line, needle, j) {
                lemma_occurrence_items(line, needle, j, 0);
            }
        }
        lemma_count_none(line, needle, from, to);
    }
}

/// The part of a line from `from` on that is `piece`, in which no occurrence
/// begins, counts zero.
proof fn lemma_count_filler<T>(line: Seq<T>, piece: Seq<T>, needle: Seq<T>, from: int)
    requires
        needle.len() >= 2,
        begins_none(piece, needle),
        0 <= from,
        from + piece.len() <= line.len(),
        line.subrange(from, from + piece.len()) == piece,
    ensures
        count_between(line, needle, from, from + piece.len()) == 0,
{
    let to = from + piece.len();
    assert forall|j: int| from <= j < to implies !occurs_at(line, needle, j) by {
        if occurs_at(line, needle, j) {
            lemma_occurrence_items(line, needle, j, 0);
            lemma_occurrence_items(line, needle, j, 1);
            assert(line.subrange(from, to)[j - from] == line[j]);
            assert(piece[j - from] == needle[0]);
            assert(line.subrange(from, to)[j + 1 - from] == line[j + 1]);
        }
    }
    lemma_count_none(line, needle, from, to);
}

/// A line made of a filler, an operand, a filler, an operand and a filler
/// holds the needle once for each operand that is the needle.
pub proof fn lemma_count_in_instruction<T>(
    a: Seq<T>,
    x: Seq<T>,
    b: Seq<T>,
    y: Seq<T>,
    c: Seq<T>,
    needle: Seq<T>,
)
    requires
        needle.len() >= 2,
        head_unique(needle),
        begins_none(a, needle),
        begins_none(b, needle),
        begins_none(c, needle),
        is_or_lacks(x, needle),
        is_or_lacks(y, needle),
    ensures
        count(a + x + b + y + c, needle) == one_if_same(x, needle) + one_if_same(y, needle),
{
    let line = a + x + b + y + c;
    let o1 = a.len() as int;
    let o2 = o1 + x.len();
    let o3 = o2 + b.len();
    let o4 = o3 + y.len();
    let end = o4 + c.len();
    assert(line.subrange(0, o1) =~= a);
    assert(line.subrange(o1, o2) =~= x);
    assert(line.subrange(o2, o3) =~= b);
    assert(line.subrange(o3, o4) =~= y);
    assert(line.subrange(o4, end) =~= c);
    lemma_count_filler(line, a, needle, 0);
    lemma_count_operand(line, x, needle, o1);
    lemma_count_filler(line, b, needle, o2);
    lemma_count_operand(line, y, needle, o3);
    lemma_count_filler(line, c, needle, o4);
    assert(!occurs_at(line, needle, end));
    assert(count_between(line, needle, end, end + 1) == 0) by {
        assert(count_between(line, needle, end + 1, end + 1) == 0);
    }
    lemma_count_split(line, needle, 0, o1, end + 1);
    lemma_count_split(line, needle, o1, o2, end + 1);
    lemma_count_split(line, needle, o2, o3, end + 1);
    lemma_count_split(line, needle, o3, o4, end + 1);
    lemma_count_split(line, needle, o4, end, end + 1);
}

} // verus!

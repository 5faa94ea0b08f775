//! The two fixes of the container path, on one source buffer and on a whole
//! material.

use crate::bytes::{found_in, replace_bytes, splice_first};
use crate::count::{
    absent, count, lemma_insert_holds_once, lemma_occurrence_in_front, lemma_occurrence_in_rest,
};
use crate::text::{append, lemma_next_occurrence, next_occurrence, occurs, occurs_at};
use vstd::prelude::*;
use vstd::string::StringSliceAdditionalSpecFns;
use vstd::utf8::is_ascii_chars_encode_utf8;

verus! {

/// A fix that the container path applies.
#[derive(Clone, Copy, Debug, PartialEq, Eq, Structural)]
pub enum Fix {
    /// Rebuilds the light map coordinate in vertex shaders.
    Lightmap,
    /// Makes fragment shaders sample the base level of their textures.
    Sampler,
}

/// The entry of a shader, before which the light map fix inserts its macro.
pub const LIGHTMAP_ANCHOR: &'static str = "void main";

/// The beginning of the macro of the light map fix. A source that holds it
/// is patched already.
pub const LIGHTMAP_MARKER: &'static str = "#define a_texcoord1 ";

/// What the macro of the light map fix puts in place of the coordinate.
pub const LIGHTMAP_VALUE: &'static str =
    "vec2(fract(a_texcoord1.x*15.9375)+0.0001,floor(a_texcoord1.x*15.9375)*0.0625+0.0001)";

/// The assignment that shows a source to have the defect.
pub const LIGHTMAP_ASSIGNMENT: &'static str = "v_lightmapUV = a_texcoord1;";

/// The same assignment, written without blanks.
pub const LIGHTMAP_ASSIGNMENT_TIGHT: &'static str = "v_lightmapUV=a_texcoord1;";

/// The entry of a shader as the sampler fix looks for it.
pub const SAMPLER_ANCHOR: &'static str = "void main ()";

/// What the sampler fix puts in place of the entry.
pub const SAMPLER_INSERT: &'static str =
    "\n#if __VERSION__ >= 300\n #define texture(tex,uv) textureLod(tex,uv,0.0)\n#else\n #define texture2D(tex,uv) texture2DLod(tex,uv,0.0)\n#endif\nvoid main ()";

/// The bytes of a text.
pub open spec fn bytes(text: &str) -> Seq<u8> {
    text.spec_bytes()
}

/// The pattern that `fix` replaces.
pub open spec fn anchor_of(fix: Fix) -> Seq<u8> {
    match fix {
        Fix::Lightmap => bytes(LIGHTMAP_ANCHOR),
        Fix::Sampler => bytes(SAMPLER_ANCHOR),
    }
}

/// What `fix` puts in place of its pattern. For the light map fix: a line
/// feed, the macro (marker and value), a line feed and the pattern again.
pub open spec fn insert_of(fix: Fix) -> Seq<u8> {
    match fix {
        Fix::Lightmap => bytes("\n") + bytes(LIGHTMAP_MARKER) + bytes(LIGHTMAP_VALUE) + bytes(
            "\n",
        ) + bytes(LIGHTMAP_ANCHOR),
        Fix::Sampler => bytes(SAMPLER_INSERT),
    }
}

/// Whether `fix` acts on the source `code`. The light map fix acts on a
/// source that is not patched yet and shows the defect; the sampler fix acts
/// on every source.
pub open spec fn acts_on(fix: Fix, code: Seq<u8>) -> bool {
    match fix {
        Fix::Lightmap => !occurs(code, bytes(LIGHTMAP_MARKER)) && (occurs(
            code,
            bytes(LIGHTMAP_ASSIGNMENT),
        ) || occurs(code, bytes(LIGHTMAP_ASSIGNMENT_TIGHT))),
        Fix::Sampler => true,
    }
}

/// The source `code` after `fix`: where the fix acts, the first occurrence of
/// its pattern is replaced; a source without the pattern stays as it is.
pub open spec fn fixed_code(fix: Fix, code: Seq<u8>) -> Seq<u8> {
    if acts_on(fix, code) {
        splice_first(code, anchor_of(fix), insert_of(fix))
    } else {
        code
    }
}

/// A source on which the light map fix acts and which holds the pattern
/// holds the marker of the fix afterwards.
pub proof fn lemma_lightmap_marker_gained(code: Seq<u8>)
    requires
        acts_on(Fix::Lightmap, code),
        occurs(code, anchor_of(Fix::Lightmap)),
    ensures
        occurs(fixed_code(Fix::Lightmap, code), bytes(LIGHTMAP_MARKER)),
{
    let pattern = anchor_of(Fix::Lightmap);
    let with = insert_of(Fix::Lightmap);
    let marker = bytes(LIGHTMAP_MARKER);
    let p = next_occurrence(code, pattern, 0);
    lemma_next_occurrence(code, pattern, 0);
    let after = fixed_code(Fix::Lightmap, code);
    let at = p + bytes("\n").len();
    assert(after =~= code.take(p) + with + code.skip(p + pattern.len()));
    assert(after.subrange(at, at + marker.len()) =~= marker);
    assert(occurs_at(after, marker, at));
}

/// The light map fix changes nothing in a source that it has patched: the
/// marker that it left there keeps it from acting again.
pub proof fn lemma_lightmap_fix_idempotent(code: Seq<u8>)
    ensures
        fixed_code(Fix::Lightmap, fixed_code(Fix::Lightmap, code)) == fixed_code(
            Fix::Lightmap,
            code,
        ),
        !acts_on(Fix::Lightmap, code) ==> fixed_code(Fix::Lightmap, code) == code,
{
    let pattern = anchor_of(Fix::Lightmap);
    lemma_next_occurrence(code, pattern, 0);
    if acts_on(Fix::Lightmap, code) && occurs(code, pattern) {
        lemma_lightmap_marker_gained(code);
    }
}

/// The bytes of the texts that make up the insert of the light map fix: the
/// marker begins with a number sign, which stands nowhere else in the
/// insert, and holds no line feed, with which the insert begins.
proof fn lemma_lightmap_insert_shape()
    ensures
        ({
            let with = insert_of(Fix::Lightmap);
            let marker = bytes(LIGHTMAP_MARKER);
            &&& marker.len() > 0
            &&& marker[0] == 35u8
            &&& absent(10u8, marker)
            &&& with.len() > 1 + marker.len()
            &&& with[0] == 10u8
            &&& with.subrange(1, 1 + marker.len() as int) == marker
            &&& forall|i: int| 0 <= i < with.len() && #[trigger] with[i] == 35u8 ==> i == 1
        }),
{
    let with = insert_of(Fix::Lightmap);
    let feed = bytes("\n");
    let marker = bytes(LIGHTMAP_MARKER);
    let value = bytes(LIGHTMAP_VALUE);
    let entry = bytes(LIGHTMAP_ANCHOR);
    reveal_strlit("\n");
    reveal_strlit("#define a_texcoord1 ");
    reveal_strlit(
        "vec2(fract(a_texcoord1.x*15.9375)+0.0001,floor(a_texcoord1.x*15.9375)*0.0625+0.0001)",
    );
    reveal_strlit("void main");
    is_ascii_chars_encode_utf8("\n"@);
    is_ascii_chars_encode_utf8(LIGHTMAP_MARKER@);
    is_ascii_chars_encode_utf8(LIGHTMAP_VALUE@);
    is_ascii_chars_encode_utf8(LIGHTMAP_ANCHOR@);
    assert(absent(35u8, feed));
    assert(absent(35u8, value));
    assert(absent(35u8, entry));
    assert(absent(10u8, marker));
    assert forall|i: int| 0 < i < marker.len() implies #[trigger] marker[i] != 35u8 by {}
    assert(with.subrange(1, 1 + marker.len() as int) =~= marker);
    assert forall|i: int| 0 <= i < with.len() && #[trigger] with[i] == 35u8 implies i == 1 by {
        let a = feed.len() as int;
        let b = a + marker.len();
        let c = b + value.len();
        let d = c + feed.len();
        if i < a {
            assert(with[i] == feed[i]);
        } else if i < b {
            assert(with[i] == marker[i - a]);
        } else if i < c {
            assert(with[i] == value[i - b]);
        } else if i < d {
            assert(with[i] == feed[i - c]);
        } else {
            assert(with[i] == entry[i - d]);
        }
    }
}

/// A source on which the light map fix acts and which holds the pattern
/// holds the marker of the fix exactly once afterwards.
pub proof fn lemma_lightmap_marker_once(code: Seq<u8>)
    requires
        acts_on(Fix::Lightmap, code),
        occurs(code, anchor_of(Fix::Lightmap)),
    ensures
        count(fixed_code(Fix::Lightmap, code), bytes(LIGHTMAP_MARKER)) == 1,
{
    let pattern = anchor_of(Fix::Lightmap);
    let with = insert_of(Fix::Lightmap);
    let marker = bytes(LIGHTMAP_MARKER);
    let p = next_occurrence(code, pattern, 0);
    let front = code.take(p);
    let back = code.skip(p + pattern.len());
    lemma_next_occurrence(code, pattern, 0);
    lemma_lightmap_insert_shape();
    assert(fixed_code(Fix::Lightmap, code) == front + with + back);
    assert(!occurs(front, marker)) by {
        assert(code =~= front + code.skip(p));
        assert forall|j: int| !occurs_at(front, marker, j) by {
            if occurs_at(front, marker, j) {
                lemma_occurrence_in_front(front, code.skip(p), marker, j);
                assert(occurs_at(code, marker, j));
            }
        }
    }
    assert(!occurs(back, marker)) by {
        assert forall|j: int| !occurs_at(back, marker, j) by {
            if occurs_at(back, marker, j) {
                lemma_occurrence_in_rest(code, marker, p + pattern.len(), j + p + pattern.len());
                assert(occurs_at(code, marker, j + p + pattern.len()));
            }
        }
    }
    lemma_insert_holds_once(front, with, back, marker);
}

/// What `fix` does to the source `code`.
pub open spec fn outcome_of(fix: Fix, code: Seq<u8>) -> Outcome {
    if !acts_on(fix, code) {
        Outcome::Skipped
    } else if occurs(code, anchor_of(fix)) {
        Outcome::Patched
    } else {
        Outcome::Unmatched
    }
}

/// The pattern that `fix` replaces.
pub fn anchor(fix: Fix) -> (out: &'static [u8])
    ensures
        out@ == anchor_of(fix),
{
    match fix {
        Fix::Lightmap => LIGHTMAP_ANCHOR.as_bytes(),
        Fix::Sampler => SAMPLER_ANCHOR.as_bytes(),
    }
}

/// Appends the bytes of `text` to `out`.
fn push_bytes(out: &mut Vec<u8>, text: &str)
    ensures
        final(out)@ == old(out)@ + bytes(text),
{
    let source = text.as_bytes();
    append(out, source, 0, source.len());
    assert(source@.subrange(0, source@.len() as int) =~= source@);
}

/// What `fix` puts in place of its pattern.
pub fn insert(fix: Fix) -> (out: Vec<u8>)
    ensures
        out@ == insert_of(fix),
{
    let mut out: Vec<u8> = Vec::new();
    match fix {
        Fix::Lightmap => {
            push_bytes(&mut out, "\n");
            push_bytes(&mut out, LIGHTMAP_MARKER);
            push_bytes(&mut out, LIGHTMAP_VALUE);
            push_bytes(&mut out, "\n");
            push_bytes(&mut out, LIGHTMAP_ANCHOR);
            assert(out@ =~= insert_of(fix));
        },
        Fix::Sampler => {
            push_bytes(&mut out, SAMPLER_INSERT);
            assert(out@ =~= insert_of(fix));
        },
    }
    out
}

/// Whether `fix` acts on the source `code`.
pub fn wanted(fix: Fix, code: &[u8]) -> (r: bool)
    ensures
        r == acts_on(fix, code@),
{
    match fix {
        Fix::Lightmap => !found_in(code, LIGHTMAP_MARKER.as_bytes()) && (found_in(
            code,
            LIGHTMAP_ASSIGNMENT.as_bytes(),
        ) || found_in(code, LIGHTMAP_ASSIGNMENT_TIGHT.as_bytes())),
        Fix::Sampler => true,
    }
}

/// What became of one source buffer.
#[derive(Clone, Copy, Debug, PartialEq, Eq, Structural)]
pub enum Outcome {
    /// The fix does not act on the source; nothing was written.
    Skipped,
    /// The fix acts on the source, but the source lacks the pattern; it was
    /// written back as it was.
    Unmatched,
    /// The pattern was replaced.
    Patched,
}

/// Applies `fix` to one source buffer.
pub fn fix_code(fix: Fix, code: &mut Vec<u8>) -> (outcome: Outcome)
    ensures
        final(code)@ == fixed_code(fix, old(code)@),
        outcome == outcome_of(fix, old(code)@),
{
    if !wanted(fix, code.as_slice()) {
        return Outcome::Skipped;
    }
    let with = insert(fix);
    if replace_bytes(code, anchor(fix), with.as_slice()) {
        Outcome::Patched
    } else {
        Outcome::Unmatched
    }
}

} // verus!

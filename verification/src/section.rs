//! The five regions of a shader listing and the rule that moves from one to
//! the next.

use crate::text::{chars_of, contains, occurs, occurs_at, starts_with};
use vstd::prelude::*;

verus! {

/// A region of a listing. The regions follow each other in this order.
#[derive(Clone, Copy, Debug, PartialEq, Eq, Structural)]
pub enum Section {
    Header,
    InputSignature,
    OutputSignature,
    Declarations,
    Code,
}

/// The text that opens the input signature.
pub const INPUT_MARK: &'static str = "Input signature:";

/// The text that opens the output signature.
pub const OUTPUT_MARK: &'static str = "Output signature:";

/// The text that a comment line begins with.
pub const COMMENT_MARK: &'static str = "//";

/// Whether `line` is a comment.
pub open spec fn is_comment(line: Seq<char>) -> bool {
    occurs_at(line, COMMENT_MARK@, 0)
}

/// Whether `line` is a declaration: it begins with `dcl_`, `vs_` or `ps_`.
pub open spec fn is_declaration(line: Seq<char>) -> bool {
    occurs_at(line, "dcl_"@, 0) || occurs_at(line, "vs_"@, 0) || occurs_at(line, "ps_"@, 0)
}

/// The place of a region in the order of the regions.
pub open spec fn rank(section: Section) -> int {
    match section {
        Section::Header => 0,
        Section::InputSignature => 1,
        Section::OutputSignature => 2,
        Section::Declarations => 3,
        Section::Code => 4,
    }
}

/// The region of a line that says `line`, when the line before it belonged
/// to `state`.
pub open spec fn section_after(state: Section, line: Seq<char>) -> Section {
    match state {
        Section::Header => if occurs(line, INPUT_MARK@) {
            Section::InputSignature
        } else if !is_comment(line) {
            Section::Declarations
        } else {
            Section::Header
        },
        Section::InputSignature => if occurs(line, OUTPUT_MARK@) {
            Section::OutputSignature
        } else if !is_comment(line) {
            Section::Declarations
        } else {
            Section::InputSignature
        },
        Section::OutputSignature => if !is_comment(line) {
            Section::Declarations
        } else {
            Section::OutputSignature
        },
        Section::Declarations => if !is_declaration(line) {
            Section::Code
        } else {
            Section::Declarations
        },
        Section::Code => Section::Code,
    }
}

/// A listing never goes back to an earlier region.
pub proof fn lemma_section_never_goes_back(state: Section, line: Seq<char>)
    ensures
        rank(state) <= rank(section_after(state, line)),
{
}

/// Whether `line` begins with `prefix`.
pub fn begins_with(line: &[char], prefix: &str) -> (r: bool)
    ensures
        r == occurs_at(line@, prefix@, 0),
{
    let prefix_chars = chars_of(prefix);
    starts_with(line, prefix_chars.as_slice())
}

/// Whether `line` holds `needle` somewhere.
pub fn holds(line: &[char], needle: &str) -> (r: bool)
    ensures
        r == occurs(line@, needle@),
{
    let needle_chars = chars_of(needle);
    contains(line, needle_chars.as_slice())
}

/// The region of a line, given its characters.
pub fn advance_chars(state: Section, line: &[char]) -> (next: Section)
    ensures
        next == section_after(state, line@),
{
    match state {
        Section::Header => if holds(line, INPUT_MARK) {
            Section::InputSignature
        } else if !begins_with(line, COMMENT_MARK) {
            Section::Declarations
        } else {
            Section::Header
        },
        Section::InputSignature => if holds(line, OUTPUT_MARK) {
            Section::OutputSignature
        } else if !begins_with(line, COMMENT_MARK) {
            Section::Declarations
        } else {
            Section::InputSignature
        },
        Section::OutputSignature => if !begins_with(line, COMMENT_MARK) {
            Section::Declarations
        } else {
            Section::OutputSignature
        },
        Section::Declarations => if !begins_with(line, "dcl_") && !begins_with(line, "vs_")
            && !begins_with(line, "ps_") {
            Section::Code
        } else {
            Section::Declarations
        },
        Section::Code => Section::Code,
    }
}

/// The region of a line that says `line`, when the line before it belonged
/// to `state`; the first line of a listing follows `Section::Header`. `line`
/// is the line without its line ending.
pub fn advance(state: Section, line: &str) -> (next: Section)
    ensures
        next == section_after(state, line@),
{
    let chars = chars_of(line);
    advance_chars(state, chars.as_slice())
}

} // verus!

//! Matching a line against a regular expression.
//!
//! The expression engine is the `regex` crate. What it finds is not proved
//! here: it is given a name, and the contracts of this library speak of that
//! name.

use crate::error::ShaderError;
use vstd::prelude::*;

verus! {

#[verifier::external_type_specification]
#[verifier::external_body]
pub struct ExRegexError(regex::Error);

/// Whether the expression engine accepts `pattern`.
pub uninterp spec fn regex_compiles(pattern: Seq<char>) -> bool;

/// What the leftmost match of `pattern` in `text` captured: `None` where
/// `pattern` matches nowhere in `text`, else one entry for each group of
/// `pattern`, the whole match first, and in each entry the text that the group
/// matched, if it took part in the match.
pub uninterp spec fn regex_captures(pattern: Seq<char>, text: Seq<char>) -> Option<
    Seq<Option<Seq<char>>>,
>;

/// The texts that the entries of `groups` hold.
pub open spec fn group_views(groups: Seq<Option<String>>) -> Seq<Option<Seq<char>>> {
    Seq::new(
        groups.len(),
        |i: int|
            match groups[i] {
                Some(text) => Some(text@),
                None => None,
            },
    )
}

/// What a search found, as plain sequences.
pub open spec fn found_view(found: Option<Vec<Option<String>>>) -> Option<Seq<Option<Seq<char>>>> {
    match found {
        Some(groups) => Some(group_views(groups@)),
        None => None,
    }
}

/// Compiles `pattern` with `regex::Regex::new` and searches `text` with
/// `regex::Regex::captures`. The call fails exactly where the engine rejects
/// the pattern, which depends on the pattern alone; what it returns otherwise
/// depends on the pattern and the text alone. Both are only named here.
#[verifier::external_body]
fn captures(pattern: &str, text: &str) -> (r: Result<Option<Vec<Option<String>>>, regex::Error>)
    ensures
        r is Ok <==> regex_compiles(pattern@),
        r matches Ok(found) ==> found_view(found) == regex_captures(pattern@, text@),
{
    let compiled = regex::Regex::new(pattern)?;
    Ok(
        compiled.captures(text).map(
            |found| found.iter().map(|group| group.map(|m| m.as_str().to_string())).collect(),
        ),
    )
}

/// Searches `text` for `pattern` and hands back what each group captured.
pub fn capture_groups(pattern: &str, text: &str) -> (r: Result<
    Option<Vec<Option<String>>>,
    ShaderError,
>)
    ensures
        match r {
            Ok(found) => regex_compiles(pattern@) && found_view(found) == regex_captures(
                pattern@,
                text@,
            ),
            Err(e) => !regex_compiles(pattern@) && e == ShaderError::Pattern,
        },
{
    match captures(pattern, text) {
        Ok(found) => Ok(found),
        Err(_) => Err(ShaderError::Pattern),
    }
}

} // verus!

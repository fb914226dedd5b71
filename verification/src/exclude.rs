//! Exclusion of entries by the glob patterns that a run was given.

use vstd::prelude::*;
use vstd::utf8::encode_utf8;

verus! {

/// Whether the glob `glob` matches the whole of `path`, as the crate
/// `glob_match` decides it on the platform that the library is built for.
pub uninterp spec fn glob_matches(glob: Seq<char>, path: Seq<char>) -> bool;

/// Names that the matcher takes: those whose UTF-8 form is shorter than
/// 2^32 - 1 bytes, so that its 32-bit positions cannot run over.
pub open spec fn matchable(name: Seq<char>) -> bool {
    encode_utf8(name).len() < u32::MAX
}

/// Patterns that the matcher takes: those whose UTF-8 form has at most
/// 2^31 - 1 bytes, so that its count of open braces cannot run over.
pub open spec fn usable_pattern(glob: Seq<char>) -> bool {
    encode_utf8(glob).len() <= i32::MAX
}

/// Every pattern of `patterns` is one that the matcher takes.
pub open spec fn usable_patterns(patterns: Seq<String>) -> bool {
    forall|i: int| 0 <= i < patterns.len() ==> usable_pattern(#[trigger] patterns[i]@)
}

/// Whether some pattern of `patterns` matches `name`.
pub open spec fn excluded(name: Seq<char>, patterns: Seq<String>) -> bool {
    exists|i: int| 0 <= i < patterns.len() && glob_matches(#[trigger] patterns[i]@, name)
}

/// Calls `glob_match::glob_match`, with the pattern first and the text that
/// is matched second, and gives its answer, which `glob_matches` names.
///
/// The answer depends on the two strings and on which characters the
/// target platform takes as path separators. That is fixed when the library
/// is built, so two calls on the same strings never differ.
///
/// The matcher keeps positions in the matched text as 32-bit numbers, one
/// past the current byte, so the text has to be shorter than 2^32 - 1
/// bytes. It counts the open braces of the pattern in a signed 32-bit
/// number, so the pattern may have at most 2^31 - 1 bytes.
#[verifier::external_body]
fn glob_match(glob: &str, path: &str) -> (r: bool)
    requires
        usable_pattern(glob@),
        matchable(path@),
    ensures
        r == glob_matches(glob@, path@),
{
    glob_match::glob_match(glob, path)
}

/// Whether an entry with the leaf name `file_name` is left out of a run:
/// it is when at least one of the patterns matches the name.
pub fn is_excluded(file_name: &str, exclude_patterns: &[String]) -> (r: bool)
    requires
        matchable(file_name@),
        usable_patterns(exclude_patterns@),
    ensures
        r == excluded(file_name@, exclude_patterns@),
{
    let mut i: usize = 0;
    while i < exclude_patterns.len()
        invariant
            i <= exclude_patterns@.len(),
            matchable(file_name@),
            usable_patterns(exclude_patterns@),
            forall|j: int| 0 <= j < i ==> !glob_matches(#[trigger] exclude_patterns@[j]@, file_name@),
        decreases exclude_patterns.len() - i,
    {
        if glob_match(exclude_patterns[i].as_str(), file_name) {
            return true;
        }
        i += 1;
    }
    false
}

/// Whether every pattern of `patterns` is one that the matcher takes.
pub fn patterns_usable(patterns: &[String]) -> (r: bool)
    ensures
        r == usable_patterns(patterns@),
{
    let mut i: usize = 0;
    while i < patterns.len()
        invariant
            i <= patterns@.len(),
            forall|j: int| 0 <= j < i ==> usable_pattern(#[trigger] patterns@[j]@),
        decreases patterns.len() - i,
    {
        if patterns[i].as_str().as_bytes().len() > 0x7FFF_FFFF {
            return false;
        }
        i += 1;
    }
    true
}

/// Whether `name` is one that the matcher takes.
pub fn name_matchable(name: &str) -> (r: bool)
    ensures
        r == matchable(name@),
{
    name.as_bytes().len() < 0xFFFF_FFFF
}

/// Whether `file_name` is excluded, for a name and patterns of any length:
/// `None` where the name or one of the patterns is too long for the
/// matcher.
pub fn checked_is_excluded(file_name: &str, exclude_patterns: &[String]) -> (r: Option<bool>)
    ensures
        matchable(file_name@) && usable_patterns(exclude_patterns@) ==> r == Some(
            excluded(file_name@, exclude_patterns@),
        ),
        !(matchable(file_name@) && usable_patterns(exclude_patterns@)) ==> r.is_none(),
{
    if name_matchable(file_name) && patterns_usable(exclude_patterns) {
        Some(is_excluded(file_name, exclude_patterns))
    } else {
        None
    }
}

/// With no pattern nothing is excluded.
pub proof fn lemma_no_pattern_excludes_nothing(name: Seq<char>, patterns: Seq<String>)
    requires
        patterns.len() == 0,
    ensures
        !excluded(name, patterns),
{
}

/// A name is excluded exactly when one of the patterns matches it; which
/// other patterns stand beside that one does not matter.
pub proof fn lemma_excluded_iff_some_pattern_matches(name: Seq<char>, patterns: Seq<String>)
    ensures
        excluded(name, patterns) <==> exists|i: int|
            0 <= i < patterns.len() && glob_matches(#[trigger] patterns[i]@, name),
        forall|i: int|
            0 <= i < patterns.len() && glob_matches(#[trigger] patterns[i]@, name) ==> excluded(
                name,
                patterns,
            ),
{
}

} // verus!

//! Tag and name filtering of tests.

use vstd::prelude::*;
use crate::model::text::{chars_of, contains_exec, contains_seq, lowercase, to_lowercase};
use crate::model::RunnerConfig;

verus! {

/// Some tag of `tags` reads `want`.
pub open spec fn has_tag(tags: Seq<String>, want: Seq<char>) -> bool {
    exists|i: int| 0 <= i < tags.len() && tags[i]@ == want
}

/// The tag rule: every included tag is present and no excluded tag is.
pub open spec fn tags_selected(tags: Seq<String>, wanted: Seq<String>, unwanted: Seq<String>) -> bool {
    &&& forall|i: int| 0 <= i < wanted.len() ==> has_tag(tags, #[trigger] wanted[i]@)
    &&& forall|i: int| 0 <= i < unwanted.len() ==> !has_tag(tags, #[trigger] unwanted[i]@)
}

/// The name rule: no filter, an empty filter, or the filter occurs in the
/// name, both lower-cased.
pub open spec fn name_selected(name: Seq<char>, filter: Option<Seq<char>>) -> bool {
    match filter {
        None => true,
        Some(f) => f.len() == 0 || contains_seq(lowercase(name), lowercase(f)),
    }
}

/// Whether `want` is among `tags`.
pub fn has_tag_exec(tags: &[String], want: &String) -> (r: bool)
    ensures
        r == has_tag(tags@, want@),
{
    let mut i: usize = 0;
    while i < tags.len()
        invariant
            i <= tags.len(),
            forall|j: int| 0 <= j < i ==> tags@[j]@ != want@,
        decreases tags.len() - i,
    {
        if tags[i] == *want {
            return true;
        }
        i = i + 1;
    }
    false
}

/// Returns `true` if a test with the given `tags` should be included in the
/// run according to the filtering rules in `config`.
///
/// A test is included when every tag in `config.include_tags` is present in
/// `tags` (AND semantics) and no tag in `config.exclude_tags` is.
pub fn tags_match(tags: &[String], config: &RunnerConfig) -> (r: bool)
    ensures
        r == tags_selected(tags@, config.include_tags@, config.exclude_tags@),
{
    let mut i: usize = 0;
    while i < config.include_tags.len()
        invariant
            i <= config.include_tags.len(),
            forall|j: int| 0 <= j < i ==> has_tag(tags@, #[trigger] config.include_tags@[j]@),
        decreases config.include_tags.len() - i,
    {
        if !has_tag_exec(tags, &config.include_tags[i]) {
            return false;
        }
        i = i + 1;
    }
    let mut k: usize = 0;
    while k < config.exclude_tags.len()
        invariant
            k <= config.exclude_tags.len(),
            forall|j: int| 0 <= j < config.include_tags.len() ==> has_tag(tags@, #[trigger] config.include_tags@[j]@),
            forall|j: int| 0 <= j < k ==> !has_tag(tags@, #[trigger] config.exclude_tags@[j]@),
        decreases config.exclude_tags.len() - k,
    {
        if has_tag_exec(tags, &config.exclude_tags[k]) {
            return false;
        }
        k = k + 1;
    }
    true
}

/// Returns `true` if a test with the given name passes the filter string.
///
/// When `filter` is `None` or empty, all names match. Matching is
/// case-insensitive substring comparison.
pub fn name_matches(name: &str, filter: Option<&str>) -> (r: bool)
    ensures
        r == name_selected(name@, match filter {
            Some(f) => Some(f@),
            None => None,
        }),
{
    match filter {
        None => true,
        Some(f) => {
            let fv = chars_of(f);
            if fv.len() == 0 {
                return true;
            }
            let lname = to_lowercase(name);
            let lfilter = to_lowercase(f);
            substring_match(lname.as_str(), lfilter.as_str())
        },
    }
}

/// Whether `needle` occurs in `hay` (both already lower-cased by the caller).
pub fn substring_match(hay: &str, needle: &str) -> (r: bool)
    ensures
        r == contains_seq(hay@, needle@),
{
    let h = chars_of(hay);
    let n = chars_of(needle);
    contains_exec(&h, &n)
}

} // verus!

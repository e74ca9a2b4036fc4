//! Glob patterns, compiled and matched by the `globset` crate.
use vstd::prelude::*;

verus! {

/// The message `globset` reports for a pattern it refuses, or `None` for a valid one,
/// with globset's default options for the build target.
pub uninterp spec fn spec_glob_error(pattern: Seq<char>) -> Option<Seq<char>>;

/// Whether `globset` can build a matcher set out of the given patterns (those among
/// them that parse as globs). Building refuses a set whose compiled form is too large.
pub uninterp spec fn spec_glob_set_builds(patterns: Seq<Seq<char>>) -> bool;

/// Whether the set built out of the given patterns matches a path, with globset's
/// default options for the build target.
pub uninterp spec fn spec_glob_set_match(patterns: Seq<Seq<char>>, path: Seq<char>) -> bool;

/// `globset::Glob::new`: the text of the error for a pattern it refuses, `None` when
/// the pattern compiles. The result depends on the pattern alone, for the target the
/// crate is built for: globset's default options treat `\` as an escape on Unix and
/// as a path separator elsewhere, so the name is per target.
#[verifier::external_body]
pub(crate) fn glob_error(pattern: &str) -> (r: Option<String>)
    ensures
        match r {
            Some(m) => spec_glob_error(pattern@) == Some(m@),
            None => spec_glob_error(pattern@) is None,
        },
{
    globset::Glob::new(pattern).err().map(|error| error.to_string())
}

/// `globset::GlobSetBuilder`: adds each pattern that `Glob::new` accepts, then
/// `build()`. When the set cannot be built the result is `None`; otherwise it holds
/// `GlobSet::is_match` on each of the two paths. Both depend on the texts alone, for
/// the target the crate is built for (globset's handling of `\` differs between Unix
/// and other targets; the paths given here already use `/`).
#[verifier::external_body]
pub(crate) fn glob_set_matches(patterns: &Vec<String>, first: &str, second: &str) -> (r: Option<(bool, bool)>)
    ensures
        match r {
            Some((a, b)) => {
                &&& spec_glob_set_builds(patterns@.map_values(|s: String| s@))
                &&& a == spec_glob_set_match(patterns@.map_values(|s: String| s@), first@)
                &&& b == spec_glob_set_match(patterns@.map_values(|s: String| s@), second@)
            },
            None => !spec_glob_set_builds(patterns@.map_values(|s: String| s@)),
        },
{
    let mut builder = globset::GlobSetBuilder::new();
    for pattern in patterns.iter() {
        if let Ok(glob) = globset::Glob::new(pattern) {
            builder.add(glob);
        }
    }
    match builder.build() {
        Ok(set) => Some((set.is_match(first), set.is_match(second))),
        Err(_) => None,
    }
}

} // verus!

//! The decision whether a path is left out of the snapshot.

use vstd::prelude::*;

use crate::path::{path_starts_with, path_under};
use crate::pattern::{regex_finds, IgnorePattern};

verus! {

/// The view of an optional borrowed path.
pub open spec fn opt_view(o: Option<&str>) -> Option<Seq<char>> {
    match o {
        Some(s) => Some(s@),
        None => None,
    }
}

/// The sources of a list of patterns.
pub open spec fn sources(ps: Seq<IgnorePattern>) -> Seq<Seq<char>> {
    ps.map_values(|p: IgnorePattern| p@)
}

/// Some pattern of `patterns` matches somewhere in `path`.
pub open spec fn any_pattern_finds(path: Seq<char>, patterns: Seq<Seq<char>>) -> bool {
    exists|k: int| 0 <= k < patterns.len() && regex_finds(#[trigger] patterns[k], path)
}

/// A path is left out when it is the excluded directory or lies below it,
/// or when one of the patterns matches its text.
pub open spec fn is_ignored(
    path: Seq<char>,
    exclude: Option<Seq<char>>,
    patterns: Seq<Seq<char>>,
) -> bool {
    (exclude matches Some(d) && path_under(path, d)) || any_pattern_finds(path, patterns)
}

/// Whether `path` is left out of the snapshot.
pub fn should_ignore(path: &str, exclude_dir: Option<&str>, ignore_patterns: &[IgnorePattern]) -> (r:
    bool)
    ensures
        r == is_ignored(path@, opt_view(exclude_dir), sources(ignore_patterns@)),
{
    if let Some(d) = exclude_dir {
        if path_starts_with(path, d) {
            return true;
        }
    }
    let ghost ps = sources(ignore_patterns@);
    let mut k: usize = 0;
    while k < ignore_patterns.len()
        invariant
            ps == sources(ignore_patterns@),
            k <= ignore_patterns@.len(),
            forall|j: int| 0 <= j < k ==> !regex_finds(#[trigger] ps[j], path@),
        decreases ignore_patterns@.len() - k,
    {
        if ignore_patterns[k].is_match(path) {
            assert(regex_finds(ps[k as int], path@));
            return true;
        }
        k = k + 1;
    }
    false
}

} // verus!

//! Adult-content source detection and filtering.

use vstd::prelude::*;

use crate::strutil::{contains_seq, contains_str, lower_of, lowercase};

verus! {

/// A source name marks adult content when its lowercased text holds one
/// of the known adult keywords.
pub open spec fn spec_adult_source(source: Seq<char>) -> bool {
    contains_seq(lower_of(source), "adult"@) || contains_seq(lower_of(source), "18+"@)
        || contains_seq(lower_of(source), "nsfw"@) || contains_seq(lower_of(source), "成人"@)
        || contains_seq(lower_of(source), "情色"@) || contains_seq(lower_of(source), "🔞"@)
}

/// Whether a source name marks adult content.
pub fn is_adult_source(source: &str) -> (r: bool)
    ensures
        r == spec_adult_source(source@),
{
    let lower = lowercase(source);
    let l = lower.as_str();
    contains_str(l, "adult") || contains_str(l, "18+") || contains_str(l, "nsfw") || contains_str(
        l,
        "成人",
    ) || contains_str(l, "情色") || contains_str(l, "🔞")
}

/// The indices of the sources kept by the adult filter: all below `n`
/// when the filter is off, else those marked non-adult.
pub open spec fn spec_kept_indices(n: int, is_adult: Seq<bool>, k: int) -> Seq<int>
    decreases k,
{
    if k <= 0 {
        Seq::empty()
    } else if k - 1 < is_adult.len() && !is_adult[k - 1] {
        spec_kept_indices(n, is_adult, k - 1).push(k - 1)
    } else {
        spec_kept_indices(n, is_adult, k - 1)
    }
}

/// Filters a source list by its adult flags, returning the indices that
/// survive: every index when filtering is disabled, else the indices whose
/// flag (where present) is false.
pub fn filter_adult_sources(sources: &[String], is_adult: &[bool], filter_enabled: bool) -> (r:
    Vec<usize>)
    ensures
        !filter_enabled ==> r@.len() == sources@.len() && forall|i: int|
            0 <= i < r@.len() ==> #[trigger] r@[i] == i,
        filter_enabled ==> r@.map_values(|x: usize| x as int) == spec_kept_indices(
            sources@.len() as int,
            is_adult@,
            sources@.len() as int,
        ),
{
    let n = sources.len();
    let mut r: Vec<usize> = Vec::new();
    if !filter_enabled {
        let mut i: usize = 0;
        while i < n
            invariant
                0 <= i <= n,
                r@.len() == i,
                forall|j: int| 0 <= j < i ==> #[trigger] r@[j] == j,
            decreases n - i,
        {
            r.push(i);
            i += 1;
        }
        return r;
    }
    let m = is_adult.len();
    let mut i: usize = 0;
    while i < n
        invariant
            n == sources@.len(),
            m == is_adult@.len(),
            0 <= i <= n,
            r@.map_values(|x: usize| x as int) == spec_kept_indices(
                n as int,
                is_adult@,
                i as int,
            ),
        decreases n - i,
    {
        if i < m && !is_adult[i] {
            r.push(i);
            proof {
                assert(r@.map_values(|x: usize| x as int) =~= spec_kept_indices(
                    n as int,
                    is_adult@,
                    i as int,
                ).push(i as int));
            }
        }
        i += 1;
    }
    r
}

} // verus!

//! Turning an ordered list of separators into adjacent ranges.
//!
//! A list of N separators splits the number line into N + 1 adjacent
//! stretches: one below the first separator, one between each pair of
//! neighbours, and one above the last.  The contracts pin every range
//! end exactly, so the ranges provably tile the line with no gap and no
//! overlap — the totality the bracket search relies on.

use vstd::prelude::*;

verus! {

/// One end of a range: a boundary the range contains, one it does not,
/// or no boundary at all.
#[derive(Debug, Clone, Copy, PartialEq, Eq)]
pub enum Bound<T> {
    Included(T),
    Excluded(T),
    Unbounded,
}

/// The separator below range `i`, if any.
pub open spec fn range_start<T>(separators: Seq<T>, i: int) -> Option<T> {
    if i == 0 {
        None
    } else {
        Some(separators[i - 1])
    }
}

/// The separator above range `i`, if any.
pub open spec fn range_end<T>(separators: Seq<T>, i: int) -> Option<T> {
    if i == separators.len() {
        None
    } else {
        Some(separators[i])
    }
}

/// Pairs each range between consecutive separators with its two
/// optional boundary values: `None` stands for an unbounded end.
pub fn multibound_to_opts_iter<T: Copy>(separators: &Vec<T>) -> (r: Vec<(Option<T>, Option<T>)>)
    ensures
        r@.len() == separators@.len() + 1,
        forall|i: int|
            0 <= i < r@.len() ==> #[trigger] r@[i] == (
                range_start(separators@, i),
                range_end(separators@, i),
            ),
{
    let n = separators.len();
    let mut out: Vec<(Option<T>, Option<T>)> = Vec::new();
    if n == 0 {
        out.push((None, None));
        return out;
    }
    out.push((None, Some(separators[0])));
    let mut i: usize = 1;
    while i < n
        invariant
            1 <= i <= n,
            n == separators@.len(),
            out@.len() == i,
            forall|j: int|
                0 <= j < i ==> #[trigger] out@[j] == (
                    range_start(separators@, j),
                    range_end(separators@, j),
                ),
        decreases n - i,
    {
        out.push((Some(separators[i - 1]), Some(separators[i])));
        i += 1;
    }
    out.push((Some(separators[n - 1]), None));
    out
}

/// Pairs each range with its two `Bound` ends.  With the inclusive
/// convention each separator belongs to the range below it: a range
/// excludes its lower separator and includes its upper one.  The other
/// convention flips both.
pub fn multibound_to_bounds_iter<T: Copy>(separators: &Vec<T>, inclusive_bounds: bool) -> (r: Vec<
    (Bound<T>, Bound<T>),
>)
    ensures
        r@.len() == separators@.len() + 1,
        inclusive_bounds ==> forall|i: int|
            0 <= i < r@.len() ==> #[trigger] r@[i] == (
                match range_start(separators@, i) {
                    Some(v) => Bound::Excluded(v),
                    None => Bound::Unbounded,
                },
                match range_end(separators@, i) {
                    Some(v) => Bound::Included(v),
                    None => Bound::Unbounded,
                },
            ),
        !inclusive_bounds ==> forall|i: int|
            0 <= i < r@.len() ==> #[trigger] r@[i] == (
                match range_start(separators@, i) {
                    Some(v) => Bound::Included(v),
                    None => Bound::Unbounded,
                },
                match range_end(separators@, i) {
                    Some(v) => Bound::Excluded(v),
                    None => Bound::Unbounded,
                },
            ),
{
    let opts = multibound_to_opts_iter(separators);
    let mut out: Vec<(Bound<T>, Bound<T>)> = Vec::new();
    let mut i: usize = 0;
    while i < opts.len()
        invariant
            i <= opts@.len(),
            opts@.len() == separators@.len() + 1,
            out@.len() == i,
            forall|j: int|
                0 <= j < opts@.len() ==> #[trigger] opts@[j] == (
                    range_start(separators@, j),
                    range_end(separators@, j),
                ),
            inclusive_bounds ==> forall|j: int|
                0 <= j < i ==> #[trigger] out@[j] == (
                    match range_start(separators@, j) {
                        Some(v) => Bound::Excluded(v),
                        None => Bound::Unbounded,
                    },
                    match range_end(separators@, j) {
                        Some(v) => Bound::Included(v),
                        None => Bound::Unbounded,
                    },
                ),
            !inclusive_bounds ==> forall|j: int|
                0 <= j < i ==> #[trigger] out@[j] == (
                    match range_start(separators@, j) {
                        Some(v) => Bound::Included(v),
                        None => Bound::Unbounded,
                    },
                    match range_end(separators@, j) {
                        Some(v) => Bound::Excluded(v),
                        None => Bound::Unbounded,
                    },
                ),
        decreases opts@.len() - i,
    {
        let (lo, hi) = opts[i];
        let low_bound = match lo {
            Some(v) => if inclusive_bounds {
                Bound::Excluded(v)
            } else {
                Bound::Included(v)
            },
            None => Bound::Unbounded,
        };
        let high_bound = match hi {
            Some(v) => if inclusive_bounds {
                Bound::Included(v)
            } else {
                Bound::Excluded(v)
            },
            None => Bound::Unbounded,
        };
        out.push((low_bound, high_bound));
        i += 1;
    }
    out
}

} // verus!

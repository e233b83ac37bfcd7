//! Checks of the bound pairing: each separator list yields adjacent
//! ranges covering the whole line.

use tax_brackets::bounds::{multibound_to_bounds_iter, multibound_to_opts_iter, Bound};

#[test]
fn empty_separator_list_gives_one_unbounded_range() {
    let opts = multibound_to_opts_iter::<u64>(&Vec::new());
    assert_eq!(opts, vec![(None, None)]);
    let bounds = multibound_to_bounds_iter::<u64>(&Vec::new(), true);
    assert_eq!(bounds, vec![(Bound::Unbounded, Bound::Unbounded)]);
}

#[test]
fn option_pairs_tile_the_line() {
    let opts = multibound_to_opts_iter(&vec![10u64, 20, 30]);
    assert_eq!(
        opts,
        vec![
            (None, Some(10)),
            (Some(10), Some(20)),
            (Some(20), Some(30)),
            (Some(30), None),
        ]
    );
}

#[test]
fn inclusive_convention_closes_ranges_above() {
    let bounds = multibound_to_bounds_iter(&vec![10u64, 20], true);
    assert_eq!(
        bounds,
        vec![
            (Bound::Unbounded, Bound::Included(10)),
            (Bound::Excluded(10), Bound::Included(20)),
            (Bound::Excluded(20), Bound::Unbounded),
        ]
    );
}

#[test]
fn exclusive_convention_closes_ranges_below() {
    let bounds = multibound_to_bounds_iter(&vec![10u64, 20], false);
    assert_eq!(
        bounds,
        vec![
            (Bound::Unbounded, Bound::Excluded(10)),
            (Bound::Included(10), Bound::Excluded(20)),
            (Bound::Included(20), Bound::Unbounded),
        ]
    );
}

#[test]
fn every_value_falls_in_exactly_one_inclusive_range() {
    let separators = vec![10u64, 20, 30];
    let bounds = multibound_to_bounds_iter(&separators, true);
    for value in [0u64, 9, 10, 11, 20, 25, 30, 31, 1_000] {
        let mut containing: u32 = 0;
        for (lo, hi) in &bounds {
            let above = match lo {
                Bound::Excluded(b) => value > *b,
                Bound::Included(b) => value >= *b,
                Bound::Unbounded => true,
            };
            let below = match hi {
                Bound::Included(b) => value <= *b,
                Bound::Excluded(b) => value < *b,
                Bound::Unbounded => true,
            };
            if above && below {
                containing += 1;
            }
        }
        assert_eq!(containing, 1);
    }
}

//! Human-scaled byte counts in decimal units.

use vstd::prelude::*;

verus! {

/// The scaled value and unit suffix of a byte count: the largest of
/// G (10^9), M (10^6) and K (10^3) that the count reaches, else B,
/// with truncating division.
pub open spec fn human_size_spec(size: nat) -> (nat, char) {
    if size >= 1_000_000_000 {
        (size / 1_000_000_000, 'G')
    } else if size >= 1_000_000 {
        (size / 1_000_000, 'M')
    } else if size >= 1000 {
        (size / 1000, 'K')
    } else {
        (size, 'B')
    }
}

/// Converts a byte count into a scaled value and its unit suffix.
pub fn to_human_size(size: usize) -> (r: (usize, char))
    ensures
        (r.0 as nat, r.1) == human_size_spec(size as nat),
{
    if size >= 1_000_000_000 {
        (size / 1_000_000_000, 'G')
    } else if size >= 1_000_000 {
        (size / 1_000_000, 'M')
    } else if size >= 1000 {
        (size / 1000, 'K')
    } else {
        (size, 'B')
    }
}

} // verus!

//! Human-friendly string comparison, from the `human_sort` crate.
use vstd::prelude::*;
use std::cmp::Ordering;
use crate::text::digit_runs_fit;

verus! {

/// The sign (-1, 0 or 1) of `human_sort::compare` on two strings.
pub uninterp spec fn human_order(a: Seq<char>, b: Seq<char>) -> i8;

/// `human_sort::compare`: compares character by character, and runs of digits
/// by their numeric value; when that finds no difference it falls back to
/// the plain string order. So it answers `Equal` exactly on equal strings,
/// and swapping the strings swaps `Less` and `Greater` (the comparison
/// treats both sides alike).
/// Where the strings first differ in two digits, it reads the run of digits
/// that starts there in each string as a `u32`, which overflows (and
/// panics in debug builds) only when such a run stands for a larger
/// number; `requires` leaves out strings with a run of digits past
/// `u32::MAX`.
#[verifier::external_body]
pub fn human_compare(a: &str, b: &str) -> (r: i8)
    requires
        digit_runs_fit(a@),
        digit_runs_fit(b@),
    ensures
        r == human_order(a@, b@),
        r == -human_order(b@, a@),
        -1 <= r <= 1,
        (r == 0) == (a@ == b@),
{
    match human_sort::compare(a, b) {
        Ordering::Less => -1,
        Ordering::Equal => 0,
        Ordering::Greater => 1,
    }
}

} // verus!

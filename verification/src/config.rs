//! Thresholds of the tree rendering, and the exact comparison of a node's
//! share of the root's time against them.

use vstd::prelude::*;
use crate::text::{round_half_even, rounded_div};

verus! {

/// A percentage held exactly, as a whole number of millionths of one percent.
/// It may be negative: a threshold below zero is one that every share exceeds.
#[derive(Clone, Copy, Debug, PartialEq, Eq, Structural)]
pub struct Percent {
    pub millionths: i64,
}

impl Percent {
    /// `n` percent.
    pub fn whole(n: i32) -> (r: Self)
        ensures
            r.millionths == n * 1_000_000,
    {
        Percent { millionths: (n as i64) * 1_000_000 }
    }

    /// `n` hundredths of one percent.
    pub fn hundredths(n: i32) -> (r: Self)
        ensures
            r.millionths == n * 10_000,
    {
        Percent { millionths: (n as i64) * 10_000 }
    }

    /// `n` millionths of one percent.
    pub fn from_millionths(n: i64) -> (r: Self)
        ensures
            r.millionths == n,
    {
        Percent { millionths: n }
    }
}

/// How a rendered tree is toned down.
#[derive(Clone, Copy, Debug)]
pub struct Config {
    /// A node whose share of the root's time is above this is shown in bold red.
    pub attention_above_percent: Percent,
    /// A node whose share is above this is shown in the regular colour, any
    /// other dimmed; among adjacent siblings of one name, those not above it
    /// are merged.
    pub relevant_above_percent: Percent,
    /// A node whose share is below this is collapsed into `[...]`. This is
    /// looked at after the merging of same-named siblings. Nothing is
    /// collapsed unless it is above zero.
    pub hide_below_percent: Percent,
    /// Whether the time of a parent that none of its children accounts for is
    /// shown as `[unaccounted]`.
    pub display_unaccounted: bool,
}

impl Default for Config {
    /// Attention above 25 %, relevant above 2.5 %, hidden below 1 %, and no
    /// unaccounted time shown.
    fn default() -> (r: Self)
        ensures
            r.attention_above_percent.millionths == 25_000_000,
            r.relevant_above_percent.millionths == 2_500_000,
            r.hide_below_percent.millionths == 1_000_000,
            !r.display_unaccounted,
    {
        Config {
            attention_above_percent: Percent { millionths: 25_000_000 },
            relevant_above_percent: Percent { millionths: 2_500_000 },
            hide_below_percent: Percent { millionths: 1_000_000 },
            display_unaccounted: false,
        }
    }
}

/// Whether `duration` is strictly more than `threshold` percent of `root`.
/// The share of anything in a root of no duration counts as zero.
pub open spec fn share_above(duration: nat, root: nat, threshold: Percent) -> bool {
    if root == 0 {
        0 > threshold.millionths
    } else {
        100_000_000 * duration > threshold.millionths * root
    }
}

/// Whether `duration` is strictly less than `threshold` percent of `root`.
/// The share of anything in a root of no duration counts as zero.
pub open spec fn share_below(duration: nat, root: nat, threshold: Percent) -> bool {
    if root == 0 {
        0 < threshold.millionths
    } else {
        100_000_000 * duration < threshold.millionths * root
    }
}

/// `duration` as a percentage of `root`, in hundredths of one percent, rounded
/// to the nearest hundredth and on a tie to the even one; zero where `root` is
/// zero.
pub open spec fn percent_hundredths(duration: nat, root: nat) -> nat {
    if root == 0 {
        0
    } else {
        round_half_even(10_000 * duration, root)
    }
}

/// A duration is exactly one hundred percent of itself, and any duration is
/// zero percent of a root of no duration.
pub proof fn lemma_percent_of_whole_and_of_nothing(duration: nat, root: nat)
    ensures
        root > 0 && duration == root ==> percent_hundredths(duration, root) == 10_000,
        root == 0 ==> percent_hundredths(duration, root) == 0,
        percent_hundredths(duration, root) >= 0,
{
    if root > 0 && duration == root {
        assert((10_000 * root) / root == 10_000 && (10_000 * root) % root == 0) by (nonlinear_arith)
            requires
                root > 0,
        ;
    }
}

/// Whether `duration` is strictly more than `threshold` percent of `root`.
pub fn is_share_above(duration: u64, root: u64, threshold: Percent) -> (r: bool)
    ensures
        r == share_above(duration as nat, root as nat, threshold),
{
    if root == 0 {
        threshold.millionths < 0
    } else {
        let t: i128 = threshold.millionths as i128;
        let whole: i128 = root as i128;
        assert(-0x8000_0000_0000_0000_0000_0000_0000_0000 <= t * whole
            < 0x8000_0000_0000_0000_0000_0000_0000_0000) by (nonlinear_arith)
            requires
                -0x8000_0000_0000_0000 <= t < 0x8000_0000_0000_0000,
                0 <= whole < 0x1_0000_0000_0000_0000,
        ;
        100_000_000 * (duration as i128) > t * whole
    }
}

/// Whether `duration` is strictly less than `threshold` percent of `root`.
pub fn is_share_below(duration: u64, root: u64, threshold: Percent) -> (r: bool)
    ensures
        r == share_below(duration as nat, root as nat, threshold),
{
    if root == 0 {
        threshold.millionths > 0
    } else {
        let t: i128 = threshold.millionths as i128;
        let whole: i128 = root as i128;
        assert(-0x8000_0000_0000_0000_0000_0000_0000_0000 <= t * whole
            < 0x8000_0000_0000_0000_0000_0000_0000_0000) by (nonlinear_arith)
            requires
                -0x8000_0000_0000_0000 <= t < 0x8000_0000_0000_0000,
                0 <= whole < 0x1_0000_0000_0000_0000,
        ;
        100_000_000 * (duration as i128) < t * whole
    }
}

/// `duration` as a percentage of `root`, in hundredths of one percent.
pub fn share_hundredths(duration: u64, root: u64) -> (r: u128)
    ensures
        r == percent_hundredths(duration as nat, root as nat),
{
    if root == 0 {
        0
    } else {
        rounded_div(10_000 * (duration as u128), root as u128)
    }
}

} // verus!

//! Algorithm selector: which problem classes a round should work on, from
//! the number of solutions that each class has had accepted so far.
//!
//! Three policies are offered, and the caller names the one it wants. Classes
//! are numbered by their place in the configuration, and a policy answers
//! with one flag for each class. A policy that picks no class gives way to
//! "every class": a round always has work.

use vstd::prelude::*;

verus! {

/// A policy never puts the baseline cutoff below this count.
pub const MIN_CUTOFF: u32 = 3;

/// How the classes of a round are picked.
#[derive(Clone, Copy, Debug, PartialEq, Eq, Structural)]
pub enum SelectionPolicy {
    /// Every class whose count is below the cutoff, which is the smallest
    /// count times `cutoff_multiplier_percent / 100`, rounded up, and at
    /// least `MIN_CUTOFF`.
    Baseline { cutoff_multiplier_percent: u32 },
    /// Every class whose count is more than `tolerance_percent` per cent
    /// below the mean count; if there is none, the baseline policy.
    Relative { tolerance_percent: u32, cutoff_multiplier_percent: u32 },
    /// The first class among those with the smallest count.
    SinglePick,
}

/// The smallest of `counts`, and 0 if there is none.
pub open spec fn min_count(counts: Seq<u32>) -> int
    decreases counts.len(),
{
    if counts.len() == 0 {
        0
    } else if counts.len() == 1 {
        counts[0] as int
    } else {
        let before = min_count(counts.drop_last());
        if counts.last() < before {
            counts.last() as int
        } else {
            before
        }
    }
}

/// The sum of `counts`.
pub open spec fn total_count(counts: Seq<u32>) -> int
    decreases counts.len(),
{
    if counts.len() == 0 {
        0
    } else {
        total_count(counts.drop_last()) + counts.last()
    }
}

/// The baseline cutoff for the smallest count `min`.
pub open spec fn baseline_cutoff(min: int, cutoff_multiplier_percent: int) -> int {
    let raised = (min * cutoff_multiplier_percent + 99) / 100;
    if raised < MIN_CUTOFF {
        MIN_CUTOFF as int
    } else {
        raised
    }
}

/// Whether the baseline policy picks class `i`.
pub open spec fn baseline_picks(counts: Seq<u32>, cutoff_multiplier_percent: u32, i: int) -> bool {
    counts[i] < baseline_cutoff(min_count(counts), cutoff_multiplier_percent as int)
}

/// Whether the count of class `i` lies below the mean count less
/// `tolerance_percent` per cent of it. Both sides of the comparison are
/// scaled by the number of classes and by 100, so that no division is left.
pub open spec fn relative_picks(counts: Seq<u32>, tolerance_percent: u32, i: int) -> bool {
    counts[i] * counts.len() * 100 < total_count(counts) * (100 - tolerance_percent)
}

/// Whether class `i` is the first of those with the smallest count.
pub open spec fn single_pick(counts: Seq<u32>, i: int) -> bool {
    &&& counts[i] == min_count(counts)
    &&& forall|j: int| 0 <= j < i ==> #[trigger] counts[j] != min_count(counts)
}

/// Whether some class has its flag set.
pub open spec fn any_set(flags: Seq<bool>) -> bool {
    exists|j: int| 0 <= j < flags.len() && #[trigger] flags[j]
}

/// The flags of the baseline policy.
pub open spec fn baseline_flags(counts: Seq<u32>, cutoff_multiplier_percent: u32) -> Seq<bool> {
    Seq::new(counts.len(), |i: int| baseline_picks(counts, cutoff_multiplier_percent, i))
}

/// The flags of the relative comparison alone.
pub open spec fn relative_flags(counts: Seq<u32>, tolerance_percent: u32) -> Seq<bool> {
    Seq::new(counts.len(), |i: int| relative_picks(counts, tolerance_percent, i))
}

/// The flags of the single pick.
pub open spec fn single_pick_flags(counts: Seq<u32>) -> Seq<bool> {
    Seq::new(counts.len(), |i: int| single_pick(counts, i))
}

/// The flags of `policy`, before the rule that a round always has work.
pub open spec fn policy_flags(policy: SelectionPolicy, counts: Seq<u32>) -> Seq<bool> {
    match policy {
        SelectionPolicy::Baseline { cutoff_multiplier_percent } => baseline_flags(
            counts,
            cutoff_multiplier_percent,
        ),
        SelectionPolicy::Relative { tolerance_percent, cutoff_multiplier_percent } => if any_set(
            relative_flags(counts, tolerance_percent),
        ) {
            relative_flags(counts, tolerance_percent)
        } else {
            baseline_flags(counts, cutoff_multiplier_percent)
        },
        SelectionPolicy::SinglePick => single_pick_flags(counts),
    }
}

/// The classes of a round: those that `policy` picks, and every class if it
/// picks none.
pub open spec fn selected_flags(policy: SelectionPolicy, counts: Seq<u32>) -> Seq<bool> {
    if any_set(policy_flags(policy, counts)) {
        policy_flags(policy, counts)
    } else {
        Seq::new(counts.len(), |i: int| true)
    }
}

/// The smallest count is at most every count, and it is one of them.
pub proof fn lemma_min_count(counts: Seq<u32>)
    ensures
        forall|i: int| 0 <= i < counts.len() ==> min_count(counts) <= #[trigger] counts[i],
        counts.len() > 0 ==> exists|i: int|
            0 <= i < counts.len() && #[trigger] counts[i] == min_count(counts),
        0 <= min_count(counts) <= u32::MAX,
    decreases counts.len(),
{
    if counts.len() == 1 {
        assert(counts[0] == min_count(counts));
    } else if counts.len() > 1 {
        let before = counts.drop_last();
        lemma_min_count(before);
        assert forall|i: int| 0 <= i < counts.len() implies min_count(counts) <= #[trigger] counts[i] by {
            if i < before.len() {
                assert(before[i] == counts[i]);
            }
        }
        if counts.last() < min_count(before) {
            assert(counts[counts.len() - 1] == min_count(counts));
        } else {
            let i = choose|i: int| 0 <= i < before.len() && #[trigger] before[i] == min_count(before);
            assert(counts[i] == min_count(counts));
        }
    }
}

/// The sum of counts is at most their number times the largest count that
/// the type holds.
pub proof fn lemma_total_count_bound(counts: Seq<u32>)
    ensures
        0 <= total_count(counts) <= counts.len() * u32::MAX,
    decreases counts.len(),
{
    if counts.len() > 0 {
        lemma_total_count_bound(counts.drop_last());
        assert((counts.len() - 1) * u32::MAX + u32::MAX == counts.len() * u32::MAX)
            by (nonlinear_arith);
    }
}

/// The single pick names exactly one class, if there is a class at all.
pub proof fn lemma_single_pick_unique(counts: Seq<u32>, i: int, j: int)
    requires
        0 <= i < counts.len(),
        0 <= j < counts.len(),
        single_pick(counts, i),
        single_pick(counts, j),
    ensures
        i == j,
{
}

/// The class that the single pick names: the first of those with the
/// smallest count.
pub open spec fn first_min_index(counts: Seq<u32>) -> int {
    choose|i: int| 0 <= i < counts.len() && single_pick(counts, i)
}

/// The smallest of `counts`.
pub fn smallest_count(counts: &Vec<u32>) -> (min: u32)
    ensures
        min == min_count(counts@),
{
    let mut min: u32 = 0;
    let mut i: usize = 0;
    while i < counts.len()
        invariant
            i <= counts.len(),
            min == min_count(counts@.take(i as int)),
        decreases counts.len() - i,
    {
        assert(counts@.take(i + 1).drop_last() =~= counts@.take(i as int));
        if i == 0 || counts[i] < min {
            min = counts[i];
        }
        i = i + 1;
    }
    assert(counts@.take(i as int) =~= counts@);
    min
}

/// The sum of `counts`.
pub fn sum_counts(counts: &Vec<u32>) -> (total: u128)
    ensures
        total == total_count(counts@),
{
    let mut total: u128 = 0;
    let mut i: usize = 0;
    while i < counts.len()
        invariant
            i <= counts.len(),
            total == total_count(counts@.take(i as int)),
            total <= i * u32::MAX,
        decreases counts.len() - i,
    {
        assert(counts@.take(i + 1).drop_last() =~= counts@.take(i as int));
        assert(i * u32::MAX + u32::MAX == (i + 1) * u32::MAX) by (nonlinear_arith);
        assert((i + 1) * u32::MAX <= usize::MAX * u32::MAX) by (nonlinear_arith)
            requires
                i + 1 <= usize::MAX,
        ;
        assert(usize::MAX * u32::MAX <= 0xffff_ffff_ffff_ffff * 0xffff_ffff) by (nonlinear_arith);
        total = total + counts[i] as u128;
        i = i + 1;
    }
    assert(counts@.take(i as int) =~= counts@);
    total
}

/// Whether some flag is set.
pub fn some_set(flags: &Vec<bool>) -> (found: bool)
    ensures
        found == any_set(flags@),
{
    let mut i: usize = 0;
    while i < flags.len()
        invariant
            i <= flags.len(),
            forall|j: int| 0 <= j < i ==> !flags@[j],
        decreases flags.len() - i,
    {
        if flags[i] {
            return true;
        }
        i = i + 1;
    }
    false
}

/// The classes that the baseline policy picks.
pub fn select_baseline(counts: &Vec<u32>, cutoff_multiplier_percent: u32) -> (flags: Vec<bool>)
    ensures
        flags@ == baseline_flags(counts@, cutoff_multiplier_percent),
{
    let min = smallest_count(counts);
    proof {
        lemma_min_count(counts@);
    }
    assert(min * cutoff_multiplier_percent <= 0xffff_ffff * 0xffff_ffff) by (nonlinear_arith)
        requires
            0 <= min <= 0xffff_ffff,
            0 <= cutoff_multiplier_percent <= 0xffff_ffff,
    ;
    let raised: u128 = (min as u128 * cutoff_multiplier_percent as u128 + 99) / 100;
    let cutoff: u128 = if raised < MIN_CUTOFF as u128 {
        MIN_CUTOFF as u128
    } else {
        raised
    };
    assert(cutoff == baseline_cutoff(min_count(counts@), cutoff_multiplier_percent as int));
    let mut flags: Vec<bool> = Vec::new();
    let mut i: usize = 0;
    while i < counts.len()
        invariant
            i <= counts.len(),
            flags@.len() == i,
            cutoff == baseline_cutoff(min_count(counts@), cutoff_multiplier_percent as int),
            forall|j: int| 0 <= j < i ==> flags@[j] == baseline_picks(counts@, cutoff_multiplier_percent, j),
        decreases counts.len() - i,
    {
        flags.push((counts[i] as u128) < cutoff);
        i = i + 1;
    }
    assert(flags@ =~= baseline_flags(counts@, cutoff_multiplier_percent));
    flags
}

/// The classes whose count lies more than `tolerance_percent` per cent below
/// the mean count.
pub fn select_relative(counts: &Vec<u32>, tolerance_percent: u32) -> (flags: Vec<bool>)
    ensures
        flags@ == relative_flags(counts@, tolerance_percent),
{
    let total = sum_counts(counts);
    let classes: u128 = counts.len() as u128;
    proof {
        lemma_total_count_bound(counts@);
        assert(counts@.len() * u32::MAX <= 0xffff_ffff_ffff_ffff * 0xffff_ffff) by (nonlinear_arith)
            requires
                counts@.len() <= 0xffff_ffff_ffff_ffff,
        ;
    }
    let mut flags: Vec<bool> = Vec::new();
    let mut i: usize = 0;
    while i < counts.len()
        invariant
            i <= counts.len(),
            flags@.len() == i,
            classes == counts@.len(),
            total == total_count(counts@),
            total <= 0xffff_ffff_ffff_ffff * 0xffff_ffff,
            forall|j: int| 0 <= j < i ==> flags@[j] == relative_picks(counts@, tolerance_percent, j),
        decreases counts.len() - i,
    {
        let picked = if tolerance_percent > 100 {
            assert(total_count(counts@) * (100 - tolerance_percent) <= 0) by (nonlinear_arith)
                requires
                    total_count(counts@) >= 0,
                    100 - tolerance_percent < 0,
            ;
            assert(counts@[i as int] * counts@.len() * 100 >= 0) by (nonlinear_arith)
                requires
                    counts@[i as int] >= 0,
                    counts@.len() >= 0,
            ;
            false
        } else {
            let weight: u128 = (100 - tolerance_percent) as u128;
            let count: u128 = counts[i] as u128;
            assert(count * classes <= 0xffff_ffff * 0xffff_ffff_ffff_ffff) by (nonlinear_arith)
                requires
                    0 <= count <= 0xffff_ffff,
                    0 <= classes <= 0xffff_ffff_ffff_ffff,
            ;
            assert(total * weight <= 0xffff_ffff_ffff_ffff * 0xffff_ffff * 100) by (nonlinear_arith)
                requires
                    0 <= total <= 0xffff_ffff_ffff_ffff * 0xffff_ffff,
                    0 <= weight <= 100,
            ;
            count * classes * 100 < total * weight
        };
        flags.push(picked);
        i = i + 1;
    }
    assert(flags@ =~= relative_flags(counts@, tolerance_percent));
    flags
}

/// The first class among those with the smallest count.
pub fn select_single(counts: &Vec<u32>) -> (flags: Vec<bool>)
    ensures
        flags@ == single_pick_flags(counts@),
{
    let min = smallest_count(counts);
    let mut flags: Vec<bool> = Vec::new();
    let mut found = false;
    let mut i: usize = 0;
    while i < counts.len()
        invariant
            i <= counts.len(),
            flags@.len() == i,
            min == min_count(counts@),
            found == (exists|j: int| 0 <= j < i && #[trigger] counts@[j] == min),
            forall|j: int| 0 <= j < i ==> flags@[j] == single_pick(counts@, j),
        decreases counts.len() - i,
    {
        let picked = !found && counts[i] == min;
        flags.push(picked);
        if counts[i] == min {
            found = true;
        }
        i = i + 1;
    }
    assert(flags@ =~= single_pick_flags(counts@));
    flags
}

/// The class that the single pick names.
pub fn single_pick_index(counts: &Vec<u32>) -> (index: usize)
    requires
        counts@.len() > 0,
    ensures
        index < counts@.len(),
        single_pick(counts@, index as int),
        index == first_min_index(counts@),
{
    let min = smallest_count(counts);
    proof {
        lemma_min_count(counts@);
    }
    let mut i: usize = 0;
    while counts[i] != min
        invariant
            i < counts.len(),
            min == min_count(counts@),
            exists|j: int| 0 <= j < counts@.len() && #[trigger] counts@[j] == min,
            forall|j: int| 0 <= j < i ==> #[trigger] counts@[j] != min,
        decreases counts.len() - i,
    {
        i = i + 1;
    }
    proof {
        let other = first_min_index(counts@);
        assert(single_pick(counts@, i as int));
        lemma_single_pick_unique(counts@, i as int, other);
    }
    i
}

/// The classes of a round under `policy`: one flag for each class, in the
/// order of `counts`.
pub fn select_classes(policy: SelectionPolicy, counts: &Vec<u32>) -> (flags: Vec<bool>)
    ensures
        flags@ == selected_flags(policy, counts@),
{
    let picked = match policy {
        SelectionPolicy::Baseline { cutoff_multiplier_percent } => select_baseline(
            counts,
            cutoff_multiplier_percent,
        ),
        SelectionPolicy::Relative { tolerance_percent, cutoff_multiplier_percent } => {
            let relative = select_relative(counts, tolerance_percent);
            if some_set(&relative) {
                relative
            } else {
                select_baseline(counts, cutoff_multiplier_percent)
            }
        },
        SelectionPolicy::SinglePick => select_single(counts),
    };
    if some_set(&picked) {
        picked
    } else {
        let mut flags: Vec<bool> = Vec::new();
        let mut i: usize = 0;
        while i < counts.len()
            invariant
                i <= counts.len(),
                flags@.len() == i,
                forall|j: int| 0 <= j < i ==> flags@[j],
            decreases counts.len() - i,
        {
            flags.push(true);
            i = i + 1;
        }
        assert(flags@ =~= Seq::new(counts@.len(), |i: int| true));
        flags
    }
}

} // verus!

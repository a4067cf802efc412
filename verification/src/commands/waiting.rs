//! The waiting area of the compare command: up to two directories that wait
//! to be compared.

use vstd::prelude::*;
use crate::text::{chars_of, string_of};
use crate::paths::{join_path, join_spec};
use crate::order::{same_path, same_path_exec, texts, holds_path};

verus! {

/// What the compare command does next, given the waiting area and its arguments.
#[derive(Debug)]
pub enum PendingPlan {
    /// A subdirectory of `originSource` was asked for, but the waiting
    /// area does not hold exactly two directories; it holds `count`.
    SubpathNeedsTwo { count: usize },
    /// Compare the subdirectory in both waiting directories.
    CompareSubpath { dir_a: String, dir_b: String },
    /// No directory was given: compare the two waiting directories.
    CompareWaiting { dir_a: String, dir_b: String },
    /// No directory was given and the waiting area does not hold two; it holds `count`.
    NotEnoughWaiting { count: usize },
    /// The directory was added as the `slot`-th; the waiting area is now
    /// `pending`. When `ask_to_compare`, offer to compare the two.
    Added { pending: Vec<String>, slot: usize, ask_to_compare: bool },
    /// The directory already waits. When `ask_to_compare`, offer to compare the two.
    AlreadyWaiting { ask_to_compare: bool },
    /// The waiting area is full and the directory is not in it: ask what to do.
    Full,
}

/// Whether no two entries of `s` are the same path.
pub open spec fn distinct_paths(s: Seq<Seq<char>>) -> bool {
    forall|i: int, j: int| 0 <= i < j < s.len() ==> !same_path(#[trigger] s[i], #[trigger] s[j])
}

/// The path of the subdirectory `sub` of `originSource` in the directory `dir`.
pub open spec fn origin_subpath(dir: Seq<char>, sub: Seq<char>) -> Seq<char> {
    join_spec(join_spec(dir, "originSource"@), sub)
}

/// The plan as plain values, for the statement of what `plan_compare` does.
pub open spec fn plan_ok(p: PendingPlan, pending: Seq<Seq<char>>, target: Option<Seq<char>>, sub: Option<Seq<char>>) -> bool {
    match sub {
        Some(sv) => if pending.len() != 2 {
            p == PendingPlan::SubpathNeedsTwo { count: pending.len() as usize }
        } else {
            p matches PendingPlan::CompareSubpath { dir_a, dir_b }
                && dir_a@ == origin_subpath(pending[0], sv) && dir_b@ == origin_subpath(pending[1], sv)
        },
        None => match target {
            None => if pending.len() == 2 {
                p matches PendingPlan::CompareWaiting { dir_a, dir_b } && dir_a@ == pending[0] && dir_b@ == pending[1]
            } else {
                p == PendingPlan::NotEnoughWaiting { count: pending.len() as usize }
            },
            Some(t) => if pending.len() == 0 {
                p matches PendingPlan::Added { pending: np, slot, ask_to_compare }
                    && texts(np@) == seq![t] && slot == 1 && !ask_to_compare
            } else if pending.len() == 1 {
                if same_path(pending[0], t) {
                    p == PendingPlan::AlreadyWaiting { ask_to_compare: false }
                } else {
                    p matches PendingPlan::Added { pending: np, slot, ask_to_compare }
                        && texts(np@) == pending.push(t) && slot == 2 && ask_to_compare
                }
            } else if holds_path(pending, t) {
                p == PendingPlan::AlreadyWaiting { ask_to_compare: true }
            } else {
                p is Full
            },
        },
    }
}

/// What to do with the waiting area and the compare arguments: the
/// directory `target` (already made absolute) to add, or, with `sub`, a
/// subdirectory of `originSource` to compare in both waiting directories.
pub fn plan_compare(pending: &Vec<String>, target: Option<&str>, sub: Option<&str>) -> (r: PendingPlan)
    ensures
        plan_ok(r, texts(pending@), match target { Some(t) => Some(t@), None => None }, match sub { Some(x) => Some(x@), None => None }),
{
    let ghost pv = texts(pending@);
    match sub {
        Some(s) => {
            if pending.len() != 2 {
                return PendingPlan::SubpathNeedsTwo { count: pending.len() };
            }
            let a = join_path(pending[0].as_str(), "originSource");
            let b = join_path(pending[1].as_str(), "originSource");
            let dir_a = join_path(a.as_str(), s);
            let dir_b = join_path(b.as_str(), s);
            assert(pv[0] == pending@[0]@ && pv[1] == pending@[1]@);
            PendingPlan::CompareSubpath { dir_a, dir_b }
        },
        None => match target {
            None => {
                if pending.len() == 2 {
                    assert(pv[0] == pending@[0]@ && pv[1] == pending@[1]@);
                    PendingPlan::CompareWaiting { dir_a: pending[0].clone(), dir_b: pending[1].clone() }
                } else {
                    PendingPlan::NotEnoughWaiting { count: pending.len() }
                }
            },
            Some(t) => {
                let owned = string_of(chars_of(t).as_slice());
                if pending.len() == 0 {
                    let mut np: Vec<String> = Vec::new();
                    np.push(owned);
                    assert(texts(np@) =~= seq![t@]);
                    PendingPlan::Added { pending: np, slot: 1, ask_to_compare: false }
                } else if pending.len() == 1 {
                    assert(pv[0] == pending@[0]@);
                    if same_path_exec(pending[0].as_str(), t) {
                        PendingPlan::AlreadyWaiting { ask_to_compare: false }
                    } else {
                        let mut np: Vec<String> = Vec::new();
                        np.push(pending[0].clone());
                        np.push(owned);
                        assert(texts(np@) =~= pv.push(t@));
                        PendingPlan::Added { pending: np, slot: 2, ask_to_compare: true }
                    }
                } else {
                    let mut i: usize = 0;
                    while i < pending.len()
                        invariant
                            i <= pending.len(),
                            pending.len() >= 2,
                            sub is None,
                            target == Some(t),
                            pv == texts(pending@),
                            forall|m: int| 0 <= m < i ==> !same_path(#[trigger] pv[m], t@),
                        decreases pending.len() - i,
                    {
                        if same_path_exec(pending[i].as_str(), t) {
                            assert(same_path(pv[i as int], t@));
                            return PendingPlan::AlreadyWaiting { ask_to_compare: true };
                        }
                        i = i + 1;
                    }
                    PendingPlan::Full
                }
            },
        },
    }
}

/// What the user may choose when the waiting area is full.
#[derive(Debug, Clone, Copy, PartialEq, Eq, Structural)]
pub enum FullChoice {
    ReplaceFirst,
    ReplaceSecond,
    ClearAndAdd,
    StartComparison,
    Cancel,
}

/// What comes of a choice made when the waiting area was full.
#[derive(Debug)]
pub enum FullOutcome {
    /// One of the two was replaced; the waiting area is now this.
    Updated(Vec<String>),
    /// The waiting area was emptied and the directory added; it is now this.
    Cleared(Vec<String>),
    /// Compare the two waiting directories.
    Compare { dir_a: String, dir_b: String },
    /// Nothing changes.
    Cancelled,
}

/// The outcome of `choice` for the full waiting area `pending` and the new directory `target`.
pub open spec fn outcome_ok(o: FullOutcome, pending: Seq<Seq<char>>, target: Seq<char>, choice: FullChoice) -> bool {
    match choice {
        FullChoice::ReplaceFirst => o matches FullOutcome::Updated(np) && texts(np@) == pending.update(0, target),
        FullChoice::ReplaceSecond => o matches FullOutcome::Updated(np) && texts(np@) == pending.update(1, target),
        FullChoice::ClearAndAdd => o matches FullOutcome::Cleared(np) && texts(np@) == seq![target],
        FullChoice::StartComparison => o matches FullOutcome::Compare { dir_a, dir_b } && dir_a@ == pending[0] && dir_b@ == pending[1],
        FullChoice::Cancel => o is Cancelled,
    }
}

fn clone_strings(v: &Vec<String>) -> (r: Vec<String>)
    ensures
        r.len() == v.len(),
        texts(r@) == texts(v@),
{
    let mut r: Vec<String> = Vec::new();
    let mut i: usize = 0;
    while i < v.len()
        invariant
            i <= v.len(),
            r.len() == i,
            texts(r@) == texts(v@).take(i as int),
        decreases v.len() - i,
    {
        let ghost before = r@;
        r.push(v[i].clone());
        assert(texts(r@) =~= texts(before).push(v@[i as int]@));
        assert(texts(v@).take(i + 1) =~= texts(v@).take(i as int).push(v@[i as int]@));
        i = i + 1;
    }
    assert(texts(v@).take(v.len() as int) =~= texts(v@));
    r
}

/// What comes of `choice` when the waiting area `pending` is full and `target` is not in it.
pub fn apply_full_choice(pending: &Vec<String>, target: &str, choice: FullChoice) -> (r: FullOutcome)
    requires
        pending.len() >= 2,
    ensures
        outcome_ok(r, texts(pending@), target@, choice),
{
    let ghost pv = texts(pending@);
    let t = string_of(chars_of(target).as_slice());
    match choice {
        FullChoice::ReplaceFirst => {
            let mut np = clone_strings(pending);
            np.set(0, t);
            assert(texts(np@) =~= pv.update(0, target@));
            FullOutcome::Updated(np)
        },
        FullChoice::ReplaceSecond => {
            let mut np = clone_strings(pending);
            np.set(1, t);
            assert(texts(np@) =~= pv.update(1, target@));
            FullOutcome::Updated(np)
        },
        FullChoice::ClearAndAdd => {
            let mut np: Vec<String> = Vec::new();
            np.push(t);
            assert(texts(np@) =~= seq![target@]);
            FullOutcome::Cleared(np)
        },
        FullChoice::StartComparison => {
            assert(pv[0] == pending@[0]@ && pv[1] == pending@[1]@);
            FullOutcome::Compare { dir_a: pending[0].clone(), dir_b: pending[1].clone() }
        },
        FullChoice::Cancel => FullOutcome::Cancelled,
    }
}


/// Adding a directory through the compare command keeps the waiting area
/// at no more than two directories, never the same one twice, and the added
/// directory is in it.
pub proof fn adding_keeps_area_small_and_distinct(p: PendingPlan, pending: Seq<Seq<char>>, target: Seq<char>)
    requires
        plan_ok(p, pending, Some(target), None),
        pending.len() <= 2,
        distinct_paths(pending),
    ensures
        p matches PendingPlan::Added { pending: np, .. } ==> {
            &&& texts(np@).len() <= 2
            &&& distinct_paths(texts(np@))
            &&& holds_path(texts(np@), target)
        },
{
    if let PendingPlan::Added { pending: np, .. } = p {
        let nv = texts(np@);
        assert(same_path(nv[nv.len() - 1], target));
        if pending.len() == 1 {
            assert(nv[0] == pending[0]);
            assert(nv[1] == target);
            assert(!same_path(pending[0], target));
        }
    }
}

/// Offering a directory that already waits leaves the waiting area as it is.
pub proof fn adding_a_waiting_directory_changes_nothing(p: PendingPlan, pending: Seq<Seq<char>>, target: Seq<char>)
    requires
        plan_ok(p, pending, Some(target), None),
        holds_path(pending, target),
    ensures
        p is AlreadyWaiting,
{
    if pending.len() == 1 {
        let i = choose|i: int| 0 <= i < pending.len() && same_path(#[trigger] pending[i], target);
        assert(i == 0);
    }
}

/// Replacing a waiting directory, or clearing the area for a new one,
/// keeps it at no more than two directories, never the same one twice,
/// with the new directory in it.
pub proof fn full_choices_keep_area_distinct(o: FullOutcome, pending: Seq<Seq<char>>, target: Seq<char>, choice: FullChoice)
    requires
        outcome_ok(o, pending, target, choice),
        pending.len() == 2,
        distinct_paths(pending),
        !holds_path(pending, target),
    ensures
        o matches FullOutcome::Updated(np) ==> {
            &&& texts(np@).len() == 2
            &&& distinct_paths(texts(np@))
            &&& holds_path(texts(np@), target)
        },
        o matches FullOutcome::Cleared(np) ==> texts(np@) == seq![target],
{
    if let FullOutcome::Updated(np) = o {
        let nv = texts(np@);
        if choice == FullChoice::ReplaceFirst {
            assert(nv[0] == target);
            assert(nv[1] == pending[1]);
            assert(!same_path(pending[1], target));
            assert(same_path(nv[0], target));
        } else {
            assert(nv[1] == target);
            assert(nv[0] == pending[0]);
            assert(!same_path(pending[0], target));
            assert(same_path(nv[1], target));
        }
    }
}

} // verus!

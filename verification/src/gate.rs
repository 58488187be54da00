//! The transactional write gate shared by every mutator: in dry-run mode a
//! change is surfaced as a diff between old and proposed content without
//! touching disk; in execute mode the proposed content is handed out to be
//! written atomically. Unchanged content is never written or shown.

use vstd::prelude::*;

verus! {

/// What to do with one proposed mutation.
pub enum MutationAction {
    /// The proposed content equals the original: nothing to do.
    NoChange,
    /// Dry run: surface the difference, touch nothing.
    ShowDiff { before: String, after: String },
    /// Execute: write this content atomically over the target.
    Write { content: String },
}

/// Unchanged content does nothing; otherwise a dry
/// run shows exactly the original and the proposed content, and an
/// execution writes exactly the proposed content.
pub open spec fn gate_post(
    original: Seq<char>,
    proposed: Seq<char>,
    dry_run: bool,
    r: MutationAction,
) -> bool {
    if original == proposed {
        r is NoChange
    } else if dry_run {
        r matches MutationAction::ShowDiff { before, after } && before@ == original && after@
            == proposed
    } else {
        r matches MutationAction::Write { content } && content@ == proposed
    }
}

/// Decide what to do with one proposed mutation.
pub fn gate(original: &String, proposed: String, dry_run: bool) -> (r: MutationAction)
    ensures
        gate_post(original@, proposed@, dry_run, r),
{
    if *original == proposed {
        MutationAction::NoChange
    } else if dry_run {
        MutationAction::ShowDiff { before: original.clone(), after: proposed }
    } else {
        MutationAction::Write { content: proposed }
    }
}

/// Dry run and execution agree: for one mutation, the content a dry run
/// shows as proposed is byte-identical to what an execution writes.
pub proof fn lemma_dry_run_execute_agree(
    original: Seq<char>,
    proposed: Seq<char>,
    shown: MutationAction,
    written: MutationAction,
)
    requires
        gate_post(original, proposed, true, shown),
        gate_post(original, proposed, false, written),
        shown matches MutationAction::ShowDiff { before, after },
    ensures
        written matches MutationAction::Write { content } && {
            let after = shown->ShowDiff_after;
            content@ == after@
        },
{
}

} // verus!

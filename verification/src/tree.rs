//! What a whole search reports, stated over a directory tree.
//!
//! The walk never sees a tree: it sees one listing after another. Here the
//! listings are tied together, and each step of the walk is shown to report
//! the next matching entry of the tree in depth-first order, a directory
//! before its entries.

use vstd::prelude::*;
use crate::args::Args;
use crate::entry::{Entry, EntryKind};
use crate::walk::{
    after_step, exhausted, lemma_unfinished_is_prefix, next_step, unfinished, Progress, Step,
};

verus! {

/// An entry together with what lies below it: the listing of a directory
/// that can be read, `None` for anything else.
pub struct Tree {
    pub entry: Entry,
    pub listing: Option<Seq<Tree>>,
}

/// A path into a tree: the place taken in each listing on the way down.
pub type TreePath = Seq<nat>;

/// A listing in progress: its trees, the place of the next one, and the
/// path of the directory it belongs to.
pub type Level = (Seq<Tree>, nat, TreePath);

/// The paths of the entries that are reported among `trees[from..]` and
/// below them, in depth-first order: an entry first if it is reported, then
/// what is found below it if it is a directory with a listing, then what is
/// found from its next sibling on.
pub open spec fn found_from(args: Args, trees: Seq<Tree>, prefix: TreePath, from: nat) -> Seq<
    TreePath,
>
    decreases trees, trees.len() - from,
{
    if from >= trees.len() {
        Seq::empty()
    } else {
        let t = trees[from as int];
        let here = prefix.push(from);
        let own = if args.reports(t.entry) {
            seq![here]
        } else {
            Seq::empty()
        };
        let below = match t.listing {
            Some(l) => if t.entry.kind == EntryKind::Dir {
                found_from(args, l, here, 0)
            } else {
                Seq::empty()
            },
            None => Seq::empty(),
        };
        own + below + found_from(args, trees, prefix, from + 1)
    }
}

/// The entries of a listing of trees.
pub open spec fn entries_of(trees: Seq<Tree>) -> Seq<Entry> {
    Seq::new(trees.len(), |i: int| trees[i].entry)
}

/// The listings in progress as the walk holds them.
pub open spec fn frames_of(stack: Seq<Level>) -> Seq<Progress> {
    Seq::new(stack.len(), |i: int| (entries_of(stack[i].0), stack[i].1))
}

/// The paths that are still to be reported: what is found in the rest of
/// the deepest listing first, then in the rest of the one above it, and so
/// on outwards.
pub open spec fn pending(args: Args, stack: Seq<Level>) -> Seq<TreePath>
    decreases stack.len(),
{
    if stack.len() == 0 {
        Seq::empty()
    } else {
        let (trees, next, prefix) = stack.last();
        found_from(args, trees, prefix, next) + pending(args, stack.drop_last())
    }
}

/// The listings that are left once the finished ones are dropped from the
/// deep end.
pub open spec fn live(stack: Seq<Level>) -> Seq<Level> {
    stack.subrange(0, unfinished(frames_of(stack)).len() as int)
}

/// The listings in progress after the next entry was visited and, if it is a
/// directory that can be read, its listing was taken in.
pub open spec fn after_visit(stack: Seq<Level>) -> Seq<Level> {
    let left = live(stack);
    let (trees, next, prefix) = left.last();
    let t = trees[next as int];
    let moved = left.drop_last().push((trees, next + 1, prefix));
    if t.entry.kind == EntryKind::Dir && t.listing is Some {
        moved.push((t.listing->0, 0nat, prefix.push(next)))
    } else {
        moved
    }
}

/// Finished listings hold nothing that is still to be reported, and the
/// walk drops exactly them.
pub proof fn lemma_finished_levels_add_nothing(args: Args, stack: Seq<Level>)
    ensures
        unfinished(frames_of(stack)).len() <= stack.len(),
        unfinished(frames_of(stack)) == frames_of(live(stack)),
        pending(args, stack) == pending(args, live(stack)),
        live(stack).len() > 0 ==> live(stack).last().1 < live(stack).last().0.len(),
    decreases stack.len(),
{
    let frames = frames_of(stack);
    if stack.len() > 0 && exhausted(frames.last()) {
        let rest = stack.drop_last();
        lemma_finished_levels_add_nothing(args, rest);
        assert(frames.drop_last() =~= frames_of(rest));
        let k = unfinished(frames).len() as int;
        assert(rest.subrange(0, k) =~= stack.subrange(0, k));
        let (trees, next, prefix) = stack.last();
        assert(found_from(args, trees, prefix, next) =~= Seq::<TreePath>::empty());
        assert(pending(args, stack) =~= pending(args, rest));
    } else {
        assert(stack.subrange(0, stack.len() as int) =~= stack);
    }
}

/// A search starts with the whole tree still to be reported.
pub proof fn lemma_search_starts_with_the_whole_tree(args: Args, roots: Seq<Tree>)
    ensures
        frames_of(seq![(roots, 0nat, Seq::<nat>::empty())]) == seq![(entries_of(roots), 0nat)],
        pending(args, seq![(roots, 0nat, Seq::<nat>::empty())]) == found_from(
            args,
            roots,
            Seq::empty(),
            0,
        ),
{
    let start: Seq<Level> = seq![(roots, 0nat, Seq::<nat>::empty())];
    assert(frames_of(start) =~= seq![(entries_of(roots), 0nat)]);
    assert(start.drop_last() =~= Seq::<Level>::empty());
    assert(pending(args, start.drop_last()) =~= Seq::<TreePath>::empty());
    assert(pending(args, start) =~= found_from(args, roots, Seq::empty(), 0));
}

/// Each step of the walk reports the next matching entry of the tree.
///
/// When the walk is done, nothing is left to report. Otherwise the step
/// visits the next entry of the deepest listing that is not finished; what
/// was still to be reported is that entry's path, if the step reports it,
/// followed by what is still to be reported afterwards. Afterwards the walk
/// holds the listing of the visited directory if it could be read, and is
/// otherwise only moved on by one entry.
pub proof fn lemma_step_reports_next_of_tree(args: Args, stack: Seq<Level>)
    requires
        stack.len() <= usize::MAX,
        forall|i: int| 0 <= i < stack.len() ==> (#[trigger] stack[i]).0.len() <= usize::MAX,
    ensures
        next_step(frames_of(stack), args) is Done ==> pending(args, stack) == Seq::<
            TreePath,
        >::empty(),
        next_step(frames_of(stack), args) matches Step::Visit { depth, index, report, descend }
            ==> {
            let left = live(stack);
            let (trees, next, prefix) = left.last();
            let t = trees[next as int];
            &&& left.len() == depth + 1
            &&& next == index
            &&& index < trees.len()
            &&& report == args.reports(t.entry)
            &&& descend == (t.entry.kind == EntryKind::Dir)
            &&& pending(args, stack) == (if report {
                seq![prefix.push(next)]
            } else {
                Seq::empty()
            }) + pending(args, after_visit(stack))
            &&& frames_of(after_visit(stack)) == if descend && t.listing is Some {
                after_step(frames_of(stack)).push((entries_of(t.listing->0), 0nat))
            } else {
                after_step(frames_of(stack))
            }
        },
{
    lemma_step_core(args, stack);
    lemma_finished_levels_add_nothing(args, stack);
    let left = live(stack);
    if left.len() > 0 {
        assert(left.last() == stack[left.len() - 1]);
    }
}

/// The part of the step law that needs no bound on the listings: what the
/// step reports, and what is left to report after it.
pub proof fn lemma_step_core(args: Args, stack: Seq<Level>)
    ensures
        next_step(frames_of(stack), args) is Done <==> live(stack).len() == 0,
        next_step(frames_of(stack), args) is Done ==> pending(args, stack) == Seq::<
            TreePath,
        >::empty(),
        next_step(frames_of(stack), args) matches Step::Visit { report, descend, .. } ==> {
            let (trees, next, prefix) = live(stack).last();
            let t = trees[next as int];
            &&& next < trees.len()
            &&& report == args.reports(t.entry)
            &&& descend == (t.entry.kind == EntryKind::Dir)
            &&& pending(args, stack) == (if report {
                seq![prefix.push(next)]
            } else {
                Seq::empty()
            }) + pending(args, after_visit(stack))
            &&& frames_of(after_visit(stack)) == if descend && t.listing is Some {
                after_step(frames_of(stack)).push((entries_of(t.listing->0), 0nat))
            } else {
                after_step(frames_of(stack))
            }
        },
{
    lemma_finished_levels_add_nothing(args, stack);
    let frames = frames_of(stack);
    let left = live(stack);
    if left.len() > 0 {
        let (trees, next, prefix) = left.last();
        let t = trees[next as int];
        let here = prefix.push(next);
        let moved = left.drop_last().push((trees, next + 1, prefix));
        assert(left.last() == stack[left.len() - 1]);
        assert(frames_of(left).last() == (entries_of(trees), next));
        assert(entries_of(trees)[next as int] == t.entry);
        assert(moved.drop_last() =~= left.drop_last());
        assert(frames_of(moved) =~= after_step(frames));
        assert(pending(args, moved) == found_from(args, trees, prefix, next + 1) + pending(
            args,
            left.drop_last(),
        ));
        let own = if args.reports(t.entry) {
            seq![here]
        } else {
            Seq::<TreePath>::empty()
        };
        if t.entry.kind == EntryKind::Dir && t.listing is Some {
            let deeper = moved.push((t.listing->0, 0nat, here));
            assert(deeper.drop_last() =~= moved);
            assert(frames_of(deeper) =~= after_step(frames).push((entries_of(t.listing->0), 0nat)));
            assert(pending(args, left) =~= own + pending(args, deeper));
        } else {
            assert(pending(args, left) =~= own + pending(args, moved));
        }
    } else {
        assert(pending(args, left) =~= Seq::<TreePath>::empty());
    }
}

/// The number of entries among `trees[from..]` and below them that a
/// search visits.
pub open spec fn visits_from(trees: Seq<Tree>, from: nat) -> nat
    decreases trees, trees.len() - from,
{
    if from >= trees.len() {
        0
    } else {
        let t = trees[from as int];
        let below = match t.listing {
            Some(l) => if t.entry.kind == EntryKind::Dir {
                visits_from(l, 0)
            } else {
                0
            },
            None => 0,
        };
        1 + below + visits_from(trees, from + 1)
    }
}

/// The number of entries that are still to be visited.
pub open spec fn visits_left(stack: Seq<Level>) -> nat
    decreases stack.len(),
{
    if stack.len() == 0 {
        0
    } else {
        visits_from(stack.last().0, stack.last().1) + visits_left(stack.drop_last())
    }
}

/// What the walk reports in its next `steps` steps, when each directory's
/// listing is handed to it as the tree has it.
pub open spec fn reported_within(args: Args, stack: Seq<Level>, steps: nat) -> Seq<TreePath>
    decreases steps,
{
    if steps == 0 {
        Seq::empty()
    } else {
        match next_step(frames_of(stack), args) {
            Step::Done => Seq::empty(),
            Step::Visit { report, .. } => {
                let own = if report {
                    seq![live(stack).last().2.push(live(stack).last().1)]
                } else {
                    Seq::empty()
                };
                own + reported_within(args, after_visit(stack), (steps - 1) as nat)
            },
        }
    }
}

/// Every step visits one entry: the walk is done exactly when no visit is
/// left, and a visit leaves one fewer.
pub proof fn lemma_step_is_one_visit(args: Args, stack: Seq<Level>)
    ensures
        next_step(frames_of(stack), args) is Done <==> visits_left(stack) == 0,
        !(next_step(frames_of(stack), args) is Done) ==> visits_left(stack) == 1 + visits_left(
            after_visit(stack),
        ),
{
    lemma_visits_of_live(stack);
    lemma_finished_levels_add_nothing(args, stack);
    let left = live(stack);
    if left.len() > 0 {
        let (trees, next, prefix) = left.last();
        let t = trees[next as int];
        let moved = left.drop_last().push((trees, next + 1, prefix));
        assert(moved.drop_last() =~= left.drop_last());
        assert(moved.last() == (trees, next + 1, prefix));
        assert(visits_left(left) == visits_from(trees, next) + visits_left(left.drop_last()));
        assert(visits_left(moved) == visits_from(trees, next + 1) + visits_left(
            left.drop_last(),
        ));
        if t.entry.kind == EntryKind::Dir && t.listing is Some {
            let deeper = moved.push((t.listing->0, 0nat, prefix.push(next)));
            assert(deeper.drop_last() =~= moved);
            assert(deeper.last() == (t.listing->0, 0nat, prefix.push(next)));
            assert(visits_left(deeper) == visits_from(t.listing->0, 0) + visits_left(moved));
            assert(visits_left(left) == 1 + visits_left(deeper));
        } else {
            assert(visits_left(left) == 1 + visits_left(moved));
        }
    } else {
        assert(visits_left(left) == 0);
    }
}

/// Finished listings hold no entry that is still to be visited.
pub proof fn lemma_visits_of_live(stack: Seq<Level>)
    ensures
        visits_left(stack) == visits_left(live(stack)),
    decreases stack.len(),
{
    let frames = frames_of(stack);
    if stack.len() > 0 && exhausted(frames.last()) {
        let rest = stack.drop_last();
        lemma_visits_of_live(rest);
        assert(frames.drop_last() =~= frames_of(rest));
        lemma_unfinished_is_prefix(frames_of(rest));
        let k = unfinished(frames).len() as int;
        assert(rest.subrange(0, k) =~= stack.subrange(0, k));
    } else {
        assert(stack.subrange(0, stack.len() as int) =~= stack);
    }
}

/// A whole search reports the tree. Run for as many steps as there are
/// entries to visit, or more, the walk reports exactly the matching entries
/// that were still to come, each once, in depth-first order; from the start
/// of a search these are the matching entries of the whole tree.
pub proof fn lemma_search_reports_the_tree(args: Args, stack: Seq<Level>, steps: nat)
    requires
        steps >= visits_left(stack),
    ensures
        reported_within(args, stack, steps) == pending(args, stack),
    decreases steps,
{
    lemma_step_is_one_visit(args, stack);
    lemma_step_core(args, stack);
    if steps > 0 && !(next_step(frames_of(stack), args) is Done) {
        lemma_search_reports_the_tree(args, after_visit(stack), (steps - 1) as nat);
    }
}

} // verus!


//! The depth-first walk as a work-list: which entry is visited next, whether
//! it is reported, and whether its directory is listed.
//!
//! The walk holds the listings that are still being worked through, the
//! deepest last. Its caller reads the directories: it hands each listing to
//! [`Walk::enter`] and asks [`Walk::next`] what to do.

use vstd::prelude::*;
use crate::args::Args;
use crate::entry::{Entry, EntryKind};

verus! {

/// A listing that is being worked through.
pub struct Frame {
    entries: Vec<Entry>,
    next: usize,
}

/// The listings in progress, the outermost first.
pub struct Walk {
    frames: Vec<Frame>,
}

/// What the caller does next.
#[derive(Debug, Clone, Copy, PartialEq, Eq, Structural)]
pub enum Step {
    /// Every listing is worked through.
    Done,
    /// Visit the entry at place `index` of the listing at depth `depth`:
    /// print its path if `report`, and if `descend`, list it and hand the
    /// listing to [`Walk::enter`] before asking again.
    Visit { depth: usize, index: usize, report: bool, descend: bool },
}

/// A listing in progress, as its entries and the place of the next one.
pub type Progress = (Seq<Entry>, nat);

/// Nothing is left of the listing.
pub open spec fn exhausted(f: Progress) -> bool {
    f.1 >= f.0.len()
}

/// The listings that are left once the finished ones are dropped from the
/// deep end.
pub open spec fn unfinished(frames: Seq<Progress>) -> Seq<Progress>
    decreases frames.len(),
{
    if frames.len() == 0 {
        frames
    } else if exhausted(frames.last()) {
        unfinished(frames.drop_last())
    } else {
        frames
    }
}

/// The step that follows from the listings in progress: the next entry of
/// the deepest unfinished listing. It is reported iff the settings say so;
/// it is descended into iff it is a directory, reported or not.
pub open spec fn next_step(frames: Seq<Progress>, args: Args) -> Step {
    let left = unfinished(frames);
    if left.len() == 0 {
        Step::Done
    } else {
        let (entries, next) = left.last();
        let entry = entries[next as int];
        Step::Visit {
            depth: (left.len() - 1) as usize,
            index: next as usize,
            report: args.reports(entry),
            descend: entry.kind == EntryKind::Dir,
        }
    }
}

/// The listings in progress after the step: the finished ones are gone, and
/// the deepest one has moved on by one entry.
pub open spec fn after_step(frames: Seq<Progress>) -> Seq<Progress> {
    let left = unfinished(frames);
    if left.len() == 0 {
        left
    } else {
        let (entries, next) = left.last();
        left.drop_last().push((entries, next + 1))
    }
}

impl Walk {
    /// The listings in progress, the outermost first.
    pub closed spec fn view(&self) -> Seq<Progress> {
        Seq::new(
            self.frames@.len(),
            |i: int| (self.frames@[i].entries@, self.frames@[i].next as nat),
        )
    }

    /// A walk with no listing in progress.
    pub fn new() -> (w: Walk)
        ensures
            w@ == Seq::<Progress>::empty(),
    {
        let w = Walk { frames: Vec::new() };
        assert(w@ =~= Seq::<Progress>::empty());
        w
    }

    /// The number of listings in progress.
    pub fn depth(&self) -> (d: usize)
        ensures
            d == self@.len(),
    {
        self.frames.len()
    }

    /// Every listing in progress, its place and the number of listings fit
    /// a machine word, so a step names depth and place without loss.
    pub proof fn lemma_view_fits(&self)
        ensures
            self@.len() <= usize::MAX,
            forall|i: int|
                0 <= i < self@.len() ==> (#[trigger] self@[i]).0.len() <= usize::MAX && self@[i].1
                    <= usize::MAX,
    {
        assert(self.frames.len() == self.frames@.len());
        assert forall|i: int| 0 <= i < self@.len() implies (#[trigger] self@[i]).0.len()
            <= usize::MAX && self@[i].1 <= usize::MAX by {
            let f = self.frames@[i];
            assert(f.entries.len() == f.entries@.len());
        }
    }

    /// Takes in the listing of the directory that was visited last. A
    /// directory that could not be read (`None`) leaves the walk as it is:
    /// its siblings are still to come.
    pub fn enter(&mut self, listing: Option<Vec<Entry>>)
        ensures
            final(self)@ == match listing {
                Some(entries) => old(self)@.push((entries@, 0nat)),
                None => old(self)@,
            },
    {
        match listing {
            Some(entries) => {
                let ghost before = self@;
                let ghost shown = entries@;
                self.frames.push(Frame { entries, next: 0 });
                assert(self@ =~= before.push((shown, 0nat)));
            },
            None => {},
        }
    }

    /// Moves on to the next entry and says what to do with it.
    pub fn next(&mut self, args: &Args) -> (s: Step)
        ensures
            s == next_step(old(self)@, *args),
            final(self)@ == after_step(old(self)@),
            s is Done <==> unfinished(old(self)@).len() == 0,
            s matches Step::Visit { depth, index, report, descend } ==> {
                let left = unfinished(old(self)@);
                &&& left.len() > 0
                &&& depth == left.len() - 1
                &&& index == left.last().1
                &&& index < left.last().0.len()
                &&& report == args.reports(left.last().0[index as int])
                &&& descend == (left.last().0[index as int].kind == EntryKind::Dir)
            },
    {
        loop
            invariant
                unfinished(self@) == unfinished(old(self)@),
            decreases self.frames@.len(),
        {
            let depth: usize = self.frames.len();
            if depth == 0 {
                assert(self@ =~= Seq::<Progress>::empty());
                return Step::Done;
            }
            let ghost before = self@;
            let top: Frame = self.frames.pop().unwrap();
            assert(self@ =~= before.drop_last());
            assert(before.last() == (top.entries@, top.next as nat));
            if top.next < top.entries.len() {
                let index: usize = top.next;
                let entry: &Entry = &top.entries[index];
                let report: bool = args.matches_all(entry);
                let descend: bool = entry.kind.is_dir();
                let ghost shown = top.entries@;
                self.frames.push(Frame { entries: top.entries, next: index + 1 });
                assert(self@ =~= before.drop_last().push((shown, (index + 1) as nat)));
                return Step::Visit { depth: (depth - 1) as usize, index, report, descend };
            }
        }
    }
}

/// Whether an entry is descended into does not depend on the settings, and
/// so not on whether it is reported: two searches over the same listings
/// visit the same entry and agree on descending.
pub proof fn lemma_descent_ignores_settings(frames: Seq<Progress>, a: Args, b: Args)
    ensures
        next_step(frames, a) is Done <==> next_step(frames, b) is Done,
        next_step(frames, a) matches Step::Visit { depth: da, index: ia, descend: ca, .. }
            ==> next_step(frames, b) matches Step::Visit { depth: db, index: ib, descend: cb, .. }
            && da == db && ia == ib && ca == cb,
{
}

/// A directory that could not be read counts as an empty one: the walk goes
/// on with the entries that follow it in its own listing and in the
/// listings above.
pub proof fn lemma_unreadable_counts_as_empty(frames: Seq<Progress>, args: Args)
    ensures
        next_step(frames.push((Seq::<Entry>::empty(), 0nat)), args) == next_step(frames, args),
        after_step(frames.push((Seq::<Entry>::empty(), 0nat))) == after_step(frames),
{
    let deeper = frames.push((Seq::<Entry>::empty(), 0nat));
    assert(exhausted(deeper.last()));
    assert(deeper.drop_last() =~= frames);
    assert(unfinished(deeper) == unfinished(frames));
}

/// While the deepest listing has entries left, they are visited in the
/// order of the listing, and nothing above it is touched.
pub proof fn lemma_listing_is_visited_in_order(frames: Seq<Progress>, args: Args)
    requires
        frames.len() > 0,
        !exhausted(frames.last()),
        frames.len() - 1 <= usize::MAX,
        frames.last().1 <= usize::MAX,
    ensures
        next_step(frames, args) matches Step::Visit { depth, index, .. } && depth == frames.len()
            - 1 && index == frames.last().1,
        after_step(frames).len() == frames.len(),
        after_step(frames).drop_last() == frames.drop_last(),
        after_step(frames).last() == (frames.last().0, frames.last().1 + 1),
{
    let moved = frames.drop_last().push((frames.last().0, frames.last().1 + 1));
    assert(moved.drop_last() =~= frames.drop_last());
}

/// A place in the walk: the depth of a listing and an index into it.
pub type Place = (nat, nat);

/// The places of listing `f`, standing at depth `depth`, that are still to
/// be visited, in their order.
pub open spec fn places_left(f: Progress, depth: nat) -> Seq<Place> {
    Seq::new(
        if f.1 < f.0.len() {
            (f.0.len() - f.1) as nat
        } else {
            0
        },
        |k: int| (depth, (f.1 + k) as nat),
    )
}

/// The places that are still to be visited if no further listing comes in,
/// in the order of their visits: what is left of the deepest listing first,
/// then what is left of the one above it, and so on outwards.
pub open spec fn backlog(frames: Seq<Progress>) -> Seq<Place>
    decreases frames.len(),
{
    if frames.len() == 0 {
        Seq::empty()
    } else {
        places_left(frames.last(), (frames.len() - 1) as nat) + backlog(frames.drop_last())
    }
}

/// Finished listings add nothing to the backlog.
pub proof fn lemma_backlog_of_unfinished(frames: Seq<Progress>)
    ensures
        backlog(unfinished(frames)) == backlog(frames),
    decreases frames.len(),
{
    if frames.len() > 0 && exhausted(frames.last()) {
        lemma_backlog_of_unfinished(frames.drop_last());
        assert(places_left(frames.last(), (frames.len() - 1) as nat) =~= Seq::<Place>::empty());
        assert(backlog(frames) =~= backlog(frames.drop_last()));
    }
}

/// The walk is depth-first. A step visits the first place of the backlog and
/// leaves the rest of it; the walk is done exactly when the backlog is empty.
pub proof fn lemma_step_takes_first_of_backlog(frames: Seq<Progress>, args: Args)
    requires
        frames.len() <= usize::MAX,
        forall|i: int| 0 <= i < frames.len() ==> (#[trigger] frames[i]).0.len() <= usize::MAX,
    ensures
        next_step(frames, args) is Done <==> backlog(frames).len() == 0,
        next_step(frames, args) matches Step::Visit { depth, index, .. } ==> backlog(frames).len()
            > 0 && backlog(frames)[0] == (depth as nat, index as nat),
        backlog(after_step(frames)) == if backlog(frames).len() == 0 {
            backlog(frames)
        } else {
            backlog(frames).skip(1)
        },
{
    lemma_backlog_of_unfinished(frames);
    lemma_unfinished_is_prefix(frames);
    let left = unfinished(frames);
    if left.len() > 0 {
        let (entries, next) = left.last();
        let depth = (left.len() - 1) as nat;
        let moved = left.drop_last().push((entries, next + 1));
        let here = places_left(left.last(), depth);
        let there = places_left((entries, next + 1), depth);
        assert(moved.drop_last() =~= left.drop_last());
        assert(moved.last() == (entries, next + 1));
        assert(here.len() > 0);
        assert(here[0] == (depth, next));
        assert(there =~= here.skip(1));
        assert(backlog(left)[0] == here[0]);
        assert(backlog(moved) =~= there + backlog(left.drop_last()));
        assert(backlog(left).skip(1) =~= here.skip(1) + backlog(left.drop_last()));
    }
}

/// What is left once the finished listings are dropped is a front part of
/// the listings, and its last listing has entries left.
pub proof fn lemma_unfinished_is_prefix(frames: Seq<Progress>)
    ensures
        unfinished(frames).len() <= frames.len(),
        unfinished(frames) == frames.subrange(0, unfinished(frames).len() as int),
        unfinished(frames).len() > 0 ==> !exhausted(unfinished(frames).last()),
    decreases frames.len(),
{
    if frames.len() > 0 && exhausted(frames.last()) {
        lemma_unfinished_is_prefix(frames.drop_last());
        let k = unfinished(frames).len() as int;
        assert(frames.drop_last().subrange(0, k) =~= frames.subrange(0, k));
    } else {
        assert(frames.subrange(0, frames.len() as int) =~= frames);
    }
}

/// A listing that comes in is worked through before anything that was
/// waiting: the entries of a directory follow the directory itself and come
/// before the siblings that follow it.
pub proof fn lemma_entered_listing_comes_first(frames: Seq<Progress>, entries: Seq<Entry>)
    ensures
        backlog(frames.push((entries, 0nat))) == places_left((entries, 0nat), frames.len())
            + backlog(frames),
{
    let deeper = frames.push((entries, 0nat));
    assert(deeper.drop_last() =~= frames);
}

} // verus!

//! The walker yields what the walk yields.
//!
//! A [`Tree`] says what each directory would list. Feeding a walker from a
//! tree, one listing for each directory it names, ends after as many
//! listings as the walk has directories to read, with the entries of
//! [`walk`] in their order.

use crate::entry::{EntryView, SearchType};
use crate::walk::{
    children, depth_below, descends, kept, lemma_walk_without_descent, listing_of, of_kind, visit,
    walk, ListedView, Tree,
};
use crate::walker::{start, FrameView, ListingView, StepView, WalkView};
use vstd::prelude::*;

verus! {

/// Whether `trail` holds, for each directory the walk is inside of, trees
/// with that directory's listing.
pub open spec fn follows(w: WalkView, trail: Seq<Seq<Tree>>) -> bool {
    &&& trail.len() == w.frames.len()
    &&& forall|i: int|
        0 <= i < trail.len() ==> listing_of(#[trigger] trail[i]) == w.frames[i].listing
}

/// What the directories the walk is inside of still add once the awaited
/// directory is done, innermost first: the item the walk had gone down
/// through, and the walk of the items behind it.
pub open spec fn owed(frames: Seq<FrameView>, trail: Seq<Seq<Tree>>, kind: SearchType) -> Seq<
    EntryView,
>
    decreases frames.len(),
{
    if frames.len() == 0 {
        Seq::empty()
    } else {
        let top = frames.last();
        let behind = trail.last().skip(top.next as int + 1);
        kept(top.current(), kind) + walk(behind, kind, top.depth) + owed(
            frames.drop_last(),
            trail.drop_last(),
            kind,
        )
    }
}

/// What a walk ends with where the awaited directory holds `sub` and the
/// directories it is inside of hold `trail`.
pub open spec fn outcome(w: WalkView, trail: Seq<Seq<Tree>>, sub: Seq<Tree>) -> Seq<EntryView> {
    w.items + walk(sub, w.kind, w.awaited_depth()) + owed(w.frames, trail, w.kind)
}

/// The trees of the directory that a walk, inside of `trail`, waits for.
pub open spec fn awaited(w: WalkView, trail: Seq<Seq<Tree>>, root: Seq<Tree>) -> Seq<Tree> {
    if w.frames.len() == 0 {
        root
    } else {
        trail.last()[w.frames.last().next as int].sub
    }
}

/// The listings that a walk of a directory that lists `trees` asks for
/// below it: one for each directory it goes down into.
pub open spec fn requests(trees: Seq<Tree>, depth: Option<u32>) -> nat
    decreases trees, 1int,
{
    if trees.len() == 0 {
        0
    } else {
        requests_through(trees[0], depth) + requests(trees.drop_first(), depth)
    }
}

/// The listings that a walk asks for at one item and below it.
pub open spec fn requests_through(tree: Tree, depth: Option<u32>) -> nat
    decreases tree, 0int,
{
    if tree.item.is_directory && descends(depth) {
        1 + requests(tree.sub, depth_below(depth))
    } else {
        0
    }
}

/// The listings still asked for by the directories the walk is inside of,
/// once the awaited directory is done.
pub open spec fn requests_owed(frames: Seq<FrameView>, trail: Seq<Seq<Tree>>) -> nat
    decreases frames.len(),
{
    if frames.len() == 0 {
        0
    } else {
        let top = frames.last();
        requests(trail.last().skip(top.next as int + 1), top.depth) + requests_owed(
            frames.drop_last(),
            trail.drop_last(),
        )
    }
}

/// The listings that a walk still needs, the awaited one among them.
pub open spec fn listings_left(w: WalkView, trail: Seq<Seq<Tree>>, sub: Seq<Tree>) -> nat {
    1 + requests(sub, w.awaited_depth()) + requests_owed(w.frames, trail)
}

/// Feeds a walk from the trees until it ends: `root` is what the root
/// lists, and `trail` what the directories list that the walk is inside of.
/// At most `fuel` listings are fed; `None` where they do not suffice.
pub open spec fn run(w: WalkView, trail: Seq<Seq<Tree>>, root: Seq<Tree>, fuel: nat) -> Option<
    Seq<EntryView>,
>
    decreases fuel,
{
    if fuel == 0 {
        None
    } else {
        let sub = awaited(w, trail, root);
        match w.feed(ListingView::Entries(listing_of(sub))) {
            StepView::Done(items) => Some(items),
            StepView::Failed(_) => None,
            StepView::Next(then) => run(
                then,
                trail.push(sub).take(then.frames.len() as int),
                root,
                (fuel - 1) as nat,
            ),
        }
    }
}

proof fn lemma_walk_from(trees: Seq<Tree>, at: int, kind: SearchType, depth: Option<u32>)
    requires
        0 <= at <= trees.len(),
    ensures
        at < trees.len() ==> walk(trees.skip(at), kind, depth) == visit(trees[at], kind, depth)
            + walk(trees.skip(at + 1), kind, depth),
        at < trees.len() ==> requests(trees.skip(at), depth) == requests_through(trees[at], depth)
            + requests(trees.skip(at + 1), depth),
        at == trees.len() ==> walk(trees.skip(at), kind, depth) == Seq::<EntryView>::empty(),
        at == trees.len() ==> requests(trees.skip(at), depth) == 0,
{
    if at < trees.len() {
        assert(trees.skip(at).drop_first() =~= trees.skip(at + 1));
    }
}

/// What a walk inside a directory ends with, and the listings it still
/// needs.
spec fn settled(v: WalkView, trail: Seq<Seq<Tree>>) -> Seq<EntryView> {
    let top = v.frames.last();
    v.items + walk(trail.last().skip(top.next as int), v.kind, top.depth) + owed(
        v.frames.drop_last(),
        trail.drop_last(),
        v.kind,
    )
}

spec fn settled_left(v: WalkView, trail: Seq<Seq<Tree>>) -> nat {
    let top = v.frames.last();
    requests(trail.last().skip(top.next as int), top.depth) + requests_owed(
        v.frames.drop_last(),
        trail.drop_last(),
    )
}

/// Whether `step` ends with `total`, or waits with `total` as its outcome,
/// inside at most `bound` of the directories of `trail`, and with `left`
/// listings to go.
spec fn settles_to(
    step: StepView,
    trail: Seq<Seq<Tree>>,
    bound: nat,
    total: Seq<EntryView>,
    left: nat,
) -> bool {
    match step {
        StepView::Done(items) => items == total && left == 0,
        StepView::Next(then) => {
            let path = trail.take(then.frames.len() as int);
            let sub = awaited(then, path, Seq::empty());
            &&& 1 <= then.frames.len() <= bound
            &&& then.awaiting()
            &&& follows(then, path)
            &&& outcome(then, path, sub) == total
            &&& listings_left(then, path, sub) == left
        },
        StepView::Failed(_) => false,
    }
}

/// A walk that is inside `trail`, at an item or at the end of the innermost
/// listing, with every outer directory waiting.
spec fn settling(v: WalkView, trail: Seq<Seq<Tree>>) -> bool {
    &&& v.frames.len() >= 1
    &&& follows(v, trail)
    &&& v.leave().awaiting()
    &&& v.frames.last().next <= v.frames.last().listing.len()
}

proof fn lemma_settle_waits(v: WalkView, trail: Seq<Seq<Tree>>)
    requires
        settling(v, trail),
        v.frames.last().waits(),
    ensures
        settles_to(
            StepView::Next(v),
            trail,
            v.frames.len(),
            settled(v, trail),
            settled_left(v, trail),
        ),
{
    let top = v.frames.last();
    let trees = trail.last();
    lemma_walk_from(trees, top.next as int, v.kind, top.depth);
    assert(trail.take(v.frames.len() as int) =~= trail);
    assert forall|i: int| 0 <= i < v.frames.len() implies (#[trigger] v.frames[i]).waits() by {
        if i < v.frames.len() - 1 {
            assert(v.leave().frames[i] == v.frames[i]);
        }
    }
    // What is owed for the innermost directory is what its walk yields
    // behind the walk of the item that is entered now.
    assert(outcome(v, trail, trees[top.next as int].sub) =~= settled(v, trail));
}

proof fn lemma_settle_skips(v: WalkView, trail: Seq<Seq<Tree>>)
    requires
        settling(v, trail),
        v.frames.last().next < v.frames.last().listing.len(),
        !v.frames.last().waits(),
    ensures
        settling(v.advance(), trail),
        v.advance().frames.len() == v.frames.len(),
        v.advance().frames.last() == v.frames.last().stepped(),
        settled(v.advance(), trail) == settled(v, trail),
        settled_left(v.advance(), trail) == settled_left(v, trail),
{
    let top = v.frames.last();
    lemma_walk_from(trail.last(), top.next as int, v.kind, top.depth);
    let on = v.advance();
    assert(on.leave().frames =~= v.leave().frames);
    assert forall|i: int| 0 <= i < trail.len() implies listing_of(#[trigger] trail[i])
        == on.frames[i].listing by {}
}

proof fn lemma_settle_leaves(v: WalkView, trail: Seq<Seq<Tree>>)
    requires
        settling(v, trail),
        v.frames.last().next == v.frames.last().listing.len(),
        v.frames.len() >= 2,
    ensures
        settling(v.leave().advance(), trail.drop_last()),
        v.leave().advance().frames.len() == v.frames.len() - 1,
        settled(v.leave().advance(), trail.drop_last()) == settled(v, trail),
        settled_left(v.leave().advance(), trail.drop_last()) == settled_left(v, trail),
{
    let top = v.frames.last();
    lemma_walk_from(trail.last(), top.next as int, v.kind, top.depth);
    let out = v.leave();
    let outer = trail.drop_last();
    let on = out.advance();
    assert(on.frames.drop_last() =~= out.frames.drop_last());
    assert forall|i: int| 0 <= i < on.leave().frames.len() implies (
    #[trigger] on.leave().frames[i]).waits() by {}
    assert forall|i: int| 0 <= i < outer.len() implies listing_of(#[trigger] outer[i])
        == on.frames[i].listing by {}
}

proof fn lemma_settles_to_inside(
    step: StepView,
    trail: Seq<Seq<Tree>>,
    total: Seq<EntryView>,
    left: nat,
)
    requires
        trail.len() >= 1,
        settles_to(step, trail.drop_last(), (trail.len() - 1) as nat, total, left),
    ensures
        settles_to(step, trail, trail.len(), total, left),
{
    match step {
        StepView::Next(then) => {
            assert(trail.drop_last().take(then.frames.len() as int) =~= trail.take(
                then.frames.len() as int,
            ));
        },
        _ => {},
    }
}

proof fn lemma_settle(v: WalkView, trail: Seq<Seq<Tree>>)
    requires
        settling(v, trail),
    ensures
        settles_to(v.settle(), trail, v.frames.len(), settled(v, trail), settled_left(v, trail)),
    decreases v.frames.len(), v.frames.last().listing.len() - v.frames.last().next,
{
    let top = v.frames.last();
    if top.next < top.listing.len() {
        if top.waits() {
            lemma_settle_waits(v, trail);
        } else {
            lemma_settle_skips(v, trail);
            lemma_settle(v.advance(), trail);
        }
    } else if v.frames.len() == 1 {
        lemma_walk_from(trail.last(), top.next as int, v.kind, top.depth);
    } else {
        lemma_settle_leaves(v, trail);
        lemma_settle(v.leave().advance(), trail.drop_last());
        lemma_settles_to_inside(v.settle(), trail, settled(v, trail), settled_left(v, trail));
    }
}

/// One listing fed from the trees leaves the end of the walk as it was,
/// and one listing less to go.
pub proof fn lemma_feed_keeps_outcome(w: WalkView, trail: Seq<Seq<Tree>>, root: Seq<Tree>)
    requires
        w.awaiting(),
        follows(w, trail),
    ensures
        ({
            let sub = awaited(w, trail, root);
            match w.feed(ListingView::Entries(listing_of(sub))) {
                StepView::Done(items) => items == outcome(w, trail, sub) && listings_left(
                    w,
                    trail,
                    sub,
                ) == 1,
                StepView::Next(then) => {
                    let path = trail.push(sub).take(then.frames.len() as int);
                    let then_sub = awaited(then, path, root);
                    &&& then.awaiting()
                    &&& follows(then, path)
                    &&& outcome(then, path, then_sub) == outcome(w, trail, sub)
                    &&& listings_left(then, path, then_sub) + 1 == listings_left(w, trail, sub)
                },
                StepView::Failed(_) => false,
            }
        }),
{
    let sub = awaited(w, trail, root);
    let inside = w.enter(listing_of(sub));
    let path = trail.push(sub);
    assert(inside.frames.drop_last() =~= w.frames);
    assert(path.drop_last() =~= trail);
    assert(sub.skip(0) =~= sub);
    assert forall|i: int| 0 <= i < path.len() implies listing_of(#[trigger] path[i])
        == inside.frames[i].listing by {}
    assert forall|i: int| 0 <= i < inside.leave().frames.len() implies (
    #[trigger] inside.leave().frames[i]).waits() by {}
    lemma_settle(inside, path);
}

/// Fed from the trees, a walk that has enough fuel for the listings it
/// still needs ends with its outcome.
pub proof fn lemma_run_ends(w: WalkView, trail: Seq<Seq<Tree>>, root: Seq<Tree>, fuel: nat)
    requires
        w.awaiting(),
        follows(w, trail),
        fuel >= listings_left(w, trail, awaited(w, trail, root)),
    ensures
        run(w, trail, root, fuel) == Some(outcome(w, trail, awaited(w, trail, root))),
    decreases fuel,
{
    let sub = awaited(w, trail, root);
    lemma_feed_keeps_outcome(w, trail, root);
    match w.feed(ListingView::Entries(listing_of(sub))) {
        StepView::Next(then) => {
            lemma_run_ends(
                then,
                trail.push(sub).take(then.frames.len() as int),
                root,
                (fuel - 1) as nat,
            );
        },
        _ => {},
    }
}

/// Fed from the trees, a walk does not end on less fuel than the listings
/// it still needs.
pub proof fn lemma_run_needs(w: WalkView, trail: Seq<Seq<Tree>>, root: Seq<Tree>, fuel: nat)
    requires
        w.awaiting(),
        follows(w, trail),
        fuel < listings_left(w, trail, awaited(w, trail, root)),
    ensures
        run(w, trail, root, fuel) is None,
    decreases fuel,
{
    let sub = awaited(w, trail, root);
    lemma_feed_keeps_outcome(w, trail, root);
    if fuel > 0 {
        match w.feed(ListingView::Entries(listing_of(sub))) {
            StepView::Next(then) => {
                lemma_run_needs(
                    then,
                    trail.push(sub).take(then.frames.len() as int),
                    root,
                    (fuel - 1) as nat,
                );
            },
            _ => {},
        }
    }
}

/// A walker that is fed the listings of a directory tree, one for each
/// directory it names, ends with what the walk of the tree yields, and it
/// ends after one listing for the root and one for each directory that the
/// walk goes down into, not before.
pub proof fn theorem_walker_yields_walk(
    path: Seq<char>,
    root: Seq<Tree>,
    kind: SearchType,
    depth: Option<u32>,
)
    ensures
        run(start(path, kind, depth), Seq::empty(), root, 1 + requests(root, depth)) == Some(
            walk(root, kind, depth),
        ),
        run(start(path, kind, depth), Seq::empty(), root, requests(root, depth)) is None,
{
    let w = start(path, kind, depth);
    let trail = Seq::<Seq<Tree>>::empty();
    lemma_run_ends(w, trail, root, 1 + requests(root, depth));
    lemma_run_needs(w, trail, root, requests(root, depth));
}

/// The trees of a listing whose directories list nothing.
pub open spec fn bare(listing: Seq<ListedView>) -> Seq<Tree> {
    listing.map_values(|item: ListedView| Tree { item, sub: Seq::empty() })
}

proof fn lemma_no_requests(trees: Seq<Tree>, depth: Option<u32>)
    requires
        !descends(depth),
    ensures
        requests(trees, depth) == 0,
    decreases trees.len(),
{
    if trees.len() > 0 {
        lemma_no_requests(trees.drop_first(), depth);
        assert(requests_through(trees[0], depth) == 0);
    }
}

/// A walker that may not go down is done with the listing of the root: it
/// names no second directory, and it ends with those direct children of
/// the root that the search keeps, in the order of the listing. A budget
/// of 0 is such a one, and so is 1.
pub proof fn lemma_walker_without_descent(
    path: Seq<char>,
    listing: Seq<ListedView>,
    kind: SearchType,
    depth: Option<u32>,
)
    requires
        !descends(depth),
    ensures
        start(path, kind, depth).feed(ListingView::Entries(listing)) == StepView::Done(
            listing.map_values(|item: ListedView| item.entry).filter(of_kind(kind)),
        ),
{
    let root = bare(listing);
    let w = start(path, kind, depth);
    assert(listing_of(root) =~= listing);
    assert(children(root) =~= listing.map_values(|item: ListedView| item.entry));
    lemma_no_requests(root, depth);
    lemma_walk_without_descent(root, kind, depth);
    theorem_walker_yields_walk(path, root, kind, depth);
    // One listing is all the fuel there is: had the walker named a second
    // directory, the run would have ended with nothing.
    let trail = Seq::<Seq<Tree>>::empty();
    match w.feed(ListingView::Entries(listing)) {
        StepView::Next(then) => {
            assert(run(then, trail.push(root).take(then.frames.len() as int), root, 0) is None);
        },
        _ => {
            assert(run(w, trail, root, 1) is Some);
        },
    }
}

} // verus!

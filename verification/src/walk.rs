//! What a walk of a directory tree yields, stated over a tree of listings.
//!
//! A walk goes through the entries of a directory in the order in which the
//! listing gives them. Where an entry is a directory and the depth budget
//! lets the walk go down, everything found below the entry comes first; then
//! the entry itself, where the search keeps its kind.
//!
//! The depth budget counts how often the walk may go down, and it is the
//! budget handed down that decides: a directory is entered where the budget
//! for it is unbounded or above zero. So a walk with a budget of 0 or of 1
//! stays in the directory it starts from, a budget of 2 takes it one level
//! down, and no budget at all takes it down to the leaves.

use crate::entry::{admits, Entry, EntryKind, EntryView, SearchType};
use vstd::prelude::*;

verus! {

/// One item of a directory listing: the entry, and whether its path leads to
/// a directory when it is followed. The two differ for a link to a
/// directory: by kind it is neither file nor directory, and still it can be
/// listed.
#[derive(Clone, Debug, PartialEq, Eq)]
pub struct Listed {
    pub entry: Entry,
    pub is_directory: bool,
}

/// A [`Listed`] as contracts see it.
pub ghost struct ListedView {
    pub entry: EntryView,
    pub is_directory: bool,
}

impl View for Listed {
    type V = ListedView;

    open spec fn view(&self) -> ListedView {
        ListedView { entry: self.entry@, is_directory: self.is_directory }
    }
}

/// The views of the items of a listing, in the same order.
pub open spec fn listed_views(items: Seq<Listed>) -> Seq<ListedView> {
    items.map_values(|l: Listed| l@)
}

/// The budget that a walk with budget `depth` hands to a directory below:
/// none stays none, a positive budget loses one, and zero stays zero.
pub open spec fn depth_below(depth: Option<u32>) -> Option<u32> {
    match depth {
        None => None,
        Some(n) => if n > 0 {
            Some((n - 1) as u32)
        } else {
            Some(0u32)
        },
    }
}

/// Whether a walk with budget `depth` goes down into a directory it meets:
/// it does where the budget it would hand down is unbounded or above zero.
pub open spec fn descends(depth: Option<u32>) -> bool {
    match depth_below(depth) {
        None => true,
        Some(below) => below > 0,
    }
}

/// The budget for the directories one level down.
pub fn child_depth(depth: Option<u32>) -> (below: Option<u32>)
    ensures
        below == depth_below(depth),
{
    match depth {
        None => None,
        Some(n) => if n > 0 {
            Some(n - 1)
        } else {
            Some(0)
        },
    }
}

/// Whether a walk with budget `depth` goes down into a directory it meets.
pub fn should_recurse(depth: Option<u32>) -> (go: bool)
    ensures
        go == descends(depth),
        go == (depth is None || depth->0 >= 2),
{
    match child_depth(depth) {
        None => true,
        Some(below) => below > 0,
    }
}

/// A directory tree as a walk meets it: an item of a listing, and the
/// listing that its path gives (empty where the path gives none).
pub ghost struct Tree {
    pub item: ListedView,
    pub sub: Seq<Tree>,
}

/// The listing that holds the roots of `trees`.
pub open spec fn listing_of(trees: Seq<Tree>) -> Seq<ListedView> {
    trees.map_values(|t: Tree| t.item)
}

/// What a search for `kind` keeps of one item: its entry, or nothing.
pub open spec fn kept(item: ListedView, kind: SearchType) -> Seq<EntryView> {
    if admits(kind, item.entry.kind) {
        seq![item.entry]
    } else {
        Seq::empty()
    }
}

/// What a walk of a directory that lists `trees` yields.
pub open spec fn walk(trees: Seq<Tree>, kind: SearchType, depth: Option<u32>) -> Seq<EntryView>
    decreases trees, 1int,
{
    if trees.len() == 0 {
        Seq::empty()
    } else {
        visit(trees[0], kind, depth) + walk(trees.drop_first(), kind, depth)
    }
}

/// What a walk yields for one item of a listing: what lies below it, where
/// the walk goes down, and then the item itself, where it is kept.
pub open spec fn visit(tree: Tree, kind: SearchType, depth: Option<u32>) -> Seq<EntryView>
    decreases tree, 0int,
{
    let below = if tree.item.is_directory && descends(depth) {
        walk(tree.sub, kind, depth_below(depth))
    } else {
        Seq::empty()
    };
    below + kept(tree.item, kind)
}

/// The test that a search for `kind` puts to an entry.
pub open spec fn of_kind(kind: SearchType) -> spec_fn(EntryView) -> bool {
    |e: EntryView| admits(kind, e.kind)
}

/// The test for entries that are `tag`.
pub open spec fn tagged(tag: EntryKind) -> spec_fn(EntryView) -> bool {
    |e: EntryView| e.kind == tag
}

/// The entries of the roots of `trees`: the direct children of the
/// directory that lists them.
pub open spec fn children(trees: Seq<Tree>) -> Seq<EntryView> {
    trees.map_values(|t: Tree| t.item.entry)
}

/// Every entry that can be reached from a directory that lists `trees` by
/// going down through directories, each one once: what lies below an item
/// stands before the item.
pub open spec fn descendants(trees: Seq<Tree>) -> Seq<EntryView>
    decreases trees, 1int,
{
    if trees.len() == 0 {
        Seq::empty()
    } else {
        descendants_through(trees[0]) + descendants(trees.drop_first())
    }
}

/// The entries reached through one item, and the item's own entry last.
pub open spec fn descendants_through(tree: Tree) -> Seq<EntryView>
    decreases tree, 0int,
{
    let below = if tree.item.is_directory {
        descendants(tree.sub)
    } else {
        Seq::empty()
    };
    below.push(tree.item.entry)
}

proof fn lemma_filter_one(e: EntryView, pred: spec_fn(EntryView) -> bool)
    ensures
        seq![e].filter(pred) == if pred(e) {
            seq![e]
        } else {
            Seq::<EntryView>::empty()
        },
{
    reveal(Seq::filter);
    let none = Seq::<EntryView>::empty();
    none.lemma_filter_push(e, pred);
}

/// A walk that may not go down yields the direct children that the search
/// keeps, in the order of the listing, and nothing else: what lies below
/// them has no part in it. A budget of 0 is such a one, and so is 1.
pub proof fn lemma_walk_without_descent(trees: Seq<Tree>, kind: SearchType, depth: Option<u32>)
    requires
        !descends(depth),
    ensures
        walk(trees, kind, depth) == children(trees).filter(of_kind(kind)),
    decreases trees.len(),
{
    if trees.len() > 0 {
        let head = trees[0];
        let rest = trees.drop_first();
        lemma_walk_without_descent(rest, kind, depth);
        lemma_filter_one(head.item.entry, of_kind(kind));
        assert(children(trees) =~= seq![head.item.entry] + children(rest));
        Seq::filter_distributes_over_add(seq![head.item.entry], children(rest), of_kind(kind));
        assert(visit(head, kind, depth) =~= kept(head.item, kind));
    }
}

/// With no bound on the depth a walk yields every entry that can be reached
/// through directories and that the search keeps, each one once, in the
/// order in which the walk meets them.
pub proof fn lemma_unbounded_walk(trees: Seq<Tree>, kind: SearchType)
    ensures
        walk(trees, kind, None) == descendants(trees).filter(of_kind(kind)),
    decreases trees, 1int,
{
    if trees.len() > 0 {
        let head = trees[0];
        let rest = trees.drop_first();
        lemma_unbounded_visit(head, kind);
        lemma_unbounded_walk(rest, kind);
        Seq::filter_distributes_over_add(
            descendants_through(head),
            descendants(rest),
            of_kind(kind),
        );
    }
}

proof fn lemma_unbounded_visit(tree: Tree, kind: SearchType)
    ensures
        visit(tree, kind, None) == descendants_through(tree).filter(of_kind(kind)),
    decreases tree, 0int,
{
    let below = if tree.item.is_directory {
        descendants(tree.sub)
    } else {
        Seq::empty()
    };
    if tree.item.is_directory {
        lemma_unbounded_walk(tree.sub, kind);
    }
    lemma_filter_one(tree.item.entry, of_kind(kind));
    assert(below.push(tree.item.entry) =~= below + seq![tree.item.entry]);
    Seq::filter_distributes_over_add(below, seq![tree.item.entry], of_kind(kind));
}

proof fn lemma_filter_keeps_distinct(entries: Seq<EntryView>, pred: spec_fn(EntryView) -> bool)
    requires
        entries.no_duplicates(),
    ensures
        entries.filter(pred).no_duplicates(),
    decreases entries.len(),
{
    reveal(Seq::filter);
    if entries.len() > 0 {
        let front = entries.drop_last();
        let last = entries.last();
        lemma_filter_keeps_distinct(front, pred);
        if front.filter(pred).contains(last) {
            front.lemma_filter_contains_rev(pred, last);
            let at = choose|i: int| 0 <= i < front.len() && front[i] == last;
        }
    }
}

/// With no bound on the depth nothing is left out and nothing comes
/// twice: every entry that can be reached and that the search keeps is
/// among what the walk yields, the walk yields nothing else, and where the
/// entries that can be reached differ from one another, so do those that
/// the walk yields.
pub proof fn lemma_unbounded_walk_is_complete(trees: Seq<Tree>, kind: SearchType)
    ensures
        forall|e: EntryView|
            descendants(trees).contains(e) && admits(kind, e.kind) ==> walk(
                trees,
                kind,
                None,
            ).contains(e),
        forall|e: EntryView|
            walk(trees, kind, None).contains(e) ==> descendants(trees).contains(e) && admits(
                kind,
                e.kind,
            ),
        descendants(trees).no_duplicates() ==> walk(trees, kind, None).no_duplicates(),
{
    let all = descendants(trees);
    let found = walk(trees, kind, None);
    lemma_unbounded_walk(trees, kind);
    assert forall|e: EntryView| all.contains(e) && admits(kind, e.kind) implies found.contains(
        e,
    ) by {
        let at = choose|i: int| 0 <= i < all.len() && all[i] == e;
        all.lemma_filter_contains(of_kind(kind), at);
    }
    assert forall|e: EntryView| found.contains(e) implies all.contains(e) && admits(
        kind,
        e.kind,
    ) by {
        all.lemma_filter_contains_rev(of_kind(kind), e);
        let at = choose|i: int| 0 <= i < found.len() && found[i] == e;
        all.lemma_filter_pred(of_kind(kind), at);
    }
    if all.no_duplicates() {
        lemma_filter_keeps_distinct(all, of_kind(kind));
    }
}

/// Every entry that a walk yields is of a kind that the search keeps: a
/// search for files yields plain files only, a search for directories
/// yields directories only, and a search for both yields nothing that is
/// neither.
pub proof fn lemma_walk_keeps_kind(trees: Seq<Tree>, kind: SearchType, depth: Option<u32>)
    ensures
        forall|i: int|
            0 <= i < walk(trees, kind, depth).len() ==> admits(
                kind,
                #[trigger] walk(trees, kind, depth)[i].kind,
            ),
    decreases trees, 1int,
{
    if trees.len() > 0 {
        lemma_visit_keeps_kind(trees[0], kind, depth);
        lemma_walk_keeps_kind(trees.drop_first(), kind, depth);
    }
}

proof fn lemma_visit_keeps_kind(tree: Tree, kind: SearchType, depth: Option<u32>)
    ensures
        forall|i: int|
            0 <= i < visit(tree, kind, depth).len() ==> admits(
                kind,
                #[trigger] visit(tree, kind, depth)[i].kind,
            ),
    decreases tree, 0int,
{
    if tree.item.is_directory && descends(depth) {
        lemma_walk_keeps_kind(tree.sub, kind, depth_below(depth));
    }
}

/// A search for both kinds yields the union of what the two single searches
/// yield: the search for files yields its plain files, the search for
/// directories its directories, each in the same order, and it holds
/// nothing else.
pub proof fn lemma_both_is_union(trees: Seq<Tree>, depth: Option<u32>)
    ensures
        walk(trees, SearchType::File, depth) == walk(trees, SearchType::Both, depth).filter(
            tagged(EntryKind::File),
        ),
        walk(trees, SearchType::Directory, depth) == walk(trees, SearchType::Both, depth).filter(
            tagged(EntryKind::Directory),
        ),
        walk(trees, SearchType::Both, depth).len() == walk(trees, SearchType::File, depth).len()
            + walk(trees, SearchType::Directory, depth).len(),
    decreases trees, 1int,
{
    if trees.len() > 0 {
        let head = trees[0];
        let rest = trees.drop_first();
        lemma_visit_both_is_union(head, depth);
        lemma_both_is_union(rest, depth);
        Seq::filter_distributes_over_add(
            visit(head, SearchType::Both, depth),
            walk(rest, SearchType::Both, depth),
            tagged(EntryKind::File),
        );
        Seq::filter_distributes_over_add(
            visit(head, SearchType::Both, depth),
            walk(rest, SearchType::Both, depth),
            tagged(EntryKind::Directory),
        );
    }
}

proof fn lemma_visit_both_is_union(tree: Tree, depth: Option<u32>)
    ensures
        visit(tree, SearchType::File, depth) == visit(tree, SearchType::Both, depth).filter(
            tagged(EntryKind::File),
        ),
        visit(tree, SearchType::Directory, depth) == visit(tree, SearchType::Both, depth).filter(
            tagged(EntryKind::Directory),
        ),
        visit(tree, SearchType::Both, depth).len() == visit(tree, SearchType::File, depth).len()
            + visit(tree, SearchType::Directory, depth).len(),
    decreases tree, 0int,
{
    let go = tree.item.is_directory && descends(depth);
    let below = if go {
        walk(tree.sub, SearchType::Both, depth_below(depth))
    } else {
        Seq::empty()
    };
    if go {
        lemma_both_is_union(tree.sub, depth_below(depth));
    }
    let own = kept(tree.item, SearchType::Both);
    lemma_filter_one(tree.item.entry, tagged(EntryKind::File));
    lemma_filter_one(tree.item.entry, tagged(EntryKind::Directory));
    Seq::filter_distributes_over_add(below, own, tagged(EntryKind::File));
    Seq::filter_distributes_over_add(below, own, tagged(EntryKind::Directory));
}

} // verus!

//! A walk as a dialogue: the walker names a directory, the caller reads it
//! and hands the listing back, until the walker is done.
//!
//! The walker never touches the file system. It decides which directory is
//! read next and what is kept; reading is the caller's part.

use crate::entry::{entry_views, Entry, EntryView, SearchType};
use crate::error::SearchError;
use crate::walk::{
    child_depth, depth_below, descends, kept, listed_views, should_recurse, Listed, ListedView,
};
use vstd::prelude::*;

verus! {

/// What came of reading the directory that the walker named.
#[derive(Clone, Debug, PartialEq, Eq)]
pub enum Listing {
    /// Its entries, in the order in which the directory gave them.
    Entries(Vec<Listed>),
    /// The path is missing or leads to no directory. Of the root this
    /// fails the search before it starts; of a directory on the way it
    /// counts as one that could not be opened.
    NotADirectory,
    /// The directory could not be opened.
    OpenFailed,
    /// One of its entries could not be read.
    ReadFailed,
}

/// A [`Listing`] as contracts see it.
pub ghost enum ListingView {
    /// The entries, in the order in which the directory gave them.
    Entries(Seq<ListedView>),
    /// The path is missing or leads to no directory.
    NotADirectory,
    /// The directory could not be opened.
    OpenFailed,
    /// One of its entries could not be read.
    ReadFailed,
}

impl View for Listing {
    type V = ListingView;

    open spec fn view(&self) -> ListingView {
        match self {
            Listing::Entries(items) => ListingView::Entries(listed_views(items@)),
            Listing::NotADirectory => ListingView::NotADirectory,
            Listing::OpenFailed => ListingView::OpenFailed,
            Listing::ReadFailed => ListingView::ReadFailed,
        }
    }
}

/// A directory that the walk is inside of: its listing, the item the walk
/// has come to, and the depth budget of the directory.
pub ghost struct FrameView {
    pub listing: Seq<ListedView>,
    pub next: nat,
    pub depth: Option<u32>,
}

impl FrameView {
    /// The item the walk has come to.
    pub open spec fn current(self) -> ListedView {
        self.listing[self.next as int]
    }

    /// The frame with the walk one item on.
    pub open spec fn stepped(self) -> FrameView {
        FrameView { next: self.next + 1, ..self }
    }

    /// Whether the walk has come to a directory that it goes down into.
    pub open spec fn waits(self) -> bool {
        self.next < self.listing.len() && self.current().is_directory && descends(self.depth)
    }
}

/// The state of a walk between two listings: the directories it is inside
/// of, outermost first, and what it has kept so far. The walk waits for the
/// listing of the item that the innermost frame has come to, or of the root
/// where it is inside of nothing yet.
pub ghost struct WalkView {
    pub kind: SearchType,
    pub depth: Option<u32>,
    pub root: Seq<char>,
    pub frames: Seq<FrameView>,
    pub items: Seq<EntryView>,
}

/// What a walk does with a listing.
pub ghost enum StepView {
    /// It waits for the next listing.
    Next(WalkView),
    /// It has ended, with these entries.
    Done(Seq<EntryView>),
    /// It was given up.
    Failed(SearchError),
}

impl WalkView {
    /// Every directory the walk is inside of was entered through an item
    /// that the walk goes down into, and that item is still the current one.
    pub open spec fn awaiting(self) -> bool {
        forall|i: int| 0 <= i < self.frames.len() ==> (#[trigger] self.frames[i]).waits()
    }

    /// The path of the directory whose listing the walk waits for.
    pub open spec fn awaited_path(self) -> Seq<char> {
        if self.frames.len() == 0 {
            self.root
        } else {
            self.frames.last().current().entry.path
        }
    }

    /// The depth budget of the directory whose listing the walk waits for.
    pub open spec fn awaited_depth(self) -> Option<u32> {
        if self.frames.len() == 0 {
            self.depth
        } else {
            depth_below(self.frames.last().depth)
        }
    }

    /// The walk inside the awaited directory, at the first item of its
    /// listing.
    pub open spec fn enter(self, listing: Seq<ListedView>) -> WalkView {
        WalkView {
            frames: self.frames.push(
                FrameView { listing, next: 0, depth: self.awaited_depth() },
            ),
            ..self
        }
    }

    /// The walk after it has dealt with the current item of the innermost
    /// frame: the item is kept where the search keeps its kind, and the
    /// frame is one item on.
    pub open spec fn advance(self) -> WalkView {
        let top = self.frames.last();
        WalkView {
            frames: self.frames.drop_last().push(top.stepped()),
            items: self.items + kept(top.current(), self.kind),
            ..self
        }
    }

    /// The walk outside the innermost frame.
    pub open spec fn leave(self) -> WalkView {
        WalkView { frames: self.frames.drop_last(), ..self }
    }

    /// Goes on from inside a directory until the walk has to wait for a
    /// listing or has ended. An item that the walk does not go down into is
    /// dealt with at once. At the end of a listing the walk leaves the
    /// directory and deals with the item it had entered through; at the end
    /// of the root's listing it is done.
    pub open spec fn settle(self) -> StepView
        decreases
                self.frames.len(),
                (if self.frames.len() > 0 {
                    self.frames.last().listing.len() - self.frames.last().next
                } else {
                    0
                }),
    {
        if self.frames.len() == 0 {
            StepView::Done(self.items)
        } else {
            let top = self.frames.last();
            if top.next < top.listing.len() {
                if top.waits() {
                    StepView::Next(self)
                } else {
                    self.advance().settle()
                }
            } else if self.frames.len() == 1 {
                StepView::Done(self.items)
            } else {
                self.leave().advance().settle()
            }
        }
    }

    /// What the walk does with the listing it waited for. A root that is
    /// no directory fails the walk before it starts; anything else that
    /// cannot be read fails it on the way.
    pub open spec fn feed(self, listing: ListingView) -> StepView {
        match listing {
            ListingView::Entries(items) => self.enter(items).settle(),
            ListingView::NotADirectory => if self.frames.len() == 0 {
                StepView::Failed(SearchError::NotADirectory)
            } else {
                StepView::Failed(SearchError::OpenFailed)
            },
            ListingView::OpenFailed => StepView::Failed(SearchError::OpenFailed),
            ListingView::ReadFailed => StepView::Failed(SearchError::ReadFailed),
        }
    }
}

/// A walk that has not started: it waits for the listing of `root`.
pub open spec fn start(root: Seq<char>, kind: SearchType, depth: Option<u32>) -> WalkView {
    WalkView { kind, depth, root, frames: Seq::empty(), items: Seq::empty() }
}

/// A directory that the walker is inside of.
struct Frame {
    listing: Vec<Listed>,
    next: usize,
    depth: Option<u32>,
}

impl View for Frame {
    type V = FrameView;

    closed spec fn view(&self) -> FrameView {
        FrameView {
            listing: listed_views(self.listing@),
            next: self.next as nat,
            depth: self.depth,
        }
    }
}

/// The views of the frames, outermost first.
spec fn frame_views(frames: Seq<Frame>) -> Seq<FrameView> {
    frames.map_values(|f: Frame| f@)
}

/// A walk that waits for a listing.
pub struct Walker {
    kind: SearchType,
    depth: Option<u32>,
    root: String,
    frames: Vec<Frame>,
    items: Vec<Entry>,
}

impl View for Walker {
    type V = WalkView;

    closed spec fn view(&self) -> WalkView {
        WalkView {
            kind: self.kind,
            depth: self.depth,
            root: self.root@,
            frames: frame_views(self.frames@),
            items: entry_views(self.items@),
        }
    }
}

/// What the walker answers to a listing.
pub enum Step {
    /// Read the directory that this walker names, and feed it the listing.
    Next(Walker),
    /// The walk has ended, with these entries.
    Done(Vec<Entry>),
    /// The walk is given up.
    Failed(SearchError),
}

impl View for Step {
    type V = StepView;

    open spec fn view(&self) -> StepView {
        match self {
            Step::Next(walker) => StepView::Next(walker@),
            Step::Done(items) => StepView::Done(entry_views(items@)),
            Step::Failed(error) => StepView::Failed(*error),
        }
    }
}

/// Starts a walk of the directory `path`, for entries of `kind`, going down
/// as far as `depth` lets it. Nothing is read yet: the walker waits for the
/// listing of `path`.
pub fn read_dir(path: &str, kind: SearchType, depth: Option<u32>) -> (walker: Walker)
    ensures
        walker@ == start(path@, kind, depth),
{
    let walker = Walker {
        kind,
        depth,
        root: path.to_owned(),
        frames: Vec::new(),
        items: Vec::new(),
    };
    proof {
        assert(frame_views(walker.frames@) =~= Seq::<FrameView>::empty());
        assert(entry_views(walker.items@) =~= Seq::<EntryView>::empty());
    }
    walker
}

impl Walker {
    /// A walker is inside of directories only that it has gone down into,
    /// each at the item it went down through.
    #[verifier::type_invariant]
    spec fn inv(self) -> bool {
        self@.awaiting()
    }

    /// The path of the directory to read next.
    pub fn path(&self) -> (path: &str)
        ensures
            path@ == self@.awaited_path(),
    {
        proof {
            use_type_invariant(self);
        }
        let n = self.frames.len();
        if n == 0 {
            self.root.as_str()
        } else {
            let top = &self.frames[n - 1];
            assert(self@.frames[n - 1] == top@);
            top.listing[top.next].entry.path.as_str()
        }
    }

    /// Takes the listing of the directory that [`Walker::path`] names and
    /// goes on with the walk: to the next directory that has to be read, to
    /// the end, or to the failure that the listing reports.
    #[verifier::loop_isolation(false)]
    pub fn feed(self, listing: Listing) -> (step: Step)
        ensures
            self@.awaiting(),
            step@ == self@.feed(listing@),
            step matches Step::Next(walker) ==> walker@.awaiting(),
    {
        proof {
            use_type_invariant(&self);
        }
        let ghost before = self@;
        let Walker { kind, depth, root, mut frames, mut items } = self;
        let found = match listing {
            Listing::Entries(found) => found,
            Listing::NotADirectory => {
                if frames.len() == 0 {
                    return Step::Failed(SearchError::NotADirectory);
                } else {
                    return Step::Failed(SearchError::OpenFailed);
                }
            },
            Listing::OpenFailed => {
                return Step::Failed(SearchError::OpenFailed);
            },
            Listing::ReadFailed => {
                return Step::Failed(SearchError::ReadFailed);
            },
        };
        let ghost entered = before.enter(listed_views(found@));
        let below = if frames.len() == 0 {
            depth
        } else {
            child_depth(frames[frames.len() - 1].depth)
        };
        let frame = Frame { listing: found, next: 0, depth: below };
        proof {
            assert(frame_views(frames@.push(frame)) =~= entered.frames);
            assert forall|i: int| 0 <= i < frames.len() implies (
            #[trigger] frames@[i])@.waits() by {
                assert(before.frames[i] == frames@[i]@);
            }
        }
        frames.push(frame);
        loop
            invariant
                frames.len() >= 1,
                frames@.last().next <= frames@.last().listing.len(),
                forall|i: int| 0 <= i < frames.len() - 1 ==> (#[trigger] frames@[i])@.waits(),
                (WalkView {
                    kind,
                    depth,
                    root: root@,
                    frames: frame_views(frames@),
                    items: entry_views(items@),
                }).settle() == entered.settle(),
            decreases frames.len(), frames@.last().listing.len() - frames@.last().next,
        {
            let ghost now = WalkView {
                kind,
                depth,
                root: root@,
                frames: frame_views(frames@),
                items: entry_views(items@),
            };
            let ghost whole = frames@;
            let ghost lower = frames@.drop_last();
            let top = frames.pop().unwrap();
            if top.next < top.listing.len() {
                if top.listing[top.next].is_directory && should_recurse(top.depth) {
                    assert(lower.push(top) =~= whole);
                    frames.push(top);
                    return Step::Next(Walker { kind, depth, root, frames, items });
                }
                let top = top.pass(kind, &mut items);
                assert(frame_views(lower.push(top)) =~= now.advance().frames);
                frames.push(top);
            } else if frames.len() == 0 {
                return Step::Done(items);
            } else {
                let parent = frames.pop().unwrap().pass(kind, &mut items);
                assert(frame_views(lower.drop_last().push(parent))
                    =~= now.leave().advance().frames);
                frames.push(parent);
            }
        }
    }
}

impl Frame {
    /// Deals with the current item, which the walk does not go down into
    /// or has come back from: the item is kept where the search keeps its
    /// kind, and the frame goes one item on.
    fn pass(self, kind: SearchType, items: &mut Vec<Entry>) -> (on: Frame)
        requires
            self.next < self.listing.len(),
        ensures
            on@ == self@.stepped(),
            entry_views(final(items)@) == entry_views(old(items)@) + kept(self@.current(), kind),
    {
        let item = &self.listing[self.next];
        if kind.keeps(item.entry.kind) {
            items.push(item.entry.duplicate());
        }
        Frame { listing: self.listing, next: self.next + 1, depth: self.depth }
    }
}

} // verus!

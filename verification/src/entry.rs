//! The values a search works with: what is looked for, and what is found.

use vstd::prelude::*;

verus! {

/// Which entries a search keeps.
#[derive(Clone, Copy, Debug, PartialEq, Eq, Structural)]
pub enum SearchType {
    /// Plain files and directories alike.
    Both,
    /// Plain files only.
    File,
    /// Directories only.
    Directory,
}

impl Default for SearchType {
    fn default() -> (kind: SearchType)
        ensures
            kind == SearchType::Both,
    {
        SearchType::Both
    }
}

/// What a directory entry is, as its own file type says, without following a link.
#[derive(Clone, Copy, Debug, PartialEq, Eq, Structural)]
pub enum EntryKind {
    /// A plain file.
    File,
    /// A directory.
    Directory,
    /// Anything else: a link, a socket, a device.
    Other,
}

/// One entry met during a walk: its path and what it is.
#[derive(Clone, Debug, PartialEq, Eq)]
pub struct Entry {
    pub path: String,
    pub kind: EntryKind,
}

/// An [`Entry`] as contracts see it: the characters of the path, and the kind.
pub ghost struct EntryView {
    pub path: Seq<char>,
    pub kind: EntryKind,
}

impl View for Entry {
    type V = EntryView;

    open spec fn view(&self) -> EntryView {
        EntryView { path: self.path@, kind: self.kind }
    }
}

/// The views of a sequence of entries, in the same order.
pub open spec fn entry_views(entries: Seq<Entry>) -> Seq<EntryView> {
    entries.map_values(|e: Entry| e@)
}

/// Whether a search for `kind` keeps an entry that is `tag`. Nothing keeps
/// an entry that is neither a plain file nor a directory.
pub open spec fn admits(kind: SearchType, tag: EntryKind) -> bool {
    match kind {
        SearchType::File => tag == EntryKind::File,
        SearchType::Directory => tag == EntryKind::Directory,
        SearchType::Both => tag == EntryKind::File || tag == EntryKind::Directory,
    }
}

impl SearchType {
    /// Whether a search for `self` keeps an entry that is `tag`.
    pub fn keeps(self, tag: EntryKind) -> (kept: bool)
        ensures
            kept == admits(self, tag),
    {
        match self {
            SearchType::File => tag == EntryKind::File,
            SearchType::Directory => tag == EntryKind::Directory,
            SearchType::Both => tag == EntryKind::File || tag == EntryKind::Directory,
        }
    }
}

impl Entry {
    /// A second entry with the same path and kind.
    pub fn duplicate(&self) -> (copy: Entry)
        ensures
            copy == *self,
    {
        Entry { path: self.path.clone(), kind: self.kind }
    }

    /// The text a listing shows for this entry: the path, and behind it a
    /// `/` where the entry is a directory.
    pub open spec fn label_text(self) -> Seq<char> {
        if self.kind == EntryKind::Directory {
            self.path@.push('/')
        } else {
            self.path@
        }
    }

    /// The text a listing shows for this entry.
    pub fn label(&self) -> (text: String)
        ensures
            text@ == self.label_text(),
    {
        let text = self.path.clone();
        if self.kind == EntryKind::Directory {
            proof {
                reveal_strlit("/");
            }
            text.concat("/")
        } else {
            text
        }
    }
}

} // verus!

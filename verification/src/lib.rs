//! Searching a directory tree for entries whose name matches a pattern.
//!
//! A search has three parts, and each is a module of its own:
//!
//! * [`flags`] reads the settings of a search, a [`flags::Cmd`], from the
//!   flags of a command line;
//! * [`walker`] walks the tree, as far down as the depth budget lets it,
//!   and keeps the entries of the kind that is looked for;
//! * [`filter`] keeps of those the entries whose name matches the pattern.
//!
//! The library reads no directory itself. A [`walker::Walker`] names the
//! directory it needs next, the caller reads it and feeds the listing back:
//!
//! ```text
//! let mut walker = read_dir(&cmd.path, cmd.kind, cmd.depth);
//! let items = loop {
//!     match walker.feed(list(walker.path())) {
//!         Step::Next(next) => walker = next,
//!         Step::Done(items) => break items,
//!         Step::Failed(error) => return Err(error),
//!     }
//! };
//! execute_cmd(&mut cmd, &items)?;
//! ```
//!
//! What such a walk yields is stated in [`walk`], over a tree that says what
//! every directory lists, and [`agreement`] proves that the walker yields
//! just that. Patterns are regular expressions of the `regex` crate;
//! [`engine`] holds what is taken for granted of it.

pub mod agreement;
pub mod engine;
pub mod entry;
pub mod error;
pub mod filter;
pub mod flags;
pub mod text;
pub mod walk;
pub mod walker;

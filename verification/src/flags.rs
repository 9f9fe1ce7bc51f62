//! The settings of a search, and the flags that set them.
//!
//! A flag is written `-name=value`, the value joined to the name by `=`:
//! `-t=f -p=src -r=main -d=2`. The names and what they set:
//!
//! | name            | sets                                             |
//! |-----------------|--------------------------------------------------|
//! | `t`, `type`     | the kind: `f`/`file`, `d`/`directory`, `b`/`both` |
//! | `p`, `path`     | the directory to start from                      |
//! | `r`, `regex`    | the pattern                                      |
//! | `d`, `depth`    | the depth budget, an unsigned number             |
//!
//! A flag with another name is passed over, a kind with another value is
//! `both`, and of two flags that set the same thing the later one counts.

use crate::engine::{regex_captures, Matcher};
use crate::entry::{entry_views, Entry, EntryView, SearchType};
use crate::error::SearchError;
use crate::text::{decimal, parse_depth, same_text};
use vstd::prelude::*;

verus! {

/// What a flag sets.
#[derive(Clone, Copy, Debug, PartialEq, Eq, Structural)]
pub enum FlagType {
    /// The kind of entries that are kept.
    SearchType,
    /// The directory to start from.
    SearchPath,
    /// The pattern for the names.
    RegexPattern,
    /// The depth budget.
    Depth,
}

/// The settings of a search, and what it has found.
#[derive(Clone, Debug, PartialEq, Eq)]
pub struct Cmd {
    /// The directory to start from.
    pub path: String,
    /// Which entries are kept.
    pub kind: SearchType,
    /// How far down the walk goes; `None` is without bound.
    pub depth: Option<u32>,
    /// The pattern that the name of an entry has to match; empty matches
    /// every name.
    pub pattern: String,
    /// What was found, in the order in which the walk met it.
    pub matches: Vec<Entry>,
}

/// A [`Cmd`] as contracts see it.
pub ghost struct CmdView {
    pub path: Seq<char>,
    pub kind: SearchType,
    pub depth: Option<u32>,
    pub pattern: Seq<char>,
    pub matches: Seq<EntryView>,
}

impl View for Cmd {
    type V = CmdView;

    open spec fn view(&self) -> CmdView {
        CmdView {
            path: self.path@,
            kind: self.kind,
            depth: self.depth,
            pattern: self.pattern@,
            matches: entry_views(self.matches@),
        }
    }
}

/// The settings before any flag is read: no path, both kinds, no bound on
/// the depth, the empty pattern, nothing found.
pub open spec fn unset() -> CmdView {
    CmdView {
        path: Seq::empty(),
        kind: SearchType::Both,
        depth: None,
        pattern: Seq::empty(),
        matches: Seq::empty(),
    }
}

impl Default for Cmd {
    fn default() -> (cmd: Cmd)
        ensures
            cmd@ == unset(),
    {
        let cmd = Cmd {
            path: String::new(),
            kind: SearchType::Both,
            depth: None,
            pattern: String::new(),
            matches: Vec::new(),
        };
        assert(entry_views(cmd.matches@) =~= Seq::<EntryView>::empty());
        cmd
    }
}

/// What the flag called `name` sets; `None` for a name that is no flag.
pub open spec fn flag_of(name: Seq<char>) -> Option<FlagType> {
    if name == "t"@ || name == "type"@ {
        Some(FlagType::SearchType)
    } else if name == "r"@ || name == "regex"@ {
        Some(FlagType::RegexPattern)
    } else if name == "d"@ || name == "depth"@ {
        Some(FlagType::Depth)
    } else if name == "p"@ || name == "path"@ {
        Some(FlagType::SearchPath)
    } else {
        None
    }
}

/// The kind that `value` names; both kinds where it names none.
pub open spec fn kind_of(value: Seq<char>) -> SearchType {
    if value == "f"@ || value == "file"@ {
        SearchType::File
    } else if value == "d"@ || value == "directory"@ {
        SearchType::Directory
    } else {
        SearchType::Both
    }
}

/// The settings after the flag `name` with `value`; `None` where the flag
/// sets the depth and the value writes no unsigned number.
pub open spec fn with_flag(cmd: CmdView, name: Seq<char>, value: Seq<char>) -> Option<CmdView> {
    match flag_of(name) {
        None => Some(cmd),
        Some(FlagType::SearchType) => Some(CmdView { kind: kind_of(value), ..cmd }),
        Some(FlagType::SearchPath) => Some(CmdView { path: value, ..cmd }),
        Some(FlagType::RegexPattern) => Some(CmdView { pattern: value, ..cmd }),
        Some(FlagType::Depth) => match decimal(value) {
            Some(depth) => Some(CmdView { depth: Some(depth), ..cmd }),
            None => None,
        },
    }
}

/// The settings after one match of the flag grammar: group 1 is the name
/// of the flag and group 2 its value. A match of another shape sets
/// nothing.
pub open spec fn with_match(cmd: CmdView, groups: Seq<Option<Seq<char>>>) -> Option<CmdView> {
    if groups.len() == 3 && groups[1] is Some && groups[2] is Some {
        with_flag(cmd, groups[1]->0, groups[2]->0)
    } else {
        Some(cmd)
    }
}

/// The settings after all of `found`, taken from first to last; `None`
/// where one of them is a depth flag whose value writes no unsigned number.
pub open spec fn with_matches(cmd: CmdView, found: Seq<Seq<Option<Seq<char>>>>) -> Option<CmdView>
    decreases found.len(),
{
    if found.len() == 0 {
        Some(cmd)
    } else {
        match with_match(cmd, found[0]) {
            Some(next) => with_matches(next, found.drop_first()),
            None => None,
        }
    }
}

/// The settings with the current directory as the path, where none is set.
pub open spec fn with_default_path(cmd: CmdView) -> CmdView {
    if cmd.path.len() == 0 {
        CmdView { path: "."@, ..cmd }
    } else {
        cmd
    }
}

/// The settings that `found` describes: the flags read from first to last,
/// starting from nothing, and the path set where no flag sets it.
pub open spec fn settings(found: Seq<Seq<Option<Seq<char>>>>) -> Option<CmdView> {
    match with_matches(unset(), found) {
        Some(cmd) => Some(with_default_path(cmd)),
        None => None,
    }
}

/// The arguments of a command in one string, each with a blank behind it.
pub open spec fn joined(args: Seq<String>) -> Seq<char>
    decreases args.len(),
{
    if args.len() == 0 {
        Seq::empty()
    } else {
        joined(args.drop_last()) + args.last()@ + seq![' ']
    }
}

/// Joins the arguments of a command into the one string that
/// [`Cmd::new`] reads.
pub fn command_line(args: &Vec<String>) -> (line: String)
    ensures
        line@ == joined(args@),
{
    let mut line = String::new();
    let mut i: usize = 0;
    while i < args.len()
        invariant
            i <= args.len(),
            line@ == joined(args@.take(i as int)),
        decreases args.len() - i,
    {
        proof {
            reveal_strlit(" ");
            assert(args@.take(i + 1).drop_last() =~= args@.take(i as int));
        }
        line.append(args[i].as_str());
        line.append(" ");
        i += 1;
    }
    assert(args@.take(i as int) =~= args@);
    line
}

/// The matches of the flag grammar in `line`, from first to last, as the
/// pattern engine finds them.
pub open spec fn flags_in(line: Seq<char>) -> Seq<Seq<Option<Seq<char>>>> {
    regex_captures(Cmd::PATTERN@, line)
}

impl Cmd {
    /// The grammar of a flag: a `-` that does not stand between two word
    /// characters, the name (word characters), `=`, and the value (word
    /// characters, `.`, `/` and `-`).
    pub const PATTERN: &'static str = r#"\B-(?P<kind>\w+)=(?P<value>[\w./\-]+)"#;

    /// The settings that the flags in `cmd_str` describe.
    ///
    /// The string is searched for flags with the pattern engine. It fails
    /// with [`SearchError::MalformedDepth`] where a depth flag has a value
    /// that writes no unsigned number, and with
    /// [`SearchError::MalformedPattern`] where the engine refuses the
    /// grammar itself.
    pub fn new(cmd_str: &str) -> (made: Result<Cmd, SearchError>)
        ensures
            match made {
                Ok(cmd) => settings(flags_in(cmd_str@)) == Some(cmd@),
                Err(error) => {
                    ||| error == SearchError::MalformedPattern
                    ||| error == SearchError::MalformedDepth && settings(flags_in(cmd_str@)) is None
                },
            },
    {
        match Matcher::compile(Cmd::PATTERN) {
            Ok(rgx) => Cmd::from_captures(&rgx.captures(cmd_str)),
            Err(error) => Err(error),
        }
    }

    /// The settings that the matches `found` of the flag grammar describe.
    pub fn from_captures(found: &Vec<Vec<Option<String>>>) -> (made: Result<Cmd, SearchError>)
        ensures
            match made {
                Ok(cmd) => settings(found.deep_view()) == Some(cmd@),
                Err(error) => {
                    &&& error == SearchError::MalformedDepth
                    &&& settings(found.deep_view()) is None
                },
            },
    {
        let mut instance = Cmd::default();
        match Cmd::apply_captures(&mut instance, found) {
            Ok(()) => {},
            Err(error) => {
                return Err(error);
            },
        }
        if instance.path.as_str().is_empty() {
            instance.path = ".".to_owned();
        }
        Ok(instance)
    }

    /// Reads the flags in `cmd_str` into `instance`. Where it fails,
    /// `instance` is left as it was.
    pub fn parse_flags(instance: &mut Cmd, cmd_str: &str) -> (done: Result<(), SearchError>)
        ensures
            match done {
                Ok(()) => with_matches(old(instance)@, flags_in(cmd_str@)) == Some(
                    final(instance)@,
                ),
                Err(error) => {
                    &&& *final(instance) == *old(instance)
                    &&& {
                        ||| error == SearchError::MalformedPattern
                        ||| error == SearchError::MalformedDepth && with_matches(
                            old(instance)@,
                            flags_in(cmd_str@),
                        ) is None
                    }
                },
            },
    {
        match Matcher::compile(Cmd::PATTERN) {
            Ok(rgx) => Cmd::apply_captures(instance, &rgx.captures(cmd_str)),
            Err(error) => Err(error),
        }
    }

    /// Reads the matches `found` of the flag grammar into `instance`, from
    /// first to last. Where a depth flag has a value that writes no
    /// unsigned number it fails, and `instance` is left as it was.
    pub fn apply_captures(instance: &mut Cmd, found: &Vec<Vec<Option<String>>>) -> (done: Result<
        (),
        SearchError,
    >)
        ensures
            match with_matches(old(instance)@, found.deep_view()) {
                Some(cmd) => done is Ok && final(instance)@ == cmd,
                None => {
                    &&& done == Err::<(), SearchError>(SearchError::MalformedDepth)
                    &&& *final(instance) == *old(instance)
                },
            },
    {
        let ghost all = found.deep_view();
        let mut next = Cmd {
            path: instance.path.clone(),
            kind: instance.kind,
            depth: instance.depth,
            pattern: instance.pattern.clone(),
            matches: Vec::new(),
        };
        let ghost kept = instance@.matches;
        let mut i: usize = 0;
        proof {
            assert(all.skip(0) =~= all);
        }
        while i < found.len()
            invariant
                i <= found.len(),
                all == found.deep_view(),
                kept == instance@.matches,
                *instance == *old(instance),
                with_matches(CmdView { matches: kept, ..next@ }, all.skip(i as int))
                    == with_matches(old(instance)@, all),
            decreases found.len() - i,
        {
            let groups = &found[i];
            proof {
                assert(all.skip(i as int).drop_first() =~= all.skip(i + 1));
            }
            if groups.len() == 3 {
                match (&groups[1], &groups[2]) {
                    (Some(flag), Some(value)) => {
                        match Cmd::determine_flag(flag.as_str()) {
                            Some(FlagType::SearchType) => Cmd::set_kind(&mut next, value.as_str()),
                            Some(FlagType::SearchPath) => {
                                next.path = value.clone();
                            },
                            Some(FlagType::RegexPattern) => {
                                next.pattern = value.clone();
                            },
                            Some(FlagType::Depth) => match parse_depth(value.as_str()) {
                                Some(depth) => {
                                    next.depth = Some(depth);
                                },
                                None => {
                                    return Err(SearchError::MalformedDepth);
                                },
                            },
                            None => {},
                        }
                    },
                    _ => {},
                }
            }
            i += 1;
        }
        instance.path = next.path;
        instance.kind = next.kind;
        instance.depth = next.depth;
        instance.pattern = next.pattern;
        Ok(())
    }

    /// What the flag called `flag_str` sets; `None` for a name that is no
    /// flag.
    pub fn determine_flag(flag_str: &str) -> (flag: Option<FlagType>)
        ensures
            flag == flag_of(flag_str@),
    {
        if same_text(flag_str, "t") || same_text(flag_str, "type") {
            Some(FlagType::SearchType)
        } else if same_text(flag_str, "r") || same_text(flag_str, "regex") {
            Some(FlagType::RegexPattern)
        } else if same_text(flag_str, "d") || same_text(flag_str, "depth") {
            Some(FlagType::Depth)
        } else if same_text(flag_str, "p") || same_text(flag_str, "path") {
            Some(FlagType::SearchPath)
        } else {
            None
        }
    }

    /// Sets the kind that `kind_str` names; both kinds where it names none.
    pub fn set_kind(instance: &mut Cmd, kind_str: &str)
        ensures
            *final(instance) == (Cmd { kind: kind_of(kind_str@), ..*old(instance) }),
    {
        instance.kind = if same_text(kind_str, "f") || same_text(kind_str, "file") {
            SearchType::File
        } else if same_text(kind_str, "d") || same_text(kind_str, "directory") {
            SearchType::Directory
        } else {
            SearchType::Both
        };
    }
}

} // verus!

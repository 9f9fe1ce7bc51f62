//! The pattern filter: which of the entries of a walk have a name that
//! matches the pattern.

use crate::engine::{regex_matches, Matcher};
use crate::entry::{entry_views, Entry, EntryView};
use crate::error::SearchError;
use crate::flags::{Cmd, CmdView};
use crate::text::{basename, file_name};
use vstd::prelude::*;

verus! {

/// The expression that is compiled for `pattern`: the pattern inside a
/// group that captures nothing.
pub open spec fn grouped(pattern: Seq<char>) -> Seq<char> {
    "(?:"@ + pattern + ")"@
}

/// The test that an expression puts to an entry: whether it matches
/// anywhere in the last component of the path. The directories before it
/// have no part in the test.
pub open spec fn name_test(expression: Seq<char>) -> spec_fn(EntryView) -> bool {
    |e: EntryView| regex_matches(expression, basename(e.path))
}

/// What the filter for `pattern` keeps of `entries`. The empty pattern
/// keeps them all, and of no entries none is kept, whatever the pattern;
/// else those are kept whose name matches, in their order.
pub open spec fn filtered(entries: Seq<EntryView>, pattern: Seq<char>) -> Seq<EntryView> {
    if entries.len() == 0 || pattern.len() == 0 {
        entries
    } else {
        entries.filter(name_test(grouped(pattern)))
    }
}

/// What the filter keeps is part of what it was given, and under a pattern
/// that is not empty the name of every entry that it keeps matches.
pub proof fn lemma_filtered_is_part(entries: Seq<EntryView>, pattern: Seq<char>)
    ensures
        filtered(entries, pattern).len() <= entries.len(),
        forall|e: EntryView| filtered(entries, pattern).contains(e) ==> entries.contains(e),
        pattern.len() > 0 ==> forall|i: int|
            0 <= i < filtered(entries, pattern).len() ==> regex_matches(
                grouped(pattern),
                basename(#[trigger] filtered(entries, pattern)[i].path),
            ),
{
    let test = name_test(grouped(pattern));
    entries.lemma_filter_len(test);
    assert forall|e: EntryView| filtered(entries, pattern).contains(e) implies entries.contains(
        e,
    ) by {
        if entries.len() > 0 && pattern.len() > 0 {
            entries.lemma_filter_contains_rev(test, e);
        }
    }
    if pattern.len() > 0 {
        assert forall|i: int| 0 <= i < filtered(entries, pattern).len() implies regex_matches(
            grouped(pattern),
            basename(#[trigger] filtered(entries, pattern)[i].path),
        ) by {
            if entries.len() > 0 {
                entries.lemma_filter_pred(test, i);
            }
        }
    }
}

/// The entries whose name `matcher` matches, in their order.
pub fn retain_matching(matcher: &Matcher, entries: &Vec<Entry>) -> (kept: Vec<Entry>)
    ensures
        entry_views(kept@) == entry_views(entries@).filter(name_test(matcher.pattern())),
{
    let ghost test = name_test(matcher.pattern());
    let mut kept: Vec<Entry> = Vec::new();
    let mut i: usize = 0;
    proof {
        reveal(Seq::filter);
    }
    while i < entries.len()
        invariant
            i <= entries.len(),
            test == name_test(matcher.pattern()),
            entry_views(kept@) == entry_views(entries@.take(i as int)).filter(test),
        decreases entries.len() - i,
    {
        let entry = &entries[i];
        proof {
            let seen = entry_views(entries@.take(i as int));
            assert(entry_views(entries@.take(i + 1)) =~= seen.push(entry@));
            seen.lemma_filter_push(entry@, test);
        }
        if matcher.is_match(file_name(entry.path.as_str())) {
            kept.push(entry.duplicate());
        }
        i += 1;
    }
    assert(entries@.take(i as int) =~= entries@);
    kept
}

/// A second vector with the same entries.
fn duplicate_all(entries: &Vec<Entry>) -> (copy: Vec<Entry>)
    ensures
        copy@ == entries@,
{
    let mut copy: Vec<Entry> = Vec::new();
    let mut i: usize = 0;
    while i < entries.len()
        invariant
            i <= entries.len(),
            copy@ == entries@.take(i as int),
        decreases entries.len() - i,
    {
        let one = entries[i].duplicate();
        copy.push(one);
        i += 1;
    }
    copy
}

/// Filters `entries` by `pattern`.
///
/// The pattern is compiled inside a group that captures nothing, and an
/// entry is kept where the expression matches anywhere in its name. Where
/// there are no entries nothing is compiled, so that a pattern which the
/// engine would refuse does no harm then; nor is anything compiled for the
/// empty pattern, which keeps every entry. It fails, with
/// [`SearchError::MalformedPattern`], only where the engine refuses the
/// expression.
pub fn filter(entries: &Vec<Entry>, pattern: &str) -> (found: Result<Vec<Entry>, SearchError>)
    ensures
        match found {
            Ok(kept) => entry_views(kept@) == filtered(entry_views(entries@), pattern@),
            Err(error) => {
                &&& error == SearchError::MalformedPattern
                &&& entries.len() > 0
                &&& pattern@.len() > 0
            },
        },
        entries.len() == 0 ==> found is Ok && found->Ok_0@.len() == 0,
        pattern@.len() == 0 ==> found is Ok && entry_views(found->Ok_0@) == entry_views(entries@),
{
    if entries.len() == 0 {
        let none: Vec<Entry> = Vec::new();
        return Ok(none);
    }
    if pattern.is_empty() {
        return Ok(duplicate_all(entries));
    }
    let mut expression = "(?:".to_owned();
    expression.append(pattern);
    expression.append(")");
    match Matcher::compile(expression.as_str()) {
        Ok(matcher) => Ok(retain_matching(&matcher, entries)),
        Err(error) => Err(error),
    }
}

/// Filters what the walk has yielded by the pattern of `cmd`, and adds
/// what is kept to the matches of `cmd`. Where the filter fails, `cmd` is
/// left as it was.
pub fn execute_cmd(cmd: &mut Cmd, items: &Vec<Entry>) -> (done: Result<(), SearchError>)
    ensures
        match done {
            Ok(()) => final(cmd)@ == (CmdView {
                matches: old(cmd)@.matches + filtered(entry_views(items@), old(cmd)@.pattern),
                ..old(cmd)@
            }),
            Err(error) => {
                &&& *final(cmd) == *old(cmd)
                &&& error == SearchError::MalformedPattern
                &&& items.len() > 0
                &&& old(cmd)@.pattern.len() > 0
            },
        },
{
    let mut kept = match filter(items, cmd.pattern.as_str()) {
        Ok(kept) => kept,
        Err(error) => {
            return Err(error);
        },
    };
    proof {
        assert(entry_views(cmd.matches@ + kept@) =~= entry_views(cmd.matches@) + entry_views(
            kept@,
        ));
    }
    cmd.matches.append(&mut kept);
    Ok(())
}

} // verus!

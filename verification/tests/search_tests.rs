use file_search::entry::{Entry, EntryKind, SearchType};
use file_search::error::{ErrorClass, SearchError};
use file_search::filter::{execute_cmd, filter};
use file_search::flags::Cmd;
use file_search::walk::Listed;
use file_search::walker::{read_dir, Listing, Step};
use std::collections::HashMap;

fn listed(path: &str, kind: EntryKind) -> Listed {
    Listed {
        entry: Entry { path: path.to_string(), kind },
        is_directory: kind == EntryKind::Directory,
    }
}

/// `/tmp/x` with the files `a.txt` and `b.log` and the directory `sub`,
/// which holds `c.txt`.
fn tree() -> HashMap<String, Vec<Listed>> {
    let mut tree = HashMap::new();
    tree.insert(
        "/tmp/x".to_string(),
        vec![
            listed("/tmp/x/a.txt", EntryKind::File),
            listed("/tmp/x/b.log", EntryKind::File),
            listed("/tmp/x/sub", EntryKind::Directory),
        ],
    );
    tree.insert("/tmp/x/sub".to_string(), vec![listed("/tmp/x/sub/c.txt", EntryKind::File)]);
    tree
}

/// A whole search over `tree`: the flags, the walk, the filter.
fn run(tree: &HashMap<String, Vec<Listed>>, flags: &str) -> Result<Vec<String>, SearchError> {
    let mut cmd = Cmd::new(flags)?;
    let mut walker = read_dir(&cmd.path, cmd.kind, cmd.depth);
    let items = loop {
        let listing = match tree.get(walker.path()) {
            Some(entries) => Listing::Entries(entries.clone()),
            None => Listing::NotADirectory,
        };
        match walker.feed(listing) {
            Step::Next(next) => walker = next,
            Step::Done(items) => break items,
            Step::Failed(error) => return Err(error),
        }
    };
    execute_cmd(&mut cmd, &items)?;
    Ok(cmd.matches.iter().map(|e| e.label()).collect())
}

fn sorted(mut lines: Vec<String>) -> Vec<String> {
    lines.sort();
    lines
}

#[test]
fn both_kinds_one_level_down_with_pattern_txt() {
    let found = run(&tree(), "-p=/tmp/x -t=b -d=2 -r=txt").unwrap();
    assert_eq!(sorted(found), vec!["/tmp/x/a.txt", "/tmp/x/sub/c.txt"]);
}

#[test]
fn depth_one_with_pattern_txt_stays_at_the_children() {
    let found = run(&tree(), "-p=/tmp/x -t=b -d=1 -r=txt").unwrap();
    assert_eq!(found, vec!["/tmp/x/a.txt"]);
}

#[test]
fn depth_zero_candidates_and_what_the_pattern_keeps() {
    let candidates = run(&tree(), "-p=/tmp/x -d=0").unwrap();
    assert_eq!(sorted(candidates), vec!["/tmp/x/a.txt", "/tmp/x/b.log", "/tmp/x/sub/"]);
    let found = run(&tree(), "-p=/tmp/x -d=0 -r=txt").unwrap();
    assert_eq!(found, vec!["/tmp/x/a.txt"]);
}

#[test]
fn all_files_at_every_level() {
    let found = run(&tree(), "-p=/tmp/x -t=f").unwrap();
    assert_eq!(sorted(found), vec!["/tmp/x/a.txt", "/tmp/x/b.log", "/tmp/x/sub/c.txt"]);
}

#[test]
fn all_directories_at_every_level() {
    let found = run(&tree(), "-p=/tmp/x -t=d").unwrap();
    assert_eq!(found, vec!["/tmp/x/sub/"]);
}

#[test]
fn nothing_matches_is_no_failure() {
    let found = run(&tree(), "-p=/tmp/x -r=zip").unwrap();
    assert!(found.is_empty());
}

#[test]
fn missing_root_is_a_precondition_error_with_no_output() {
    let failed = run(&tree(), "-p=/tmp/nowhere -r=txt");
    assert_eq!(failed, Err(SearchError::NotADirectory));
    assert_eq!(failed.unwrap_err().class(), ErrorClass::Precondition);
}

#[test]
fn default_path_is_the_current_directory() {
    let mut here = HashMap::new();
    here.insert(".".to_string(), vec![listed("./f", EntryKind::File)]);
    assert_eq!(run(&here, "-t=f").unwrap(), vec!["./f"]);
}

#[test]
fn malformed_pattern_with_candidates_is_a_configuration_error() {
    let candidates = vec![Entry { path: "/tmp/x/a.txt".to_string(), kind: EntryKind::File }];
    let failed = filter(&candidates, "(a");
    assert_eq!(failed, Err(SearchError::MalformedPattern));
    assert_eq!(failed.unwrap_err().class(), ErrorClass::Configuration);
}

#[test]
fn malformed_depth_ends_the_search_before_the_walk() {
    assert_eq!(run(&tree(), "-p=/tmp/x -d=deep"), Err(SearchError::MalformedDepth));
}

#[test]
fn search_kind_both_is_the_default() {
    assert_eq!(Cmd::new("-p=/tmp/x").unwrap().kind, SearchType::Both);
}

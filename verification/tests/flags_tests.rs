use file_search::entry::SearchType;
use file_search::error::{ErrorClass, SearchError};
use file_search::flags::{command_line, Cmd, FlagType};

fn capture(flag: &str, value: &str) -> Vec<Option<String>> {
    vec![
        Some(format!("-{}={}", flag, value)),
        Some(flag.to_string()),
        Some(value.to_string()),
    ]
}

#[test]
fn no_flags_give_the_defaults() {
    let cmd = Cmd::new("").unwrap();
    assert_eq!(cmd.path, ".");
    assert_eq!(cmd.kind, SearchType::Both);
    assert_eq!(cmd.depth, None);
    assert_eq!(cmd.pattern, "");
    assert!(cmd.matches.is_empty());
}

#[test]
fn default_has_no_path_yet() {
    let cmd = Cmd::default();
    assert_eq!(cmd.path, "");
    assert_eq!(cmd.kind, SearchType::Both);
    assert_eq!(cmd.depth, None);
    assert_eq!(cmd.pattern, "");
    assert!(cmd.matches.is_empty());
}

#[test]
fn short_flags_set_every_field() {
    let cmd = Cmd::new("find -t=f -p=/tmp/x -r=txt -d=2 ").unwrap();
    assert_eq!(cmd.path, "/tmp/x");
    assert_eq!(cmd.kind, SearchType::File);
    assert_eq!(cmd.depth, Some(2));
    assert_eq!(cmd.pattern, "txt");
}

#[test]
fn long_flags_set_every_field() {
    let cmd = Cmd::new("-type=directory -path=./src/a-b_c -regex=main.rs -depth=10").unwrap();
    assert_eq!(cmd.path, "./src/a-b_c");
    assert_eq!(cmd.kind, SearchType::Directory);
    assert_eq!(cmd.depth, Some(10));
    assert_eq!(cmd.pattern, "main.rs");
}

#[test]
fn flags_come_in_any_order() {
    let cmd = Cmd::new("-d=3 -r=a -p=b -t=d").unwrap();
    assert_eq!(cmd.path, "b");
    assert_eq!(cmd.kind, SearchType::Directory);
    assert_eq!(cmd.depth, Some(3));
    assert_eq!(cmd.pattern, "a");
}

#[test]
fn later_flag_overwrites_the_earlier() {
    let cmd = Cmd::new("-p=one -t=f -d=1 -path=two -type=d -depth=2 -r=x -regex=y").unwrap();
    assert_eq!(cmd.path, "two");
    assert_eq!(cmd.kind, SearchType::Directory);
    assert_eq!(cmd.depth, Some(2));
    assert_eq!(cmd.pattern, "y");
}

#[test]
fn kind_values_are_read() {
    assert_eq!(Cmd::new("-t=f").unwrap().kind, SearchType::File);
    assert_eq!(Cmd::new("-t=file").unwrap().kind, SearchType::File);
    assert_eq!(Cmd::new("-t=d").unwrap().kind, SearchType::Directory);
    assert_eq!(Cmd::new("-t=directory").unwrap().kind, SearchType::Directory);
    assert_eq!(Cmd::new("-t=b").unwrap().kind, SearchType::Both);
    assert_eq!(Cmd::new("-t=both").unwrap().kind, SearchType::Both);
}

#[test]
fn unknown_kind_is_both() {
    assert_eq!(Cmd::new("-t=f -t=symlink").unwrap().kind, SearchType::Both);
    assert_eq!(Cmd::new("-t=F").unwrap().kind, SearchType::Both);
}

#[test]
fn unknown_flag_is_passed_over() {
    let cmd = Cmd::new("-x=1 -verbose=yes -p=here -typ=f").unwrap();
    assert_eq!(cmd.path, "here");
    assert_eq!(cmd.kind, SearchType::Both);
    assert_eq!(cmd.depth, None);
    assert_eq!(cmd.pattern, "");
}

#[test]
fn value_has_to_be_joined_by_an_equals_sign() {
    let cmd = Cmd::new("-t f -p /tmp -d 2").unwrap();
    assert_eq!(cmd, Cmd::new("").unwrap());
}

#[test]
fn hyphen_inside_a_word_starts_no_flag() {
    let cmd = Cmd::new("a-t=f").unwrap();
    assert_eq!(cmd.kind, SearchType::Both);
    let cmd = Cmd::new("--t=f").unwrap();
    assert_eq!(cmd.kind, SearchType::File);
}

#[test]
fn value_ends_at_the_first_character_outside_its_class() {
    let cmd = Cmd::new("-r=a+b -p=x*y").unwrap();
    assert_eq!(cmd.pattern, "a");
    assert_eq!(cmd.path, "x");
}

#[test]
fn malformed_depth_is_a_configuration_error() {
    assert_eq!(Cmd::new("-d=abc"), Err(SearchError::MalformedDepth));
    assert_eq!(Cmd::new("-d=1.5"), Err(SearchError::MalformedDepth));
    assert_eq!(Cmd::new("-d=-1"), Err(SearchError::MalformedDepth));
    assert_eq!(Cmd::new("-p=x -depth=4294967296"), Err(SearchError::MalformedDepth));
    assert_eq!(Cmd::new("-d=seven -d=7"), Err(SearchError::MalformedDepth));
    assert_eq!(SearchError::MalformedDepth.class(), ErrorClass::Configuration);
}

#[test]
fn depth_takes_every_unsigned_number() {
    assert_eq!(Cmd::new("-d=0").unwrap().depth, Some(0));
    assert_eq!(Cmd::new("-d=007").unwrap().depth, Some(7));
    assert_eq!(Cmd::new("-d=4294967295").unwrap().depth, Some(u32::MAX));
}

#[test]
fn parse_flags_reads_into_the_settings() {
    let mut cmd = Cmd::default();
    cmd.path = "before".to_string();
    cmd.depth = Some(9);
    assert_eq!(Cmd::parse_flags(&mut cmd, "-r=log -t=f"), Ok(()));
    assert_eq!(cmd.path, "before");
    assert_eq!(cmd.depth, Some(9));
    assert_eq!(cmd.pattern, "log");
    assert_eq!(cmd.kind, SearchType::File);
}

#[test]
fn parse_flags_leaves_the_settings_alone_where_it_fails() {
    let mut cmd = Cmd::default();
    cmd.path = "before".to_string();
    let before = cmd.clone();
    assert_eq!(Cmd::parse_flags(&mut cmd, "-p=after -d=x -t=f"), Err(SearchError::MalformedDepth));
    assert_eq!(cmd, before);
}

#[test]
fn from_captures_reads_name_and_value() {
    let found = vec![capture("t", "d"), capture("depth", "3"), capture("p", "a/b")];
    let cmd = Cmd::from_captures(&found).unwrap();
    assert_eq!(cmd.kind, SearchType::Directory);
    assert_eq!(cmd.depth, Some(3));
    assert_eq!(cmd.path, "a/b");
    assert_eq!(cmd.pattern, "");
}

#[test]
fn from_captures_takes_a_plus_before_the_depth() {
    let cmd = Cmd::from_captures(&vec![capture("d", "+5")]).unwrap();
    assert_eq!(cmd.depth, Some(5));
}

#[test]
fn from_captures_passes_over_a_match_of_another_shape() {
    let found = vec![
        vec![Some("-t=f".to_string()), Some("t".to_string())],
        vec![Some("-t=f".to_string()), None, Some("f".to_string())],
        vec![Some("-t=f".to_string()), Some("t".to_string()), None],
        vec![],
        vec![Some("x".to_string()), Some("t".to_string()), Some("f".to_string()), None],
    ];
    assert_eq!(Cmd::from_captures(&found), Cmd::from_captures(&vec![]));
    assert_eq!(Cmd::from_captures(&vec![]).unwrap().path, ".");
}

#[test]
fn from_captures_fails_at_a_malformed_depth() {
    let found = vec![capture("p", "x"), capture("d", ""), capture("d", "1")];
    assert_eq!(Cmd::from_captures(&found), Err(SearchError::MalformedDepth));
}

#[test]
fn from_captures_keeps_an_empty_path_out() {
    let cmd = Cmd::from_captures(&vec![capture("p", "x"), capture("p", "")]).unwrap();
    assert_eq!(cmd.path, ".");
}

#[test]
fn apply_captures_leaves_the_settings_alone_where_it_fails() {
    let mut cmd = Cmd::default();
    let before = cmd.clone();
    let found = vec![capture("r", "x"), capture("depth", "2x")];
    assert_eq!(Cmd::apply_captures(&mut cmd, &found), Err(SearchError::MalformedDepth));
    assert_eq!(cmd, before);
    assert_eq!(Cmd::apply_captures(&mut cmd, &vec![capture("r", "x")]), Ok(()));
    assert_eq!(cmd.pattern, "x");
    assert_eq!(cmd.path, "");
}

#[test]
fn determine_flag_knows_both_names_of_each_flag() {
    assert_eq!(Cmd::determine_flag("t"), Some(FlagType::SearchType));
    assert_eq!(Cmd::determine_flag("type"), Some(FlagType::SearchType));
    assert_eq!(Cmd::determine_flag("r"), Some(FlagType::RegexPattern));
    assert_eq!(Cmd::determine_flag("regex"), Some(FlagType::RegexPattern));
    assert_eq!(Cmd::determine_flag("d"), Some(FlagType::Depth));
    assert_eq!(Cmd::determine_flag("depth"), Some(FlagType::Depth));
    assert_eq!(Cmd::determine_flag("p"), Some(FlagType::SearchPath));
    assert_eq!(Cmd::determine_flag("path"), Some(FlagType::SearchPath));
    assert_eq!(Cmd::determine_flag(""), None);
    assert_eq!(Cmd::determine_flag("T"), None);
    assert_eq!(Cmd::determine_flag("types"), None);
}

#[test]
fn set_kind_changes_the_kind_only() {
    let mut cmd = Cmd::new("-p=x -r=y -d=1").unwrap();
    let before = cmd.clone();
    Cmd::set_kind(&mut cmd, "file");
    assert_eq!(cmd.kind, SearchType::File);
    Cmd::set_kind(&mut cmd, "d");
    assert_eq!(cmd.kind, SearchType::Directory);
    Cmd::set_kind(&mut cmd, "nonsense");
    assert_eq!(cmd.kind, SearchType::Both);
    assert_eq!(cmd, before);
}

#[test]
fn command_line_puts_a_blank_behind_each_argument() {
    let args = vec!["find".to_string(), "-t=f".to_string(), "-d=2".to_string()];
    assert_eq!(command_line(&args), "find -t=f -d=2 ");
    assert_eq!(command_line(&vec![]), "");
    let cmd = Cmd::new(&command_line(&args)).unwrap();
    assert_eq!(cmd.kind, SearchType::File);
    assert_eq!(cmd.depth, Some(2));
}

#[test]
fn messages_tell_the_failures_apart() {
    assert_eq!(SearchError::MalformedPattern.message(), "Sorry, incorrect pattern specified.");
    assert_eq!(
        SearchError::NotADirectory.message(),
        "Make sure that the specified filepath is of type directory"
    );
    assert_eq!(SearchError::OpenFailed.message(), "The specified file path doesn't exist");
    assert_eq!(SearchError::ReadFailed.message(), "Couldn't read directory. Try again!");
    assert_eq!(SearchError::MalformedDepth.message(), "Sorry, incorrect depth specified.");
}

#[test]
fn grammar_is_one_hyphen_a_name_an_equals_sign_and_a_value() {
    assert_eq!(Cmd::PATTERN, r"\B-(?P<kind>\w+)=(?P<value>[\w./\-]+)");
    let cmd = Cmd::new("-p=a_b-c.d/e").unwrap();
    assert_eq!(cmd.path, "a_b-c.d/e");
    let cmd = Cmd::new("-p=").unwrap();
    assert_eq!(cmd.path, ".");
    let cmd = Cmd::new("-=x -p=y").unwrap();
    assert_eq!(cmd.path, "y");
}

#[test]
fn value_takes_a_following_flag_that_no_blank_sets_apart() {
    let cmd = Cmd::new("-p=a-t=f").unwrap();
    assert_eq!(cmd.path, "a-t");
    assert_eq!(cmd.kind, SearchType::Both);
}

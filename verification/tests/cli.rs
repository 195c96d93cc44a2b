use mim::{ArgOption, Command, parse_options};

#[test]
fn command_tokens() {
    assert_eq!(Command::from_token("list"), Some(Command::List));
    assert_eq!(Command::from_token("add-feed"), Some(Command::AddFeed));
    assert_eq!(Command::from_token("remove-feed"), None);
    assert_eq!(Command::from_token("edit-feed"), None);
    assert_eq!(Command::from_token(""), None);
}

#[test]
fn options_pair_with_following_values() {
    let mut args = vec![
        "--source".to_string(),
        "youtube".to_string(),
        "--category".to_string(),
        "music".to_string(),
        "@abc".to_string(),
    ];
    let values = parse_options(&mut args).expect("known options must parse");
    assert!(args.is_empty());
    assert_eq!(values.len(), 3);
    assert_eq!(values[0], (ArgOption::Source, "youtube".to_string()));
    assert_eq!(values[1], (ArgOption::Category, "music".to_string()));
    assert_eq!(values[2], (ArgOption::Identifier, "@abc".to_string()));
}

#[test]
fn bare_words_are_identifiers() {
    let mut args = vec!["@abc".to_string(), "def".to_string()];
    let values = parse_options(&mut args).expect("identifiers must parse");
    assert_eq!(values.len(), 2);
    assert_eq!(values[0], (ArgOption::Identifier, "@abc".to_string()));
    assert_eq!(values[1], (ArgOption::Identifier, "def".to_string()));
}

#[test]
fn unknown_option_is_fatal() {
    let mut args = vec!["--sorcery".to_string(), "abc".to_string()];
    assert!(parse_options(&mut args).is_err());
    assert!(args.is_empty());
}

#[test]
fn trailing_option_without_value_is_dropped() {
    let mut args = vec!["--source".to_string()];
    let values = parse_options(&mut args).expect("a dangling option is dropped, not an error");
    assert!(values.is_empty());
    assert!(args.is_empty());
}

#[test]
fn dashes_anywhere_mark_an_option() {
    // The first two characters are stripped wherever the dashes stand,
    // so a word with interior dashes names no known option.
    let mut args = vec!["x--y".to_string(), "v".to_string()];
    assert!(parse_options(&mut args).is_err());
}

#[test]
fn option_value_may_itself_hold_dashes() {
    let mut args = vec!["--identifier".to_string(), "--weird".to_string()];
    let values = parse_options(&mut args).expect("the value is taken verbatim");
    assert_eq!(values.len(), 1);
    assert_eq!(values[0], (ArgOption::Identifier, "--weird".to_string()));
}

#[test]
fn empty_args_give_no_values() {
    let mut args: Vec<String> = vec![];
    let values = parse_options(&mut args).expect("nothing to parse");
    assert!(values.is_empty());
}

use adrus::command::{parse_command, split_commas, ParseError};
use adrus::session::Command;

fn toks(words: &[&str]) -> Vec<String> {
    words.iter().map(|w| w.to_string()).collect()
}

#[test]
fn bare_commands_parse() {
    assert!(matches!(parse_command(&toks(&["new"])), Ok(Command::New)));
    assert!(matches!(parse_command(&toks(&["reset"])), Ok(Command::Reset)));
    assert!(matches!(parse_command(&toks(&["list"])), Ok(Command::List)));
}

#[test]
fn query_collects_has_and_hasnt_groups_in_order() {
    let parsed = parse_command(&toks(&["query", "--has", "a", "-n", "b", "-H", "c", "--hasnt", "d"]));
    match parsed {
        Ok(Command::Query { has, hasnt }) => {
            assert_eq!(has, vec!["a".to_string(), "c".to_string()]);
            assert_eq!(hasnt, vec!["b".to_string(), "d".to_string()]);
        },
        other => panic!("expected a query command, got {other:?}"),
    }
}

#[test]
fn comma_delimited_values_are_split_with_empty_pieces_kept() {
    let parsed = parse_command(&toks(&["query", "--has", "a,,b"]));
    match parsed {
        Ok(Command::Query { has, hasnt }) => {
            assert_eq!(has, vec!["a".to_string(), "".to_string(), "b".to_string()]);
            assert!(hasnt.is_empty());
        },
        other => panic!("expected a query command, got {other:?}"),
    }
}

#[test]
fn hasnt_values_are_taken_whole() {
    let parsed = parse_command(&toks(&["query", "--hasnt", "a,b"]));
    match parsed {
        Ok(Command::Query { has, hasnt }) => {
            assert!(has.is_empty());
            assert_eq!(hasnt, vec!["a,b".to_string()]);
        },
        other => panic!("expected a query command, got {other:?}"),
    }
}

#[test]
fn empty_line_is_rejected() {
    assert!(matches!(parse_command(&toks(&[])), Err(ParseError::Empty)));
}

#[test]
fn unknown_command_is_rejected() {
    match parse_command(&toks(&["frobnicate"])) {
        Err(ParseError::UnknownCommand(t)) => assert_eq!(t, "frobnicate"),
        other => panic!("expected an unknown-command error, got {other:?}"),
    }
}

#[test]
fn argument_after_bare_command_is_rejected() {
    match parse_command(&toks(&["list", "now"])) {
        Err(ParseError::UnexpectedArgument(t)) => assert_eq!(t, "now"),
        other => panic!("expected an unexpected-argument error, got {other:?}"),
    }
}

#[test]
fn unknown_query_option_is_rejected() {
    match parse_command(&toks(&["query", "--unknown-flag"])) {
        Err(ParseError::UnknownOption(t)) => assert_eq!(t, "--unknown-flag"),
        other => panic!("expected an unknown-option error, got {other:?}"),
    }
}

#[test]
fn flag_without_a_value_is_rejected() {
    match parse_command(&toks(&["query", "--has"])) {
        Err(ParseError::MissingValue(t)) => assert_eq!(t, "--has"),
        other => panic!("expected a missing-value error, got {other:?}"),
    }
    assert!(matches!(
        parse_command(&toks(&["query", "-H", "a", "-n"])),
        Err(ParseError::MissingValue(_))
    ));
}

#[test]
fn split_commas_keeps_every_piece() {
    let pieces = split_commas("one,two,three");
    assert_eq!(pieces, vec!["one".to_string(), "two".to_string(), "three".to_string()]);
    assert_eq!(split_commas(""), vec!["".to_string()]);
    assert_eq!(split_commas(","), vec!["".to_string(), "".to_string()]);
    assert_eq!(split_commas("a,"), vec!["a".to_string(), "".to_string()]);
}

use adrus::note::{Condition, Note};
use adrus::session::{run, Command};
use adrus::state::{Ledger, State};

fn toks(words: &[&str]) -> Vec<String> {
    words.iter().map(|w| w.to_string()).collect()
}

fn dispatch(state: &mut State, words: &[&str]) -> Vec<Note> {
    let cmd = adrus::command::parse_command(&toks(words)).expect("command should parse");
    run(state, cmd)
}

fn titles(notes: &[Note]) -> Vec<String> {
    notes.iter().map(|n| n.title.clone()).collect()
}

fn seeded_state() -> State {
    let a = Note::new("test post".to_string(), "abc".to_string());
    let mut b = Note::new("example post".to_string(), "def".to_string());
    let mut c = Note::new("language post".to_string(), "ghi".to_string());
    b.with("important".to_string());
    c.with("important".to_string());
    c.with("language".to_string());
    State::begin(Ledger { notes: vec![a, b, c] })
}

#[test]
fn list_without_conditions_reports_all() {
    let mut state = seeded_state();
    let out = dispatch(&mut state, &["list"]);
    assert_eq!(titles(&out), vec!["test post", "example post", "language post"]);
}

#[test]
fn query_has_important_narrows_to_tagged_notes() {
    let mut state = seeded_state();
    assert!(dispatch(&mut state, &["query", "--has", "important"]).is_empty());
    let out = dispatch(&mut state, &["list"]);
    assert_eq!(titles(&out), vec!["example post", "language post"]);
}

#[test]
fn conditions_accumulate_across_commands() {
    let mut state = seeded_state();
    dispatch(&mut state, &["query", "--has", "important"]);
    dispatch(&mut state, &["query", "--hasnt", "language"]);
    let out = dispatch(&mut state, &["list"]);
    assert_eq!(titles(&out), vec!["example post"]);
}

#[test]
fn reset_restores_the_full_ledger_in_order() {
    let mut state = seeded_state();
    dispatch(&mut state, &["query", "--has", "important"]);
    dispatch(&mut state, &["query", "--hasnt", "language"]);
    dispatch(&mut state, &["reset"]);
    let out = dispatch(&mut state, &["list"]);
    assert_eq!(titles(&out), vec!["test post", "example post", "language post"]);
}

fn filter_shape(state: &State) -> Vec<(bool, String)> {
    state
        .filter
        .iter()
        .map(|c| match c {
            Condition::Has(t) => (true, t.clone()),
            Condition::Hasnt(t) => (false, t.clone()),
        })
        .collect()
}

#[test]
fn comma_delimited_has_equals_repeated_has_flags() {
    let mut one_flag = seeded_state();
    dispatch(&mut one_flag, &["query", "--has", "important,language"]);
    let mut two_flags = seeded_state();
    dispatch(&mut two_flags, &["query", "--has", "important", "--has", "language"]);
    assert_eq!(filter_shape(&one_flag), filter_shape(&two_flags));
    assert_eq!(
        filter_shape(&one_flag),
        vec![(true, "important".to_string()), (true, "language".to_string())]
    );
}

#[test]
fn contradictory_conditions_yield_an_empty_listing() {
    let mut state = seeded_state();
    dispatch(&mut state, &["query", "--has", "important", "--hasnt", "important"]);
    let out = dispatch(&mut state, &["list"]);
    assert!(out.is_empty());
}

#[test]
fn short_flags_work_like_long_ones() {
    let mut state = seeded_state();
    dispatch(&mut state, &["query", "-H", "important", "-n", "language"]);
    let out = dispatch(&mut state, &["list"]);
    assert_eq!(titles(&out), vec!["example post"]);
}

#[test]
fn new_appends_a_placeholder_note() {
    let mut state = seeded_state();
    let out = dispatch(&mut state, &["new"]);
    assert!(out.is_empty());
    assert_eq!(state.ledger.notes.len(), 4);
    let added = &state.ledger.notes[3];
    assert_eq!(added.title, "");
    assert_eq!(added.path, "a");
    assert!(added.attrs.is_empty());
    let out = dispatch(&mut state, &["list"]);
    assert_eq!(out.len(), 4);
}

#[test]
fn malformed_input_leaves_the_filter_untouched() {
    let mut state = seeded_state();
    dispatch(&mut state, &["query", "--has", "important"]);
    let before = titles(&dispatch(&mut state, &["list"]));
    let err = adrus::command::parse_command(&toks(&["query", "--unknown-flag", "x"]));
    assert!(err.is_err());
    let after = titles(&dispatch(&mut state, &["list"]));
    assert_eq!(before, after);
}

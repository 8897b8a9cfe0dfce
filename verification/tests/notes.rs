use adrus::note::{Condition, Note};

#[test]
fn a_fresh_note_has_no_tags() {
    let n = Note::new("t".to_string(), "p".to_string());
    assert_eq!(n.title, "t");
    assert_eq!(n.path, "p");
    assert!(n.attrs.is_empty());
}

#[test]
fn tagging_twice_equals_tagging_once() {
    let mut once = Note::new("t".to_string(), "p".to_string());
    once.with("important".to_string());
    let mut twice = Note::new("t".to_string(), "p".to_string());
    twice.with("important".to_string());
    twice.with("important".to_string());
    assert_eq!(once.attrs, twice.attrs);
    assert_eq!(twice.attrs, vec!["important".to_string()]);
}

#[test]
fn check_reads_presence_and_absence() {
    let mut n = Note::new("t".to_string(), "p".to_string());
    n.with("important".to_string());
    assert!(Condition::Has("important".to_string()).check(&n));
    assert!(!Condition::Has("language".to_string()).check(&n));
    assert!(!Condition::Hasnt("important".to_string()).check(&n));
    assert!(Condition::Hasnt("language".to_string()).check(&n));
}

#[test]
fn an_empty_condition_list_is_vacuously_satisfied() {
    let n = Note::new("t".to_string(), "p".to_string());
    assert!(n.satisfies(&[]));
    let mut tagged = Note::new("t".to_string(), "p".to_string());
    tagged.with("x".to_string());
    assert!(tagged.satisfies(&[]));
}

#[test]
fn satisfies_is_the_conjunction_of_the_conditions() {
    let mut n = Note::new("t".to_string(), "p".to_string());
    n.with("a".to_string());
    n.with("b".to_string());
    let both = [
        Condition::Has("a".to_string()),
        Condition::Has("b".to_string()),
    ];
    assert!(n.satisfies(&both));
    let mixed = [
        Condition::Has("a".to_string()),
        Condition::Hasnt("b".to_string()),
    ];
    assert!(!n.satisfies(&mixed));
}

#[test]
fn duplicate_copies_every_field() {
    let mut n = Note::new("t".to_string(), "p".to_string());
    n.with("a".to_string());
    let copy = n.duplicate();
    assert_eq!(copy.title, n.title);
    assert_eq!(copy.date, n.date);
    assert_eq!(copy.attrs, n.attrs);
    assert_eq!(copy.path, n.path);
}

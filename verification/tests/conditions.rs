use story_engine::resolve::check_conds;
use story_engine::{Cond, CondCmp, Flags, StoryError};

fn flags_with(flag: char, value: i32) -> Flags {
    let mut flags = Flags::new();
    flags.insert(flag, value);
    flags
}

fn cond(flag: char, cmp: CondCmp, num: i32) -> Cond {
    Cond { flag, cmp, num }
}

#[test]
fn equal_holds_only_at_the_operand() {
    let flags = flags_with('x', 5);
    assert_eq!(cond('x', CondCmp::Equal, 5).valid(&flags), Ok(true));
    assert_eq!(cond('x', CondCmp::Equal, 4).valid(&flags), Ok(false));
    assert_eq!(cond('x', CondCmp::Equal, 6).valid(&flags), Ok(false));
}

#[test]
fn less_is_strict() {
    let flags = flags_with('x', 5);
    assert_eq!(cond('x', CondCmp::Less, 6).valid(&flags), Ok(true));
    assert_eq!(cond('x', CondCmp::Less, 5).valid(&flags), Ok(false));
    assert_eq!(cond('x', CondCmp::Less, 4).valid(&flags), Ok(false));
}

#[test]
fn greater_is_strict() {
    let flags = flags_with('x', 5);
    assert_eq!(cond('x', CondCmp::Greater, 4).valid(&flags), Ok(true));
    assert_eq!(cond('x', CondCmp::Greater, 5).valid(&flags), Ok(false));
    assert_eq!(cond('x', CondCmp::Greater, 6).valid(&flags), Ok(false));
}

#[test]
fn at_least_includes_the_operand() {
    let flags = flags_with('x', 5);
    assert_eq!(cond('x', CondCmp::AtLeast, 4).valid(&flags), Ok(true));
    assert_eq!(cond('x', CondCmp::AtLeast, 5).valid(&flags), Ok(true));
    assert_eq!(cond('x', CondCmp::AtLeast, 6).valid(&flags), Ok(false));
}

#[test]
fn at_most_includes_the_operand() {
    let flags = flags_with('x', 5);
    assert_eq!(cond('x', CondCmp::AtMost, 6).valid(&flags), Ok(true));
    assert_eq!(cond('x', CondCmp::AtMost, 5).valid(&flags), Ok(true));
    assert_eq!(cond('x', CondCmp::AtMost, 4).valid(&flags), Ok(false));
}

#[test]
fn comparisons_work_on_negative_values() {
    let flags = flags_with('n', -3);
    assert_eq!(cond('n', CondCmp::Less, 0).valid(&flags), Ok(true));
    assert_eq!(cond('n', CondCmp::Greater, -4).valid(&flags), Ok(true));
    assert_eq!(cond('n', CondCmp::AtMost, i32::MIN).valid(&flags), Ok(false));
    assert_eq!(cond('n', CondCmp::AtLeast, i32::MIN).valid(&flags), Ok(true));
}

#[test]
fn undeclared_flag_is_an_error_not_false() {
    let flags = flags_with('x', 5);
    let z = cond('z', CondCmp::Equal, 5);
    assert_eq!(z.valid(&flags), Err("Invalid flag"));
    assert_eq!(z.evaluate(&flags), Err(StoryError::UnknownFlag));
}

#[test]
fn undeclared_flag_in_an_empty_store() {
    let flags = Flags::new();
    assert_eq!(cond('x', CondCmp::Less, 1).evaluate(&flags), Err(StoryError::UnknownFlag));
}

#[test]
fn evaluate_agrees_with_valid() {
    let flags = flags_with('x', 2);
    assert_eq!(cond('x', CondCmp::AtLeast, 2).evaluate(&flags), Ok(true));
    assert_eq!(cond('x', CondCmp::Greater, 2).evaluate(&flags), Ok(false));
}

#[test]
fn flags_are_told_apart_by_character() {
    let mut flags = Flags::new();
    flags.insert('a', 1);
    flags.insert('b', 2);
    flags.insert('é', 3);
    assert_eq!(flags.get('a'), Some(1));
    assert_eq!(flags.get('b'), Some(2));
    assert_eq!(flags.get('é'), Some(3));
    assert_eq!(flags.get('c'), None);
    assert!(flags.contains('a'));
    assert!(!flags.contains('A'));
}

#[test]
fn insert_replaces_the_value() {
    let mut flags = flags_with('a', 1);
    flags.insert('a', 7);
    assert_eq!(flags.get('a'), Some(7));
}

#[test]
fn snapshot_is_independent_of_the_store() {
    let mut flags = flags_with('a', 1);
    let copy = flags.snapshot();
    flags.insert('a', 2);
    flags.insert('b', 3);
    assert_eq!(copy.get('a'), Some(1));
    assert_eq!(copy.get('b'), None);
}

#[test]
fn no_conditions_always_hold() {
    let flags = Flags::new();
    assert_eq!(check_conds(&None, &flags), Ok(true));
    assert_eq!(check_conds(&Some(vec![]), &flags), Ok(true));
}

#[test]
fn all_conditions_must_hold() {
    let mut flags = flags_with('x', 5);
    flags.insert('y', 0);
    let both = Some(vec![cond('x', CondCmp::Equal, 5), cond('y', CondCmp::Less, 1)]);
    assert_eq!(check_conds(&both, &flags), Ok(true));
    let second_fails = Some(vec![cond('x', CondCmp::Equal, 5), cond('y', CondCmp::Greater, 1)]);
    assert_eq!(check_conds(&second_fails, &flags), Ok(false));
    let first_fails = Some(vec![cond('x', CondCmp::Less, 5), cond('y', CondCmp::Less, 1)]);
    assert_eq!(check_conds(&first_fails, &flags), Ok(false));
}

#[test]
fn unknown_flag_after_a_false_condition_is_still_an_error() {
    let flags = flags_with('x', 5);
    let list = Some(vec![cond('x', CondCmp::Less, 0), cond('z', CondCmp::Equal, 1)]);
    assert_eq!(check_conds(&list, &flags), Err(StoryError::UnknownFlag));
}

#[test]
fn error_messages() {
    assert_eq!(StoryError::UnknownFlag.message(), "Invalid flag");
    assert_eq!(StoryError::InvalidSelection.message(), "Invalid selection");
    assert_eq!(StoryError::DuplicatePageId.message(), "Duplicate page id");
    assert_eq!(StoryError::UnknownPage.message(), "Unknown page");
    assert_eq!(StoryError::FlagOverflow.message(), "Flag value out of range");
}

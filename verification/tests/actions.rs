use story_engine::actions::apply_all;
use story_engine::{FlagAction, FlagEffect, Flags, StoryError};

fn add(flag: char, modifier: i32) -> FlagAction {
    FlagAction { flag, effect: FlagEffect::Add, modifier }
}

fn assign(flag: char, modifier: i32) -> FlagAction {
    FlagAction { flag, effect: FlagEffect::Assign, modifier }
}

fn store(entries: &[(char, i32)]) -> Flags {
    let mut flags = Flags::new();
    for (flag, value) in entries {
        flags.insert(*flag, *value);
    }
    flags
}

#[test]
fn add_yields_old_value_plus_modifier() {
    let mut flags = store(&[('x', 4), ('y', 10)]);
    add('x', 3).apply(&mut flags);
    assert_eq!(flags.get('x'), Some(7));
    assert_eq!(flags.get('y'), Some(10));
}

#[test]
fn add_takes_negative_modifiers() {
    let mut flags = store(&[('x', 4)]);
    add('x', -6).apply(&mut flags);
    assert_eq!(flags.get('x'), Some(-2));
}

#[test]
fn assign_discards_the_old_value() {
    let mut flags = store(&[('x', 4), ('y', 10)]);
    assign('x', 9).apply(&mut flags);
    assert_eq!(flags.get('x'), Some(9));
    assert_eq!(flags.get('y'), Some(10));
}

#[test]
fn assign_twice_is_assign_once() {
    let mut flags = store(&[('x', 4)]);
    assign('x', 9).apply(&mut flags);
    assign('x', 9).apply(&mut flags);
    assert_eq!(flags.get('x'), Some(9));
}

#[test]
fn add_twice_adds_twice() {
    let mut flags = store(&[('x', 4)]);
    add('x', 3).apply(&mut flags);
    assert_eq!(flags.get('x'), Some(7));
    add('x', 3).apply(&mut flags);
    assert_eq!(flags.get('x'), Some(10));
}

#[test]
fn add_reaches_the_ends_of_the_range() {
    let mut flags = store(&[('x', i32::MAX - 1), ('y', i32::MIN + 1)]);
    add('x', 1).apply(&mut flags);
    add('y', -1).apply(&mut flags);
    assert_eq!(flags.get('x'), Some(i32::MAX));
    assert_eq!(flags.get('y'), Some(i32::MIN));
}

#[test]
fn list_is_applied_in_order() {
    let mut flags = store(&[('x', 1)]);
    let list = vec![add('x', 2), assign('x', 10), add('x', 5)];
    assert_eq!(apply_all(&list, &mut flags), Ok(()));
    assert_eq!(flags.get('x'), Some(15));
    let mut flags = store(&[('x', 1)]);
    let list = vec![assign('x', 10), add('x', 5), add('x', 2)];
    assert_eq!(apply_all(&list, &mut flags), Ok(()));
    assert_eq!(flags.get('x'), Some(17));
    let mut flags = store(&[('x', 1)]);
    let list = vec![add('x', 5), add('x', 2), assign('x', 10)];
    assert_eq!(apply_all(&list, &mut flags), Ok(()));
    assert_eq!(flags.get('x'), Some(10));
}

#[test]
fn empty_list_changes_nothing() {
    let mut flags = store(&[('x', 1)]);
    assert_eq!(apply_all(&vec![], &mut flags), Ok(()));
    assert_eq!(flags.get('x'), Some(1));
}

#[test]
fn list_on_several_flags() {
    let mut flags = store(&[('x', 1), ('y', 2)]);
    let list = vec![add('x', 1), add('y', 1), add('x', 1)];
    assert_eq!(apply_all(&list, &mut flags), Ok(()));
    assert_eq!(flags.get('x'), Some(3));
    assert_eq!(flags.get('y'), Some(3));
}

#[test]
fn overflow_fails_and_undoes_the_earlier_actions() {
    let mut flags = store(&[('x', 1), ('y', i32::MAX)]);
    let list = vec![add('x', 1), add('y', 1)];
    assert_eq!(apply_all(&list, &mut flags), Err(StoryError::FlagOverflow));
    assert_eq!(flags.get('x'), Some(1));
    assert_eq!(flags.get('y'), Some(i32::MAX));
}

#[test]
fn underflow_fails() {
    let mut flags = store(&[('y', i32::MIN)]);
    assert_eq!(apply_all(&vec![add('y', -1)], &mut flags), Err(StoryError::FlagOverflow));
    assert_eq!(flags.get('y'), Some(i32::MIN));
}

#[test]
fn overflow_is_judged_on_the_running_value() {
    let mut flags = store(&[('y', i32::MAX)]);
    let list = vec![add('y', -1), add('y', 1)];
    assert_eq!(apply_all(&list, &mut flags), Ok(()));
    assert_eq!(flags.get('y'), Some(i32::MAX));
    let list = vec![assign('y', 0), add('y', i32::MAX), add('y', 1)];
    assert_eq!(apply_all(&list, &mut flags), Err(StoryError::FlagOverflow));
    assert_eq!(flags.get('y'), Some(i32::MAX));
}

#[test]
fn undeclared_flag_fails_and_changes_nothing() {
    let mut flags = store(&[('x', 1)]);
    let list = vec![add('x', 1), assign('z', 1)];
    assert_eq!(apply_all(&list, &mut flags), Err(StoryError::UnknownFlag));
    assert_eq!(flags.get('x'), Some(1));
    assert_eq!(flags.get('z'), None);
}

#[test]
fn undeclared_flag_is_reported_before_overflow() {
    let mut flags = store(&[('x', i32::MAX)]);
    let list = vec![add('x', 1), assign('z', 1)];
    assert_eq!(apply_all(&list, &mut flags), Err(StoryError::UnknownFlag));
    assert_eq!(flags.get('x'), Some(i32::MAX));
}

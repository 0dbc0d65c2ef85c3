use story_engine::{
    ActionLink, ChoiceLink, Cond, CondCmp, FlagAction, FlagEffect, Flags, Link, LinkHandle, Page,
    PageLink, StoryError,
};

fn store(entries: &[(char, i32)]) -> Flags {
    let mut flags = Flags::new();
    for (flag, value) in entries {
        flags.insert(*flag, *value);
    }
    flags
}

fn cond(flag: char, cmp: CondCmp, num: i32) -> Cond {
    Cond { flag, cmp, num }
}

fn page_link(id: usize, cond: Option<Vec<Cond>>) -> Link {
    Link::Page { page: PageLink { id, text: String::from("go"), cond } }
}

fn action(cond: Option<Vec<Cond>>, repeats: Option<usize>, used: Option<usize>) -> ActionLink {
    ActionLink {
        text: String::from("do"),
        actions: vec![FlagAction { flag: 'x', effect: FlagEffect::Add, modifier: 1 }],
        cond,
        repeats,
        used,
    }
}

fn action_link(cond: Option<Vec<Cond>>, repeats: Option<usize>, used: Option<usize>) -> Link {
    Link::Action { action: action(cond, repeats, used) }
}

fn group(choices: Vec<ActionLink>, repeats: Option<usize>, used: Option<usize>) -> Link {
    Link::Choice { choice: ChoiceLink { caption: None, choices, repeats, used } }
}

fn page(links: Vec<Link>) -> Page {
    Page { id: 0, content: String::from("text"), actions: None, links }
}

fn link(index: usize) -> LinkHandle {
    LinkHandle::Link { index }
}

fn choice(index: usize, choice: usize) -> LinkHandle {
    LinkHandle::Choice { index, choice }
}

#[test]
fn page_without_links_offers_nothing() {
    assert_eq!(page(vec![]).selectable_links(&Flags::new()), Ok(vec![]));
}

#[test]
fn links_without_conditions_are_offered_in_order() {
    let p = page(vec![page_link(1, None), action_link(None, None, None), page_link(2, None)]);
    assert_eq!(p.selectable_links(&Flags::new()), Ok(vec![link(0), link(1), link(2)]));
}

#[test]
fn link_with_a_false_condition_is_left_out() {
    let flags = store(&[('x', 1)]);
    let p = page(vec![
        page_link(1, Some(vec![cond('x', CondCmp::Equal, 0)])),
        page_link(2, Some(vec![cond('x', CondCmp::Equal, 1)])),
        action_link(Some(vec![cond('x', CondCmp::Greater, 1)]), None, None),
        action_link(Some(vec![cond('x', CondCmp::AtLeast, 1)]), None, None),
    ]);
    assert_eq!(p.selectable_links(&flags), Ok(vec![link(1), link(3)]));
}

#[test]
fn all_conditions_of_a_link_must_hold() {
    let flags = store(&[('x', 1), ('y', 2)]);
    let p = page(vec![
        page_link(1, Some(vec![cond('x', CondCmp::Equal, 1), cond('y', CondCmp::Equal, 2)])),
        page_link(2, Some(vec![cond('x', CondCmp::Equal, 1), cond('y', CondCmp::Equal, 3)])),
    ]);
    assert_eq!(p.selectable_links(&flags), Ok(vec![link(0)]));
}

#[test]
fn dangling_page_link_is_still_offered() {
    let flags = store(&[('x', 1)]);
    let p = page(vec![page_link(999, Some(vec![cond('x', CondCmp::Equal, 1)]))]);
    assert_eq!(p.selectable_links(&flags), Ok(vec![link(0)]));
}

#[test]
fn action_is_offered_while_used_is_below_repeats() {
    let flags = Flags::new();
    assert_eq!(page(vec![action_link(None, Some(2), None)]).selectable_links(&flags), Ok(vec![link(0)]));
    assert_eq!(
        page(vec![action_link(None, Some(2), Some(0))]).selectable_links(&flags),
        Ok(vec![link(0)])
    );
    assert_eq!(
        page(vec![action_link(None, Some(2), Some(1))]).selectable_links(&flags),
        Ok(vec![link(0)])
    );
    assert_eq!(page(vec![action_link(None, Some(2), Some(2))]).selectable_links(&flags), Ok(vec![]));
    assert_eq!(page(vec![action_link(None, Some(2), Some(3))]).selectable_links(&flags), Ok(vec![]));
}

#[test]
fn action_with_zero_repeats_is_never_offered() {
    let p = page(vec![action_link(None, Some(0), None)]);
    assert_eq!(p.selectable_links(&Flags::new()), Ok(vec![]));
}

#[test]
fn action_without_limit_is_offered_whatever_its_counter() {
    let p = page(vec![action_link(None, None, Some(usize::MAX))]);
    assert_eq!(p.selectable_links(&Flags::new()), Ok(vec![link(0)]));
}

#[test]
fn action_needs_conditions_and_budget() {
    let flags = store(&[('x', 1)]);
    let holds = Some(vec![cond('x', CondCmp::Equal, 1)]);
    let fails = Some(vec![cond('x', CondCmp::Equal, 2)]);
    let p = page(vec![
        action_link(holds.clone(), Some(1), Some(0)),
        action_link(holds, Some(1), Some(1)),
        action_link(fails.clone(), Some(1), Some(0)),
        action_link(fails, Some(1), Some(1)),
    ]);
    assert_eq!(p.selectable_links(&flags), Ok(vec![link(0)]));
}

#[test]
fn eligible_group_offers_its_selectable_choices() {
    let flags = store(&[('x', 1)]);
    let p = page(vec![
        page_link(1, None),
        group(
            vec![
                action(None, None, None),
                action(Some(vec![cond('x', CondCmp::Less, 1)]), None, None),
                action(None, Some(1), Some(1)),
                action(None, Some(2), Some(1)),
            ],
            Some(3),
            Some(2),
        ),
        action_link(None, None, None),
    ]);
    assert_eq!(
        p.selectable_links(&flags),
        Ok(vec![link(0), choice(1, 0), choice(1, 3), link(2)])
    );
}

#[test]
fn exhausted_group_offers_nothing() {
    let p = page(vec![
        group(vec![action(None, None, None), action(None, None, None)], Some(1), Some(1)),
        page_link(1, None),
    ]);
    assert_eq!(p.selectable_links(&Flags::new()), Ok(vec![link(1)]));
}

#[test]
fn group_without_limit_is_always_eligible() {
    let p = page(vec![group(vec![action(None, None, None)], None, Some(100))]);
    assert_eq!(p.selectable_links(&Flags::new()), Ok(vec![choice(0, 0)]));
}

#[test]
fn empty_group_offers_nothing() {
    let p = page(vec![group(vec![], None, None)]);
    assert_eq!(p.selectable_links(&Flags::new()), Ok(vec![]));
}

#[test]
fn unknown_flag_on_a_page_link_is_an_error() {
    let flags = store(&[('x', 1)]);
    let p = page(vec![page_link(1, None), page_link(2, Some(vec![cond('z', CondCmp::Equal, 5)]))]);
    assert_eq!(p.selectable_links(&flags), Err(StoryError::UnknownFlag));
}

#[test]
fn unknown_flag_on_an_exhausted_action_is_an_error() {
    let p = page(vec![action_link(Some(vec![cond('z', CondCmp::Equal, 5)]), Some(1), Some(1))]);
    assert_eq!(p.selectable_links(&Flags::new()), Err(StoryError::UnknownFlag));
}

#[test]
fn unknown_flag_in_an_exhausted_group_is_an_error() {
    let p = page(vec![group(
        vec![action(Some(vec![cond('z', CondCmp::Equal, 5)]), None, None)],
        Some(1),
        Some(1),
    )]);
    assert_eq!(p.selectable_links(&Flags::new()), Err(StoryError::UnknownFlag));
}

#[test]
fn single_action_reports_its_own_state() {
    let flags = store(&[('x', 1)]);
    assert_eq!(action(None, Some(1), None).is_selectable(&flags), Ok(true));
    assert_eq!(action(None, Some(1), Some(1)).is_selectable(&flags), Ok(false));
    assert_eq!(
        action(Some(vec![cond('x', CondCmp::Equal, 0)]), None, None).is_selectable(&flags),
        Ok(false)
    );
    assert_eq!(
        action(Some(vec![cond('q', CondCmp::Equal, 0)]), None, None).is_selectable(&flags),
        Err(StoryError::UnknownFlag)
    );
}

#[test]
fn group_lists_its_choices_under_its_position() {
    let g = ChoiceLink {
        caption: Some(String::from("pick")),
        choices: vec![action(None, Some(1), Some(1)), action(None, None, None)],
        repeats: Some(2),
        used: Some(1),
    };
    assert_eq!(g.selectable_choices(4, &Flags::new()), Ok(vec![choice(4, 1)]));
}

use story_engine::records::{declare_flags, find_dangling, index_pages};
use story_engine::{
    ActionLink, ChoiceLink, Cond, CondCmp, Diagnostic, FlagAction, FlagEffect, Link, LinkHandle,
    Page, PageLink, StoryError, StoryGraph,
};

fn add(flag: char, modifier: i32) -> FlagAction {
    FlagAction { flag, effect: FlagEffect::Add, modifier }
}

fn assign(flag: char, modifier: i32) -> FlagAction {
    FlagAction { flag, effect: FlagEffect::Assign, modifier }
}

fn page_link(id: usize) -> Link {
    Link::Page { page: PageLink { id, text: String::from("go"), cond: None } }
}

fn action(actions: Vec<FlagAction>, repeats: Option<usize>, used: Option<usize>) -> ActionLink {
    ActionLink { text: String::from("do"), actions, cond: None, repeats, used }
}

fn page(id: usize, actions: Option<Vec<FlagAction>>, links: Vec<Link>) -> Page {
    Page { id, content: format!("page {}", id), actions, links }
}

fn sample() -> Vec<Page> {
    vec![
        page(
            10,
            Some(vec![assign('p', 3)]),
            vec![
                page_link(20),
                page_link(77),
                Link::Action { action: action(vec![add('a', 1), add('b', 2)], Some(2), Some(9)) },
            ],
        ),
        page(
            20,
            None,
            vec![
                Link::Choice {
                    choice: ChoiceLink {
                        caption: Some(String::from("pick")),
                        choices: vec![
                            action(vec![add('c', 1)], None, Some(4)),
                            action(vec![assign('a', 5)], Some(1), None),
                        ],
                        repeats: Some(1),
                        used: Some(1),
                    },
                },
                page_link(88),
                page_link(10),
                page_link(20),
            ],
        ),
        page(30, None, vec![page_link(99)]),
    ]
}

#[test]
fn build_keeps_every_page_under_its_id() {
    let (graph, _) = StoryGraph::build(sample()).unwrap();
    for id in [10usize, 20, 30] {
        assert!(graph.contains_page(id));
        assert_eq!(graph.page(id).map(|p| p.id), Some(id));
        assert_eq!(graph.content(id).map(|s| s.as_str()), Ok(format!("page {}", id).as_str()));
    }
    assert_eq!(graph.page(10).map(|p| p.links.len()), Some(3));
    assert_eq!(graph.page(20).map(|p| p.links.len()), Some(4));
}

#[test]
fn pages_that_are_not_there() {
    let (graph, _) = StoryGraph::build(sample()).unwrap();
    assert!(!graph.contains_page(0));
    assert!(!graph.contains_page(77));
    assert!(graph.page(77).is_none());
    assert_eq!(graph.content(77), Err(StoryError::UnknownPage));
    assert_eq!(graph.list_selectable(77), Err(StoryError::UnknownPage));
}

#[test]
fn build_of_no_pages() {
    let (graph, warnings) = StoryGraph::build(vec![]).unwrap();
    assert!(warnings.is_empty());
    assert!(!graph.contains_page(0));
    assert_eq!(graph.flag('a'), None);
}

#[test]
fn build_declares_every_action_flag_at_zero() {
    let (graph, _) = StoryGraph::build(sample()).unwrap();
    for flag in ['p', 'a', 'b', 'c'] {
        assert_eq!(graph.flag(flag), Some(0));
        assert_eq!(graph.flags().get(flag), Some(0));
    }
    assert_eq!(graph.flag('z'), None);
}

#[test]
fn conditions_declare_no_flag() {
    let records = vec![page(
        0,
        None,
        vec![Link::Page {
            page: PageLink {
                id: 0,
                text: String::from("go"),
                cond: Some(vec![Cond { flag: 'z', cmp: CondCmp::Equal, num: 5 }]),
            },
        }],
    )];
    let (graph, warnings) = StoryGraph::build(records).unwrap();
    assert!(warnings.is_empty());
    assert_eq!(graph.flag('z'), None);
    assert_eq!(graph.list_selectable(0), Err(StoryError::UnknownFlag));
}

#[test]
fn build_warns_of_dangling_links_in_order() {
    let (_, warnings) = StoryGraph::build(sample()).unwrap();
    assert_eq!(
        warnings,
        vec![
            Diagnostic::DanglingLink { page: 10, target: 77 },
            Diagnostic::DanglingLink { page: 20, target: 88 },
            Diagnostic::DanglingLink { page: 30, target: 99 },
        ]
    );
}

#[test]
fn dangling_links_stay_in_the_story() {
    let (graph, _) = StoryGraph::build(sample()).unwrap();
    assert_eq!(
        graph.list_selectable(30),
        Ok(vec![LinkHandle::Link { index: 0 }])
    );
}

#[test]
fn build_sets_counters_to_zero() {
    let (graph, _) = StoryGraph::build(sample()).unwrap();
    match &graph.page(10).unwrap().links[2] {
        Link::Action { action } => {
            assert_eq!(action.used, Some(0));
            assert_eq!(action.repeats, Some(2));
        }
        _ => panic!("not an action link"),
    }
    match &graph.page(20).unwrap().links[0] {
        Link::Choice { choice } => {
            assert_eq!(choice.used, Some(0));
            assert_eq!(choice.repeats, Some(1));
            assert_eq!(choice.choices[0].used, Some(0));
            assert_eq!(choice.choices[1].used, Some(0));
            assert_eq!(choice.caption.as_deref(), Some("pick"));
        }
        _ => panic!("not a group"),
    }
    assert_eq!(
        graph.list_selectable(20),
        Ok(vec![
            LinkHandle::Choice { index: 0, choice: 0 },
            LinkHandle::Choice { index: 0, choice: 1 },
            LinkHandle::Link { index: 1 },
            LinkHandle::Link { index: 2 },
            LinkHandle::Link { index: 3 },
        ])
    );
}

#[test]
fn duplicate_ids_reject_the_story() {
    let mut records = sample();
    records.push(page(20, None, vec![]));
    assert!(matches!(StoryGraph::build(records), Err(StoryError::DuplicatePageId)));
}

#[test]
fn adjacent_duplicate_ids_reject_the_story() {
    let records = vec![page(1, None, vec![]), page(1, None, vec![])];
    assert!(matches!(StoryGraph::build(records), Err(StoryError::DuplicatePageId)));
}

#[test]
fn index_gives_positions() {
    let records = sample();
    let index = index_pages(&records).unwrap();
    assert_eq!(index.len(), 3);
    assert_eq!(index.get(&10), Some(&0));
    assert_eq!(index.get(&20), Some(&1));
    assert_eq!(index.get(&30), Some(&2));
    assert_eq!(index.get(&77), None);
    assert_eq!(
        find_dangling(&records, &index),
        vec![
            Diagnostic::DanglingLink { page: 10, target: 77 },
            Diagnostic::DanglingLink { page: 20, target: 88 },
            Diagnostic::DanglingLink { page: 30, target: 99 },
        ]
    );
}

#[test]
fn index_rejects_duplicates() {
    let records = vec![page(1, None, vec![]), page(2, None, vec![]), page(1, None, vec![])];
    assert_eq!(index_pages(&records).err(), Some(StoryError::DuplicatePageId));
}

#[test]
fn declared_flags_start_at_zero_whatever_the_modifier() {
    let flags = declare_flags(&sample());
    assert_eq!(flags.get('p'), Some(0));
    assert_eq!(flags.get('a'), Some(0));
    assert_eq!(flags.get('b'), Some(0));
    assert_eq!(flags.get('c'), Some(0));
    assert_eq!(flags.get('d'), None);
}

#[test]
fn entering_a_page_applies_its_own_actions_in_order() {
    let records = vec![page(
        0,
        Some(vec![assign('p', 3), add('p', 4), add('q', 1)]),
        vec![],
    )];
    let (mut graph, _) = StoryGraph::build(records).unwrap();
    assert_eq!(graph.enter(0), Ok(()));
    assert_eq!(graph.flag('p'), Some(7));
    assert_eq!(graph.flag('q'), Some(1));
    assert_eq!(graph.enter(0), Ok(()));
    assert_eq!(graph.flag('p'), Some(7));
    assert_eq!(graph.flag('q'), Some(2));
}

#[test]
fn entering_a_page_without_actions_changes_nothing() {
    let (mut graph, _) = StoryGraph::build(sample()).unwrap();
    assert_eq!(graph.enter(20), Ok(()));
    for flag in ['p', 'a', 'b', 'c'] {
        assert_eq!(graph.flag(flag), Some(0));
    }
}

#[test]
fn entering_an_unknown_page_fails() {
    let (mut graph, _) = StoryGraph::build(sample()).unwrap();
    assert_eq!(graph.enter(77), Err(StoryError::UnknownPage));
}

#[test]
fn entering_a_page_fails_as_a_whole_on_overflow() {
    let records = vec![page(
        0,
        Some(vec![add('p', 1), assign('q', i32::MAX), add('q', 1)]),
        vec![],
    )];
    let (mut graph, _) = StoryGraph::build(records).unwrap();
    assert_eq!(graph.enter(0), Err(StoryError::FlagOverflow));
    assert_eq!(graph.flag('p'), Some(0));
    assert_eq!(graph.flag('q'), Some(0));
}

#[test]
fn turn_on_a_graph_returns_the_next_page() {
    let (mut graph, _) = StoryGraph::build(sample()).unwrap();
    assert_eq!(graph.select(10, LinkHandle::Link { index: 0 }), Ok(20));
    assert_eq!(graph.select(10, LinkHandle::Link { index: 2 }), Ok(10));
    assert_eq!(graph.flag('a'), Some(1));
    assert_eq!(graph.flag('b'), Some(2));
    assert_eq!(graph.flag('p'), Some(0));
    assert_eq!(graph.select(20, LinkHandle::Link { index: 3 }), Ok(20));
    assert_eq!(graph.select(5, LinkHandle::Link { index: 0 }), Err(StoryError::UnknownPage));
}

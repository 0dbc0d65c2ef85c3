//! The story graph: the pages of a story by id, with the flag store that its
//! actions work on.

use crate::actions::{all_declared, apply_all, lemma_run_keeps_flags, run, run_check};
use crate::alike::{
    lemma_alike_reflexive, lemma_alike_story_declares, lemma_alike_symmetric, lemma_reset_alike,
    lemma_selected_alike, pages_alike,
};
use crate::counters::{next_count, reset_counters, used_count};
use crate::error::StoryError;
use crate::flags::Flags;
use crate::records::{
    actions_name, actions_of, declare_flags, distinct_ids, find_dangling, index_pages, is_index_of,
    page_ids, seeded, story_declares, story_warnings, Diagnostic,
};
use crate::resolve::{handles, links_known, LinkHandle};
use crate::story::{ActionLink, ChoiceLink, FlagAction, Link, Page};
use std::collections::HashMap;
use vstd::prelude::*;

verus! {

broadcast use vstd::std_specs::hash::group_hash_axioms;

/// A story in play: its pages, found by id, and the values of its flags.
/// The counters of the links are part of the pages, so each reader of a story
/// has a graph of their own.
#[derive(Debug)]
pub struct StoryGraph {
    pages: Vec<Page>,
    index: HashMap<usize, usize>,
    flags: Flags,
}

/// What a story graph holds: the pages by id and the value of each declared flag.
pub struct GraphView {
    pub pages: Map<usize, Page>,
    pub flags: Map<char, i32>,
}

impl View for StoryGraph {
    type V = GraphView;

    closed spec fn view(&self) -> GraphView {
        GraphView {
            pages: Map::new(
                |id: usize| self.index@.contains_key(id),
                |id: usize| self.pages@[self.index@[id] as int],
            ),
            flags: self.flags@,
        }
    }
}

/// Whether the handle is in the list.
pub fn contains_handle(list: &Vec<LinkHandle>, handle: LinkHandle) -> (found: bool)
    ensures
        found == list@.contains(handle),
{
    let mut i: usize = 0;
    while i < list.len()
        invariant
            i <= list.len(),
            forall|k: int| 0 <= k < i ==> list@[k] != handle,
        decreases list.len() - i,
    {
        if list[i] == handle {
            return true;
        }
        i += 1;
    }
    false
}

/// What can be selected on the page with id `id`: the handles in the order in
/// which the page declares its links; `UnknownPage` if the story has no such
/// page; else `UnknownFlag` if a condition on the page names a flag that is not
/// declared.
pub open spec fn offered_on(graph: GraphView, id: usize) -> Result<Seq<LinkHandle>, StoryError> {
    if !graph.pages.contains_key(id) {
        Err(StoryError::UnknownPage)
    } else if !links_known(graph.pages[id].links@, graph.flags) {
        Err(StoryError::UnknownFlag)
    } else {
        Ok(handles(graph.pages[id].links@, graph.flags))
    }
}

/// What a turn gives back when the reader, on the page with id `on`, selects
/// `handle`: the id of the page the reader is on afterwards, or why the turn
/// failed.
pub open spec fn turn_result(graph: GraphView, on: usize, handle: LinkHandle) -> Result<
    usize,
    StoryError,
> {
    match offered_on(graph, on) {
        Err(error) => Err(error),
        Ok(offered) => if !offered.contains(handle) {
            Err(StoryError::InvalidSelection)
        } else {
            match graph.pages[on].target_of(handle) {
                Some(target) => if graph.pages.contains_key(target) {
                    Ok(target)
                } else {
                    Err(StoryError::UnknownPage)
                },
                None => match run_check(turn_actions(graph, on, handle), graph.flags) {
                    Ok(done) => Ok(on),
                    Err(error) => Err(error),
                },
            }
        },
    }
}

/// The actions that the selection of `handle` on the page with id `on` runs:
/// those of the action link or of the choice; none for a page link.
pub open spec fn turn_actions(graph: GraphView, on: usize, handle: LinkHandle) -> Seq<FlagAction> {
    match graph.pages[on].actions_at(handle) {
        Some(actions) => actions,
        None => Seq::empty(),
    }
}

/// Whether `after` is what a successful turn makes of `before`, when the
/// reader, on the page with id `on`, selects `handle`. A page link changes
/// nothing in the graph. An action link or a choice runs its actions in order
/// on the flags and counts the selection on the page; the other pages are as
/// before.
pub open spec fn turn_effect(
    before: GraphView,
    after: GraphView,
    on: usize,
    handle: LinkHandle,
) -> bool {
    if before.pages[on].target_of(handle) is Some {
        after == before
    } else {
        &&& after.flags == run(turn_actions(before, on, handle), before.flags)
        &&& after.pages.dom() == before.pages.dom()
        &&& forall|id: usize|
            before.pages.contains_key(id) && id != on ==> #[trigger] after.pages[id]
                == before.pages[id]
        &&& before.pages[on].selected_into(handle, after.pages[on])
    }
}

/// Whether the flag store declares every flag on which a page has an action.
pub open spec fn actions_declared(graph: GraphView) -> bool {
    forall|id: usize, flag: char|
        graph.pages.contains_key(id) && #[trigger] graph.pages[id].declares(flag)
            ==> graph.flags.contains_key(flag)
}

/// Where every flag on which a page has an action is declared, neither a
/// page's own actions nor those of a selection name an unknown flag: they can
/// fail on overflow only.
pub proof fn lemma_actions_known(graph: GraphView, on: usize, handle: LinkHandle)
    requires
        actions_declared(graph),
        graph.pages.contains_key(on),
    ensures
        all_declared(actions_of(graph.pages[on].actions), graph.flags),
        all_declared(turn_actions(graph, on, handle), graph.flags),
        run_check(actions_of(graph.pages[on].actions), graph.flags) != Err::<(), StoryError>(
            StoryError::UnknownFlag,
        ),
        run_check(turn_actions(graph, on, handle), graph.flags) != Err::<(), StoryError>(
            StoryError::UnknownFlag,
        ),
{
    let page = graph.pages[on];
    let own = actions_of(page.actions);
    assert forall|k: int| 0 <= k < own.len() implies (#[trigger] own[k]).declared(graph.flags) by {
        assert(actions_name(own, own[k].flag));
        assert(page.declares(own[k].flag));
    }
    let chosen = turn_actions(graph, on, handle);
    assert forall|k: int| 0 <= k < chosen.len() implies (#[trigger] chosen[k]).declared(
        graph.flags,
    ) by {
        let flag = chosen[k].flag;
        assert(actions_name(chosen, flag));
        let link = page.links@[handle.position() as int];
        match link {
            Link::Choice { choice: group } => {
                match handle {
                    LinkHandle::Choice { index, choice } => {
                        assert(actions_name(group.choices@[choice as int].actions@, flag));
                    },
                    _ => {},
                }
            },
            _ => {},
        }
        assert(link.declares(flag));
        assert(page.declares(flag));
    }
}

/// A successful turn changes no page but in its counters, takes no page from
/// the story and adds none, and declares no flag and removes none.
pub proof fn lemma_turn_keeps_story(
    before: GraphView,
    after: GraphView,
    on: usize,
    handle: LinkHandle,
)
    requires
        turn_result(before, on, handle) is Ok,
        turn_effect(before, after, on, handle),
    ensures
        after.pages.dom() == before.pages.dom(),
        after.flags.dom() == before.flags.dom(),
        forall|id: usize|
            before.pages.contains_key(id) ==> (#[trigger] before.pages[id]).alike(after.pages[id]),
{
    if before.pages[on].target_of(handle) is None {
        lemma_run_keeps_flags(turn_actions(before, on, handle), before.flags);
    }
    assert forall|id: usize| before.pages.contains_key(id) implies (#[trigger] before.pages[id]).alike(
        after.pages[id],
    ) by {
        if before.pages[on].target_of(handle) is None && id == on {
            lemma_selected_alike(before.pages[on], handle, after.pages[on]);
        } else {
            lemma_alike_reflexive(before.pages[id]);
        }
    }
}

/// A successful turn on an action link leaves the link selected once more,
/// with its actions run in order on the flags.
pub proof fn lemma_turn_on_action(
    before: GraphView,
    after: GraphView,
    on: usize,
    index: usize,
    link: ActionLink,
)
    requires
        turn_result(before, on, LinkHandle::Link { index }) is Ok,
        turn_effect(before, after, on, LinkHandle::Link { index }),
        before.pages[on].links@[index as int] == (Link::Action { action: link }),
    ensures
        after.pages[on].links@[index as int] == (Link::Action { action: link.selected() }),
        used_count(link.selected().used) == next_count(link.used),
        after.flags == run(link.actions@, before.flags),
{
    before.pages[on].lemma_selectable_handles(before.flags, LinkHandle::Link { index });
}

/// A successful turn on a choice leaves the choice and its group selected
/// once more each, with the actions of the choice run in order on the flags.
pub proof fn lemma_turn_on_choice(
    before: GraphView,
    after: GraphView,
    on: usize,
    index: usize,
    choice: usize,
    group: ChoiceLink,
)
    requires
        turn_result(before, on, LinkHandle::Choice { index, choice }) is Ok,
        turn_effect(before, after, on, LinkHandle::Choice { index, choice }),
        before.pages[on].links@[index as int] == (Link::Choice { choice: group }),
    ensures
        after.pages[on].links@[index as int] matches Link::Choice { choice: now }
            && group.selected_into(choice as int, now) && used_count(now.used) == next_count(
            group.used,
        ) && now.choices@[choice as int] == group.choices@[choice as int].selected(),
        after.flags == run(group.choices@[choice as int].actions@, before.flags),
{
    before.pages[on].lemma_selectable_handles(before.flags, LinkHandle::Choice { index, choice });
}

/// A page link that leads to no page can be selected while its conditions
/// hold, and the turn then fails with `UnknownPage`.
pub proof fn lemma_dangling_selection(graph: GraphView, on: usize, index: usize)
    requires
        graph.pages.contains_key(on),
        links_known(graph.pages[on].links@, graph.flags),
        index < graph.pages[on].links@.len(),
        graph.pages[on].links@[index as int] matches Link::Page { page: to } && to.selectable(
            graph.flags,
        ) && !graph.pages.contains_key(to.id),
    ensures
        offered_on(graph, on) matches Ok(offered) && offered.contains(LinkHandle::Link { index }),
        turn_result(graph, on, LinkHandle::Link { index }) == Err::<usize, StoryError>(
            StoryError::UnknownPage,
        ),
{
    graph.pages[on].lemma_selectable_handles(graph.flags, LinkHandle::Link { index });
}

impl StoryGraph {
    /// Whether the graph is well formed: it finds each of its pages, and only
    /// those, by id, and its flag store declares every flag on which the story
    /// has an action. `build` makes such a graph and every operation keeps it so.
    pub closed spec fn wf(&self) -> bool {
        &&& is_index_of(self.index@, self.pages@)
        &&& forall|flag: char| #[trigger]
            story_declares(self.pages@, flag) ==> self.flags@.contains_key(flag)
    }

    /// In a well-formed graph every flag on which a page has an action is
    /// declared.
    pub proof fn lemma_actions_declared(&self)
        requires
            self.wf(),
        ensures
            actions_declared(self@),
    {
        assert forall|id: usize, flag: char|
            self@.pages.contains_key(id) && #[trigger] self@.pages[id].declares(
                flag,
            ) implies self@.flags.contains_key(flag) by {
            assert(self.pages@[self.index@[id] as int].declares(flag));
            assert(story_declares(self.pages@, flag));
        }
    }

    /// In a well-formed graph each page stands under its own id.
    pub proof fn lemma_keyed_by_id(&self, id: usize)
        requires
            self.wf(),
            self@.pages.contains_key(id),
        ensures
            self@.pages[id].id == id,
    {
    }

    /// Builds the story from its page records. Fails with `DuplicatePageId`
    /// exactly when two records have the same id. Otherwise the graph holds
    /// every record under its id, with all counters at 0; its flag store
    /// declares, with the value 0, each flag on which the story has an action;
    /// and the warnings name, in the order of the records and of their links,
    /// each page link that leads to no page. Such links stay in the story.
    pub fn build(records: Vec<Page>) -> (result: Result<(StoryGraph, Vec<Diagnostic>), StoryError>)
        ensures
            match result {
                Ok((graph, warnings)) => {
                    &&& graph.wf()
                    &&& distinct_ids(records@)
                    &&& graph@.pages.dom() == page_ids(records@)
                    &&& forall|i: int|
                        0 <= i < records@.len() ==> (#[trigger] records@[i]).reset_into(
                            graph@.pages[records@[i].id],
                        )
                    &&& graph@.flags == seeded(records@)
                    &&& warnings@ == story_warnings(records@, page_ids(records@))
                },
                Err(error) => error == StoryError::DuplicatePageId && !distinct_ids(records@),
            },
    {
        let mut pages = records;
        let index = match index_pages(&pages) {
            Ok(index) => index,
            Err(error) => {
                return Err(error);
            },
        };
        let flags = declare_flags(&pages);
        let warnings = find_dangling(&pages, &index);
        reset_counters(&mut pages);
        proof {
            assert(index@.dom() =~= page_ids(records@)) by {
                assert forall|id: usize| index@.contains_key(id) implies page_ids(
                    records@,
                ).contains(id) by {
                    assert(records@[index@[id] as int].id == id);
                }
            }
            assert forall|i: int| 0 <= i < pages@.len() implies index@.contains_key(
                (#[trigger] pages@[i]).id,
            ) && index@[pages@[i].id] == i by {
                assert(records@[i].reset_into(pages@[i]));
            }
            assert forall|id: usize| #[trigger] index@.contains_key(id) implies index@[id]
                < pages@.len() && pages@[index@[id] as int].id == id by {
                assert(records@[index@[id] as int].reset_into(pages@[index@[id] as int]));
            }
        }
        proof {
            assert(pages_alike(records@, pages@)) by {
                assert forall|p: int| 0 <= p < records@.len() implies (#[trigger] records@[p]).alike(
                    pages@[p],
                ) by {
                    lemma_reset_alike(records@[p], pages@[p]);
                }
            }
            lemma_alike_symmetric(records@, pages@);
            assert forall|flag: char| #[trigger] story_declares(pages@, flag) implies flags@.contains_key(
                flag,
            ) by {
                lemma_alike_story_declares(pages@, records@, flag);
            }
        }
        let graph = StoryGraph { pages, index, flags };
        proof {
            assert(graph@.pages.dom() =~= page_ids(records@));
            assert forall|i: int| 0 <= i < records@.len() implies (#[trigger] records@[i]).reset_into(
                graph@.pages[records@[i].id],
            ) by {
                assert(graph.index@[records@[i].id] == i);
            }
        }
        Ok((graph, warnings))
    }

    /// The page with the given id, if the story has one.
    pub fn page(&self, id: usize) -> (found: Option<&Page>)
        requires
            self.wf(),
        ensures
            match found {
                Some(page) => self@.pages.contains_key(id) && *page == self@.pages[id] && page.id
                    == id,
                None => !self@.pages.contains_key(id),
            },
    {
        match self.index.get(&id) {
            Some(position) => Some(&self.pages[*position]),
            None => None,
        }
    }

    /// Whether the story has a page with the given id.
    pub fn contains_page(&self, id: usize) -> (found: bool)
        ensures
            found == self@.pages.contains_key(id),
    {
        self.index.contains_key(&id)
    }

    /// The flag store.
    pub fn flags(&self) -> (flags: &Flags)
        ensures
            flags@ == self@.flags,
    {
        &self.flags
    }

    /// The value of `flag`, if it is declared.
    pub fn flag(&self, flag: char) -> (value: Option<i32>)
        ensures
            value == if self@.flags.contains_key(flag) {
                Some(self@.flags[flag])
            } else {
                None::<i32>
            },
    {
        self.flags.get(flag)
    }

    /// The text of the page with the given id. Fails with `UnknownPage` exactly
    /// when the story has no such page.
    pub fn content(&self, id: usize) -> (result: Result<&String, StoryError>)
        requires
            self.wf(),
        ensures
            match result {
                Ok(text) => self@.pages.contains_key(id) && *text == self@.pages[id].content,
                Err(error) => !self@.pages.contains_key(id) && error == StoryError::UnknownPage,
            },
    {
        match self.page(id) {
            Some(page) => Ok(&page.content),
            None => Err(StoryError::UnknownPage),
        }
    }

    /// The handles of everything that can be selected on the page with the
    /// given id, in the order in which the page declares its links. Fails with
    /// `UnknownPage` exactly when the story has no such page, else with
    /// `UnknownFlag` exactly when a condition on the page names a flag that is
    /// not declared.
    pub fn list_selectable(&self, id: usize) -> (result: Result<Vec<LinkHandle>, StoryError>)
        requires
            self.wf(),
        ensures
            match result {
                Ok(found) => offered_on(self@, id) == Ok::<Seq<LinkHandle>, StoryError>(found@),
                Err(error) => offered_on(self@, id) == Err::<Seq<LinkHandle>, StoryError>(error),
            },
    {
        match self.page(id) {
            Some(page) => page.selectable_links(&self.flags),
            None => Err(StoryError::UnknownPage),
        }
    }

    /// Applies the actions of the page with the given id itself, in the order
    /// in which the page declares them, or none of them. Fails with
    /// `UnknownPage` if the story has no such page, with `UnknownFlag` if one
    /// of the actions names a flag that is not declared, and with
    /// `FlagOverflow` if an `Add` would leave the range of `i32`; the graph is
    /// then as it was.
    pub fn enter(&mut self, id: usize) -> (result: Result<(), StoryError>)
        requires
            old(self).wf(),
        ensures
            final(self).wf(),
            result == if old(self)@.pages.contains_key(id) {
                run_check(actions_of(old(self)@.pages[id].actions), old(self)@.flags)
            } else {
                Err::<(), StoryError>(StoryError::UnknownPage)
            },
            result is Ok ==> final(self)@.flags == run(
                actions_of(old(self)@.pages[id].actions),
                old(self)@.flags,
            ),
            result is Err ==> final(self)@.flags == old(self)@.flags,
            final(self)@.pages == old(self)@.pages,
    {
        let position: usize = match self.index.get(&id) {
            Some(position) => *position,
            None => {
                return Err(StoryError::UnknownPage);
            },
        };
        match &self.pages[position].actions {
            Some(list) => {
                proof {
                    if all_declared(list@, self.flags@) {
                        lemma_run_keeps_flags(list@, self.flags@);
                    }
                }
                apply_all(list, &mut self.flags)
            },
            None => Ok(()),
        }
    }

    /// Takes one turn: the reader, on the page with id `on`, selects `handle`.
    ///
    /// Fails with `UnknownPage` if the story has no page `on`; with
    /// `UnknownFlag` if a condition on that page names a flag that is not
    /// declared; with `InvalidSelection` if `handle` is not among the handles
    /// that can be selected on that page now. A page link then leads to its
    /// target and changes nothing, or fails with `UnknownPage` if no page has the
    /// target's id. An action link or a choice runs its actions in order, counts
    /// the selection and stays on the page; it fails with `UnknownFlag` or
    /// `FlagOverflow` as its actions do. After a failure the graph is as it was.
    pub fn select(&mut self, on: usize, handle: LinkHandle) -> (result: Result<usize, StoryError>)
        requires
            old(self).wf(),
        ensures
            final(self).wf(),
            result == turn_result(old(self)@, on, handle),
            result is Ok ==> turn_effect(old(self)@, final(self)@, on, handle),
            result is Err ==> final(self)@ == old(self)@,
    {
        let position: usize = match self.index.get(&on) {
            Some(position) => *position,
            None => {
                return Err(StoryError::UnknownPage);
            },
        };
        let offered = match self.pages[position].selectable_links(&self.flags) {
            Ok(offered) => offered,
            Err(error) => {
                return Err(error);
            },
        };
        if !contains_handle(&offered, handle) {
            return Err(StoryError::InvalidSelection);
        }
        proof {
            self.pages@[position as int].lemma_selectable_handles(self.flags@, handle);
        }
        match self.pages[position].link_target(handle) {
            Some(target) => {
                if self.index.contains_key(&target) {
                    Ok(target)
                } else {
                    Err(StoryError::UnknownPage)
                }
            },
            None => {
                let actions = self.pages[position].link_actions(handle).unwrap();
                proof {
                    if all_declared(actions@, self.flags@) {
                        lemma_run_keeps_flags(actions@, self.flags@);
                    }
                }
                match apply_all(actions, &mut self.flags) {
                    Ok(done) => {},
                    Err(error) => {
                        return Err(error);
                    },
                }
                self.pages[position].record_selection(handle);
                proof {
                    let before = old(self)@;
                    let after = self@;
                    assert(after.pages.dom() =~= before.pages.dom());
                    assert forall|id: usize|
                        before.pages.contains_key(id) && id != on implies #[trigger] after.pages[id]
                        == before.pages[id] by {
                        assert(self.index@[id] != position);
                    }
                    assert(pages_alike(old(self).pages@, self.pages@)) by {
                        assert forall|p: int| 0 <= p < self.pages@.len() implies (
                        #[trigger] old(self).pages@[p]).alike(self.pages@[p]) by {
                            if p == position {
                                lemma_selected_alike(old(self).pages@[p], handle, self.pages@[p]);
                            }
                        }
                    }
                    lemma_alike_symmetric(old(self).pages@, self.pages@);
                    assert forall|flag: char| #[trigger]
                        story_declares(self.pages@, flag) implies self.flags@.contains_key(
                        flag,
                    ) by {
                        lemma_alike_story_declares(self.pages@, old(self).pages@, flag);
                    }
                }
                Ok(on)
            },
        }
    }
}

} // verus!

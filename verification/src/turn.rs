//! What selecting a handle means for the page it is selected on: where a page
//! link leads, which actions an action or a choice runs, and how the counters
//! move.

use crate::resolve::LinkHandle;
use crate::story::{FlagAction, Link, Page};
use vstd::prelude::*;

verus! {

impl Link {
    /// Whether `after` is this link after the selection of `handle`, which
    /// names this link or one of its choices: an action link has been selected
    /// once more; in a group, the choice and the group have been selected once
    /// more; any other link is as before.
    pub open spec fn selected_into(self, handle: LinkHandle, after: Link) -> bool {
        match self {
            Link::Page { page } => after == self,
            Link::Action { action } => match handle {
                LinkHandle::Link { index } => after == Link::Action { action: action.selected() },
                LinkHandle::Choice { index, choice } => after == self,
            },
            Link::Choice { choice: group } => match handle {
                LinkHandle::Link { index } => after == self,
                LinkHandle::Choice { index, choice } => if choice < group.choices@.len() {
                    after matches Link::Choice { choice: now } && group.selected_into(
                        choice as int,
                        now,
                    )
                } else {
                    after == self
                },
            },
        }
    }

    /// Counts the selection of `handle`, which names this link or one of its
    /// choices.
    pub fn record_selection(&mut self, handle: LinkHandle)
        ensures
            old(self).selected_into(handle, *final(self)),
    {
        match self {
            Link::Page { page } => {},
            Link::Action { action } => {
                match handle {
                    LinkHandle::Link { index } => {
                        action.record_selection();
                    },
                    LinkHandle::Choice { index, choice } => {},
                }
            },
            Link::Choice { choice: group } => {
                match handle {
                    LinkHandle::Link { index } => {},
                    LinkHandle::Choice { index, choice } => {
                        if choice < group.choices.len() {
                            group.record_selection(choice);
                        }
                    },
                }
            },
        }
    }
}

impl Page {
    /// The id of the page that `handle` leads to, if it names a page link of
    /// this page.
    pub open spec fn target_of(&self, handle: LinkHandle) -> Option<usize> {
        match handle {
            LinkHandle::Link { index } => if index < self.links@.len() {
                match self.links@[index as int] {
                    Link::Page { page } => Some(page.id),
                    _ => None,
                }
            } else {
                None
            },
            LinkHandle::Choice { index, choice } => None,
        }
    }

    /// The actions that `handle` runs, if it names an action link of this
    /// page or a choice of one of its groups.
    pub open spec fn actions_at(&self, handle: LinkHandle) -> Option<Seq<FlagAction>> {
        if handle.position() < self.links@.len() {
            match self.links@[handle.position() as int] {
                Link::Page { page } => None,
                Link::Action { action } => match handle {
                    LinkHandle::Link { index } => Some(action.actions@),
                    LinkHandle::Choice { index, choice } => None,
                },
                Link::Choice { choice: group } => match handle {
                    LinkHandle::Link { index } => None,
                    LinkHandle::Choice { index, choice } => if choice < group.choices@.len() {
                        Some(group.choices@[choice as int].actions@)
                    } else {
                        None
                    },
                },
            }
        } else {
            None
        }
    }

    /// Whether `after` is this page after the selection of `handle`: the link
    /// that the handle names has counted the selection, the rest is as before.
    pub open spec fn selected_into(self, handle: LinkHandle, after: Page) -> bool {
        &&& after.id == self.id
        &&& after.content == self.content
        &&& after.actions == self.actions
        &&& after.links@.len() == self.links@.len()
        &&& forall|i: int|
            0 <= i < self.links@.len() && i != handle.position() ==> #[trigger] after.links@[i]
                == self.links@[i]
        &&& handle.position() < self.links@.len() ==> self.links@[handle.position() as int].selected_into(
            handle,
            after.links@[handle.position() as int],
        )
    }

    /// The id of the page that `handle` leads to, if it names a page link of
    /// this page.
    pub fn link_target(&self, handle: LinkHandle) -> (target: Option<usize>)
        ensures
            target == self.target_of(handle),
    {
        match handle {
            LinkHandle::Link { index } => {
                if index < self.links.len() {
                    match &self.links[index] {
                        Link::Page { page } => Some(page.id),
                        _ => None,
                    }
                } else {
                    None
                }
            },
            LinkHandle::Choice { index, choice } => None,
        }
    }

    /// The actions that `handle` runs, if it names an action link of this
    /// page or a choice of one of its groups.
    pub fn link_actions(&self, handle: LinkHandle) -> (actions: Option<&Vec<FlagAction>>)
        ensures
            match actions {
                Some(list) => self.actions_at(handle) == Some(list@),
                None => self.actions_at(handle) is None,
            },
    {
        match handle {
            LinkHandle::Link { index } => {
                if index < self.links.len() {
                    match &self.links[index] {
                        Link::Action { action } => Some(&action.actions),
                        _ => None,
                    }
                } else {
                    None
                }
            },
            LinkHandle::Choice { index, choice } => {
                if index < self.links.len() {
                    match &self.links[index] {
                        Link::Choice { choice: group } => {
                            if choice < group.choices.len() {
                                Some(&group.choices[choice].actions)
                            } else {
                                None
                            }
                        },
                        _ => None,
                    }
                } else {
                    None
                }
            },
        }
    }

    /// Counts the selection of `handle` on the link that it names; a handle
    /// that names no link of the page changes nothing.
    pub fn record_selection(&mut self, handle: LinkHandle)
        ensures
            old(self).selected_into(handle, *final(self)),
    {
        let index: usize = match handle {
            LinkHandle::Link { index } => index,
            LinkHandle::Choice { index, choice } => index,
        };
        if index < self.links.len() {
            self.links[index].record_selection(handle);
        }
    }
}

} // verus!

//! The navigation engine: a story graph and the page the reader is on.

use crate::actions::{run, run_check};
use crate::error::StoryError;
use crate::graph::{offered_on, turn_effect, turn_result, GraphView, StoryGraph};
use crate::records::actions_of;
use crate::resolve::LinkHandle;
use vstd::prelude::*;

verus! {

/// A reader's place in a story: the graph and the id of the page the reader
/// is on. There is no final state; a page on which nothing can be selected
/// is where a story comes to rest.
#[derive(Debug)]
pub struct Engine {
    graph: StoryGraph,
    on: usize,
}

/// What an engine holds: the graph and the id of the current page.
pub struct EngineView {
    pub graph: GraphView,
    pub on: usize,
}

impl View for Engine {
    type V = EngineView;

    closed spec fn view(&self) -> EngineView {
        EngineView { graph: self.graph@, on: self.on }
    }
}

impl Engine {
    /// Whether the engine is well formed: its graph is, and the current page
    /// is a page of the story. `new` makes such an engine and every operation
    /// keeps it so.
    pub closed spec fn wf(&self) -> bool {
        &&& self.graph.wf()
        &&& self.graph@.pages.contains_key(self.on)
    }

    /// In a well-formed engine the current page is a page of the story.
    pub proof fn lemma_on_a_page(&self)
        requires
            self.wf(),
        ensures
            self@.graph.pages.contains_key(self@.on),
    {
    }

    /// Puts the reader on the page with id `start`. Fails with `UnknownPage`
    /// exactly when the story has no such page.
    pub fn new(graph: StoryGraph, start: usize) -> (result: Result<Engine, StoryError>)
        requires
            graph.wf(),
        ensures
            match result {
                Ok(engine) => {
                    &&& engine.wf()
                    &&& graph@.pages.contains_key(start)
                    &&& engine@ == EngineView { graph: graph@, on: start }
                },
                Err(error) => error == StoryError::UnknownPage && !graph@.pages.contains_key(
                    start,
                ),
            },
    {
        if graph.contains_page(start) {
            Ok(Engine { graph, on: start })
        } else {
            Err(StoryError::UnknownPage)
        }
    }

    /// The id of the page the reader is on.
    pub fn current_page(&self) -> (id: usize)
        ensures
            id == self@.on,
    {
        self.on
    }

    /// The story graph.
    pub fn graph(&self) -> (graph: &StoryGraph)
        requires
            self.wf(),
        ensures
            graph.wf(),
            graph@ == self@.graph,
    {
        &self.graph
    }

    /// The text of the page with the given id. Fails with `UnknownPage` exactly
    /// when the story has no such page.
    pub fn current_content(&self, id: usize) -> (result: Result<&String, StoryError>)
        requires
            self.wf(),
        ensures
            match result {
                Ok(text) => self@.graph.pages.contains_key(id) && *text
                    == self@.graph.pages[id].content,
                Err(error) => !self@.graph.pages.contains_key(id) && error
                    == StoryError::UnknownPage,
            },
    {
        self.graph.content(id)
    }

    /// The handles of everything that can be selected on the page with the
    /// given id, in the order in which the page declares its links. Fails with
    /// `UnknownPage` exactly when the story has no such page, else with
    /// `UnknownFlag` exactly when a condition on the page names a flag that is
    /// not declared.
    pub fn list_selectable(&self, id: usize) -> (result: Result<Vec<LinkHandle>, StoryError>)
        requires
            self.wf(),
        ensures
            match result {
                Ok(found) => offered_on(self@.graph, id) == Ok::<Seq<LinkHandle>, StoryError>(
                    found@,
                ),
                Err(error) => offered_on(self@.graph, id) == Err::<Seq<LinkHandle>, StoryError>(
                    error,
                ),
            },
    {
        self.graph.list_selectable(id)
    }

    /// Applies the current page's own actions, in the order in which the page
    /// declares them, or none of them: the driver calls this when the reader
    /// enters a page. Fails with `UnknownFlag` if one of the actions names a
    /// flag that is not declared, and with `FlagOverflow` if an `Add` would
    /// leave the range of `i32`; the engine is then as it was.
    pub fn enter_page(&mut self) -> (result: Result<(), StoryError>)
        requires
            old(self).wf(),
        ensures
            final(self).wf(),
            result == run_check(
                actions_of(old(self)@.graph.pages[old(self)@.on].actions),
                old(self)@.graph.flags,
            ),
            result is Ok ==> final(self)@.graph.flags == run(
                actions_of(old(self)@.graph.pages[old(self)@.on].actions),
                old(self)@.graph.flags,
            ),
            result is Err ==> final(self)@.graph.flags == old(self)@.graph.flags,
            final(self)@.graph.pages == old(self)@.graph.pages,
            final(self)@.on == old(self)@.on,
    {
        self.graph.enter(self.on)
    }

    /// Takes one turn: the reader selects `handle` on the current page.
    ///
    /// Fails with `UnknownFlag` if a condition on the current page names a flag
    /// that is not declared, and with `InvalidSelection` if `handle` is not among
    /// the handles that can be selected on the page now. A page link then
    /// makes its target the current page and changes nothing else, or fails
    /// with `UnknownPage` if no page has the target's id. An action link or a
    /// choice runs its actions in order, counts the selection and leaves the
    /// reader on the page; it fails with `UnknownFlag` or `FlagOverflow` as its
    /// actions do. After a failure the engine is as it was. Returns the id of
    /// the page the reader is on after the turn.
    pub fn select(&mut self, handle: LinkHandle) -> (result: Result<usize, StoryError>)
        requires
            old(self).wf(),
        ensures
            final(self).wf(),
            result == turn_result(old(self)@.graph, old(self)@.on, handle),
            result matches Ok(next) ==> final(self)@.on == next && turn_effect(
                old(self)@.graph,
                final(self)@.graph,
                old(self)@.on,
                handle,
            ),
            result is Err ==> final(self)@ == old(self)@,
    {
        match self.graph.select(self.on, handle) {
            Ok(next) => {
                self.on = next;
                Ok(next)
            },
            Err(error) => Err(error),
        }
    }
}

} // verus!

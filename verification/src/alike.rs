//! Pages that differ in their counters only. Counting a selection and setting
//! the counters to 0 both leave such a page, so neither changes which flags a
//! story declares.

use crate::records::{actions_name, actions_of, choices_declare, story_declares};
use crate::resolve::LinkHandle;
use crate::story::{ActionLink, ChoiceLink, Link, Page};
use vstd::prelude::*;

verus! {

impl ActionLink {
    /// Whether the two actions differ in their counters only.
    pub open spec fn alike(self, other: ActionLink) -> bool {
        &&& other.text == self.text
        &&& other.actions == self.actions
        &&& other.cond == self.cond
        &&& other.repeats == self.repeats
    }
}

impl ChoiceLink {
    /// Whether the two groups differ in their counters only.
    pub open spec fn alike(self, other: ChoiceLink) -> bool {
        &&& other.caption == self.caption
        &&& other.repeats == self.repeats
        &&& other.choices@.len() == self.choices@.len()
        &&& forall|j: int|
            0 <= j < self.choices@.len() ==> (#[trigger] self.choices@[j]).alike(other.choices@[j])
    }
}

impl Link {
    /// Whether the two links differ in their counters only.
    pub open spec fn alike(self, other: Link) -> bool {
        match self {
            Link::Page { page } => other == self,
            Link::Action { action } => other matches Link::Action { action: now } && action.alike(
                now,
            ),
            Link::Choice { choice } => other matches Link::Choice { choice: now } && choice.alike(
                now,
            ),
        }
    }
}

impl Page {
    /// Whether the two pages differ in their counters only.
    pub open spec fn alike(self, other: Page) -> bool {
        &&& other.id == self.id
        &&& other.content == self.content
        &&& other.actions == self.actions
        &&& other.links@.len() == self.links@.len()
        &&& forall|i: int|
            0 <= i < self.links@.len() ==> (#[trigger] self.links@[i]).alike(other.links@[i])
    }
}

/// Whether the two lists hold as many pages, which differ, place by place, in
/// their counters only.
pub open spec fn pages_alike(pages: Seq<Page>, others: Seq<Page>) -> bool {
    &&& others.len() == pages.len()
    &&& forall|p: int| 0 <= p < pages.len() ==> (#[trigger] pages[p]).alike(others[p])
}

/// A page differs from itself in no counter even.
pub proof fn lemma_alike_reflexive(page: Page)
    ensures
        page.alike(page),
{
    assert forall|i: int| 0 <= i < page.links@.len() implies (#[trigger] page.links@[i]).alike(
        page.links@[i],
    ) by {
        match page.links@[i] {
            Link::Choice { choice } => {
                assert forall|j: int| 0 <= j < choice.choices@.len() implies (
                #[trigger] choice.choices@[j]).alike(choice.choices@[j]) by {}
            },
            _ => {},
        }
    }
}

/// Setting the counters of a link to 0 changes nothing else.
pub proof fn lemma_reset_link_alike(link: Link, after: Link)
    requires
        link.reset_into(after),
    ensures
        link.alike(after),
{
}

/// Setting the counters of a page to 0 changes nothing else.
pub proof fn lemma_reset_alike(page: Page, after: Page)
    requires
        page.reset_into(after),
    ensures
        page.alike(after),
{
    assert forall|i: int| 0 <= i < page.links@.len() implies (#[trigger] page.links@[i]).alike(
        after.links@[i],
    ) by {
        lemma_reset_link_alike(page.links@[i], after.links@[i]);
    }
}

/// Counting a selection on a link changes nothing but counters.
pub proof fn lemma_selected_link_alike(link: Link, handle: LinkHandle, after: Link)
    requires
        link.selected_into(handle, after),
    ensures
        link.alike(after),
{
}

/// Counting a selection on a page changes nothing but counters.
pub proof fn lemma_selected_alike(page: Page, handle: LinkHandle, after: Page)
    requires
        page.selected_into(handle, after),
    ensures
        page.alike(after),
{
    assert forall|i: int| 0 <= i < page.links@.len() implies (#[trigger] page.links@[i]).alike(
        after.links@[i],
    ) by {
        if i == handle.position() {
            lemma_selected_link_alike(page.links@[i], handle, after.links@[i]);
        } else {
            assert(after.links@[i] == page.links@[i]);
        }
    }
}

proof fn lemma_alike_choices_declare(group: ChoiceLink, other: ChoiceLink, flag: char)
    requires
        group.alike(other),
        choices_declare(group.choices@, flag),
    ensures
        choices_declare(other.choices@, flag),
{
    let j = choose|j: int|
        0 <= j < group.choices@.len() && actions_name(
            (#[trigger] group.choices@[j]).actions@,
            flag,
        );
    assert(group.choices@[j].alike(other.choices@[j]));
    assert(actions_name(other.choices@[j].actions@, flag));
}

proof fn lemma_alike_link_declares(link: Link, other: Link, flag: char)
    requires
        link.alike(other),
        link.declares(flag),
    ensures
        other.declares(flag),
{
    match link {
        Link::Choice { choice } => {
            match other {
                Link::Choice { choice: now } => {
                    lemma_alike_choices_declare(choice, now, flag);
                },
                _ => {},
            }
        },
        _ => {},
    }
}

/// A page that differs from another in its counters only declares every
/// flag that the other declares.
pub proof fn lemma_alike_declares(page: Page, other: Page, flag: char)
    requires
        page.alike(other),
        page.declares(flag),
    ensures
        other.declares(flag),
{
    if !actions_name(actions_of(page.actions), flag) {
        let i = choose|i: int|
            0 <= i < page.links@.len() && (#[trigger] page.links@[i]).declares(flag);
        assert(page.links@[i].alike(other.links@[i]));
        lemma_alike_link_declares(page.links@[i], other.links@[i], flag);
    }
}

/// Pages that differ from others in their counters only declare every flag
/// that the others declare.
pub proof fn lemma_alike_story_declares(pages: Seq<Page>, others: Seq<Page>, flag: char)
    requires
        pages_alike(pages, others),
        story_declares(pages, flag),
    ensures
        story_declares(others, flag),
{
    let p = choose|p: int| 0 <= p < pages.len() && (#[trigger] pages[p]).declares(flag);
    assert(pages[p].alike(others[p]));
    lemma_alike_declares(pages[p], others[p], flag);
}

/// To differ in counters only goes both ways.
pub proof fn lemma_alike_symmetric(pages: Seq<Page>, others: Seq<Page>)
    requires
        pages_alike(pages, others),
    ensures
        pages_alike(others, pages),
{
    assert forall|p: int| 0 <= p < others.len() implies (#[trigger] others[p]).alike(pages[p]) by {
        let page = pages[p];
        let other = others[p];
        assert(page.alike(other));
        assert forall|i: int| 0 <= i < other.links@.len() implies (#[trigger] other.links@[i]).alike(
            page.links@[i],
        ) by {
            assert(page.links@[i].alike(other.links@[i]));
            match page.links@[i] {
                Link::Choice { choice } => {
                    match other.links@[i] {
                        Link::Choice { choice: now } => {
                            assert forall|j: int| 0 <= j < now.choices@.len() implies (
                            #[trigger] now.choices@[j]).alike(choice.choices@[j]) by {
                                assert(choice.choices@[j].alike(now.choices@[j]));
                            }
                        },
                        _ => {},
                    }
                },
                _ => {},
            }
        }
    }
}

} // verus!

//! What is read off the page records when a story is built: the position of
//! each page id, the links that lead nowhere, and the flags that the actions
//! declare.

use crate::error::StoryError;
use crate::flags::Flags;
use crate::story::{ActionLink, FlagAction, Link, Page};
use std::collections::HashMap;
use vstd::prelude::*;

verus! {

broadcast use vstd::std_specs::hash::group_hash_axioms;

/// A finding on the page records that does not stop a story from being built.
#[derive(Clone, Copy, Debug, PartialEq, Eq, Structural)]
pub enum Diagnostic {
    /// A link on the page with id `page` leads to `target`, and no page has that id.
    DanglingLink { page: usize, target: usize },
}

/// Whether no two of the pages have the same id.
pub open spec fn distinct_ids(pages: Seq<Page>) -> bool {
    forall|i: int, j: int|
        0 <= i < j < pages.len() ==> (#[trigger] pages[i]).id != (#[trigger] pages[j]).id
}

/// The ids of the pages.
pub open spec fn page_ids(pages: Seq<Page>) -> Set<usize> {
    Set::new(|id: usize| exists|i: int| 0 <= i < pages.len() && (#[trigger] pages[i]).id == id)
}

/// Whether `index` gives, for the id of each page and for nothing else, the
/// position of that page among `pages`.
pub open spec fn is_index_of(index: Map<usize, usize>, pages: Seq<Page>) -> bool {
    &&& forall|i: int|
        0 <= i < pages.len() ==> index.contains_key((#[trigger] pages[i]).id) && index[pages[i].id]
            == i
    &&& forall|id: usize| #[trigger]
        index.contains_key(id) ==> index[id] < pages.len() && pages[index[id] as int].id == id
}

/// Finds the position of each page id. Fails with `DuplicatePageId` exactly
/// when two pages have the same id: such a story is rejected, no page is kept
/// in place of another.
pub fn index_pages(pages: &Vec<Page>) -> (result: Result<HashMap<usize, usize>, StoryError>)
    ensures
        match result {
            Ok(index) => distinct_ids(pages@) && is_index_of(index@, pages@),
            Err(error) => error == StoryError::DuplicatePageId && !distinct_ids(pages@),
        },
{
    let mut index: HashMap<usize, usize> = HashMap::new();
    let mut i: usize = 0;
    while i < pages.len()
        invariant
            i <= pages.len(),
            distinct_ids(pages@.take(i as int)),
            is_index_of(index@, pages@.take(i as int)),
        decreases pages.len() - i,
    {
        let id = pages[i].id;
        if index.contains_key(&id) {
            proof {
                let first = index@[id] as int;
                assert(pages@.take(i as int)[first].id == id);
                assert(pages@[first].id == pages@[i as int].id);
            }
            return Err(StoryError::DuplicatePageId);
        }
        index.insert(id, i);
        proof {
            let before = pages@.take(i as int);
            let now = pages@.take(i + 1);
            assert forall|a: int, b: int| 0 <= a < b < now.len() implies (#[trigger] now[a]).id != (
            #[trigger] now[b]).id by {
                if b < i {
                    assert(before[a].id != before[b].id);
                } else {
                    assert(before[a].id == now[a].id);
                }
            }
            assert forall|a: int| 0 <= a < now.len() implies index@.contains_key(
                (#[trigger] now[a]).id,
            ) && index@[now[a].id] == a by {
                if a < i {
                    assert(before[a].id == now[a].id);
                }
            }
            assert forall|key: usize| #[trigger] index@.contains_key(key) implies index@[key]
                < now.len() && now[index@[key] as int].id == key by {
                if key != id {
                    assert(before[index@[key] as int].id == key);
                }
            }
        }
        i += 1;
    }
    assert(pages@.take(i as int) =~= pages@);
    Ok(index)
}

/// The warning that a link gives: one if it is a page link whose target is
/// not among `ids`.
pub open spec fn link_warnings(page: usize, link: Link, ids: Set<usize>) -> Seq<Diagnostic> {
    match link {
        Link::Page { page: to } => if ids.contains(to.id) {
            Seq::empty()
        } else {
            seq![Diagnostic::DanglingLink { page, target: to.id }]
        },
        _ => Seq::empty(),
    }
}

/// The warnings that the links of the page with id `page` give, in the order
/// of the links.
pub open spec fn page_warnings(page: usize, links: Seq<Link>, ids: Set<usize>) -> Seq<Diagnostic>
    decreases links.len(),
{
    if links.len() == 0 {
        Seq::empty()
    } else {
        page_warnings(page, links.drop_last(), ids) + link_warnings(page, links.last(), ids)
    }
}

/// The warnings that the pages give, page after page.
pub open spec fn story_warnings(pages: Seq<Page>, ids: Set<usize>) -> Seq<Diagnostic>
    decreases pages.len(),
{
    if pages.len() == 0 {
        Seq::empty()
    } else {
        story_warnings(pages.drop_last(), ids) + page_warnings(
            pages.last().id,
            pages.last().links@,
            ids,
        )
    }
}

/// Lists the page links that lead to no page of the story, in the order of
/// the pages and of their links. `index` is what `index_pages` gave for `pages`.
pub fn find_dangling(pages: &Vec<Page>, index: &HashMap<usize, usize>) -> (warnings: Vec<
    Diagnostic,
>)
    ensures
        warnings@ == story_warnings(pages@, index@.dom()),
{
    let mut warnings: Vec<Diagnostic> = Vec::new();
    let mut i: usize = 0;
    while i < pages.len()
        invariant
            i <= pages.len(),
            warnings@ == story_warnings(pages@.take(i as int), index@.dom()),
        decreases pages.len() - i,
    {
        let page = &pages[i];
        let ghost done = warnings@;
        let mut j: usize = 0;
        while j < page.links.len()
            invariant
                j <= page.links.len(),
                warnings@ == done + page_warnings(
                    page.id,
                    page.links@.take(j as int),
                    index@.dom(),
                ),
            decreases page.links.len() - j,
        {
            proof {
                assert(page.links@.take(j + 1).drop_last() =~= page.links@.take(j as int));
                assert(page.links@.take(j + 1).last() == page.links@[j as int]);
            }
            match &page.links[j] {
                Link::Page { page: to } => {
                    if !index.contains_key(&to.id) {
                        warnings.push(Diagnostic::DanglingLink { page: page.id, target: to.id });
                    }
                },
                _ => {},
            }
            assert(warnings@ =~= done + page_warnings(
                page.id,
                page.links@.take(j + 1),
                index@.dom(),
            ));
            j += 1;
        }
        proof {
            assert(page.links@.take(j as int) =~= page.links@);
            assert(pages@.take(i + 1).drop_last() =~= pages@.take(i as int));
            assert(pages@.take(i + 1).last() == pages@[i as int]);
        }
        i += 1;
    }
    assert(pages@.take(i as int) =~= pages@);
    warnings
}

} // verus!

verus! {

/// The actions of a page itself: none where the list is absent.
pub open spec fn actions_of(actions: Option<Vec<FlagAction>>) -> Seq<FlagAction> {
    match actions {
        Some(list) => list@,
        None => Seq::empty(),
    }
}

/// Whether one of the actions is on `flag`.
pub open spec fn actions_name(actions: Seq<FlagAction>, flag: char) -> bool {
    exists|k: int| 0 <= k < actions.len() && (#[trigger] actions[k]).flag == flag
}

/// Whether an action of one of the choices is on `flag`.
pub open spec fn choices_declare(choices: Seq<ActionLink>, flag: char) -> bool {
    exists|j: int| 0 <= j < choices.len() && actions_name((#[trigger] choices[j]).actions@, flag)
}

impl Link {
    /// Whether an action of the link, or of one of its choices, is on `flag`.
    pub open spec fn declares(&self, flag: char) -> bool {
        match *self {
            Link::Page { page } => false,
            Link::Action { action } => actions_name(action.actions@, flag),
            Link::Choice { choice } => choices_declare(choice.choices@, flag),
        }
    }
}

/// Whether an action on one of the links is on `flag`.
pub open spec fn links_declare(links: Seq<Link>, flag: char) -> bool {
    exists|i: int| 0 <= i < links.len() && (#[trigger] links[i]).declares(flag)
}

impl Page {
    /// Whether an action of the page, or on one of its links, is on `flag`.
    pub open spec fn declares(&self, flag: char) -> bool {
        actions_name(actions_of(self.actions), flag) || links_declare(self.links@, flag)
    }
}

/// Whether an action anywhere on the pages is on `flag`.
pub open spec fn story_declares(pages: Seq<Page>, flag: char) -> bool {
    exists|p: int| 0 <= p < pages.len() && (#[trigger] pages[p]).declares(flag)
}

/// The store `flags` with every flag for which `named` holds declared anew
/// with the value 0.
pub open spec fn declared_into(flags: Map<char, i32>, named: spec_fn(char) -> bool) -> Map<
    char,
    i32,
> {
    Map::new(
        |flag: char| flags.contains_key(flag) || named(flag),
        |flag: char|
            if named(flag) {
                0i32
            } else {
                flags[flag]
            },
    )
}

/// Declares the flag of each action of the list, with the value 0.
pub fn declare_actions(actions: &Vec<FlagAction>, flags: &mut Flags)
    ensures
        final(flags)@ == declared_into(old(flags)@, |flag: char| actions_name(actions@, flag)),
{
    let mut k: usize = 0;
    while k < actions.len()
        invariant
            k <= actions.len(),
            flags@ == declared_into(
                old(flags)@,
                |flag: char| actions_name(actions@.take(k as int), flag),
            ),
        decreases actions.len() - k,
    {
        let ghost before = flags@;
        flags.insert(actions[k].flag, 0);
        proof {
            let front = actions@.take(k as int);
            let now = actions@.take(k + 1);
            assert forall|flag: char| actions_name(now, flag) <==> (actions_name(front, flag)
                || flag == actions@[k as int].flag) by {
                if actions_name(front, flag) {
                    let w = choose|w: int| 0 <= w < front.len() && (#[trigger] front[w]).flag == flag;
                    assert(now[w].flag == flag);
                }
                if flag == actions@[k as int].flag {
                    assert(now[k as int].flag == flag);
                }
                if actions_name(now, flag) {
                    let w = choose|w: int| 0 <= w < now.len() && (#[trigger] now[w]).flag == flag;
                    if w < k {
                        assert(front[w].flag == flag);
                    }
                }
            }
            assert(flags@ =~= declared_into(
                old(flags)@,
                |flag: char| actions_name(now, flag),
            ));
        }
        k += 1;
    }
    assert(actions@.take(k as int) =~= actions@);
}

} // verus!

verus! {

proof fn lemma_choices_declare_step(choices: Seq<ActionLink>, k: int, flag: char)
    requires
        0 <= k < choices.len(),
    ensures
        choices_declare(choices.take(k + 1), flag) <==> (choices_declare(choices.take(k), flag)
            || actions_name(choices[k].actions@, flag)),
{
    let front = choices.take(k);
    let now = choices.take(k + 1);
    if choices_declare(front, flag) {
        let w = choose|w: int|
            0 <= w < front.len() && actions_name((#[trigger] front[w]).actions@, flag);
        assert(now[w] == front[w]);
    }
    if actions_name(choices[k].actions@, flag) {
        assert(now[k] == choices[k]);
    }
    if choices_declare(now, flag) {
        let w = choose|w: int| 0 <= w < now.len() && actions_name((#[trigger] now[w]).actions@, flag);
        if w < k {
            assert(front[w] == now[w]);
        }
    }
}

proof fn lemma_links_declare_step(links: Seq<Link>, k: int, flag: char)
    requires
        0 <= k < links.len(),
    ensures
        links_declare(links.take(k + 1), flag) <==> (links_declare(links.take(k), flag)
            || links[k].declares(flag)),
{
    let front = links.take(k);
    let now = links.take(k + 1);
    if links_declare(front, flag) {
        let w = choose|w: int| 0 <= w < front.len() && (#[trigger] front[w]).declares(flag);
        assert(now[w] == front[w]);
    }
    if links[k].declares(flag) {
        assert(now[k] == links[k]);
    }
    if links_declare(now, flag) {
        let w = choose|w: int| 0 <= w < now.len() && (#[trigger] now[w]).declares(flag);
        if w < k {
            assert(front[w] == now[w]);
        }
    }
}

proof fn lemma_story_declares_step(pages: Seq<Page>, k: int, flag: char)
    requires
        0 <= k < pages.len(),
    ensures
        story_declares(pages.take(k + 1), flag) <==> (story_declares(pages.take(k), flag)
            || pages[k].declares(flag)),
{
    let front = pages.take(k);
    let now = pages.take(k + 1);
    if story_declares(front, flag) {
        let w = choose|w: int| 0 <= w < front.len() && (#[trigger] front[w]).declares(flag);
        assert(now[w] == front[w]);
    }
    if pages[k].declares(flag) {
        assert(now[k] == pages[k]);
    }
    if story_declares(now, flag) {
        let w = choose|w: int| 0 <= w < now.len() && (#[trigger] now[w]).declares(flag);
        if w < k {
            assert(front[w] == now[w]);
        }
    }
}

impl Link {
    /// Declares the flag of each action of the link and of its choices, with
    /// the value 0.
    pub fn declare_flags(&self, flags: &mut Flags)
        ensures
            final(flags)@ == declared_into(old(flags)@, |flag: char| self.declares(flag)),
    {
        match self {
            Link::Page { page } => {
                assert(flags@ =~= declared_into(old(flags)@, |flag: char| self.declares(flag)));
            },
            Link::Action { action } => {
                declare_actions(&action.actions, flags);
                assert(flags@ =~= declared_into(old(flags)@, |flag: char| self.declares(flag)));
            },
            Link::Choice { choice } => {
                let mut j: usize = 0;
                while j < choice.choices.len()
                    invariant
                        j <= choice.choices.len(),
                        flags@ == declared_into(
                            old(flags)@,
                            |flag: char| choices_declare(choice.choices@.take(j as int), flag),
                        ),
                    decreases choice.choices.len() - j,
                {
                    let ghost before = flags@;
                    declare_actions(&choice.choices[j].actions, flags);
                    proof {
                        let front = choice.choices@.take(j as int);
                        let now = choice.choices@.take(j + 1);
                        let here = choice.choices@[j as int].actions@;
                        assert forall|flag: char| #[trigger]
                            choices_declare(now, flag) <==> (choices_declare(front, flag)
                                || actions_name(here, flag)) by {
                            lemma_choices_declare_step(choice.choices@, j as int, flag);
                        }
                        assert(flags@ =~= declared_into(
                            old(flags)@,
                            |flag: char| choices_declare(now, flag),
                        ));
                    }
                    j += 1;
                }
                assert(choice.choices@.take(j as int) =~= choice.choices@);
                assert(flags@ =~= declared_into(old(flags)@, |flag: char| self.declares(flag)));
            },
        }
    }
}

impl Page {
    /// Declares the flag of each action of the page and of its links, with the
    /// value 0.
    pub fn declare_flags(&self, flags: &mut Flags)
        ensures
            final(flags)@ == declared_into(old(flags)@, |flag: char| self.declares(flag)),
    {
        match &self.actions {
            Some(list) => {
                declare_actions(list, flags);
            },
            None => {},
        }
        assert(flags@ =~= declared_into(
            old(flags)@,
            |flag: char| actions_name(actions_of(self.actions), flag),
        ));
        let mut i: usize = 0;
        while i < self.links.len()
            invariant
                i <= self.links.len(),
                flags@ == declared_into(
                    old(flags)@,
                    |flag: char|
                        actions_name(actions_of(self.actions), flag) || links_declare(
                            self.links@.take(i as int),
                            flag,
                        ),
                ),
            decreases self.links.len() - i,
        {
            self.links[i].declare_flags(flags);
            proof {
                assert forall|flag: char|
                    links_declare(self.links@.take(i + 1), flag) <==> (links_declare(
                        self.links@.take(i as int),
                        flag,
                    ) || self.links@[i as int].declares(flag)) by {
                    lemma_links_declare_step(self.links@, i as int, flag);
                }
                assert(flags@ =~= declared_into(
                    old(flags)@,
                    |flag: char|
                        actions_name(actions_of(self.actions), flag) || links_declare(
                            self.links@.take(i + 1),
                            flag,
                        ),
                ));
            }
            i += 1;
        }
        assert(self.links@.take(i as int) =~= self.links@);
        assert(flags@ =~= declared_into(old(flags)@, |flag: char| self.declares(flag)));
    }
}

/// The flag store of a story at its start: the flags on which the story has
/// an action, page actions and the actions of links and choices alike, each
/// with the value 0.
pub open spec fn seeded(pages: Seq<Page>) -> Map<char, i32> {
    Map::new(|flag: char| story_declares(pages, flag), |flag: char| 0i32)
}

/// Makes the flag store of a story at its start.
pub fn declare_flags(pages: &Vec<Page>) -> (flags: Flags)
    ensures
        flags@ == seeded(pages@),
{
    let mut flags = Flags::new();
    let mut p: usize = 0;
    assert(flags@ =~= seeded(pages@.take(0)));
    while p < pages.len()
        invariant
            p <= pages.len(),
            flags@ == seeded(pages@.take(p as int)),
        decreases pages.len() - p,
    {
        pages[p].declare_flags(&mut flags);
        proof {
            assert forall|flag: char|
                story_declares(pages@.take(p + 1), flag) <==> (story_declares(
                    pages@.take(p as int),
                    flag,
                ) || pages@[p as int].declares(flag)) by {
                lemma_story_declares_step(pages@, p as int, flag);
            }
            assert(flags@ =~= seeded(pages@.take(p + 1)));
        }
        p += 1;
    }
    assert(pages@.take(p as int) =~= pages@);
    flags
}

} // verus!

//! The link resolver: which links of a page can be selected now.

use crate::counters::{
    count_after, lemma_limit_reached, limit_allows, next_count, used_count, within_limit,
};
use crate::error::StoryError;
use crate::flags::Flags;
use crate::story::{ActionLink, ChoiceLink, Cond, Link, Page, PageLink};
use vstd::prelude::*;

verus! {

/// Names one selectable entry of a page: a link of the page, or one choice of
/// a group among the page's links. Positions count from 0 in declaration order.
#[derive(Clone, Copy, Debug, PartialEq, Eq, Structural)]
pub enum LinkHandle {
    /// The page link or action link at position `index` of the page's links.
    Link { index: usize },
    /// The choice at position `choice` of the group at position `index`.
    Choice { index: usize, choice: usize },
}

impl LinkHandle {
    /// The position, among the page's links, of the link the handle names or
    /// of the group that holds it.
    pub open spec fn position(self) -> usize {
        match self {
            LinkHandle::Link { index } => index,
            LinkHandle::Choice { index, choice } => index,
        }
    }

    /// Whether `self` comes before `other` in declaration order.
    pub open spec fn before(self, other: LinkHandle) -> bool {
        match (self, other) {
            (
                LinkHandle::Choice { index: i, choice: a },
                LinkHandle::Choice { index: j, choice: b },
            ) => i < j || (i == j && a < b),
            _ => self.position() < other.position(),
        }
    }
}

/// The conditions of a link: none where the list is absent.
pub open spec fn conds_of(cond: Option<Vec<Cond>>) -> Seq<Cond> {
    match cond {
        Some(list) => list@,
        None => Seq::empty(),
    }
}

/// Whether every condition of the list names a declared flag.
pub open spec fn all_known(conds: Seq<Cond>, flags: Map<char, i32>) -> bool {
    forall|i: int| 0 <= i < conds.len() ==> (#[trigger] conds[i]).known(flags)
}

/// Whether every condition of the list holds; the empty list holds.
pub open spec fn all_hold(conds: Seq<Cond>, flags: Map<char, i32>) -> bool {
    forall|i: int| 0 <= i < conds.len() ==> (#[trigger] conds[i]).holds(flags)
}

impl PageLink {
    /// Whether the link can be selected: all its conditions hold. Whether the
    /// target page exists plays no part.
    pub open spec fn selectable(&self, flags: Map<char, i32>) -> bool {
        all_hold(conds_of(self.cond), flags)
    }
}

impl ActionLink {
    /// Whether the action can be selected: all its conditions hold and its own
    /// repeat limit is not used up.
    pub open spec fn selectable(&self, flags: Map<char, i32>) -> bool {
        all_hold(conds_of(self.cond), flags) && within_limit(self.repeats, self.used)
    }
}

impl ChoiceLink {
    /// Whether the group's own repeat limit is not used up.
    pub open spec fn eligible(&self) -> bool {
        within_limit(self.repeats, self.used)
    }

    /// Whether every condition of every choice names a declared flag.
    pub open spec fn flags_known(&self, flags: Map<char, i32>) -> bool {
        forall|j: int|
            0 <= j < self.choices@.len() ==> all_known(
                conds_of((#[trigger] self.choices@[j]).cond),
                flags,
            )
    }
}

impl Link {
    /// Whether every condition of the link, and of its choices if it is a
    /// group, names a declared flag.
    pub open spec fn flags_known(&self, flags: Map<char, i32>) -> bool {
        match *self {
            Link::Page { page } => all_known(conds_of(page.cond), flags),
            Link::Action { action } => all_known(conds_of(action.cond), flags),
            Link::Choice { choice } => choice.flags_known(flags),
        }
    }
}

/// The handles of the selectable choices among the first choices of a group
/// at position `index`, in declaration order.
pub open spec fn choice_handles(
    choices: Seq<ActionLink>,
    index: int,
    flags: Map<char, i32>,
) -> Seq<LinkHandle>
    decreases choices.len(),
{
    if choices.len() == 0 {
        Seq::empty()
    } else {
        let front = choice_handles(choices.drop_last(), index, flags);
        if choices.last().selectable(flags) {
            front.push(
                LinkHandle::Choice {
                    index: index as usize,
                    choice: (choices.len() - 1) as usize,
                },
            )
        } else {
            front
        }
    }
}

/// The handles that the link at position `index` contributes: itself if it
/// is a selectable page link or action link; its selectable choices if it is an
/// eligible group; none otherwise.
pub open spec fn link_handles(link: Link, index: int, flags: Map<char, i32>) -> Seq<LinkHandle> {
    match link {
        Link::Page { page } => if page.selectable(flags) {
            seq![LinkHandle::Link { index: index as usize }]
        } else {
            Seq::empty()
        },
        Link::Action { action } => if action.selectable(flags) {
            seq![LinkHandle::Link { index: index as usize }]
        } else {
            Seq::empty()
        },
        Link::Choice { choice } => if choice.eligible() {
            choice_handles(choice.choices@, index, flags)
        } else {
            Seq::empty()
        },
    }
}

/// The handles of everything selectable among `links`, in declaration order.
pub open spec fn handles(links: Seq<Link>, flags: Map<char, i32>) -> Seq<LinkHandle>
    decreases links.len(),
{
    if links.len() == 0 {
        Seq::empty()
    } else {
        handles(links.drop_last(), flags) + link_handles(links.last(), links.len() - 1, flags)
    }
}

/// Whether every condition on `links` names a declared flag.
pub open spec fn links_known(links: Seq<Link>, flags: Map<char, i32>) -> bool {
    forall|i: int| 0 <= i < links.len() ==> (#[trigger] links[i]).flags_known(flags)
}

/// Evaluates a list of conditions. Fails with `UnknownFlag` exactly when one
/// of them names a flag that is not declared, whatever the others give;
/// otherwise tells whether all of them hold.
pub fn check_conds(cond: &Option<Vec<Cond>>, flags: &Flags) -> (result: Result<bool, StoryError>)
    ensures
        result == if all_known(conds_of(*cond), flags@) {
            Ok::<bool, StoryError>(all_hold(conds_of(*cond), flags@))
        } else {
            Err::<bool, StoryError>(StoryError::UnknownFlag)
        },
{
    match cond {
        None => Ok(true),
        Some(list) => {
            let mut all: bool = true;
            let mut i: usize = 0;
            while i < list.len()
                invariant
                    i <= list.len(),
                    conds_of(*cond) == list@,
                    forall|j: int| 0 <= j < i ==> (#[trigger] list@[j]).known(flags@),
                    all == forall|j: int| 0 <= j < i ==> (#[trigger] list@[j]).holds(flags@),
                decreases list.len() - i,
            {
                match list[i].evaluate(flags) {
                    Ok(holds) => {
                        all = all && holds;
                    },
                    Err(error) => {
                        assert(!list@[i as int].known(flags@));
                        return Err(error);
                    },
                }
                i += 1;
            }
            Ok(all)
        },
    }
}

impl ActionLink {
    /// Tells whether the action can be selected. Fails with `UnknownFlag`
    /// exactly when one of its conditions names a flag that is not declared.
    pub fn is_selectable(&self, flags: &Flags) -> (result: Result<bool, StoryError>)
        ensures
            result == if all_known(conds_of(self.cond), flags@) {
                Ok::<bool, StoryError>(self.selectable(flags@))
            } else {
                Err::<bool, StoryError>(StoryError::UnknownFlag)
            },
    {
        match check_conds(&self.cond, flags) {
            Ok(hold) => Ok(hold && limit_allows(self.repeats, self.used)),
            Err(error) => Err(error),
        }
    }
}

impl ChoiceLink {
    /// The handles of the group's selectable choices, in declaration order,
    /// for a group at position `index`: none if the group's limit is used up.
    /// Fails with `UnknownFlag` exactly when a condition of one of the choices
    /// names a flag that is not declared.
    pub fn selectable_choices(&self, index: usize, flags: &Flags) -> (result: Result<
        Vec<LinkHandle>,
        StoryError,
    >)
        ensures
            match result {
                Ok(found) => self.flags_known(flags@) && found@ == link_handles(
                    Link::Choice { choice: *self },
                    index as int,
                    flags@,
                ),
                Err(error) => !self.flags_known(flags@) && error == StoryError::UnknownFlag,
            },
    {
        let eligible = limit_allows(self.repeats, self.used);
        let mut found: Vec<LinkHandle> = Vec::new();
        let mut j: usize = 0;
        while j < self.choices.len()
            invariant
                j <= self.choices.len(),
                eligible == self.eligible(),
                forall|k: int|
                    0 <= k < j ==> all_known(conds_of((#[trigger] self.choices@[k]).cond), flags@),
                found@ == if eligible {
                    choice_handles(self.choices@.take(j as int), index as int, flags@)
                } else {
                    Seq::<LinkHandle>::empty()
                },
            decreases self.choices.len() - j,
        {
            proof {
                assert(self.choices@.take(j + 1).drop_last() =~= self.choices@.take(j as int));
                assert(self.choices@.take(j + 1).last() == self.choices@[j as int]);
            }
            match self.choices[j].is_selectable(flags) {
                Ok(selectable) => {
                    if eligible && selectable {
                        found.push(LinkHandle::Choice { index, choice: j });
                    }
                },
                Err(error) => {
                    return Err(error);
                },
            }
            j += 1;
        }
        assert(self.choices@.take(j as int) =~= self.choices@);
        Ok(found)
    }
}

impl Page {
    /// The handles of everything that can be selected on the page, in the
    /// order in which the page declares its links. Fails with `UnknownFlag`
    /// exactly when a condition on the page names a flag that is not declared.
    pub fn selectable_links(&self, flags: &Flags) -> (result: Result<Vec<LinkHandle>, StoryError>)
        ensures
            match result {
                Ok(found) => links_known(self.links@, flags@) && found@ == handles(
                    self.links@,
                    flags@,
                ),
                Err(error) => !links_known(self.links@, flags@) && error
                    == StoryError::UnknownFlag,
            },
    {
        let mut found: Vec<LinkHandle> = Vec::new();
        let mut i: usize = 0;
        while i < self.links.len()
            invariant
                i <= self.links.len(),
                forall|k: int| 0 <= k < i ==> (#[trigger] self.links@[k]).flags_known(flags@),
                found@ == handles(self.links@.take(i as int), flags@),
            decreases self.links.len() - i,
        {
            proof {
                assert(self.links@.take(i + 1).drop_last() =~= self.links@.take(i as int));
                assert(self.links@.take(i + 1).last() == self.links@[i as int]);
            }
            match &self.links[i] {
                Link::Page { page } => {
                    match check_conds(&page.cond, flags) {
                        Ok(hold) => {
                            if hold {
                                found.push(LinkHandle::Link { index: i });
                            }
                        },
                        Err(error) => {
                            return Err(error);
                        },
                    }
                },
                Link::Action { action } => {
                    match action.is_selectable(flags) {
                        Ok(selectable) => {
                            if selectable {
                                found.push(LinkHandle::Link { index: i });
                            }
                        },
                        Err(error) => {
                            return Err(error);
                        },
                    }
                },
                Link::Choice { choice } => {
                    match choice.selectable_choices(i, flags) {
                        Ok(mut choices) => {
                            found.append(&mut choices);
                        },
                        Err(error) => {
                            return Err(error);
                        },
                    }
                },
            }
            i += 1;
        }
        assert(self.links@.take(i as int) =~= self.links@);
        Ok(found)
    }
}

} // verus!

verus! {

/// Whether `link` offers `handle` now, the handle's position left aside: a page
/// link or an action link offers a `Link` handle while it is selectable; a group
/// offers a `Choice` handle while the group is eligible and the choice exists
/// and is selectable.
pub open spec fn offered_by(link: Link, flags: Map<char, i32>, handle: LinkHandle) -> bool {
    match handle {
        LinkHandle::Link { index } => match link {
            Link::Page { page } => page.selectable(flags),
            Link::Action { action } => action.selectable(flags),
            Link::Choice { choice } => false,
        },
        LinkHandle::Choice { index, choice } => match link {
            Link::Choice { choice: group } => {
                &&& group.eligible()
                &&& choice < group.choices@.len()
                &&& group.choices@[choice as int].selectable(flags)
            },
            _ => false,
        },
    }
}

/// Whether `handle` names something selectable among `links`.
pub open spec fn offered(links: Seq<Link>, flags: Map<char, i32>, handle: LinkHandle) -> bool {
    &&& handle.position() < links.len()
    &&& offered_by(links[handle.position() as int], flags, handle)
}

proof fn lemma_choice_handles(
    choices: Seq<ActionLink>,
    index: int,
    flags: Map<char, i32>,
    handle: LinkHandle,
)
    requires
        choices.len() <= usize::MAX,
        0 <= index <= usize::MAX,
    ensures
        choice_handles(choices, index, flags).contains(handle) <==> (handle matches LinkHandle::Choice {
            index: i,
            choice: j,
        } && i == index && j < choices.len() && choices[j as int].selectable(flags)),
    decreases choices.len(),
{
    let found = choice_handles(choices, index, flags);
    if choices.len() > 0 {
        let front = choice_handles(choices.drop_last(), index, flags);
        lemma_choice_handles(choices.drop_last(), index, flags, handle);
        let last = LinkHandle::Choice { index: index as usize, choice: (choices.len() - 1) as usize };
        if choices.last().selectable(flags) {
            assert(found == front.push(last));
            if front.contains(handle) {
                let k = choose|k: int| 0 <= k < front.len() && front[k] == handle;
                assert(found[k] == handle);
            }
            if handle == last {
                assert(found[front.len() as int] == handle);
            }
            if found.contains(handle) {
                let k = choose|k: int| 0 <= k < found.len() && found[k] == handle;
                if k < front.len() {
                    assert(front[k] == handle);
                }
            }
        }
        match handle {
            LinkHandle::Choice { index: i, choice: j } => {
                if j < choices.len() - 1 {
                    assert(choices.drop_last()[j as int] == choices[j as int]);
                }
            },
            _ => {},
        }
    }
}

proof fn lemma_link_handles(link: Link, index: int, flags: Map<char, i32>, handle: LinkHandle)
    requires
        0 <= index <= usize::MAX,
    ensures
        link_handles(link, index, flags).contains(handle) <==> (handle.position() == index
            && offered_by(link, flags, handle)),
{
    let found = link_handles(link, index, flags);
    let single = LinkHandle::Link { index: index as usize };
    match link {
        Link::Page { page } => {
            if page.selectable(flags) {
                assert(found[0] == single);
            }
        },
        Link::Action { action } => {
            if action.selectable(flags) {
                assert(found[0] == single);
            }
        },
        Link::Choice { choice } => {
            assert(choice.choices.len() == choice.choices@.len());
            lemma_choice_handles(choice.choices@, index, flags, handle);
        },
    }
}

proof fn lemma_handles(links: Seq<Link>, flags: Map<char, i32>, handle: LinkHandle)
    requires
        links.len() <= usize::MAX,
    ensures
        handles(links, flags).contains(handle) <==> offered(links, flags, handle),
    decreases links.len(),
{
    if links.len() > 0 {
        let front = handles(links.drop_last(), flags);
        let back = link_handles(links.last(), links.len() - 1, flags);
        let found = handles(links, flags);
        assert(found == front + back);
        lemma_handles(links.drop_last(), flags, handle);
        lemma_link_handles(links.last(), links.len() - 1, flags, handle);
        if front.contains(handle) {
            let k = choose|k: int| 0 <= k < front.len() && front[k] == handle;
            assert(found[k] == handle);
        }
        if back.contains(handle) {
            let k = choose|k: int| 0 <= k < back.len() && back[k] == handle;
            assert(found[front.len() + k] == handle);
        }
        if found.contains(handle) {
            let k = choose|k: int| 0 <= k < found.len() && found[k] == handle;
            if k < front.len() {
                assert(front[k] == handle);
            } else {
                assert(back[k - front.len()] == handle);
            }
        }
        if handle.position() < links.len() - 1 {
            assert(links.drop_last()[handle.position() as int] == links[handle.position() as int]);
        }
    }
}

proof fn lemma_choice_handles_ordered(
    choices: Seq<ActionLink>,
    index: int,
    flags: Map<char, i32>,
    a: int,
    b: int,
)
    requires
        choices.len() <= usize::MAX,
        0 <= index <= usize::MAX,
        0 <= a < b < choice_handles(choices, index, flags).len(),
    ensures
        choice_handles(choices, index, flags)[a].before(choice_handles(choices, index, flags)[b]),
    decreases choices.len(),
{
    let found = choice_handles(choices, index, flags);
    if choices.len() > 0 {
        let front = choice_handles(choices.drop_last(), index, flags);
        if b < front.len() {
            lemma_choice_handles_ordered(choices.drop_last(), index, flags, a, b);
        } else {
            assert(front.contains(front[a]));
            lemma_choice_handles(choices.drop_last(), index, flags, front[a]);
        }
    }
}

proof fn lemma_handles_ordered(links: Seq<Link>, flags: Map<char, i32>, a: int, b: int)
    requires
        links.len() <= usize::MAX,
        0 <= a < b < handles(links, flags).len(),
    ensures
        handles(links, flags)[a].before(handles(links, flags)[b]),
    decreases links.len(),
{
    if links.len() > 0 {
        let index = links.len() - 1;
        let front = handles(links.drop_last(), flags);
        let back = link_handles(links.last(), index, flags);
        if b < front.len() {
            lemma_handles_ordered(links.drop_last(), flags, a, b);
        } else {
            assert(back.contains(back[b - front.len()]));
            lemma_link_handles(links.last(), index, flags, back[b - front.len()]);
            if a < front.len() {
                assert(front.contains(front[a]));
                lemma_handles(links.drop_last(), flags, front[a]);
            } else {
                assert(back.contains(back[a - front.len()]));
                lemma_link_handles(links.last(), index, flags, back[a - front.len()]);
                match links.last() {
                    Link::Choice { choice } => {
                        assert(choice.choices.len() == choice.choices@.len());
                        lemma_choice_handles_ordered(
                            choice.choices@,
                            index,
                            flags,
                            a - front.len(),
                            b - front.len(),
                        );
                    },
                    _ => {},
                }
            }
        }
    }
}

impl Page {
    /// Whether `handle` names something that can be selected on the page now.
    pub open spec fn offers(&self, flags: Map<char, i32>, handle: LinkHandle) -> bool {
        offered(self.links@, flags, handle)
    }

    /// The resolver returns a handle exactly when the page offers it: a page
    /// link while its conditions hold, an action link while its conditions hold
    /// and its limit allows, a choice while, besides, its group's limit allows.
    pub proof fn lemma_selectable_handles(&self, flags: Map<char, i32>, handle: LinkHandle)
        ensures
            handles(self.links@, flags).contains(handle) <==> self.offers(flags, handle),
    {
        assert(self.links.len() == self.links@.len());
        lemma_handles(self.links@, flags, handle);
    }

    /// The resolver keeps declaration order: of two handles it returns, the
    /// earlier one names the earlier link, or the earlier choice of one group.
    /// So it returns no handle twice.
    pub proof fn lemma_declaration_order(&self, flags: Map<char, i32>, a: int, b: int)
        requires
            0 <= a < b < handles(self.links@, flags).len(),
        ensures
            handles(self.links@, flags)[a].before(handles(self.links@, flags)[b]),
            handles(self.links@, flags)[a] != handles(self.links@, flags)[b],
    {
        assert(self.links.len() == self.links@.len());
        lemma_handles_ordered(self.links@, flags, a, b);
    }

    /// A page link whose conditions hold is returned by the resolver whether
    /// or not any page has the id it leads to.
    pub proof fn lemma_dangling_link_selectable(&self, flags: Map<char, i32>, index: usize)
        requires
            index < self.links@.len(),
            self.links@[index as int] matches Link::Page { page } && all_hold(
                conds_of(page.cond),
                flags,
            ),
        ensures
            handles(self.links@, flags).contains(LinkHandle::Link { index }),
    {
        self.lemma_selectable_handles(flags, LinkHandle::Link { index });
    }
}

/// An action with a limit of `limit` selections, not selected yet, can be
/// selected after fewer than `limit` selections while its conditions hold, and
/// no more after `limit` selections.
pub proof fn lemma_action_repeat_limit(
    link: ActionLink,
    limit: usize,
    times: nat,
    flags: Map<char, i32>,
)
    requires
        link.repeats == Some(limit),
        used_count(link.used) == 0,
    ensures
        link.selected_times(times).selectable(flags) <==> (times < limit && all_hold(
            conds_of(link.cond),
            flags,
        )),
        link.selected_times(times + 1) == link.selected_times(times).selected(),
{
    lemma_limit_reached(link.used, limit, times);
    assert(count_after(link.used, times + 1) == Some(
        next_count(count_after(link.used, times)),
    ));
}

} // verus!

verus! {

/// An action link with a limit of `limit` selections, which stood on the page
/// unselected and has been selected `times` times since, is among the handles
/// of the page while `times` is below `limit` and its conditions hold, and is
/// missing from them from the `limit`-th selection on.
pub proof fn lemma_repeat_limit_on_page(
    page: Page,
    index: usize,
    link: ActionLink,
    limit: usize,
    times: nat,
    flags: Map<char, i32>,
)
    requires
        link.repeats == Some(limit),
        used_count(link.used) == 0,
        index < page.links@.len(),
        page.links@[index as int] == (Link::Action { action: link.selected_times(times) }),
    ensures
        handles(page.links@, flags).contains(LinkHandle::Link { index }) <==> (times < limit
            && all_hold(conds_of(link.cond), flags)),
{
    lemma_action_repeat_limit(link, limit, times, flags);
    page.lemma_selectable_handles(flags, LinkHandle::Link { index });
}

/// A group whose own limit is used up offers none of its choices, whatever
/// the limits of the choices themselves.
pub proof fn lemma_exhausted_group(
    page: Page,
    index: usize,
    group: ChoiceLink,
    choice: usize,
    flags: Map<char, i32>,
)
    requires
        index < page.links@.len(),
        page.links@[index as int] == (Link::Choice { choice: group }),
        !group.eligible(),
    ensures
        !handles(page.links@, flags).contains(LinkHandle::Choice { index, choice }),
{
    page.lemma_selectable_handles(flags, LinkHandle::Choice { index, choice });
}

} // verus!

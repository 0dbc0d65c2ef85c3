//! Repeat limits and the counters that are held against them.

use crate::story::{ActionLink, ChoiceLink, Link, Page};
use vstd::prelude::*;

verus! {

/// How many selections a counter records: none where it is absent.
pub open spec fn used_count(used: Option<usize>) -> usize {
    match used {
        Some(count) => count,
        None => 0,
    }
}

/// Whether a repeat limit allows one more selection.
pub open spec fn within_limit(repeats: Option<usize>, used: Option<usize>) -> bool {
    match repeats {
        Some(limit) => used_count(used) < limit,
        None => true,
    }
}

/// The counter after one more selection. A counter that has reached
/// `usize::MAX` stays there: only a link without a limit can get that far, and
/// its counter decides nothing.
pub open spec fn next_count(used: Option<usize>) -> usize {
    if used_count(used) < usize::MAX {
        (used_count(used) + 1) as usize
    } else {
        usize::MAX
    }
}

/// The counter after `times` more selections.
pub open spec fn count_after(used: Option<usize>, times: nat) -> Option<usize>
    decreases times,
{
    if times == 0 {
        used
    } else {
        Some(next_count(count_after(used, (times - 1) as nat)))
    }
}

/// Whether a repeat limit allows one more selection.
pub fn limit_allows(repeats: Option<usize>, used: Option<usize>) -> (allowed: bool)
    ensures
        allowed == within_limit(repeats, used),
{
    match repeats {
        Some(limit) => {
            let count: usize = match used {
                Some(count) => count,
                None => 0,
            };
            count < limit
        },
        None => true,
    }
}

/// The counter after one more selection.
pub fn count_up(used: Option<usize>) -> (next: Option<usize>)
    ensures
        next == Some(next_count(used)),
{
    let count: usize = match used {
        Some(count) => count,
        None => 0,
    };
    if count < usize::MAX {
        Some(count + 1)
    } else {
        Some(count)
    }
}

impl ActionLink {
    /// The action after it has been selected once more: its counter is one
    /// higher, the rest is as before.
    pub open spec fn selected(self) -> ActionLink {
        ActionLink { used: Some(next_count(self.used)), ..self }
    }

    /// The action after `times` more selections.
    pub open spec fn selected_times(self, times: nat) -> ActionLink {
        ActionLink { used: count_after(self.used, times), ..self }
    }

    /// Counts one selection of the action.
    pub fn record_selection(&mut self)
        ensures
            *final(self) == old(self).selected(),
    {
        self.used = count_up(self.used);
    }
}

impl ChoiceLink {
    /// Whether `after` is this group after its choice at position `choice`
    /// has been selected once more: the group's counter and that choice's
    /// counter are each one higher, the rest is as before.
    pub open spec fn selected_into(self, choice: int, after: ChoiceLink) -> bool {
        &&& after.caption == self.caption
        &&& after.repeats == self.repeats
        &&& after.used == Some(next_count(self.used))
        &&& after.choices@ == self.choices@.update(choice, self.choices@[choice].selected())
    }

    /// Counts one selection of the choice at position `choice`, for the choice
    /// and for the group.
    pub fn record_selection(&mut self, choice: usize)
        requires
            choice < old(self).choices@.len(),
        ensures
            old(self).selected_into(choice as int, *final(self)),
    {
        self.used = count_up(self.used);
        self.choices[choice].record_selection();
    }
}

/// The counter of a link that has not been selected yet shows, after `times`
/// selections, that number, as far as a `usize` can.
pub proof fn lemma_count_after(used: Option<usize>, times: nat)
    requires
        used_count(used) == 0,
    ensures
        used_count(count_after(used, times)) == if times <= usize::MAX {
            times
        } else {
            usize::MAX as nat
        },
    decreases times,
{
    if times > 0 {
        lemma_count_after(used, (times - 1) as nat);
    }
}

/// A limit of `limit` selections, on a link or a group that has not been
/// selected yet, allows one more selection after fewer than `limit` selections,
/// and none after `limit` of them or more.
pub proof fn lemma_limit_reached(used: Option<usize>, limit: usize, times: nat)
    requires
        used_count(used) == 0,
    ensures
        within_limit(Some(limit), count_after(used, times)) <==> times < limit,
{
    lemma_count_after(used, times);
}

/// Without a limit, one more selection is allowed whatever the counter shows.
pub proof fn lemma_no_limit(used: Option<usize>, times: nat)
    ensures
        within_limit(None, count_after(used, times)),
{
}

} // verus!

verus! {

impl ActionLink {
    /// The action as it is before any selection: its counter is 0, the rest
    /// is as in `self`.
    pub open spec fn fresh(self) -> ActionLink {
        ActionLink { used: Some(0usize), ..self }
    }

    /// Sets the action's counter to 0.
    pub fn reset(&mut self)
        ensures
            *final(self) == old(self).fresh(),
    {
        self.used = Some(0);
    }
}

impl ChoiceLink {
    /// Whether `after` is this group as it is before any selection: the
    /// counters of the group and of each choice are 0, the rest is as in `self`.
    pub open spec fn reset_into(self, after: ChoiceLink) -> bool {
        &&& after.caption == self.caption
        &&& after.repeats == self.repeats
        &&& after.used == Some(0usize)
        &&& after.choices@ == self.choices@.map_values(|choice: ActionLink| choice.fresh())
    }

    /// Sets the counters of the group and of each choice to 0.
    pub fn reset(&mut self)
        ensures
            old(self).reset_into(*final(self)),
    {
        self.used = Some(0);
        let mut j: usize = 0;
        while j < self.choices.len()
            invariant
                j <= self.choices.len(),
                self.caption == old(self).caption,
                self.repeats == old(self).repeats,
                self.used == Some(0usize),
                self.choices@.len() == old(self).choices@.len(),
                forall|k: int| 0 <= k < j ==> self.choices@[k] == old(self).choices@[k].fresh(),
                forall|k: int|
                    j <= k < self.choices@.len() ==> self.choices@[k] == old(self).choices@[k],
            decreases self.choices.len() - j,
        {
            self.choices[j].reset();
            j += 1;
        }
        assert(self.choices@ =~= old(self).choices@.map_values(
            |choice: ActionLink| choice.fresh(),
        ));
    }
}

impl Link {
    /// Whether `after` is this link as it is before any selection: every
    /// counter in it is 0, the rest is as in `self`.
    pub open spec fn reset_into(self, after: Link) -> bool {
        match self {
            Link::Page { page } => after == self,
            Link::Action { action } => after == Link::Action { action: action.fresh() },
            Link::Choice { choice } => after matches Link::Choice { choice: group }
                && choice.reset_into(group),
        }
    }

    /// Sets every counter in the link to 0.
    pub fn reset(&mut self)
        ensures
            old(self).reset_into(*final(self)),
    {
        match self {
            Link::Page { page } => {},
            Link::Action { action } => {
                action.reset();
            },
            Link::Choice { choice } => {
                choice.reset();
            },
        }
    }
}

impl Page {
    /// Whether `after` is this page as it is before any selection: every
    /// counter on it is 0, the rest is as in `self`.
    pub open spec fn reset_into(self, after: Page) -> bool {
        &&& after.id == self.id
        &&& after.content == self.content
        &&& after.actions == self.actions
        &&& after.links@.len() == self.links@.len()
        &&& forall|i: int|
            0 <= i < self.links@.len() ==> (#[trigger] self.links@[i]).reset_into(after.links@[i])
    }

    /// Sets every counter on the page to 0.
    pub fn reset(&mut self)
        ensures
            old(self).reset_into(*final(self)),
    {
        let mut i: usize = 0;
        while i < self.links.len()
            invariant
                i <= self.links.len(),
                self.id == old(self).id,
                self.content == old(self).content,
                self.actions == old(self).actions,
                self.links@.len() == old(self).links@.len(),
                forall|k: int|
                    0 <= k < i ==> (#[trigger] old(self).links@[k]).reset_into(self.links@[k]),
                forall|k: int| i <= k < self.links@.len() ==> self.links@[k] == old(self).links@[k],
            decreases self.links.len() - i,
        {
            self.links[i].reset();
            i += 1;
        }
    }
}

/// Sets every counter on every page to 0.
pub fn reset_counters(pages: &mut Vec<Page>)
    ensures
        final(pages)@.len() == old(pages)@.len(),
        forall|p: int|
            0 <= p < old(pages)@.len() ==> (#[trigger] old(pages)@[p]).reset_into(final(pages)@[p]),
{
    let mut p: usize = 0;
    while p < pages.len()
        invariant
            p <= pages.len(),
            pages@.len() == old(pages)@.len(),
            forall|k: int| 0 <= k < p ==> (#[trigger] old(pages)@[k]).reset_into(pages@[k]),
            forall|k: int| p <= k < pages@.len() ==> pages@[k] == old(pages)@[k],
        decreases pages.len() - p,
    {
        pages[p].reset();
        p += 1;
    }
}

} // verus!

//! The data of a story: pages, links, actions on flags and conditions on flags.

use crate::error::StoryError;
use crate::flags::Flags;
use vstd::prelude::*;

verus! {

/// What an action does to its flag.
#[derive(Clone, Copy, Debug)]
pub enum FlagEffect {
    /// Adds the modifier to the flag's value.
    Add,
    /// Replaces the flag's value by the modifier.
    Assign,
}

/// A change to one flag.
#[derive(Clone, Copy, Debug)]
pub struct FlagAction {
    pub flag: char,
    pub effect: FlagEffect,
    pub modifier: i32,
}

/// The comparisons a condition can make.
#[derive(Clone, Copy, Debug)]
pub enum CondCmp {
    Less,
    Equal,
    Greater,
    AtLeast,
    AtMost,
}

/// A condition to follow a link: the flag's value, compared with `num`.
#[derive(Clone, Copy, Debug)]
pub struct Cond {
    pub flag: char,
    pub cmp: CondCmp,
    pub num: i32,
}

/// A link to the page with id `id`, offered while all of `cond` hold.
#[derive(Debug)]
pub struct PageLink {
    pub id: usize,
    pub text: String,
    pub cond: Option<Vec<Cond>>,
}

/// A link that changes flags and stays on the page.
#[derive(Debug)]
pub struct ActionLink {
    pub text: String,
    pub actions: Vec<FlagAction>,
    /// The conditions required to select this action.
    pub cond: Option<Vec<Cond>>,
    /// How many times the action can be selected; `None` is without limit.
    pub repeats: Option<usize>,
    /// How many times the action has been selected; `None` is not yet.
    pub used: Option<usize>,
}

/// A group of actions with a repeat limit of its own.
#[derive(Debug)]
pub struct ChoiceLink {
    pub caption: Option<String>,
    pub choices: Vec<ActionLink>,
    /// How many times a choice of the group can be selected, whatever the
    /// limits of the single choices; `None` is without limit.
    pub repeats: Option<usize>,
    /// How many times a choice of the group has been selected; `None` is not yet.
    pub used: Option<usize>,
}

/// A link of a page.
#[derive(Debug)]
pub enum Link {
    /// A link to another page.
    Page { page: PageLink },
    /// A link that sets or changes flags.
    Action { action: ActionLink },
    /// A group of actions.
    Choice { choice: ChoiceLink },
}

/// One page: its id, its text, the actions that belong to the page itself and
/// the links that lead on from it.
#[derive(Debug)]
pub struct Page {
    pub id: usize,
    pub content: String,
    pub actions: Option<Vec<FlagAction>>,
    pub links: Vec<Link>,
}

impl CondCmp {
    /// Whether `value`, compared with `num`, passes.
    pub open spec fn holds(self, value: i32, num: i32) -> bool {
        match self {
            CondCmp::Less => value < num,
            CondCmp::Equal => value == num,
            CondCmp::Greater => value > num,
            CondCmp::AtLeast => value >= num,
            CondCmp::AtMost => value <= num,
        }
    }
}

impl Cond {
    /// Whether the condition's flag is declared in `flags`.
    pub open spec fn known(&self, flags: Map<char, i32>) -> bool {
        flags.contains_key(self.flag)
    }

    /// Whether the condition is true of `flags`; meaningful where its flag is declared.
    pub open spec fn holds(&self, flags: Map<char, i32>) -> bool {
        self.cmp.holds(flags[self.flag], self.num)
    }

    /// Evaluates the condition. Fails with `UnknownFlag` exactly when its flag
    /// is not declared; a missing flag is never taken for a false condition.
    pub fn evaluate(&self, flags: &Flags) -> (result: Result<bool, StoryError>)
        ensures
            result == if self.known(flags@) {
                Ok::<bool, StoryError>(self.holds(flags@))
            } else {
                Err::<bool, StoryError>(StoryError::UnknownFlag)
            },
    {
        match flags.get(self.flag) {
            Some(val) => Ok(
                match self.cmp {
                    CondCmp::Less => val < self.num,
                    CondCmp::Equal => val == self.num,
                    CondCmp::Greater => val > self.num,
                    CondCmp::AtLeast => val >= self.num,
                    CondCmp::AtMost => val <= self.num,
                },
            ),
            None => Err(StoryError::UnknownFlag),
        }
    }

    /// Returns an error if the flag does not exist.
    /// Returns `Ok(true)` if the condition evaluates to true and `Ok(false)` otherwise.
    pub fn valid(&self, flags: &Flags) -> (result: Result<bool, &'static str>)
        ensures
            self.known(flags@) ==> result == Ok::<bool, &'static str>(self.holds(flags@)),
            !self.known(flags@) ==> (result matches Err(text) && text@ == "Invalid flag"@),
    {
        match self.evaluate(flags) {
            Ok(holds) => Ok(holds),
            Err(error) => Err(error.message()),
        }
    }
}

} // verus!

verus! {

/// What each comparison means, for a condition on a declared flag: `Equal`
/// holds exactly when the flag's value is the operand, and so on for the other
/// four.
pub proof fn lemma_comparisons(cond: Cond, flags: Map<char, i32>)
    requires
        cond.known(flags),
    ensures
        (cond.cmp is Equal) ==> (cond.holds(flags) <==> flags[cond.flag] == cond.num),
        (cond.cmp is Less) ==> (cond.holds(flags) <==> flags[cond.flag] < cond.num),
        (cond.cmp is Greater) ==> (cond.holds(flags) <==> flags[cond.flag] > cond.num),
        (cond.cmp is AtLeast) ==> (cond.holds(flags) <==> flags[cond.flag] >= cond.num),
        (cond.cmp is AtMost) ==> (cond.holds(flags) <==> flags[cond.flag] <= cond.num),
{
}

/// `AtLeast` is the opposite of `Less`, and `AtMost` of `Greater`; `Equal` is
/// `AtLeast` and `AtMost` together.
pub proof fn lemma_opposites(value: i32, num: i32)
    ensures
        CondCmp::AtLeast.holds(value, num) <==> !CondCmp::Less.holds(value, num),
        CondCmp::AtMost.holds(value, num) <==> !CondCmp::Greater.holds(value, num),
        CondCmp::Equal.holds(value, num) <==> (CondCmp::AtLeast.holds(value, num)
            && CondCmp::AtMost.holds(value, num)),
{
}

/// The comparisons are monotone in the flag's value: `Less` and `AtMost`, once
/// true of a value, are true of every smaller one; `Greater` and `AtLeast`, once
/// true of a value, are true of every greater one; `Equal` is true of one
/// value only.
pub proof fn lemma_monotone(kind: CondCmp, low: i32, high: i32, num: i32)
    requires
        low <= high,
    ensures
        ((kind is Less) || (kind is AtMost)) && kind.holds(high, num) ==> kind.holds(low, num),
        ((kind is Greater) || (kind is AtLeast)) && kind.holds(low, num) ==> kind.holds(
            high,
            num,
        ),
        (kind is Equal) && kind.holds(low, num) && kind.holds(high, num) ==> low == high,
{
}

} // verus!

//! Applying actions to the flag store.

use crate::error::StoryError;
use crate::flags::Flags;
use crate::story::{FlagAction, FlagEffect};
use vstd::prelude::*;

verus! {

impl FlagAction {
    /// The value the action gives its flag, when the flag holds `value` before.
    pub open spec fn outcome(&self, value: i32) -> int {
        match self.effect {
            FlagEffect::Add => value + self.modifier,
            FlagEffect::Assign => self.modifier as int,
        }
    }

    /// Whether the action's flag is declared in `flags`.
    pub open spec fn declared(&self, flags: Map<char, i32>) -> bool {
        flags.contains_key(self.flag)
    }

    /// Whether the action can be applied to `flags`: its flag is declared and
    /// the new value fits in an `i32`.
    pub open spec fn applicable(&self, flags: Map<char, i32>) -> bool {
        &&& self.declared(flags)
        &&& i32::MIN <= self.outcome(flags[self.flag]) <= i32::MAX
    }

    /// The store after the action: the action's flag has its new value, every
    /// other flag is as before.
    pub open spec fn applied(&self, flags: Map<char, i32>) -> Map<char, i32> {
        flags.insert(self.flag, self.outcome(flags[self.flag]) as i32)
    }

    /// Applies the action to the store.
    pub fn apply(&self, flags: &mut Flags)
        requires
            self.applicable(old(flags)@),
        ensures
            final(flags)@ == self.applied(old(flags)@),
    {
        let value = flags.get(self.flag).unwrap();
        let next: i32 = match self.effect {
            FlagEffect::Add => value + self.modifier,
            FlagEffect::Assign => self.modifier,
        };
        flags.insert(self.flag, next);
    }
}

/// Whether every action of the list names a declared flag.
pub open spec fn all_declared(actions: Seq<FlagAction>, flags: Map<char, i32>) -> bool {
    forall|i: int| 0 <= i < actions.len() ==> (#[trigger] actions[i]).declared(flags)
}

/// The store after the actions of the list, applied in order: each action
/// sees what the earlier ones did.
pub open spec fn run(actions: Seq<FlagAction>, flags: Map<char, i32>) -> Map<char, i32>
    decreases actions.len(),
{
    if actions.len() == 0 {
        flags
    } else {
        actions.last().applied(run(actions.drop_last(), flags))
    }
}

/// Whether the whole list can be applied in order: each action is applicable
/// to the store that the earlier ones leave.
pub open spec fn runnable(actions: Seq<FlagAction>, flags: Map<char, i32>) -> bool
    decreases actions.len(),
{
    actions.len() == 0 || (runnable(actions.drop_last(), flags) && actions.last().applicable(
        run(actions.drop_last(), flags),
    ))
}

/// What applying a list of actions comes to: the error, or nothing.
pub open spec fn run_check(actions: Seq<FlagAction>, flags: Map<char, i32>) -> Result<
    (),
    StoryError,
> {
    if !all_declared(actions, flags) {
        Err(StoryError::UnknownFlag)
    } else if !runnable(actions, flags) {
        Err(StoryError::FlagOverflow)
    } else {
        Ok(())
    }
}

/// Applying actions declares no flag and removes none.
pub proof fn lemma_run_keeps_flags(actions: Seq<FlagAction>, flags: Map<char, i32>)
    requires
        all_declared(actions, flags),
    ensures
        run(actions, flags).dom() == flags.dom(),
    decreases actions.len(),
{
    if actions.len() > 0 {
        let front = actions.drop_last();
        assert forall|i: int| 0 <= i < front.len() implies (#[trigger] front[i]).declared(
            flags,
        ) by {
            assert(front[i] == actions[i]);
        }
        lemma_run_keeps_flags(front, flags);
        assert(actions.last() == actions[actions.len() - 1]);
        assert(run(actions, flags).dom() =~= flags.dom());
    }
}

/// A list that can be applied can be applied up to any point, and the action
/// at that point is applicable to what the ones before it leave.
pub proof fn lemma_runnable_prefix(actions: Seq<FlagAction>, flags: Map<char, i32>, k: int)
    requires
        runnable(actions, flags),
        0 <= k < actions.len(),
    ensures
        runnable(actions.take(k), flags),
        actions[k].applicable(run(actions.take(k), flags)),
    decreases actions.len(),
{
    let front = actions.drop_last();
    if k == actions.len() - 1 {
        assert(actions.take(k) =~= front);
    } else {
        lemma_runnable_prefix(front, flags, k);
        assert(front.take(k) =~= actions.take(k));
    }
}

/// A list that can be applied names declared flags only.
pub proof fn lemma_runnable_declared(actions: Seq<FlagAction>, flags: Map<char, i32>)
    requires
        runnable(actions, flags),
    ensures
        all_declared(actions, flags),
    decreases actions.len(),
{
    if actions.len() > 0 {
        let front = actions.drop_last();
        lemma_runnable_declared(front, flags);
        lemma_run_keeps_flags(front, flags);
        assert forall|i: int| 0 <= i < actions.len() implies (#[trigger] actions[i]).declared(
            flags,
        ) by {
            if i < front.len() {
                assert(front[i] == actions[i]);
            } else {
                assert(actions[i] == actions.last());
                assert(run(front, flags).dom().contains(actions[i].flag));
            }
        }
    }
}

/// Applies the actions in order, or none of them. Fails with `UnknownFlag`
/// if an action names a flag that is not declared, and with `FlagOverflow` if an
/// `Add` would leave the range of `i32`; the store is then as it was.
pub fn apply_all(actions: &Vec<FlagAction>, flags: &mut Flags) -> (result: Result<
    (),
    StoryError,
>)
    ensures
        result == run_check(actions@, old(flags)@),
        result is Ok ==> final(flags)@ == run(actions@, old(flags)@),
        result is Err ==> final(flags)@ == old(flags)@,
{
    let count = actions.len();
    let mut i: usize = 0;
    while i < count
        invariant
            count == actions.len(),
            i <= count,
            *flags == *old(flags),
            forall|j: int| 0 <= j < i ==> (#[trigger] actions@[j]).declared(flags@),
        decreases count - i,
    {
        if !flags.contains(actions[i].flag) {
            return Err(StoryError::UnknownFlag);
        }
        i += 1;
    }
    let mut scratch = flags.snapshot();
    let mut k: usize = 0;
    while k < count
        invariant
            count == actions.len(),
            k <= count,
            *flags == *old(flags),
            all_declared(actions@, flags@),
            runnable(actions@.take(k as int), flags@),
            scratch@ == run(actions@.take(k as int), flags@),
        decreases count - k,
    {
        let action = &actions[k];
        proof {
            let front = actions@.take(k as int);
            assert forall|j: int| 0 <= j < front.len() implies (#[trigger] front[j]).declared(
                flags@,
            ) by {
                assert(front[j] == actions@[j]);
            }
            lemma_run_keeps_flags(front, flags@);
            assert(scratch@.dom().contains(action.flag));
            assert(actions@.take(k + 1).drop_last() =~= front);
            assert(actions@.take(k + 1).last() == *action);
        }
        let value = scratch.get(action.flag).unwrap();
        let next: i32 = match action.effect {
            FlagEffect::Add => match value.checked_add(action.modifier) {
                Some(sum) => sum,
                None => {
                    proof {
                        if runnable(actions@, flags@) {
                            lemma_runnable_prefix(actions@, flags@, k as int);
                        }
                    }
                    return Err(StoryError::FlagOverflow);
                },
            },
            FlagEffect::Assign => action.modifier,
        };
        scratch.insert(action.flag, next);
        k += 1;
    }
    assert(actions@.take(count as int) =~= actions@);
    *flags = scratch;
    Ok(())
}

} // verus!

verus! {

/// `Assign` gives the flag the modifier whatever it held, so applying it a
/// second time changes nothing.
pub proof fn lemma_assign_idempotent(flags: Map<char, i32>, flag: char, modifier: i32)
    requires
        flags.contains_key(flag),
    ensures
        ({
            let assign = FlagAction { flag, effect: FlagEffect::Assign, modifier };
            &&& assign.applicable(flags)
            &&& assign.applied(flags) == flags.insert(flag, modifier)
            &&& assign.applicable(assign.applied(flags))
            &&& assign.applied(assign.applied(flags)) == assign.applied(flags)
        }),
{
    let assign = FlagAction { flag, effect: FlagEffect::Assign, modifier };
    assert(assign.applied(assign.applied(flags)) =~= assign.applied(flags));
}

/// `Add` gives the flag its old value plus the modifier, where that fits in an
/// `i32`; applied twice it adds the modifier twice, so unlike `Assign` it is
/// idempotent only for the modifier 0.
pub proof fn lemma_add_accumulates(flags: Map<char, i32>, flag: char, modifier: i32)
    requires
        flags.contains_key(flag),
        i32::MIN <= flags[flag] + modifier <= i32::MAX,
    ensures
        ({
            let add = FlagAction { flag, effect: FlagEffect::Add, modifier };
            let once = add.applied(flags);
            &&& add.applicable(flags)
            &&& once == flags.insert(flag, (flags[flag] + modifier) as i32)
            &&& add.applicable(once) <==> i32::MIN <= flags[flag] + 2 * modifier <= i32::MAX
            &&& add.applicable(once) ==> add.applied(once)[flag] == flags[flag] + 2 * modifier
            &&& add.applicable(once) ==> (add.applied(once) == once <==> modifier == 0)
        }),
{
    let add = FlagAction { flag, effect: FlagEffect::Add, modifier };
    let once = add.applied(flags);
    if add.applicable(once) {
        let twice = add.applied(once);
        if modifier == 0 {
            assert(twice =~= once);
        } else {
            assert(twice[flag] != once[flag]);
        }
    }
}

} // verus!

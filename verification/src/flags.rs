//! The flag store: the numeric state of a story.

use std::collections::HashMap;
use vstd::prelude::*;

verus! {

broadcast use vstd::std_specs::hash::group_hash_axioms;

/// The values of all declared flags. A flag is named by one character.
#[derive(Debug)]
pub struct Flags {
    map: HashMap<u32, i32>,
}

impl View for Flags {
    type V = Map<char, i32>;

    closed spec fn view(&self) -> Map<char, i32> {
        // The bound holds of every `char`. It is written out because the
        // solver does not assume it of a character that a quantifier binds.
        Map::new(
            |c: char| 0 <= c as int <= u32::MAX && self.map@.contains_key(c as u32),
            |c: char| self.map@[c as u32],
        )
    }
}

impl Flags {
    /// A store in which no flag is declared.
    pub fn new() -> (flags: Flags)
        ensures
            flags@ == Map::<char, i32>::empty(),
    {
        let flags = Flags { map: HashMap::new() };
        assert(flags@ =~= Map::<char, i32>::empty());
        flags
    }

    /// The value of `flag`, if it is declared.
    pub fn get(&self, flag: char) -> (value: Option<i32>)
        ensures
            value == if self@.contains_key(flag) {
                Some(self@[flag])
            } else {
                None::<i32>
            },
    {
        let key: u32 = flag as u32;
        match self.map.get(&key) {
            Some(v) => Some(*v),
            None => None,
        }
    }

    /// Whether `flag` is declared.
    pub fn contains(&self, flag: char) -> (known: bool)
        ensures
            known == self@.contains_key(flag),
    {
        let key: u32 = flag as u32;
        self.map.contains_key(&key)
    }

    /// Declares `flag` if needed and gives it `value`.
    pub fn insert(&mut self, flag: char, value: i32)
        ensures
            final(self)@ == old(self)@.insert(flag, value),
    {
        let key: u32 = flag as u32;
        self.map.insert(key, value);
        assert(self@ =~= old(self)@.insert(flag, value));
    }

    /// A copy of the store.
    pub fn snapshot(&self) -> (copy: Flags)
        ensures
            copy@ == self@,
    {
        let copy = Flags { map: self.map.clone() };
        assert(copy@ =~= self@);
        copy
    }
}

} // verus!

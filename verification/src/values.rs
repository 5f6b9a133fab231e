//! The per-frame action-value mapping: action name -> aggregated value.
//!
//! An action exists implicitly as any key of this mapping; an action with no
//! bound inputs never appears, and absence reads as the value zero. Values
//! are fixed-point integers on the scale of [`crate::FULL_VALUE`].

use vstd::prelude::*;

use crate::assoc::assoc_get;
use crate::assoc::assoc_has;
use crate::assoc::assoc_index;
use crate::assoc::assoc_set;
use crate::assoc::assoc_wf;
use crate::assoc::lemma_assoc_index_unique;
use crate::assoc::lemma_assoc_set_wf;

verus! {

/// The value an action name reads as: its stored value when present, zero
/// when absent.
pub open spec fn value_of(s: Seq<(Seq<char>, int)>, name: Seq<char>) -> int {
    if assoc_has(s, name) {
        assoc_get(s, name)
    } else {
        0
    }
}

/// Action name -> current fixed-point value, with unique names.
pub struct ActionValues {
    entries: Vec<(String, i32)>,
}

impl View for ActionValues {
    type V = Seq<(Seq<char>, int)>;

    closed spec fn view(&self) -> Seq<(Seq<char>, int)> {
        Seq::new(self.entries@.len(), |i: int| (self.entries@[i].0@, self.entries@[i].1 as int))
    }
}

impl ActionValues {
    /// Action names are pairwise distinct.
    pub open spec fn wf(&self) -> bool {
        assoc_wf(self@)
    }

    /// An empty mapping: every action is absent.
    pub fn new() -> (v: ActionValues)
        ensures
            v.wf(),
            v@ == Seq::<(Seq<char>, int)>::empty(),
    {
        let v = ActionValues { entries: Vec::new() };
        proof {
            assert(v@ =~= Seq::<(Seq<char>, int)>::empty());
        }
        v
    }

    /// The number of action names present.
    pub fn len(&self) -> (n: usize)
        ensures
            n == self@.len(),
    {
        self.entries.len()
    }

    /// The name of the entry at position `i`.
    pub fn name_at(&self, i: usize) -> (r: &String)
        requires
            i < self@.len(),
        ensures
            r@ == self@[i as int].0,
    {
        &self.entries[i].0
    }

    /// The value of the entry at position `i`.
    pub fn value_at(&self, i: usize) -> (r: i32)
        requires
            i < self@.len(),
        ensures
            r as int == self@[i as int].1,
    {
        self.entries[i].1
    }

    /// The position of `name` in the mapping, if present.
    fn position_of(&self, name: &String) -> (r: Option<usize>)
        requires
            self.wf(),
        ensures
            match r {
                Some(i) => assoc_has(self@, name@) && i == assoc_index(self@, name@),
                None => !assoc_has(self@, name@),
            },
    {
        let n = self.entries.len();
        let mut i: usize = 0;
        while i < n
            invariant
                n == self@.len(),
                0 <= i <= n,
                self.wf(),
                forall|j: int| 0 <= j < i ==> (#[trigger] self@[j]).0 != name@,
            decreases n - i,
        {
            if self.entries[i].0 == *name {
                proof {
                    assert(self@[i as int].0 == name@);
                    lemma_assoc_index_unique(self@, name@);
                }
                return Some(i);
            }
            i += 1;
        }
        None
    }

    /// Whether `name` is present in the mapping at all.
    pub fn contains_action(&self, name: &String) -> (r: bool)
        requires
            self.wf(),
        ensures
            r == assoc_has(self@, name@),
    {
        self.position_of(name).is_some()
    }

    /// The current value of `name`: its stored value, or zero when absent.
    pub fn value(&self, name: &String) -> (r: i32)
        requires
            self.wf(),
        ensures
            r as int == value_of(self@, name@),
    {
        match self.position_of(name) {
            Some(i) => {
                proof {
                    lemma_assoc_index_unique(self@, name@);
                }
                self.entries[i].1
            },
            None => 0,
        }
    }

    /// Set `name`'s value, inserting the name if it was absent.
    pub fn set_value(&mut self, name: &String, v: i32)
        requires
            old(self).wf(),
        ensures
            final(self).wf(),
            final(self)@ == assoc_set(old(self)@, name@, v as int),
    {
        let ghost s0 = self@;
        match self.position_of(name) {
            Some(i) => {
                self.entries[i] = (name.clone(), v);
                proof {
                    lemma_assoc_index_unique(s0, name@);
                    assert(self@ =~= assoc_set(s0, name@, v as int));
                    lemma_assoc_set_wf(s0, name@, v as int);
                }
            },
            None => {
                self.entries.push((name.clone(), v));
                proof {
                    assert(self@ =~= assoc_set(s0, name@, v as int));
                    lemma_assoc_set_wf(s0, name@, v as int);
                }
            },
        }
    }

    /// A copy of the whole mapping, used to snapshot the current values as
    /// the previous values at the start of a frame.
    pub fn duplicate(&self) -> (r: ActionValues)
        ensures
            r@ == self@,
    {
        let n = self.entries.len();
        let mut out: Vec<(String, i32)> = Vec::new();
        let mut i: usize = 0;
        while i < n
            invariant
                n == self@.len(),
                0 <= i <= n,
                out@.len() == i,
                forall|j: int| 0 <= j < i ==> (#[trigger] out@[j]).0@ == self@[j].0
                    && out@[j].1 as int == self@[j].1,
            decreases n - i,
        {
            let name = self.entries[i].0.clone();
            let value = self.entries[i].1;
            proof {
                assert(self@[i as int].0 == self.entries@[i as int].0@);
            }
            out.push((name, value));
            i += 1;
        }
        let r = ActionValues { entries: out };
        proof {
            assert(r@ =~= self@);
        }
        r
    }
}

} // verus!

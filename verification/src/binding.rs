//! Binding tables: one mapping per physical-input category, from a physical
//! input (a host-assigned `u32` code) to the name of the action it drives.
//!
//! A physical input binds to at most one action at a time (binding it again
//! silently replaces the old association — last write wins), while many
//! physical inputs may drive the same action.

use vstd::prelude::*;

use crate::assoc::assoc_has;
use crate::assoc::assoc_index;
use crate::assoc::assoc_remove;
use crate::assoc::assoc_set;
use crate::assoc::assoc_wf;
use crate::assoc::lemma_assoc_index_unique;
use crate::assoc::lemma_assoc_remove_wf;
use crate::assoc::lemma_assoc_set_wf;

verus! {

/// Generic bind / unbind capability over a keyed container, with
/// insert-or-overwrite and remove-if-present semantics.
pub trait AutoBinder<K: DeepView, V: DeepView>: Sized {
    /// The container's contents as a key/value association sequence.
    spec fn assoc_view(&self) -> Seq<(K::V, V::V)>;

    /// The container's internal invariant (at least: keys pairwise distinct).
    spec fn assoc_valid(&self) -> bool;

    /// Insert the association `key -> value`, overwriting any existing
    /// association of `key` (last write wins).
    fn bind(&mut self, key: K, value: V)
        requires
            old(self).assoc_valid(),
        ensures
            final(self).assoc_valid(),
            final(self).assoc_view() == assoc_set(
                old(self).assoc_view(),
                key.deep_view(),
                value.deep_view(),
            ),
    ;

    /// Remove any association of `key`; removing an unbound key is a no-op.
    fn unbind(&mut self, key: K)
        requires
            old(self).assoc_valid(),
        ensures
            final(self).assoc_valid(),
            final(self).assoc_view() == assoc_remove(old(self).assoc_view(), key.deep_view()),
    ;
}

/// One binding table: physical-input code -> action name, with unique
/// physical-input keys.
pub struct BindingTable {
    entries: Vec<(u32, String)>,
}

impl View for BindingTable {
    type V = Seq<(u32, Seq<char>)>;

    closed spec fn view(&self) -> Seq<(u32, Seq<char>)> {
        Seq::new(self.entries@.len(), |i: int| (self.entries@[i].0, self.entries@[i].1@))
    }
}

impl BindingTable {
    /// Keys (physical-input codes) are pairwise distinct.
    pub open spec fn wf(&self) -> bool {
        assoc_wf(self@)
    }

    /// An empty table: nothing is bound.
    pub fn new() -> (t: BindingTable)
        ensures
            t.wf(),
            t@ == Seq::<(u32, Seq<char>)>::empty(),
    {
        let t = BindingTable { entries: Vec::new() };
        proof {
            assert(t@ =~= Seq::<(u32, Seq<char>)>::empty());
        }
        t
    }

    /// The number of bindings held.
    pub fn len(&self) -> (n: usize)
        ensures
            n == self@.len(),
    {
        self.entries.len()
    }

    /// The physical-input code of the binding at position `i`.
    pub fn input_at(&self, i: usize) -> (r: u32)
        requires
            i < self@.len(),
        ensures
            r == self@[i as int].0,
    {
        self.entries[i].0
    }

    /// The action name of the binding at position `i`.
    pub fn action_at(&self, i: usize) -> (r: &String)
        requires
            i < self@.len(),
        ensures
            r@ == self@[i as int].1,
    {
        &self.entries[i].1
    }

    /// The position of `input` in the table, if it is bound.
    fn position_of(&self, input: u32) -> (r: Option<usize>)
        requires
            self.wf(),
        ensures
            match r {
                Some(i) => assoc_has(self@, input) && i == assoc_index(self@, input),
                None => !assoc_has(self@, input),
            },
    {
        let n = self.entries.len();
        let mut i: usize = 0;
        while i < n
            invariant
                n == self@.len(),
                0 <= i <= n,
                self.wf(),
                forall|j: int| 0 <= j < i ==> (#[trigger] self@[j]).0 != input,
            decreases n - i,
        {
            if self.entries[i].0 == input {
                proof {
                    assert(self@[i as int].0 == input);
                    lemma_assoc_index_unique(self@, input);
                }
                return Some(i);
            }
            i += 1;
        }
        None
    }

    /// The action name bound to `input`, if any.
    pub fn bound_action(&self, input: u32) -> (r: Option<&String>)
        requires
            self.wf(),
        ensures
            match r {
                Some(a) => assoc_has(self@, input) && a@ == crate::assoc::assoc_get(self@, input),
                None => !assoc_has(self@, input),
            },
    {
        match self.position_of(input) {
            Some(i) => {
                proof {
                    lemma_assoc_index_unique(self@, input);
                }
                Some(&self.entries[i].1)
            },
            None => None,
        }
    }
}

impl AutoBinder<u32, String> for BindingTable {
    open spec fn assoc_view(&self) -> Seq<(u32, Seq<char>)> {
        self@
    }

    open spec fn assoc_valid(&self) -> bool {
        self.wf()
    }

    fn bind(&mut self, key: u32, value: String) {
        let ghost s0 = self@;
        match self.position_of(key) {
            Some(i) => {
                self.entries[i] = (key, value);
                proof {
                    lemma_assoc_index_unique(s0, key);
                    assert(self@ =~= assoc_set(s0, key, value@));
                    lemma_assoc_set_wf(s0, key, value@);
                }
            },
            None => {
                self.entries.push((key, value));
                proof {
                    assert(self@ =~= assoc_set(s0, key, value@));
                    lemma_assoc_set_wf(s0, key, value@);
                }
            },
        }
    }

    fn unbind(&mut self, key: u32) {
        let ghost s0 = self@;
        match self.position_of(key) {
            Some(i) => {
                self.entries.remove(i);
                proof {
                    lemma_assoc_index_unique(s0, key);
                    assert(self@ =~= assoc_remove(s0, key));
                    lemma_assoc_remove_wf(s0, key);
                }
            },
            None => {
                proof {
                    assert(self@ =~= assoc_remove(s0, key));
                }
            },
        }
    }
}

} // verus!

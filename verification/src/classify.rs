//! Edge classification and notification emission.
//!
//! Each frame, every action's (previous value, current value) pair is
//! classified: zero to nonzero is Started, nonzero to nonzero is Continuing,
//! nonzero to zero is Finished, zero to zero is no transition. Independently
//! of the edges, every action whose current value is nonzero broadcasts a
//! level-triggered Active notification carrying that value. Started,
//! Continuing and Active notifications carry the current value; Finished
//! carries the value the action finished from (its previous value).

use vstd::prelude::*;

use crate::assoc::assoc_get;
use crate::assoc::assoc_has;
use crate::assoc::assoc_wf;
use crate::assoc::lemma_assoc_index_unique;
use crate::values::ActionValues;
use crate::values::value_of;

verus! {

/// An action's frame-to-frame transition, computed from its previous and
/// current values.
#[derive(Clone, Copy, Debug, PartialEq, Eq, Structural)]
pub enum ActionTransition {
    /// Zero before, zero now: nothing to report.
    Inactive,
    /// Zero before, nonzero now.
    Started,
    /// Nonzero before, nonzero now.
    Continuing,
    /// Nonzero before, zero now.
    Finished,
}

/// The kind of a notification emitted during one frame.
#[derive(Clone, Copy, Debug, PartialEq, Eq, Structural)]
pub enum NotificationKind {
    /// Edge: the action became active this frame.
    Started,
    /// Edge: the action stays active since an earlier frame.
    Continuing,
    /// Edge: the action became inactive this frame.
    Finished,
    /// Level: the action's value is nonzero this frame.
    Active,
}

/// One notification: its kind, the action it concerns, and the value it
/// carries.
#[derive(Clone, Debug, PartialEq, Eq)]
pub struct Notification {
    pub kind: NotificationKind,
    pub action: String,
    pub value: i32,
}

impl View for Notification {
    type V = (NotificationKind, Seq<char>, int);

    open spec fn view(&self) -> (NotificationKind, Seq<char>, int) {
        (self.kind, self.action@, self.value as int)
    }
}

/// The notifications as a sequence of (kind, action name, value) triples.
pub open spec fn notes_view(ns: Seq<Notification>) -> Seq<(NotificationKind, Seq<char>, int)> {
    Seq::new(ns.len(), |i: int| ns[i]@)
}

/// The transition table of the edge classifier.
pub open spec fn spec_classify(previous: int, current: int) -> ActionTransition {
    if previous == 0 && current != 0 {
        ActionTransition::Started
    } else if previous != 0 && current != 0 {
        ActionTransition::Continuing
    } else if previous != 0 && current == 0 {
        ActionTransition::Finished
    } else {
        ActionTransition::Inactive
    }
}

/// Classify one action's transition from its previous and current values.
pub fn classify(previous: i32, current: i32) -> (r: ActionTransition)
    ensures
        r == spec_classify(previous as int, current as int),
{
    if previous == 0 {
        if current != 0 {
            ActionTransition::Started
        } else {
            ActionTransition::Inactive
        }
    } else {
        if current != 0 {
            ActionTransition::Continuing
        } else {
            ActionTransition::Finished
        }
    }
}

/// The edge notification one action contributes: none while it stays
/// inactive, otherwise one note of the matching kind. Started and Continuing
/// carry the current value; Finished carries the previous value.
pub open spec fn edge_note_of(
    prev: Seq<(Seq<char>, int)>,
    name: Seq<char>,
    current: int,
) -> Seq<(NotificationKind, Seq<char>, int)> {
    match spec_classify(value_of(prev, name), current) {
        ActionTransition::Started => seq![(NotificationKind::Started, name, current)],
        ActionTransition::Continuing => seq![(NotificationKind::Continuing, name, current)],
        ActionTransition::Finished => seq![
            (NotificationKind::Finished, name, value_of(prev, name)),
        ],
        ActionTransition::Inactive => Seq::empty(),
    }
}

/// The edge notifications of a whole frame, one action after the other in
/// the order the current mapping lists them.
pub open spec fn edge_notes(prev: Seq<(Seq<char>, int)>, curr: Seq<(Seq<char>, int)>) -> Seq<
    (NotificationKind, Seq<char>, int),
>
    decreases curr.len(),
{
    if curr.len() == 0 {
        Seq::empty()
    } else {
        edge_notes(prev, curr.drop_last()) + edge_note_of(prev, curr.last().0, curr.last().1)
    }
}

/// The level-triggered Active notifications of a whole frame: one for every
/// action whose current value is nonzero, carrying that value.
pub open spec fn active_notes(curr: Seq<(Seq<char>, int)>) -> Seq<
    (NotificationKind, Seq<char>, int),
>
    decreases curr.len(),
{
    if curr.len() == 0 {
        Seq::empty()
    } else {
        active_notes(curr.drop_last()) + (if curr.last().1 != 0 {
            seq![(NotificationKind::Active, curr.last().0, curr.last().1)]
        } else {
            Seq::empty()
        })
    }
}

/// Everything one frame emits: all edge notifications, then all Active
/// notifications.
pub open spec fn frame_notes(prev: Seq<(Seq<char>, int)>, curr: Seq<(Seq<char>, int)>) -> Seq<
    (NotificationKind, Seq<char>, int),
> {
    edge_notes(prev, curr) + active_notes(curr)
}

/// The notifications among `ns` that concern action `n`, in order.
pub open spec fn notes_for(
    ns: Seq<(NotificationKind, Seq<char>, int)>,
    n: Seq<char>,
) -> Seq<(NotificationKind, Seq<char>, int)>
    decreases ns.len(),
{
    if ns.len() == 0 {
        Seq::empty()
    } else {
        notes_for(ns.drop_last(), n) + (if ns.last().1 == n {
            seq![ns.last()]
        } else {
            Seq::empty()
        })
    }
}

/// `notes_for` distributes over concatenation.
pub proof fn lemma_notes_for_add(
    a: Seq<(NotificationKind, Seq<char>, int)>,
    b: Seq<(NotificationKind, Seq<char>, int)>,
    n: Seq<char>,
)
    ensures
        notes_for(a + b, n) == notes_for(a, n) + notes_for(b, n),
    decreases b.len(),
{
    if b.len() == 0 {
        assert(a + b =~= a);
        assert(notes_for(b, n) =~= Seq::<(NotificationKind, Seq<char>, int)>::empty());
        assert(notes_for(a, n) + notes_for(b, n) =~= notes_for(a, n));
    } else {
        lemma_notes_for_add(a, b.drop_last(), n);
        assert((a + b).drop_last() =~= a + b.drop_last());
        assert((a + b).last() == b.last());
        assert(notes_for(a, n) + notes_for(b.drop_last(), n) + (if b.last().1 == n {
            seq![b.last()]
        } else {
            Seq::<(NotificationKind, Seq<char>, int)>::empty()
        }) =~= notes_for(a, n) + notes_for(b, n));
    }
}

/// Every note in `ns` that concerns `n` is kept by `notes_for(ns, n)`.
pub proof fn lemma_notes_for_member(ns: Seq<(NotificationKind, Seq<char>, int)>, n: Seq<char>)
    ensures
        forall|j: int|
            0 <= j < ns.len() && (#[trigger] ns[j]).1 == n ==> notes_for(ns, n).contains(ns[j]),
    decreases ns.len(),
{
    if ns.len() > 0 {
        lemma_notes_for_member(ns.drop_last(), n);
        let front = notes_for(ns.drop_last(), n);
        assert forall|j: int| 0 <= j < ns.len() && (#[trigger] ns[j]).1 == n implies notes_for(
            ns,
            n,
        ).contains(ns[j]) by {
            if j == ns.len() - 1 {
                assert(notes_for(ns, n)[front.len() as int] == ns.last());
            } else {
                assert(ns.drop_last()[j] == ns[j]);
                assert(front.contains(ns[j]));
                let i = choose|i: int| 0 <= i < front.len() && front[i] == ns[j];
                assert(notes_for(ns, n)[i] == ns[j]);
            }
        }
    }
}

/// Every note `notes_for(ns, n)` yields is a note of `ns`, and concerns `n`.
pub proof fn lemma_notes_for_subset(ns: Seq<(NotificationKind, Seq<char>, int)>, n: Seq<char>)
    ensures
        forall|j: int|
            0 <= j < notes_for(ns, n).len() ==> ns.contains(#[trigger] notes_for(ns, n)[j])
                && notes_for(ns, n)[j].1 == n,
    decreases ns.len(),
{
    if ns.len() > 0 {
        lemma_notes_for_subset(ns.drop_last(), n);
        let front = notes_for(ns.drop_last(), n);
        assert forall|j: int| 0 <= j < notes_for(ns, n).len() implies ns.contains(
            #[trigger] notes_for(ns, n)[j],
        ) && notes_for(ns, n)[j].1 == n by {
            if j < front.len() {
                assert(notes_for(ns, n)[j] == front[j]);
                assert(ns.drop_last().contains(front[j]));
                let i = choose|i: int|
                    0 <= i < ns.drop_last().len() && ns.drop_last()[i] == front[j];
                assert(ns[i] == front[j]);
            } else {
                assert(ns.last().1 == n);
                assert(notes_for(ns, n)[j] == ns.last());
                assert(ns[ns.len() - 1] == ns.last());
            }
        }
    }
}

/// `notes_for` on a single note keeps or drops it by its name.
proof fn lemma_notes_for_single(x: (NotificationKind, Seq<char>, int), n: Seq<char>)
    ensures
        notes_for(seq![x], n) == if x.1 == n {
            seq![x]
        } else {
            Seq::<(NotificationKind, Seq<char>, int)>::empty()
        },
{
    let s = seq![x];
    assert(s.len() == 1);
    assert(s.last() == x);
    assert(s.drop_last().len() == 0);
    assert(notes_for(s.drop_last(), n) =~= Seq::<(NotificationKind, Seq<char>, int)>::empty());
    if x.1 == n {
        assert(notes_for(s, n) =~= seq![x]);
    } else {
        assert(notes_for(s, n) =~= Seq::<(NotificationKind, Seq<char>, int)>::empty());
    }
}

/// All notes of `edge_note_of` carry the name it was given.
proof fn lemma_edge_note_of_names(
    prev: Seq<(Seq<char>, int)>,
    m: Seq<char>,
    v: int,
    n: Seq<char>,
)
    ensures
        notes_for(edge_note_of(prev, m, v), n) == if m == n {
            edge_note_of(prev, m, v)
        } else {
            Seq::<(NotificationKind, Seq<char>, int)>::empty()
        },
{
    let note = edge_note_of(prev, m, v);
    if note.len() == 0 {
        assert(notes_for(note, n) =~= Seq::<(NotificationKind, Seq<char>, int)>::empty());
        if m == n {
            assert(notes_for(note, n) =~= note);
        }
    } else {
        assert(note == seq![note[0]]);
        assert(note[0].1 == m);
        lemma_notes_for_single(note[0], n);
    }
}

/// What one frame's edge notifications say about one action: exactly the
/// note its own (previous, current) pair classifies to, and nothing at all
/// for a name absent from the current mapping.
pub proof fn lemma_edge_notes_for_name(
    prev: Seq<(Seq<char>, int)>,
    curr: Seq<(Seq<char>, int)>,
    n: Seq<char>,
)
    requires
        assoc_wf(curr),
    ensures
        notes_for(edge_notes(prev, curr), n) == if assoc_has(curr, n) {
            edge_note_of(prev, n, assoc_get(curr, n))
        } else {
            Seq::<(NotificationKind, Seq<char>, int)>::empty()
        },
    decreases curr.len(),
{
    if curr.len() == 0 {
        assert(!assoc_has(curr, n));
        assert(notes_for(edge_notes(prev, curr), n) =~= Seq::<
            (NotificationKind, Seq<char>, int),
        >::empty());
    } else {
        let curr0 = curr.drop_last();
        let last = curr.last();
        assert(assoc_wf(curr0)) by {
            assert(forall|i: int| 0 <= i < curr0.len() ==> curr0[i] == curr[i]);
        }
        lemma_edge_notes_for_name(prev, curr0, n);
        lemma_notes_for_add(edge_notes(prev, curr0), edge_note_of(prev, last.0, last.1), n);
        lemma_edge_note_of_names(prev, last.0, last.1, n);
        if last.0 == n {
            assert(!assoc_has(curr0, n)) by {
                if assoc_has(curr0, n) {
                    let i = choose|i: int| 0 <= i < curr0.len() && (#[trigger] curr0[i]).0 == n;
                    assert(curr[i].0 == curr[curr.len() - 1].0);
                }
            }
            assert(curr[curr.len() - 1].0 == n);
            assert(assoc_has(curr, n));
            lemma_assoc_index_unique(curr, n);
            assert(assoc_get(curr, n) == last.1);
            assert(notes_for(edge_notes(prev, curr), n) =~= edge_note_of(prev, n, last.1));
        } else {
            assert(assoc_has(curr, n) == assoc_has(curr0, n)) by {
                if assoc_has(curr, n) {
                    let i = choose|i: int| 0 <= i < curr.len() && (#[trigger] curr[i]).0 == n;
                    assert(i < curr.len() - 1);
                    assert(curr0[i].0 == n);
                }
                if assoc_has(curr0, n) {
                    let i = choose|i: int| 0 <= i < curr0.len() && (#[trigger] curr0[i]).0 == n;
                    assert(curr[i].0 == n);
                }
            }
            if assoc_has(curr, n) {
                lemma_assoc_index_unique(curr, n);
                lemma_assoc_index_unique(curr0, n);
                let i = crate::assoc::assoc_index(curr0, n);
                assert(curr[i].0 == n);
                assert(assoc_get(curr, n) == assoc_get(curr0, n));
            }
            assert(notes_for(edge_notes(prev, curr), n) =~= notes_for(
                edge_notes(prev, curr0),
                n,
            ));
        }
    }
}

/// What one frame's Active notifications say about one action: exactly one
/// Active note carrying its current value when that value is nonzero,
/// nothing otherwise.
pub proof fn lemma_active_notes_for_name(curr: Seq<(Seq<char>, int)>, n: Seq<char>)
    requires
        assoc_wf(curr),
    ensures
        notes_for(active_notes(curr), n) == if assoc_has(curr, n) && assoc_get(curr, n) != 0 {
            seq![(NotificationKind::Active, n, assoc_get(curr, n))]
        } else {
            Seq::<(NotificationKind, Seq<char>, int)>::empty()
        },
    decreases curr.len(),
{
    if curr.len() == 0 {
        assert(!assoc_has(curr, n));
        assert(notes_for(active_notes(curr), n) =~= Seq::<
            (NotificationKind, Seq<char>, int),
        >::empty());
    } else {
        let curr0 = curr.drop_last();
        let last = curr.last();
        assert(assoc_wf(curr0)) by {
            assert(forall|i: int| 0 <= i < curr0.len() ==> curr0[i] == curr[i]);
        }
        lemma_active_notes_for_name(curr0, n);
        let contributed = if last.1 != 0 {
            seq![(NotificationKind::Active, last.0, last.1)]
        } else {
            Seq::<(NotificationKind, Seq<char>, int)>::empty()
        };
        lemma_notes_for_add(active_notes(curr0), contributed, n);
        if last.1 != 0 {
            lemma_notes_for_single((NotificationKind::Active, last.0, last.1), n);
        } else {
            assert(notes_for(contributed, n) =~= Seq::<
                (NotificationKind, Seq<char>, int),
            >::empty());
        }
        if last.0 == n {
            assert(!assoc_has(curr0, n)) by {
                if assoc_has(curr0, n) {
                    let i = choose|i: int| 0 <= i < curr0.len() && (#[trigger] curr0[i]).0 == n;
                    assert(curr[i].0 == curr[curr.len() - 1].0);
                }
            }
            assert(curr[curr.len() - 1].0 == n);
            assert(assoc_has(curr, n));
            lemma_assoc_index_unique(curr, n);
            assert(assoc_get(curr, n) == last.1);
            assert(notes_for(active_notes(curr), n) =~= notes_for(active_notes(curr0), n)
                + notes_for(contributed, n));
        } else {
            assert(assoc_has(curr, n) == assoc_has(curr0, n)) by {
                if assoc_has(curr, n) {
                    let i = choose|i: int| 0 <= i < curr.len() && (#[trigger] curr[i]).0 == n;
                    assert(i < curr.len() - 1);
                    assert(curr0[i].0 == n);
                }
                if assoc_has(curr0, n) {
                    let i = choose|i: int| 0 <= i < curr0.len() && (#[trigger] curr0[i]).0 == n;
                    assert(curr[i].0 == n);
                }
            }
            if assoc_has(curr, n) {
                lemma_assoc_index_unique(curr, n);
                lemma_assoc_index_unique(curr0, n);
                let i = crate::assoc::assoc_index(curr0, n);
                assert(curr[i].0 == n);
                assert(assoc_get(curr, n) == assoc_get(curr0, n));
            }
            assert(notes_for(active_notes(curr), n) =~= notes_for(active_notes(curr0), n));
        }
    }
}

/// Compare the previous and current action values and emit the frame's
/// notifications: each action's edge notification (if any) in mapping order,
/// then one Active notification per action with a nonzero current value.
///
/// Classification walks the current mapping; that covers the union of both
/// mappings' names inside the frame cycle, which only ever adds names to
/// the current mapping after snapshotting it as the previous one. A name
/// absent from the current mapping reads as zero anyway.
pub fn emit_frame_notes(prev: &ActionValues, curr: &ActionValues) -> (notes: Vec<Notification>)
    requires
        prev.wf(),
        curr.wf(),
    ensures
        notes_view(notes@) == frame_notes(prev@, curr@),
{
    let ghost pv = prev@;
    let ghost cv = curr@;
    let mut notes: Vec<Notification> = Vec::new();
    let n = curr.len();
    proof {
        assert(notes_view(notes@) =~= edge_notes(pv, cv.take(0)));
    }
    let mut i: usize = 0;
    while i < n
        invariant
            prev.wf(),
            curr.wf(),
            pv == prev@,
            cv == curr@,
            n == cv.len(),
            0 <= i <= n,
            notes_view(notes@) == edge_notes(pv, cv.take(i as int)),
        decreases n - i,
    {
        let name = curr.name_at(i);
        let current = curr.value_at(i);
        let previous = prev.value(name);
        let ghost before = notes@;
        match classify(previous, current) {
            ActionTransition::Started => {
                notes.push(
                    Notification {
                        kind: NotificationKind::Started,
                        action: name.clone(),
                        value: current,
                    },
                );
            },
            ActionTransition::Continuing => {
                notes.push(
                    Notification {
                        kind: NotificationKind::Continuing,
                        action: name.clone(),
                        value: current,
                    },
                );
            },
            ActionTransition::Finished => {
                notes.push(
                    Notification {
                        kind: NotificationKind::Finished,
                        action: name.clone(),
                        value: previous,
                    },
                );
            },
            ActionTransition::Inactive => {},
        }
        proof {
            assert(cv.take(i as int + 1).drop_last() =~= cv.take(i as int));
            assert(cv.take(i as int + 1).last() == cv[i as int]);
            assert(notes_view(notes@) =~= notes_view(before) + edge_note_of(
                pv,
                cv[i as int].0,
                cv[i as int].1,
            ));
        }
        i += 1;
    }
    proof {
        assert(cv.take(n as int) =~= cv);
    }
    let ghost edges = edge_notes(pv, cv);
    proof {
        assert(notes_view(notes@) =~= edges + active_notes(cv.take(0)));
    }
    let mut i: usize = 0;
    while i < n
        invariant
            curr.wf(),
            cv == curr@,
            n == cv.len(),
            0 <= i <= n,
            notes_view(notes@) == edges + active_notes(cv.take(i as int)),
        decreases n - i,
    {
        let current = curr.value_at(i);
        let ghost before = notes@;
        if current != 0 {
            let name = curr.name_at(i);
            notes.push(
                Notification {
                    kind: NotificationKind::Active,
                    action: name.clone(),
                    value: current,
                },
            );
        }
        proof {
            assert(cv.take(i as int + 1).drop_last() =~= cv.take(i as int));
            assert(cv.take(i as int + 1).last() == cv[i as int]);
            if cv[i as int].1 != 0 {
                assert(notes_view(notes@) =~= notes_view(before) + seq![
                    (NotificationKind::Active, cv[i as int].0, cv[i as int].1),
                ]);
                assert(edges + active_notes(cv.take(i as int)) + seq![
                    (NotificationKind::Active, cv[i as int].0, cv[i as int].1),
                ] =~= edges + active_notes(cv.take(i as int + 1)));
            } else {
                assert(edges + active_notes(cv.take(i as int)) =~= edges + active_notes(
                    cv.take(i as int + 1),
                ));
            }
        }
        i += 1;
    }
    proof {
        assert(cv.take(n as int) =~= cv);
    }
    notes
}

} // verus!

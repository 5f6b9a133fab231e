//! Per-frame value aggregation: given the raw device state of one
//! physical-input category and that category's binding table, update the
//! shared action-value mapping.
//!
//! Buttons and keys: an action bound in the table reads `FULL_VALUE` when at
//! least one of its bound inputs is pressed this frame, and `0` when all of
//! them are released — a single released input never zeroes an action that
//! another pressed input still drives. Axes: each bound action takes the raw
//! signed reading of its bound axis; with several axes bound to the same
//! action the binding processed last wins (a known limitation, not a blend).
//! Actions with no binding in the table are left untouched, and an action
//! with no bound inputs anywhere never appears in the mapping at all.

use vstd::prelude::*;

use crate::FULL_VALUE;
use crate::assoc::assoc_has;
use crate::assoc::assoc_set;
use crate::assoc::assoc_wf;
use crate::assoc::lemma_assoc_set_same;
use crate::assoc::lemma_assoc_set_other;
use crate::assoc::lemma_assoc_set_wf;
use crate::binding::BindingTable;
use crate::values::ActionValues;
use crate::values::value_of;

verus! {

/// One raw axis reading handed in by the host for the current frame: the
/// axis's code and its signed fixed-point deflection.
pub struct AxisReading {
    pub axis: u32,
    pub value: i32,
}

/// The readings as a sequence of (axis code, value) pairs.
pub open spec fn readings_view(rs: Seq<AxisReading>) -> Seq<(u32, int)> {
    Seq::new(rs.len(), |i: int| (rs[i].axis, rs[i].value as int))
}

/// Whether the table binds some physical input to action `a`.
pub open spec fn bound_action(t: Seq<(u32, Seq<char>)>, a: Seq<char>) -> bool {
    exists|i: int| 0 <= i < t.len() && (#[trigger] t[i]).1 == a
}

/// Whether some physical input bound to action `a` is pressed this frame.
pub open spec fn pressed_source(t: Seq<(u32, Seq<char>)>, pressed: Seq<u32>, a: Seq<char>) -> bool {
    exists|i: int| 0 <= i < t.len() && (#[trigger] t[i]).1 == a && pressed.contains(t[i].0)
}

/// The first reading recorded for `axis`; an axis with no reading this frame
/// reads as zero.
pub open spec fn reading_of(rs: Seq<(u32, int)>, axis: u32) -> int
    decreases rs.len(),
{
    if rs.len() == 0 {
        0
    } else if rs[0].0 == axis {
        rs[0].1
    } else {
        reading_of(rs.drop_first(), axis)
    }
}

/// The physical input of the last binding in the table that drives `a`;
/// meaningful only when `bound_action(t, a)`.
pub open spec fn last_source(t: Seq<(u32, Seq<char>)>, a: Seq<char>) -> u32
    decreases t.len(),
{
    if t.len() == 0 {
        0
    } else if t.last().1 == a {
        t.last().0
    } else {
        last_source(t.drop_last(), a)
    }
}

/// The first half of a button pass: every action bound in the table is set
/// to zero, in table order.
pub open spec fn zero_pass(vals: Seq<(Seq<char>, int)>, t: Seq<(u32, Seq<char>)>) -> Seq<
    (Seq<char>, int),
>
    decreases t.len(),
{
    if t.len() == 0 {
        vals
    } else {
        assoc_set(zero_pass(vals, t.drop_last()), t.last().1, 0)
    }
}

/// The second half of a button pass: every action with a pressed bound input
/// is set to `FULL_VALUE`, in table order.
pub open spec fn press_pass(
    vals: Seq<(Seq<char>, int)>,
    t: Seq<(u32, Seq<char>)>,
    pressed: Seq<u32>,
) -> Seq<(Seq<char>, int)>
    decreases t.len(),
{
    if t.len() == 0 {
        vals
    } else {
        let rest = press_pass(vals, t.drop_last(), pressed);
        if pressed.contains(t.last().0) {
            assoc_set(rest, t.last().1, FULL_VALUE as int)
        } else {
            rest
        }
    }
}

/// A whole button pass: zero every bound action, then raise every action
/// with a pressed source to `FULL_VALUE`.
pub open spec fn button_pass(
    vals: Seq<(Seq<char>, int)>,
    t: Seq<(u32, Seq<char>)>,
    pressed: Seq<u32>,
) -> Seq<(Seq<char>, int)> {
    press_pass(zero_pass(vals, t), t, pressed)
}

/// An axis pass: each bound action takes the reading of its bound axis, in
/// table order (the last binding to a shared action wins).
pub open spec fn axis_pass(
    vals: Seq<(Seq<char>, int)>,
    t: Seq<(u32, Seq<char>)>,
    rs: Seq<(u32, int)>,
) -> Seq<(Seq<char>, int)>
    decreases t.len(),
{
    if t.len() == 0 {
        vals
    } else {
        assoc_set(axis_pass(vals, t.drop_last(), rs), t.last().1, reading_of(rs, t.last().0))
    }
}

/// What a zero pass does, name by name: bound actions read zero, everything
/// else is untouched, and no name appears or disappears except bound ones.
pub proof fn lemma_zero_pass(vals: Seq<(Seq<char>, int)>, t: Seq<(u32, Seq<char>)>)
    requires
        assoc_wf(vals),
    ensures
        assoc_wf(zero_pass(vals, t)),
        forall|a: Seq<char>|
            #[trigger] assoc_has(zero_pass(vals, t), a) == (assoc_has(vals, a) || bound_action(
                t,
                a,
            )),
        forall|a: Seq<char>|
            #[trigger] value_of(zero_pass(vals, t), a) == if bound_action(t, a) {
                0int
            } else {
                value_of(vals, a)
            },
    decreases t.len(),
{
    if t.len() == 0 {
        assert(forall|a: Seq<char>| !bound_action(t, a));
    } else {
        let t0 = t.drop_last();
        let last = t.last();
        lemma_zero_pass(vals, t0);
        let prev = zero_pass(vals, t0);
        lemma_assoc_set_wf(prev, last.1, 0);
        assert forall|a: Seq<char>|
            #![trigger assoc_has(zero_pass(vals, t), a)]
            #![trigger value_of(zero_pass(vals, t), a)]
            assoc_has(zero_pass(vals, t), a) == (assoc_has(vals, a) || bound_action(t, a))
                && value_of(zero_pass(vals, t), a) == (if bound_action(t, a) {
            0int
        } else {
            value_of(vals, a)
        }) by {
            if a == last.1 {
                lemma_assoc_set_same(prev, last.1, 0);
                assert(t[t.len() - 1].1 == a);
                assert(bound_action(t, a));
            } else {
                lemma_assoc_set_other(prev, last.1, 0, a);
                assert(value_of(zero_pass(vals, t), a) == value_of(prev, a));
                assert(value_of(prev, a) == if bound_action(t0, a) {
                    0int
                } else {
                    value_of(vals, a)
                });
                assert(bound_action(t0, a) == bound_action(t, a)) by {
                    if bound_action(t0, a) {
                        let i = choose|i: int| 0 <= i < t0.len() && (#[trigger] t0[i]).1 == a;
                        assert(t[i].1 == a);
                    }
                    if bound_action(t, a) {
                        let i = choose|i: int| 0 <= i < t.len() && (#[trigger] t[i]).1 == a;
                        assert(i < t.len() - 1);
                        assert(t0[i].1 == a);
                    }
                }
            }
        }
    }
}

/// What a press pass does, name by name: actions with a pressed bound source
/// read `FULL_VALUE`, everything else is untouched.
pub proof fn lemma_press_pass(
    vals: Seq<(Seq<char>, int)>,
    t: Seq<(u32, Seq<char>)>,
    pressed: Seq<u32>,
)
    requires
        assoc_wf(vals),
    ensures
        assoc_wf(press_pass(vals, t, pressed)),
        forall|a: Seq<char>|
            #[trigger] assoc_has(press_pass(vals, t, pressed), a) == (assoc_has(vals, a)
                || pressed_source(t, pressed, a)),
        forall|a: Seq<char>|
            #[trigger] value_of(press_pass(vals, t, pressed), a) == if pressed_source(
                t,
                pressed,
                a,
            ) {
                FULL_VALUE as int
            } else {
                value_of(vals, a)
            },
    decreases t.len(),
{
    if t.len() == 0 {
        assert(forall|a: Seq<char>| !pressed_source(t, pressed, a));
    } else {
        let t0 = t.drop_last();
        let last = t.last();
        lemma_press_pass(vals, t0, pressed);
        let prev = press_pass(vals, t0, pressed);
        let cur = press_pass(vals, t, pressed);
        if pressed.contains(last.0) {
            lemma_assoc_set_wf(prev, last.1, FULL_VALUE as int);
        }
        assert forall|a: Seq<char>|
            #![trigger assoc_has(press_pass(vals, t, pressed), a)]
            #![trigger value_of(press_pass(vals, t, pressed), a)]
            assoc_has(cur, a) == (assoc_has(vals, a) || pressed_source(t, pressed, a))
                && value_of(cur, a) == (if pressed_source(t, pressed, a) {
            FULL_VALUE as int
        } else {
            value_of(vals, a)
        }) by {
            assert(pressed_source(t0, pressed, a) ==> pressed_source(t, pressed, a)) by {
                if pressed_source(t0, pressed, a) {
                    let i = choose|i: int|
                        0 <= i < t0.len() && (#[trigger] t0[i]).1 == a && pressed.contains(t0[i].0);
                    assert(t[i].1 == a && pressed.contains(t[i].0));
                }
            }
            if pressed.contains(last.0) && a == last.1 {
                lemma_assoc_set_same(prev, last.1, FULL_VALUE as int);
                assert(t[t.len() - 1].1 == a && pressed.contains(t[t.len() - 1].0));
                assert(pressed_source(t, pressed, a));
            } else {
                if pressed.contains(last.0) {
                    lemma_assoc_set_other(prev, last.1, FULL_VALUE as int, a);
                }
                assert(value_of(cur, a) == value_of(prev, a));
                assert(value_of(prev, a) == if pressed_source(t0, pressed, a) {
                    FULL_VALUE as int
                } else {
                    value_of(vals, a)
                });
                assert(pressed_source(t, pressed, a) == pressed_source(t0, pressed, a)) by {
                    if pressed_source(t, pressed, a) {
                        let i = choose|i: int|
                            0 <= i < t.len() && (#[trigger] t[i]).1 == a && pressed.contains(
                                t[i].0,
                            );
                        if i == t.len() - 1 {
                            assert(a == last.1 && pressed.contains(last.0));
                        } else {
                            assert(t0[i].1 == a && pressed.contains(t0[i].0));
                        }
                    }
                }
            }
        }
    }
}

/// What a whole button pass does, name by name: a bound action reads
/// `FULL_VALUE` exactly when one of its bound inputs is pressed and zero
/// otherwise, an unbound action is untouched, and no unbound name appears.
pub proof fn lemma_button_pass(
    vals: Seq<(Seq<char>, int)>,
    t: Seq<(u32, Seq<char>)>,
    pressed: Seq<u32>,
)
    requires
        assoc_wf(vals),
    ensures
        assoc_wf(button_pass(vals, t, pressed)),
        forall|a: Seq<char>|
            #[trigger] assoc_has(button_pass(vals, t, pressed), a) == (assoc_has(vals, a)
                || bound_action(t, a)),
        forall|a: Seq<char>|
            #[trigger] value_of(button_pass(vals, t, pressed), a) == if bound_action(t, a) {
                if pressed_source(t, pressed, a) {
                    FULL_VALUE as int
                } else {
                    0int
                }
            } else {
                value_of(vals, a)
            },
{
    lemma_zero_pass(vals, t);
    let zeroed = zero_pass(vals, t);
    lemma_press_pass(zeroed, t, pressed);
    assert forall|a: Seq<char>| pressed_source(t, pressed, a) implies bound_action(t, a) by {
        let i = choose|i: int|
            0 <= i < t.len() && (#[trigger] t[i]).1 == a && pressed.contains(t[i].0);
        assert(t[i].1 == a);
    }
}

/// What an axis pass does, name by name: a bound action takes the reading of
/// the last axis bound to it, an unbound action is untouched, and no unbound
/// name appears.
pub proof fn lemma_axis_pass(
    vals: Seq<(Seq<char>, int)>,
    t: Seq<(u32, Seq<char>)>,
    rs: Seq<(u32, int)>,
)
    requires
        assoc_wf(vals),
    ensures
        assoc_wf(axis_pass(vals, t, rs)),
        forall|a: Seq<char>|
            #[trigger] assoc_has(axis_pass(vals, t, rs), a) == (assoc_has(vals, a) || bound_action(
                t,
                a,
            )),
        forall|a: Seq<char>|
            #[trigger] value_of(axis_pass(vals, t, rs), a) == if bound_action(t, a) {
                reading_of(rs, last_source(t, a))
            } else {
                value_of(vals, a)
            },
    decreases t.len(),
{
    if t.len() == 0 {
        assert(forall|a: Seq<char>| !bound_action(t, a));
    } else {
        let t0 = t.drop_last();
        let last = t.last();
        lemma_axis_pass(vals, t0, rs);
        let prev = axis_pass(vals, t0, rs);
        lemma_assoc_set_wf(prev, last.1, reading_of(rs, last.0));
        assert forall|a: Seq<char>|
            #![trigger assoc_has(axis_pass(vals, t, rs), a)]
            #![trigger value_of(axis_pass(vals, t, rs), a)]
            assoc_has(axis_pass(vals, t, rs), a) == (assoc_has(vals, a) || bound_action(t, a))
                && value_of(axis_pass(vals, t, rs), a) == (if bound_action(t, a) {
            reading_of(rs, last_source(t, a))
        } else {
            value_of(vals, a)
        }) by {
            if a == last.1 {
                lemma_assoc_set_same(prev, last.1, reading_of(rs, last.0));
                assert(t[t.len() - 1].1 == a);
                assert(bound_action(t, a));
                assert(last_source(t, a) == last.0);
            } else {
                lemma_assoc_set_other(prev, last.1, reading_of(rs, last.0), a);
                assert(value_of(axis_pass(vals, t, rs), a) == value_of(prev, a));
                assert(value_of(prev, a) == if bound_action(t0, a) {
                    reading_of(rs, last_source(t0, a))
                } else {
                    value_of(vals, a)
                });
                assert(last_source(t, a) == last_source(t0, a));
                assert(bound_action(t0, a) == bound_action(t, a)) by {
                    if bound_action(t0, a) {
                        let i = choose|i: int| 0 <= i < t0.len() && (#[trigger] t0[i]).1 == a;
                        assert(t[i].1 == a);
                    }
                    if bound_action(t, a) {
                        let i = choose|i: int| 0 <= i < t.len() && (#[trigger] t[i]).1 == a;
                        assert(i < t.len() - 1);
                        assert(t0[i].1 == a);
                    }
                }
            }
        }
    }
}

/// Whether the pressed-input list holds `code`.
fn contains_code(pressed: &Vec<u32>, code: u32) -> (r: bool)
    ensures
        r == pressed@.contains(code),
{
    let n = pressed.len();
    let mut i: usize = 0;
    while i < n
        invariant
            n == pressed@.len(),
            0 <= i <= n,
            forall|j: int| 0 <= j < i ==> pressed@[j] != code,
        decreases n - i,
    {
        if pressed[i] == code {
            return true;
        }
        i += 1;
    }
    false
}

/// The first reading recorded for `axis` this frame, or zero with none.
fn read_axis(readings: &Vec<AxisReading>, axis: u32) -> (r: i32)
    ensures
        r as int == reading_of(readings_view(readings@), axis),
{
    let n = readings.len();
    let ghost rv = readings_view(readings@);
    let mut i: usize = 0;
    proof {
        assert(rv.skip(0) =~= rv);
    }
    while i < n
        invariant
            n == readings@.len(),
            rv == readings_view(readings@),
            0 <= i <= n,
            reading_of(rv, axis) == reading_of(rv.skip(i as int), axis),
        decreases n - i,
    {
        if readings[i].axis == axis {
            proof {
                assert(rv.skip(i as int)[0] == rv[i as int]);
            }
            return readings[i].value;
        }
        proof {
            assert(rv.skip(i as int)[0] == rv[i as int]);
            assert(rv.skip(i as int).drop_first() =~= rv.skip(i as int + 1));
        }
        i += 1;
    }
    proof {
        assert(rv.skip(n as int).len() == 0);
    }
    0
}

/// Run one button pass: every action bound in `table` is set to
/// `FULL_VALUE` when at least one of its bound inputs appears in `pressed`,
/// and to zero otherwise; actions not bound in `table` are untouched.
pub fn button_press_pass(vals: &mut ActionValues, table: &BindingTable, pressed: &Vec<u32>)
    requires
        old(vals).wf(),
        table.wf(),
    ensures
        final(vals).wf(),
        final(vals)@ == button_pass(old(vals)@, table@, pressed@),
{
    let ghost v0 = vals@;
    let ghost t = table@;
    let n = table.len();
    let mut i: usize = 0;
    while i < n
        invariant
            vals.wf(),
            n == t.len(),
            t == table@,
            table.wf(),
            0 <= i <= n,
            vals@ == zero_pass(v0, t.take(i as int)),
        decreases n - i,
    {
        let action = table.action_at(i);
        vals.set_value(action, 0);
        proof {
            assert(t.take(i as int + 1).drop_last() =~= t.take(i as int));
            assert(t.take(i as int + 1).last() == t[i as int]);
        }
        i += 1;
    }
    proof {
        assert(t.take(n as int) =~= t);
    }
    let ghost zeroed = zero_pass(v0, t);
    let mut i: usize = 0;
    while i < n
        invariant
            vals.wf(),
            n == t.len(),
            t == table@,
            table.wf(),
            0 <= i <= n,
            vals@ == press_pass(zeroed, t.take(i as int), pressed@),
        decreases n - i,
    {
        if contains_code(pressed, table.input_at(i)) {
            let action = table.action_at(i);
            vals.set_value(action, FULL_VALUE);
        }
        proof {
            assert(t.take(i as int + 1).drop_last() =~= t.take(i as int));
            assert(t.take(i as int + 1).last() == t[i as int]);
        }
        i += 1;
    }
    proof {
        assert(t.take(n as int) =~= t);
    }
}

/// Run one axis pass: every action bound in `table` takes the raw reading of
/// its bound axis (the binding processed last wins when several axes share an
/// action); actions not bound in `table` are untouched.
pub fn axis_move_pass(vals: &mut ActionValues, table: &BindingTable, readings: &Vec<AxisReading>)
    requires
        old(vals).wf(),
        table.wf(),
    ensures
        final(vals).wf(),
        final(vals)@ == axis_pass(old(vals)@, table@, readings_view(readings@)),
{
    let ghost v0 = vals@;
    let ghost t = table@;
    let ghost rv = readings_view(readings@);
    let n = table.len();
    let mut i: usize = 0;
    while i < n
        invariant
            vals.wf(),
            n == t.len(),
            t == table@,
            table.wf(),
            rv == readings_view(readings@),
            0 <= i <= n,
            vals@ == axis_pass(v0, t.take(i as int), rv),
        decreases n - i,
    {
        let value = read_axis(readings, table.input_at(i));
        let action = table.action_at(i);
        vals.set_value(action, value);
        proof {
            assert(t.take(i as int + 1).drop_last() =~= t.take(i as int));
            assert(t.take(i as int + 1).last() == t[i as int]);
        }
        i += 1;
    }
    proof {
        assert(t.take(n as int) =~= t);
    }
}

} // verus!

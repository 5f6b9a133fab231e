//! The library's global laws, stated and proved over the same spec
//! functions the executable contracts use.

use vstd::prelude::*;

use crate::aggregate::axis_pass;
use crate::aggregate::bound_action;
use crate::aggregate::button_pass;
use crate::aggregate::lemma_axis_pass;
use crate::aggregate::lemma_button_pass;
use crate::assoc::assoc_get;
use crate::assoc::assoc_has;
use crate::assoc::assoc_remove;
use crate::assoc::assoc_set;
use crate::assoc::assoc_wf;
use crate::assoc::lemma_assoc_remove_get;
use crate::assoc::lemma_assoc_set_other;
use crate::assoc::lemma_assoc_set_remove_roundtrip;
use crate::assoc::lemma_assoc_set_wf;
use crate::classify::NotificationKind;
use crate::classify::active_notes;
use crate::classify::edge_notes;
use crate::classify::edge_note_of;
use crate::classify::frame_notes;
use crate::classify::lemma_active_notes_for_name;
use crate::classify::lemma_edge_notes_for_name;
use crate::classify::lemma_notes_for_add;
use crate::classify::lemma_notes_for_member;
use crate::classify::lemma_notes_for_subset;
use crate::classify::notes_for;
use crate::mapper::spec_frame_values;
use crate::values::value_of;

verus! {

/// An action name bound to no physical input in any table and absent from
/// the value mapping stays absent after a whole frame of aggregation — its
/// value reads zero — and not one notification of the frame concerns it.
pub proof fn lemma_unbound_action_silent(
    vals: Seq<(Seq<char>, int)>,
    keyboard: Seq<(u32, Seq<char>)>,
    mouse_buttons: Seq<(u32, Seq<char>)>,
    mouse_axes: Seq<(u32, Seq<char>)>,
    gamepad_buttons: Seq<(u32, Seq<char>)>,
    gamepad_axes: Seq<(u32, Seq<char>)>,
    keys_down: Seq<u32>,
    mouse_down: Seq<u32>,
    mouse_readings: Seq<(u32, int)>,
    gamepad_down: Seq<u32>,
    gamepad_readings: Seq<(u32, int)>,
    n: Seq<char>,
)
    requires
        assoc_wf(vals),
        !assoc_has(vals, n),
        !bound_action(keyboard, n),
        !bound_action(mouse_buttons, n),
        !bound_action(mouse_axes, n),
        !bound_action(gamepad_buttons, n),
        !bound_action(gamepad_axes, n),
    ensures
        ({
            let after = spec_frame_values(
                vals,
                keyboard,
                mouse_buttons,
                mouse_axes,
                gamepad_buttons,
                gamepad_axes,
                keys_down,
                mouse_down,
                mouse_readings,
                gamepad_down,
                gamepad_readings,
            );
            &&& !assoc_has(after, n)
            &&& value_of(after, n) == 0
            &&& notes_for(frame_notes(vals, after), n) == Seq::<
                (NotificationKind, Seq<char>, int),
            >::empty()
            &&& forall|j: int|
                0 <= j < frame_notes(vals, after).len() ==> (#[trigger] frame_notes(
                    vals,
                    after,
                )[j]).1 != n
        }),
{
    let v1 = button_pass(vals, keyboard, keys_down);
    lemma_button_pass(vals, keyboard, keys_down);
    let v2 = button_pass(v1, mouse_buttons, mouse_down);
    lemma_button_pass(v1, mouse_buttons, mouse_down);
    let v3 = axis_pass(v2, mouse_axes, mouse_readings);
    lemma_axis_pass(v2, mouse_axes, mouse_readings);
    let v4 = button_pass(v3, gamepad_buttons, gamepad_down);
    lemma_button_pass(v3, gamepad_buttons, gamepad_down);
    let v5 = axis_pass(v4, gamepad_axes, gamepad_readings);
    lemma_axis_pass(v4, gamepad_axes, gamepad_readings);
    let after = spec_frame_values(
        vals,
        keyboard,
        mouse_buttons,
        mouse_axes,
        gamepad_buttons,
        gamepad_axes,
        keys_down,
        mouse_down,
        mouse_readings,
        gamepad_down,
        gamepad_readings,
    );
    assert(after == v5);
    assert(!assoc_has(after, n));
    lemma_edge_notes_for_name(vals, after, n);
    lemma_active_notes_for_name(after, n);
    lemma_notes_for_add(edge_notes(vals, after), active_notes(after), n);
    assert(notes_for(frame_notes(vals, after), n) =~= Seq::<
        (NotificationKind, Seq<char>, int),
    >::empty());
    lemma_notes_for_member(frame_notes(vals, after), n);
    assert forall|j: int| 0 <= j < frame_notes(vals, after).len() implies (
    #[trigger] frame_notes(vals, after)[j]).1 != n by {
        if frame_notes(vals, after)[j].1 == n {
            assert(notes_for(frame_notes(vals, after), n).contains(frame_notes(vals, after)[j]));
        }
    }
}

/// Binding a physical input and unbinding it again, before any aggregation
/// pass reads the table, leaves every other binding untouched and the input
/// unbound; for an input that was not bound before, the table is restored
/// exactly. Since the frame's values and notifications are a pure function
/// of the tables and state, nothing of the action is affected by that
/// input. (An input that *was* bound before loses its old binding: the
/// tables differ there, though the input still drives nothing.)
pub proof fn lemma_bind_then_unbind_no_effect(t: Seq<(u32, Seq<char>)>, k: u32, a: Seq<char>)
    requires
        assoc_wf(t),
    ensures
        !assoc_has(t, k) ==> assoc_remove(assoc_set(t, k, a), k) == t,
        !assoc_has(assoc_remove(assoc_set(t, k, a), k), k),
        forall|k2: u32|
            k2 != k ==> #[trigger] assoc_has(assoc_remove(assoc_set(t, k, a), k), k2)
                == assoc_has(t, k2),
        forall|k2: u32|
            k2 != k && assoc_has(t, k2) ==> #[trigger] assoc_get(
                assoc_remove(assoc_set(t, k, a), k),
                k2,
            ) == assoc_get(t, k2),
{
    if !assoc_has(t, k) {
        lemma_assoc_set_remove_roundtrip(t, k, a);
    }
    let t1 = assoc_set(t, k, a);
    lemma_assoc_set_wf(t, k, a);
    lemma_assoc_remove_get(t1, k, k);
    assert forall|k2: u32|
        #![trigger assoc_has(assoc_remove(t1, k), k2)]
        #![trigger assoc_get(assoc_remove(t1, k), k2)]
        k2 != k implies assoc_has(assoc_remove(t1, k), k2) == assoc_has(t, k2) && (assoc_has(
        t,
        k2,
    ) ==> assoc_get(assoc_remove(t1, k), k2) == assoc_get(t, k2)) by {
        lemma_assoc_set_other(t, k, a, k2);
        lemma_assoc_remove_get(t1, k, k2);
    }
}

/// Edge-classification determinism: the values after a frame and the
/// frame's notification sequence depend on nothing but the starting values,
/// the binding tables and the frame's raw device state, so re-running an
/// identical sequence of snapshots reproduces an identical notification
/// sequence frame by frame.
pub proof fn lemma_frame_deterministic(
    vals1: Seq<(Seq<char>, int)>,
    vals2: Seq<(Seq<char>, int)>,
    keyboard: Seq<(u32, Seq<char>)>,
    mouse_buttons: Seq<(u32, Seq<char>)>,
    mouse_axes: Seq<(u32, Seq<char>)>,
    gamepad_buttons: Seq<(u32, Seq<char>)>,
    gamepad_axes: Seq<(u32, Seq<char>)>,
    keys_down: Seq<u32>,
    mouse_down: Seq<u32>,
    mouse_readings: Seq<(u32, int)>,
    gamepad_down: Seq<u32>,
    gamepad_readings: Seq<(u32, int)>,
)
    requires
        vals1 == vals2,
    ensures
        ({
            let after1 = spec_frame_values(
                vals1,
                keyboard,
                mouse_buttons,
                mouse_axes,
                gamepad_buttons,
                gamepad_axes,
                keys_down,
                mouse_down,
                mouse_readings,
                gamepad_down,
                gamepad_readings,
            );
            let after2 = spec_frame_values(
                vals2,
                keyboard,
                mouse_buttons,
                mouse_axes,
                gamepad_buttons,
                gamepad_axes,
                keys_down,
                mouse_down,
                mouse_readings,
                gamepad_down,
                gamepad_readings,
            );
            after1 == after2 && frame_notes(vals1, after1) == frame_notes(vals2, after2)
        }),
{
}

/// First-frame guarantee: an action whose previous value reads zero (in
/// particular any action before the very first frame, when the previous
/// mapping is empty) is classified Started when it is active now — one
/// Started and one Active notification, both carrying the current value —
/// and is never classified Continuing.
pub proof fn lemma_started_when_previous_zero(
    prev: Seq<(Seq<char>, int)>,
    curr: Seq<(Seq<char>, int)>,
    n: Seq<char>,
)
    requires
        assoc_wf(curr),
        value_of(prev, n) == 0,
    ensures
        assoc_has(curr, n) && assoc_get(curr, n) != 0 ==> notes_for(frame_notes(prev, curr), n)
            == seq![
            (NotificationKind::Started, n, assoc_get(curr, n)),
            (NotificationKind::Active, n, assoc_get(curr, n)),
        ],
        forall|j: int|
            0 <= j < frame_notes(prev, curr).len() ==> !((#[trigger] frame_notes(prev, curr)[j]).1
                == n && frame_notes(prev, curr)[j].0 == NotificationKind::Continuing),
{
    lemma_edge_notes_for_name(prev, curr, n);
    lemma_active_notes_for_name(curr, n);
    lemma_notes_for_add(edge_notes(prev, curr), active_notes(curr), n);
    let all = frame_notes(prev, curr);
    let mine = notes_for(all, n);
    if assoc_has(curr, n) && assoc_get(curr, n) != 0 {
        assert(edge_note_of(prev, n, assoc_get(curr, n)) == seq![
            (NotificationKind::Started, n, assoc_get(curr, n)),
        ]);
        assert(mine =~= seq![
            (NotificationKind::Started, n, assoc_get(curr, n)),
            (NotificationKind::Active, n, assoc_get(curr, n)),
        ]);
    }
    assert(forall|j: int|
        0 <= j < mine.len() ==> (#[trigger] mine[j]).0 != NotificationKind::Continuing);
    lemma_notes_for_member(all, n);
    assert forall|j: int| 0 <= j < all.len() implies !((#[trigger] all[j]).1 == n && all[j].0
        == NotificationKind::Continuing) by {
        if all[j].1 == n {
            assert(mine.contains(all[j]));
            let i = choose|i: int| 0 <= i < mine.len() && mine[i] == all[j];
            assert(mine[i].0 != NotificationKind::Continuing);
        }
    }
}

/// Level-triggered guarantee: every frame in which an action's current
/// value is nonzero emits exactly one Active notification for it, carrying
/// exactly that value — however many consecutive frames that holds.
pub proof fn lemma_active_fires_when_nonzero(
    prev: Seq<(Seq<char>, int)>,
    curr: Seq<(Seq<char>, int)>,
    n: Seq<char>,
)
    requires
        assoc_wf(curr),
        assoc_has(curr, n),
        assoc_get(curr, n) != 0,
    ensures
        notes_for(active_notes(curr), n) == seq![
            (NotificationKind::Active, n, assoc_get(curr, n)),
        ],
        frame_notes(prev, curr).contains((NotificationKind::Active, n, assoc_get(curr, n))),
{
    lemma_active_notes_for_name(curr, n);
    let note = (NotificationKind::Active, n, assoc_get(curr, n));
    lemma_notes_for_subset(active_notes(curr), n);
    assert(notes_for(active_notes(curr), n)[0] == note);
    assert(active_notes(curr).contains(note));
    let i = choose|i: int| 0 <= i < active_notes(curr).len() && active_notes(curr)[i] == note;
    assert(frame_notes(prev, curr)[edge_notes(prev, curr).len() + i] == note);
}

} // verus!

//! The input mapper: one state object owning the five binding tables and the
//! current and previous action-value mappings, together with the per-frame
//! cycle that drives them.
//!
//! The frame cycle runs in a strict order: first the current values are
//! snapshotted into the previous values, then each device category's
//! aggregation pass updates the current values from freshly sampled raw
//! device state, and finally the previous and current values are compared to
//! emit the frame's notifications.

use vstd::prelude::*;

use crate::aggregate::AxisReading;
use crate::aggregate::axis_move_pass;
use crate::aggregate::axis_pass;
use crate::aggregate::button_pass;
use crate::aggregate::button_press_pass;
use crate::aggregate::lemma_axis_pass;
use crate::aggregate::lemma_button_pass;
use crate::aggregate::readings_view;
use crate::assoc::assoc_has;
use crate::binding::BindingTable;
use crate::classify::Notification;
use crate::classify::emit_frame_notes;
use crate::classify::frame_notes;
use crate::classify::notes_view;
use crate::values::ActionValues;
use crate::values::value_of;

verus! {

/// One frame's raw device state, sampled by the host: the pressed keys and
/// buttons of each category, and the axis readings of each axis category.
pub struct DeviceFrame {
    pub pressed_keys: Vec<u32>,
    pub pressed_mouse_buttons: Vec<u32>,
    pub mouse_axes: Vec<AxisReading>,
    pub pressed_gamepad_buttons: Vec<u32>,
    pub gamepad_axes: Vec<AxisReading>,
}

/// The action values after one frame's aggregation: a button pass per
/// button category and an axis pass per axis category, in the fixed order
/// keyboard keys, mouse buttons, mouse axes, gamepad buttons, gamepad axes.
pub open spec fn spec_frame_values(
    vals: Seq<(Seq<char>, int)>,
    keyboard: Seq<(u32, Seq<char>)>,
    mouse_buttons: Seq<(u32, Seq<char>)>,
    mouse_axes: Seq<(u32, Seq<char>)>,
    gamepad_buttons: Seq<(u32, Seq<char>)>,
    gamepad_axes: Seq<(u32, Seq<char>)>,
    keys_down: Seq<u32>,
    mouse_down: Seq<u32>,
    mouse_readings: Seq<(u32, int)>,
    gamepad_down: Seq<u32>,
    gamepad_readings: Seq<(u32, int)>,
) -> Seq<(Seq<char>, int)> {
    axis_pass(
        button_pass(
            axis_pass(
                button_pass(button_pass(vals, keyboard, keys_down), mouse_buttons, mouse_down),
                mouse_axes,
                mouse_readings,
            ),
            gamepad_buttons,
            gamepad_down,
        ),
        gamepad_axes,
        gamepad_readings,
    )
}

/// The process-wide input-mapper state: current and previous action values,
/// and one binding table per physical-input category. Constructed at
/// startup, mutated by bind / unbind calls and by the per-frame cycle, and
/// dropped at shutdown; there is no other lifecycle.
pub struct InputMapper {
    pub action_value: ActionValues,
    pub previous_action_value: ActionValues,
    pub keyboard_binding: BindingTable,
    pub mouse_button_binding: BindingTable,
    pub mouse_axis_binding: BindingTable,
    pub gamepad_axis_binding: BindingTable,
    pub gamepad_button_binding: BindingTable,
}

impl InputMapper {
    /// The mapper's invariant: every component is well formed, and every
    /// action name in the previous values is also in the current values
    /// (the previous mapping is a snapshot of an earlier current mapping,
    /// and aggregation never removes a name).
    pub open spec fn wf(&self) -> bool {
        &&& self.action_value.wf()
        &&& self.previous_action_value.wf()
        &&& self.keyboard_binding.wf()
        &&& self.mouse_button_binding.wf()
        &&& self.mouse_axis_binding.wf()
        &&& self.gamepad_axis_binding.wf()
        &&& self.gamepad_button_binding.wf()
        &&& forall|a: Seq<char>|
            #[trigger] assoc_has(self.previous_action_value@, a) ==> assoc_has(
                self.action_value@,
                a,
            )
    }

    /// A fresh mapper: no bindings, and both value mappings empty, so the
    /// first frame classifies every active action as Started.
    pub fn new() -> (m: InputMapper)
        ensures
            m.wf(),
            m.action_value@ == Seq::<(Seq<char>, int)>::empty(),
            m.previous_action_value@ == Seq::<(Seq<char>, int)>::empty(),
            m.keyboard_binding@ == Seq::<(u32, Seq<char>)>::empty(),
            m.mouse_button_binding@ == Seq::<(u32, Seq<char>)>::empty(),
            m.mouse_axis_binding@ == Seq::<(u32, Seq<char>)>::empty(),
            m.gamepad_axis_binding@ == Seq::<(u32, Seq<char>)>::empty(),
            m.gamepad_button_binding@ == Seq::<(u32, Seq<char>)>::empty(),
    {
        InputMapper {
            action_value: ActionValues::new(),
            previous_action_value: ActionValues::new(),
            keyboard_binding: BindingTable::new(),
            mouse_button_binding: BindingTable::new(),
            mouse_axis_binding: BindingTable::new(),
            gamepad_axis_binding: BindingTable::new(),
            gamepad_button_binding: BindingTable::new(),
        }
    }

    /// Poll the current value of an action by name: its aggregated value
    /// this frame, or zero when the name is absent (bound to nothing).
    pub fn current_value(&self, name: &String) -> (r: i32)
        requires
            self.wf(),
        ensures
            r as int == value_of(self.action_value@, name@),
    {
        self.action_value.value(name)
    }

    /// Step 1 of the frame cycle: snapshot the current values as the
    /// previous values.
    pub fn snapshot_previous(&mut self)
        requires
            old(self).wf(),
        ensures
            final(self).wf(),
            final(self).previous_action_value@ == old(self).action_value@,
            final(self).action_value@ == old(self).action_value@,
            final(self).keyboard_binding@ == old(self).keyboard_binding@,
            final(self).mouse_button_binding@ == old(self).mouse_button_binding@,
            final(self).mouse_axis_binding@ == old(self).mouse_axis_binding@,
            final(self).gamepad_axis_binding@ == old(self).gamepad_axis_binding@,
            final(self).gamepad_button_binding@ == old(self).gamepad_button_binding@,
    {
        self.previous_action_value = self.action_value.duplicate();
    }

    /// Keyboard aggregation: a button pass of the pressed keys against the
    /// keyboard binding table.
    pub fn keyboard_key_press_system(&mut self, keys_down: &Vec<u32>)
        requires
            old(self).wf(),
        ensures
            final(self).wf(),
            final(self).action_value@ == button_pass(
                old(self).action_value@,
                old(self).keyboard_binding@,
                keys_down@,
            ),
            final(self).previous_action_value@ == old(self).previous_action_value@,
            final(self).keyboard_binding@ == old(self).keyboard_binding@,
            final(self).mouse_button_binding@ == old(self).mouse_button_binding@,
            final(self).mouse_axis_binding@ == old(self).mouse_axis_binding@,
            final(self).gamepad_axis_binding@ == old(self).gamepad_axis_binding@,
            final(self).gamepad_button_binding@ == old(self).gamepad_button_binding@,
    {
        proof {
            lemma_button_pass(self.action_value@, self.keyboard_binding@, keys_down@);
        }
        button_press_pass(&mut self.action_value, &self.keyboard_binding, keys_down);
    }

    /// Mouse-button aggregation: a button pass of the pressed mouse buttons
    /// against the mouse-button binding table.
    pub fn mouse_button_press_system(&mut self, buttons_down: &Vec<u32>)
        requires
            old(self).wf(),
        ensures
            final(self).wf(),
            final(self).action_value@ == button_pass(
                old(self).action_value@,
                old(self).mouse_button_binding@,
                buttons_down@,
            ),
            final(self).previous_action_value@ == old(self).previous_action_value@,
            final(self).keyboard_binding@ == old(self).keyboard_binding@,
            final(self).mouse_button_binding@ == old(self).mouse_button_binding@,
            final(self).mouse_axis_binding@ == old(self).mouse_axis_binding@,
            final(self).gamepad_axis_binding@ == old(self).gamepad_axis_binding@,
            final(self).gamepad_button_binding@ == old(self).gamepad_button_binding@,
    {
        proof {
            lemma_button_pass(self.action_value@, self.mouse_button_binding@, buttons_down@);
        }
        button_press_pass(&mut self.action_value, &self.mouse_button_binding, buttons_down);
    }

    /// Mouse-axis aggregation: an axis pass of the frame's mouse-axis
    /// readings against the mouse-axis binding table.
    pub fn mouse_axis_move_system(&mut self, readings: &Vec<AxisReading>)
        requires
            old(self).wf(),
        ensures
            final(self).wf(),
            final(self).action_value@ == axis_pass(
                old(self).action_value@,
                old(self).mouse_axis_binding@,
                readings_view(readings@),
            ),
            final(self).previous_action_value@ == old(self).previous_action_value@,
            final(self).keyboard_binding@ == old(self).keyboard_binding@,
            final(self).mouse_button_binding@ == old(self).mouse_button_binding@,
            final(self).mouse_axis_binding@ == old(self).mouse_axis_binding@,
            final(self).gamepad_axis_binding@ == old(self).gamepad_axis_binding@,
            final(self).gamepad_button_binding@ == old(self).gamepad_button_binding@,
    {
        proof {
            lemma_axis_pass(self.action_value@, self.mouse_axis_binding@, readings_view(readings@));
        }
        axis_move_pass(&mut self.action_value, &self.mouse_axis_binding, readings);
    }

    /// Gamepad-button aggregation: a button pass of the pressed gamepad
    /// buttons against the gamepad-button binding table.
    pub fn gamepad_button_press_system(&mut self, buttons_down: &Vec<u32>)
        requires
            old(self).wf(),
        ensures
            final(self).wf(),
            final(self).action_value@ == button_pass(
                old(self).action_value@,
                old(self).gamepad_button_binding@,
                buttons_down@,
            ),
            final(self).previous_action_value@ == old(self).previous_action_value@,
            final(self).keyboard_binding@ == old(self).keyboard_binding@,
            final(self).mouse_button_binding@ == old(self).mouse_button_binding@,
            final(self).mouse_axis_binding@ == old(self).mouse_axis_binding@,
            final(self).gamepad_axis_binding@ == old(self).gamepad_axis_binding@,
            final(self).gamepad_button_binding@ == old(self).gamepad_button_binding@,
    {
        proof {
            lemma_button_pass(self.action_value@, self.gamepad_button_binding@, buttons_down@);
        }
        button_press_pass(&mut self.action_value, &self.gamepad_button_binding, buttons_down);
    }

    /// Gamepad-axis aggregation: an axis pass of the frame's gamepad-axis
    /// readings against the gamepad-axis binding table.
    pub fn gamepad_axis_move_system(&mut self, readings: &Vec<AxisReading>)
        requires
            old(self).wf(),
        ensures
            final(self).wf(),
            final(self).action_value@ == axis_pass(
                old(self).action_value@,
                old(self).gamepad_axis_binding@,
                readings_view(readings@),
            ),
            final(self).previous_action_value@ == old(self).previous_action_value@,
            final(self).keyboard_binding@ == old(self).keyboard_binding@,
            final(self).mouse_button_binding@ == old(self).mouse_button_binding@,
            final(self).mouse_axis_binding@ == old(self).mouse_axis_binding@,
            final(self).gamepad_axis_binding@ == old(self).gamepad_axis_binding@,
            final(self).gamepad_button_binding@ == old(self).gamepad_button_binding@,
    {
        proof {
            lemma_axis_pass(
                self.action_value@,
                self.gamepad_axis_binding@,
                readings_view(readings@),
            );
        }
        axis_move_pass(&mut self.action_value, &self.gamepad_axis_binding, readings);
    }

    /// Step 3 of the frame cycle: classify every action's transition from
    /// the previous to the current values and collect the frame's
    /// notifications.
    pub fn event_cycle(&self) -> (notes: Vec<Notification>)
        requires
            self.wf(),
        ensures
            notes_view(notes@) == frame_notes(self.previous_action_value@, self.action_value@),
    {
        emit_frame_notes(&self.previous_action_value, &self.action_value)
    }

    /// One whole frame, in the strict order the design requires: snapshot
    /// the previous values, aggregate every device category from the
    /// sampled device state, then classify and emit the notifications.
    /// The notifications and the new values are a pure function of the old
    /// state and the frame's raw device state.
    pub fn frame_cycle(&mut self, frame: &DeviceFrame) -> (notes: Vec<Notification>)
        requires
            old(self).wf(),
        ensures
            final(self).wf(),
            final(self).previous_action_value@ == old(self).action_value@,
            final(self).action_value@ == spec_frame_values(
                old(self).action_value@,
                old(self).keyboard_binding@,
                old(self).mouse_button_binding@,
                old(self).mouse_axis_binding@,
                old(self).gamepad_button_binding@,
                old(self).gamepad_axis_binding@,
                frame.pressed_keys@,
                frame.pressed_mouse_buttons@,
                readings_view(frame.mouse_axes@),
                frame.pressed_gamepad_buttons@,
                readings_view(frame.gamepad_axes@),
            ),
            notes_view(notes@) == frame_notes(
                old(self).action_value@,
                final(self).action_value@,
            ),
            final(self).keyboard_binding@ == old(self).keyboard_binding@,
            final(self).mouse_button_binding@ == old(self).mouse_button_binding@,
            final(self).mouse_axis_binding@ == old(self).mouse_axis_binding@,
            final(self).gamepad_axis_binding@ == old(self).gamepad_axis_binding@,
            final(self).gamepad_button_binding@ == old(self).gamepad_button_binding@,
    {
        self.snapshot_previous();
        self.keyboard_key_press_system(&frame.pressed_keys);
        self.mouse_button_press_system(&frame.pressed_mouse_buttons);
        self.mouse_axis_move_system(&frame.mouse_axes);
        self.gamepad_button_press_system(&frame.pressed_gamepad_buttons);
        self.gamepad_axis_move_system(&frame.gamepad_axes);
        self.event_cycle()
    }
}

} // verus!

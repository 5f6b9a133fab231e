//! Binding-table behaviour: last-write-wins, unbind as a no-op on unbound
//! inputs, and the bind-then-unbind round trip.

use input_mapper::AutoBinder;
use input_mapper::BindingTable;
use input_mapper::DeviceFrame;
use input_mapper::FULL_VALUE;
use input_mapper::InputMapper;
use input_mapper::classify;
use input_mapper::ActionTransition;

fn keys_frame(keys: Vec<u32>) -> DeviceFrame {
    DeviceFrame {
        pressed_keys: keys,
        pressed_mouse_buttons: Vec::new(),
        mouse_axes: Vec::new(),
        pressed_gamepad_buttons: Vec::new(),
        gamepad_axes: Vec::new(),
    }
}

#[test]
fn bind_inserts_and_lookup_finds() {
    let mut t = BindingTable::new();
    t.bind(10, "walk".to_string());
    t.bind(11, "run".to_string());
    assert_eq!(t.len(), 2);
    assert_eq!(t.bound_action(10).map(String::as_str), Some("walk"));
    assert_eq!(t.bound_action(11).map(String::as_str), Some("run"));
    assert_eq!(t.bound_action(12), None);
}

#[test]
fn rebinding_an_input_replaces_silently() {
    let mut t = BindingTable::new();
    t.bind(10, "walk".to_string());
    t.bind(10, "sprint".to_string());
    assert_eq!(t.len(), 1);
    assert_eq!(t.bound_action(10).map(String::as_str), Some("sprint"));
}

#[test]
fn unbind_of_unbound_input_is_a_noop() {
    let mut t = BindingTable::new();
    t.bind(10, "walk".to_string());
    t.unbind(99);
    assert_eq!(t.len(), 1);
    assert_eq!(t.bound_action(10).map(String::as_str), Some("walk"));
}

#[test]
fn bind_then_unbind_before_aggregation_leaves_no_trace() {
    let mut mapper = InputMapper::new();
    mapper.keyboard_binding.bind(10, "walk".to_string());

    // Bind a second key to another action and take it back before any
    // aggregation pass runs: the frame must look as if it never happened.
    mapper.keyboard_binding.bind(20, "dash".to_string());
    mapper.keyboard_binding.unbind(20);

    let notes = mapper.frame_cycle(&keys_frame(vec![10, 20]));
    assert!(notes.iter().all(|n| n.action == "walk"));
    assert_eq!(mapper.current_value(&"dash".to_string()), 0);
    assert_eq!(mapper.current_value(&"walk".to_string()), FULL_VALUE);
}

#[test]
fn rebound_key_drives_only_its_new_action() {
    let mut mapper = InputMapper::new();
    mapper.keyboard_binding.bind(5, "old_action".to_string());
    mapper.keyboard_binding.bind(5, "new_action".to_string());
    let notes = mapper.frame_cycle(&keys_frame(vec![5]));
    assert!(notes.iter().all(|n| n.action == "new_action"));
    assert_eq!(mapper.current_value(&"old_action".to_string()), 0);
    assert_eq!(
        mapper.current_value(&"new_action".to_string()),
        FULL_VALUE
    );
}

#[test]
fn transition_table_of_the_classifier() {
    assert_eq!(classify(0, 0), ActionTransition::Inactive);
    assert_eq!(classify(0, FULL_VALUE), ActionTransition::Started);
    assert_eq!(classify(0, -250), ActionTransition::Started);
    assert_eq!(classify(FULL_VALUE, FULL_VALUE), ActionTransition::Continuing);
    assert_eq!(classify(500, -500), ActionTransition::Continuing);
    assert_eq!(classify(FULL_VALUE, 0), ActionTransition::Finished);
    assert_eq!(classify(-1, 0), ActionTransition::Finished);
}

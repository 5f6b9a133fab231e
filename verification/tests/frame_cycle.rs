//! Frame-cycle scenarios: edge classification, level-triggered Active
//! notifications, and multi-source aggregation across whole frames.

use input_mapper::AutoBinder;
use input_mapper::AxisReading;
use input_mapper::DeviceFrame;
use input_mapper::FULL_VALUE;
use input_mapper::InputMapper;
use input_mapper::Notification;
use input_mapper::NotificationKind;

const SPACE: u32 = 44;
const KEY_A: u32 = 4;
const KEY_B: u32 = 5;

fn empty_frame() -> DeviceFrame {
    DeviceFrame {
        pressed_keys: Vec::new(),
        pressed_mouse_buttons: Vec::new(),
        mouse_axes: Vec::new(),
        pressed_gamepad_buttons: Vec::new(),
        gamepad_axes: Vec::new(),
    }
}

fn keys_frame(keys: Vec<u32>) -> DeviceFrame {
    let mut f = empty_frame();
    f.pressed_keys = keys;
    f
}

fn note(kind: NotificationKind, action: &str, value: i32) -> Notification {
    Notification {
        kind,
        action: action.to_string(),
        value,
    }
}

#[test]
fn jump_scenario_three_frames() {
    let mut mapper = InputMapper::new();
    mapper.keyboard_binding.bind(SPACE, "jump".to_string());

    // Frame 1: Space pressed.
    let notes = mapper.frame_cycle(&keys_frame(vec![SPACE]));
    assert_eq!(
        notes,
        vec![
            note(NotificationKind::Started, "jump", FULL_VALUE),
            note(NotificationKind::Active, "jump", FULL_VALUE),
        ]
    );
    assert_eq!(mapper.current_value(&"jump".to_string()), FULL_VALUE);

    // Frame 2: Space still pressed.
    let notes = mapper.frame_cycle(&keys_frame(vec![SPACE]));
    assert_eq!(
        notes,
        vec![
            note(NotificationKind::Continuing, "jump", FULL_VALUE),
            note(NotificationKind::Active, "jump", FULL_VALUE),
        ]
    );

    // Frame 3: Space released — Finished carries the value it finished from,
    // and no Active fires.
    let notes = mapper.frame_cycle(&keys_frame(vec![]));
    assert_eq!(
        notes,
        vec![note(NotificationKind::Finished, "jump", FULL_VALUE)]
    );
    assert_eq!(mapper.current_value(&"jump".to_string()), 0);
}

#[test]
fn multi_source_button_aggregation() {
    let mut mapper = InputMapper::new();
    mapper.keyboard_binding.bind(KEY_A, "fire".to_string());
    mapper.keyboard_binding.bind(KEY_B, "fire".to_string());

    // Press A only: the action starts.
    let notes = mapper.frame_cycle(&keys_frame(vec![KEY_A]));
    assert_eq!(
        notes,
        vec![
            note(NotificationKind::Started, "fire", FULL_VALUE),
            note(NotificationKind::Active, "fire", FULL_VALUE),
        ]
    );

    // Press B as well: still one action, continuing.
    let notes = mapper.frame_cycle(&keys_frame(vec![KEY_A, KEY_B]));
    assert_eq!(
        notes,
        vec![
            note(NotificationKind::Continuing, "fire", FULL_VALUE),
            note(NotificationKind::Active, "fire", FULL_VALUE),
        ]
    );

    // Release A while B is still held: no Finished — the value stays full.
    let notes = mapper.frame_cycle(&keys_frame(vec![KEY_B]));
    assert_eq!(
        notes,
        vec![
            note(NotificationKind::Continuing, "fire", FULL_VALUE),
            note(NotificationKind::Active, "fire", FULL_VALUE),
        ]
    );
    assert_eq!(mapper.current_value(&"fire".to_string()), FULL_VALUE);

    // Release B too: now the action finishes.
    let notes = mapper.frame_cycle(&keys_frame(vec![]));
    assert_eq!(
        notes,
        vec![note(NotificationKind::Finished, "fire", FULL_VALUE)]
    );
}

#[test]
fn first_frame_activity_is_started_never_continuing() {
    let mut mapper = InputMapper::new();
    mapper.keyboard_binding.bind(SPACE, "jump".to_string());
    let notes = mapper.frame_cycle(&keys_frame(vec![SPACE]));
    assert!(notes
        .iter()
        .all(|n| n.kind != NotificationKind::Continuing));
    assert_eq!(notes[0].kind, NotificationKind::Started);
}

#[test]
fn unbound_action_reads_zero_and_stays_silent() {
    let mut mapper = InputMapper::new();
    mapper.keyboard_binding.bind(SPACE, "jump".to_string());
    assert_eq!(mapper.current_value(&"ghost".to_string()), 0);
    for _ in 0..3 {
        let notes = mapper.frame_cycle(&keys_frame(vec![SPACE]));
        assert!(notes.iter().all(|n| n.action != "ghost"));
        assert_eq!(mapper.current_value(&"ghost".to_string()), 0);
        // The unbound name stays absent, not stored as zero.
        assert!(!mapper.action_value.contains_action(&"ghost".to_string()));
    }
}

#[test]
fn active_fires_every_nonzero_frame_with_current_magnitude() {
    let mut mapper = InputMapper::new();
    mapper.gamepad_axis_binding.bind(1, "look".to_string());

    let mut frame = empty_frame();
    frame.gamepad_axes = vec![AxisReading {
        axis: 1,
        value: 250,
    }];
    let notes = mapper.frame_cycle(&frame);
    assert_eq!(
        notes,
        vec![
            note(NotificationKind::Started, "look", 250),
            note(NotificationKind::Active, "look", 250),
        ]
    );

    // The magnitude changes while held: Active reports the new value.
    let mut frame = empty_frame();
    frame.gamepad_axes = vec![AxisReading {
        axis: 1,
        value: -500,
    }];
    let notes = mapper.frame_cycle(&frame);
    assert_eq!(
        notes,
        vec![
            note(NotificationKind::Continuing, "look", -500),
            note(NotificationKind::Active, "look", -500),
        ]
    );

    // Back to rest: Finished, and no Active.
    let mut frame = empty_frame();
    frame.gamepad_axes = vec![AxisReading { axis: 1, value: 0 }];
    let notes = mapper.frame_cycle(&frame);
    assert_eq!(notes, vec![note(NotificationKind::Finished, "look", -500)]);
}

#[test]
fn axis_bound_last_wins_over_shared_action() {
    let mut mapper = InputMapper::new();
    mapper.mouse_axis_binding.bind(1, "cam".to_string());
    mapper.mouse_axis_binding.bind(2, "cam".to_string());
    let mut frame = empty_frame();
    frame.mouse_axes = vec![
        AxisReading {
            axis: 1,
            value: 300,
        },
        AxisReading {
            axis: 2,
            value: 700,
        },
    ];
    mapper.frame_cycle(&frame);
    assert_eq!(mapper.current_value(&"cam".to_string()), 700);
}

#[test]
fn axis_without_reading_defaults_to_zero() {
    let mut mapper = InputMapper::new();
    mapper.mouse_axis_binding.bind(1, "cam".to_string());
    let notes = mapper.frame_cycle(&empty_frame());
    assert!(notes.is_empty());
    assert_eq!(mapper.current_value(&"cam".to_string()), 0);
}

#[test]
fn sources_from_different_categories_share_an_action() {
    let mut mapper = InputMapper::new();
    mapper.keyboard_binding.bind(KEY_A, "forward".to_string());
    mapper
        .gamepad_button_binding
        .bind(7, "forward".to_string());

    // Only the gamepad button is down: the keyboard pass must not clamp the
    // action to zero for good — the gamepad pass runs after it.
    let mut frame = empty_frame();
    frame.pressed_gamepad_buttons = vec![7];
    let notes = mapper.frame_cycle(&frame);
    assert_eq!(
        notes,
        vec![
            note(NotificationKind::Started, "forward", FULL_VALUE),
            note(NotificationKind::Active, "forward", FULL_VALUE),
        ]
    );
}

#[test]
fn identical_runs_reproduce_identical_notifications() {
    let run = || {
        let mut mapper = InputMapper::new();
        mapper.keyboard_binding.bind(SPACE, "jump".to_string());
        mapper.mouse_button_binding.bind(0, "shoot".to_string());
        let mut all: Vec<Notification> = Vec::new();
        let mut frame = keys_frame(vec![SPACE]);
        frame.pressed_mouse_buttons = vec![0];
        all.extend(mapper.frame_cycle(&frame));
        all.extend(mapper.frame_cycle(&keys_frame(vec![SPACE])));
        all.extend(mapper.frame_cycle(&empty_frame()));
        all
    };
    assert_eq!(run(), run());
}

#[test]
fn empty_mapper_frame_emits_nothing() {
    let mut mapper = InputMapper::new();
    let notes = mapper.frame_cycle(&keys_frame(vec![SPACE, KEY_A]));
    assert!(notes.is_empty());
}

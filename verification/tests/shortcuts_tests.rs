use leagueaccounts::shortcuts::{
    take_table_actions, AutoTypeChord, AutoTypeHook, ChordAction, EventKind, InputEvent, Modifiers,
    TableActions,
};

fn delete_event(id: usize) -> InputEvent {
    InputEvent {
        id,
        kind: EventKind::Key { delete: true, pressed: true, repeat: false, modifiers: Modifiers::none() },
    }
}

fn copy_event(id: usize) -> InputEvent {
    InputEvent { id, kind: EventKind::Copy }
}

fn other_event(id: usize) -> InputEvent {
    InputEvent { id, kind: EventKind::Other }
}

fn ctrl_shift() -> Modifiers {
    Modifiers::ctrl().plus(Modifiers::shift())
}

#[test]
fn table_actions_do_not_steal_text_editor_events() {
    let events = vec![copy_event(0), delete_event(1)];
    let mut frame = events.clone();
    assert_eq!(take_table_actions(&mut frame, false), TableActions::default());
    assert_eq!(frame, events);
}

#[test]
fn focused_table_consumes_copy_event_and_delete_but_not_paste() {
    // The paste event is neither a copy nor a key event.
    let mut frame = vec![copy_event(0), delete_event(1), other_event(2)];
    assert_eq!(
        take_table_actions(&mut frame, true),
        TableActions { copy: true, delete: true }
    );
    assert_eq!(frame, vec![other_event(2)]);
}

#[test]
fn repeated_delete_is_consumed_without_deleting_again() {
    // The second frame holds the repeat of the held key.
    for (repeat, expected_delete) in [(false, true), (true, false)] {
        let mut frame = vec![InputEvent {
            id: 0,
            kind: EventKind::Key { delete: true, pressed: true, repeat, modifiers: Modifiers::none() },
        }];
        assert_eq!(take_table_actions(&mut frame, true).delete, expected_delete);
        assert!(frame.is_empty());
    }
}

#[test]
fn modified_delete_is_not_an_account_delete_command() {
    for modifiers in [Modifiers::shift(), Modifiers::alt(), Modifiers::ctrl()] {
        let event = InputEvent {
            id: 0,
            kind: EventKind::Key { delete: true, pressed: true, repeat: false, modifiers },
        };
        let mut frame = vec![event];
        assert_eq!(take_table_actions(&mut frame, true), TableActions::default());
        assert_eq!(frame, vec![event]);
    }
}

#[test]
fn other_keys_and_releases_stay_with_the_widgets() {
    let release = InputEvent {
        id: 0,
        kind: EventKind::Key { delete: true, pressed: false, repeat: false, modifiers: Modifiers::none() },
    };
    let letter = InputEvent {
        id: 1,
        kind: EventKind::Key { delete: false, pressed: true, repeat: false, modifiers: Modifiers::none() },
    };
    let mut frame = vec![release, letter];
    assert_eq!(take_table_actions(&mut frame, true), TableActions::default());
    assert_eq!(frame, vec![release, letter]);
}

#[test]
fn native_chord_triggers_without_a_clipboard_event() {
    let mut chord = AutoTypeChord::default();
    assert_eq!(
        chord.on_v_key(true, false, ctrl_shift()),
        ChordAction { consume: true, trigger: true }
    );
}

#[test]
fn native_chord_swallows_repeats_and_keyup_without_retriggering() {
    let mut chord = AutoTypeChord::default();
    let modifiers = ctrl_shift();
    assert!(chord.on_v_key(true, false, modifiers).trigger);
    assert_eq!(
        chord.on_v_key(true, true, modifiers),
        ChordAction { consume: true, trigger: false }
    );
    // The modifiers may be released before V.
    assert_eq!(
        chord.on_v_key(false, false, Modifiers::none()),
        ChordAction { consume: true, trigger: false }
    );
    assert!(chord.on_v_key(true, false, modifiers).trigger);
}

#[test]
fn native_chord_leaves_normal_paste_and_unrelated_modifiers_alone() {
    for modifiers in [
        Modifiers::none(),
        Modifiers::ctrl(),
        Modifiers::shift(),
        Modifiers::ctrl().plus(Modifiers::shift()).plus(Modifiers::alt()),
    ] {
        let mut chord = AutoTypeChord::default();
        assert_eq!(chord.on_v_key(true, false, modifiers), ChordAction::default());
        assert_eq!(chord.on_v_key(false, false, modifiers), ChordAction::default());
    }
}

#[test]
fn adding_modifiers_to_an_already_held_v_does_not_trigger() {
    let mut chord = AutoTypeChord::default();
    assert_eq!(chord.on_v_key(true, true, ctrl_shift()), ChordAction::default());
}

#[test]
fn captured_repeats_stay_consumed_after_focus_or_modifiers_change() {
    let mut chord = AutoTypeChord::default();
    assert!(chord.on_v_key(true, false, ctrl_shift()).trigger);
    assert_eq!(
        chord.on_v_key(true, true, Modifiers::none()),
        ChordAction { consume: true, trigger: false }
    );
    assert_eq!(
        chord.on_v_key(false, true, Modifiers::none()),
        ChordAction { consume: true, trigger: false }
    );
}

#[test]
fn fresh_press_rearms_when_keyup_went_to_another_window() {
    let mut chord = AutoTypeChord::default();
    let modifiers = ctrl_shift();
    assert!(chord.on_v_key(true, false, modifiers).trigger);
    // A missing key-up must not swallow the next ordinary paste.
    assert_eq!(chord.on_v_key(true, false, Modifiers::ctrl()), ChordAction::default());
    assert!(chord.on_v_key(true, false, modifiers).trigger);
    // A second complete chord can also arrive without a local key-up.
    assert!(chord.on_v_key(true, false, modifiers).trigger);
}

#[test]
fn command_key_or_alt_blocks_the_chord() {
    let mut chord = AutoTypeChord::default();
    let mut cmd = ctrl_shift();
    cmd.mac_cmd = true;
    assert_eq!(chord.on_v_key(true, false, cmd), ChordAction::default());
    assert_eq!(
        chord.on_v_key(true, false, ctrl_shift().plus(Modifiers::alt())),
        ChordAction::default()
    );
}

const REPEAT: u32 = 1 << 30;
const RELEASE: u32 = 1 << 31;

#[test]
fn native_handler_ignores_peeks_and_queues_once_without_clipboard_events() {
    let mut hook = AutoTypeHook::new();
    assert!(!hook.handle_key_message(false, true, 1, true, ctrl_shift()));
    assert!(!hook.take_requested(true));
    assert!(hook.handle_key_message(true, true, 1, true, ctrl_shift()));
    assert!(hook.take_requested(true));
    assert!(!hook.take_requested(true));
    assert!(hook.handle_key_message(true, true, REPEAT | 1, true, ctrl_shift()));
    assert!(!hook.take_requested(true));
    assert!(hook.handle_key_message(true, true, RELEASE | 1, true, ctrl_shift()));
    assert!(!hook.take_requested(true));
}

#[test]
fn native_handler_cancels_stale_requests_and_rearms_after_focus_returns() {
    let mut hook = AutoTypeHook::new();
    assert!(hook.handle_key_message(true, true, 1, true, ctrl_shift()));
    assert!(!hook.take_requested(false));
    assert!(hook.handle_key_message(true, true, REPEAT | 1, false, ctrl_shift()));
    assert!(!hook.take_requested(false));
    assert!(hook.handle_key_message(true, true, RELEASE | 1, false, ctrl_shift()));
    assert!(!hook.handle_key_message(true, true, 1, false, ctrl_shift()));
    assert!(hook.handle_key_message(true, true, 1, true, ctrl_shift()));
    assert!(hook.take_requested(true));
}

#[test]
fn hook_passes_other_keys_through() {
    let mut hook = AutoTypeHook::new();
    assert!(!hook.handle_key_message(true, false, 1, true, ctrl_shift()));
    assert!(!hook.take_requested(true));
}

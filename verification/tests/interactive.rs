use linewise::datatype::DataType;
use linewise::interactive::{parse_verb, split_command, Effect, InteractiveState};
use linewise::keys::{bind, Binding, KeyCode, KeyModifiers, ToggleTarget};
use linewise::locks::{LockOutcome, LockedField};
use linewise::model::{PendingPrefix, Verb};

fn press(state: &mut InteractiveState, keys: &str) {
    for c in keys.chars() {
        state.handle_key(KeyCode::Char(c), KeyModifiers::Plain);
    }
}

fn command(state: &mut InteractiveState, line: &str) -> Effect {
    state.handle_key(KeyCode::Char(':'), KeyModifiers::Plain);
    for c in line.chars() {
        let effect = state.handle_event(KeyCode::Char(c), KeyModifiers::Plain);
        assert!(matches!(effect, Effect::Nothing));
    }
    state.handle_event(KeyCode::Enter, KeyModifiers::Plain)
}

fn message(state: &InteractiveState) -> &str {
    state.message().as_deref().unwrap_or("")
}

fn records(n: usize, len: usize) -> Vec<Vec<u8>> {
    (0..n).map(|i| vec![i as u8; len]).collect()
}

fn field(byte_offset: usize, byte_length: usize, data_type: DataType) -> LockedField {
    LockedField { byte_offset, byte_length, data_type }
}

#[test]
fn new_state() {
    let state = InteractiveState::new(records(3, 4));
    assert_eq!(state.records().len(), 3);
    assert_eq!(state.current_record(), 0);
    assert_eq!(state.field_offset(), 0);
    assert_eq!(state.current_field(), 0);
    assert_eq!(state.current_type(), DataType::U8);
    assert!(state.locked_fields().is_empty());
    assert_eq!(state.scroll_offset(), 0);
    assert_eq!(state.visible_records(), 10);
    assert_eq!(state.message(), &None);
    assert!(!state.command_mode());
    assert!(state.command_buffer().is_empty());
    assert_eq!(state.current_preset(), &None);
    assert!(state.count_buffer().is_empty());
    assert!(!state.frequency_mode());
    assert_eq!(state.pending(), PendingPrefix::Clear);
    assert!(!state.wrap_mode());
    assert_eq!(state.horizontal_scroll(), 0);
    assert_eq!(state.terminal_width(), 80);
    assert!(state.show_locks());
    assert!(state.show_gutter());
}

#[test]
fn count_buffer_values() {
    let mut state = InteractiveState::new(records(100, 1));
    assert_eq!(state.get_count(), 1);
    press(&mut state, "10");
    assert_eq!(state.count_buffer(), &vec!['1', '0']);
    assert_eq!(state.get_count(), 10);
    assert!(state.count_buffer().is_empty());
    assert_eq!(state.get_count(), 1);
    // a count that does not fit the machine stands for one
    press(&mut state, "99999999999999999999999999");
    assert_eq!(state.get_count(), 1);
    // a zero alone never enters the buffer
    press(&mut state, "0");
    assert!(state.count_buffer().is_empty());
    press(&mut state, "7");
    assert_eq!(state.get_count(), 7);
}

#[test]
fn ten_j_moves_down_ten() {
    let mut state = InteractiveState::new(records(100, 1));
    press(&mut state, "10j");
    assert_eq!(state.current_record(), 10);
    assert_eq!(state.scroll_offset(), 1);
    assert!(state.count_buffer().is_empty());
    press(&mut state, "j");
    assert_eq!(state.current_record(), 11);
    press(&mut state, "3k");
    assert_eq!(state.current_record(), 8);
    assert_eq!(state.scroll_offset(), 2);
    press(&mut state, "k");
    assert_eq!(state.current_record(), 7);
    state.handle_key(KeyCode::Down, KeyModifiers::Other);
    assert_eq!(state.current_record(), 8);
    state.handle_key(KeyCode::Up, KeyModifiers::Control);
    assert_eq!(state.current_record(), 7);
}

#[test]
fn cursor_stays_on_a_record_and_in_the_window() {
    let mut state = InteractiveState::new(records(25, 2));
    let check = |state: &InteractiveState| {
        assert!(state.current_record() < 25);
        assert!(state.scroll_offset() <= state.current_record());
        assert!(state.current_record() < state.scroll_offset() + state.visible_records());
    };
    let moves = [
        "j", "j", "30j", "k", "gg", "G", "5k", "12k", "100k", "G", "gg", "9j", "j", "k", "24j",
        "99999999999999999999j", "3k",
    ];
    for m in moves {
        press(&mut state, m);
        check(&state);
    }
    for _ in 0..8 {
        state.handle_key(KeyCode::Char('d'), KeyModifiers::Control);
        check(&state);
    }
    assert_eq!(state.current_record(), 24);
    for _ in 0..8 {
        state.handle_key(KeyCode::PageUp, KeyModifiers::Plain);
        check(&state);
    }
    assert_eq!(state.current_record(), 0);
    state.handle_key(KeyCode::PageDown, KeyModifiers::Plain);
    assert_eq!(state.current_record(), 5);
    state.handle_key(KeyCode::Char('u'), KeyModifiers::Control);
    assert_eq!(state.current_record(), 0);
    state.move_down(usize::MAX);
    assert_eq!(state.current_record(), 24);
    assert_eq!(state.scroll_offset(), 15);
    state.move_up(usize::MAX);
    assert_eq!(state.current_record(), 0);
    assert_eq!(state.scroll_offset(), 0);
}

#[test]
fn moves_without_records() {
    let mut state = InteractiveState::new(vec![]);
    press(&mut state, "jkG");
    assert_eq!(state.current_record(), 0);
    assert_eq!(state.scroll_offset(), 0);
    press(&mut state, "wb$hlL");
    assert_eq!(state.current_field(), 0);
    assert_eq!(message(&state), "Cannot lock: 1 bytes needed, only 0 available");
    press(&mut state, "gg");
    assert_eq!(message(&state), "Jumped to first record");
}

#[test]
fn jumps() {
    let mut state = InteractiveState::new(records(40, 1));
    press(&mut state, "G");
    assert_eq!(state.current_record(), 39);
    assert_eq!(state.scroll_offset(), 30);
    assert_eq!(message(&state), "Jumped to last record");
    press(&mut state, "g");
    assert_eq!(state.pending(), PendingPrefix::SecondG);
    assert_eq!(state.current_record(), 39);
    press(&mut state, "g");
    assert_eq!(state.pending(), PendingPrefix::Clear);
    assert_eq!(state.current_record(), 0);
    assert_eq!(state.scroll_offset(), 0);
    assert_eq!(message(&state), "Jumped to first record");
    // another key between the two ends the command
    press(&mut state, "5jgjg");
    assert_eq!(state.current_record(), 6);
    assert_eq!(state.pending(), PendingPrefix::SecondG);
    // gg consumes no count
    press(&mut state, "x4gg");
    assert_eq!(state.current_record(), 0);
    assert!(state.count_buffer().is_empty());
}

#[test]
fn scenario_lock_twice_then_overlap() {
    let mut state = InteractiveState::new(vec![
        vec![0x21, 0x00, 0x05, 0xFF],
        vec![0x21, 0x01, 0x06, 0xFE],
        vec![0x22, 0x02, 0x07, 0xFD],
    ]);
    press(&mut state, "L");
    assert_eq!(state.locked_fields().fields(), &vec![field(0, 1, DataType::U8)]);
    assert_eq!(message(&state), "Locked u8 at byte 0");
    // two fields on, the cursor stands at byte 2
    press(&mut state, "ww");
    assert_eq!(state.current_field_byte(), 2);
    press(&mut state, "L");
    assert_eq!(
        state.locked_fields().fields(),
        &vec![field(0, 1, DataType::U8), field(2, 1, DataType::U8)]
    );
    assert_eq!(message(&state), "Locked u8 at byte 2");
    press(&mut state, "0");
    assert_eq!(state.current_field_byte(), 0);
    press(&mut state, "L");
    assert_eq!(message(&state), "Cannot lock: overlaps with existing field");
    assert_eq!(state.locked_fields().len(), 2);
}

#[test]
fn l_shifts_the_alignment_and_leaves_the_count() {
    let mut state = InteractiveState::new(vec![vec![0x21, 0x00, 0x05, 0xFF]]);
    press(&mut state, "L");
    // under a one-byte type there is nothing to shift, and the count
    // stays for the lock: two fields from byte 0 on overlap the first lock
    press(&mut state, "2l");
    assert_eq!(state.field_offset(), 0);
    assert_eq!(state.current_field_byte(), 0);
    assert_eq!(state.count_buffer(), &vec!['2']);
    press(&mut state, "L");
    assert_eq!(message(&state), "Cannot lock: overlaps with existing field");
    assert_eq!(state.locked_fields().fields(), &vec![field(0, 1, DataType::U8)]);
}

#[test]
fn lock_with_count_and_messages() {
    let mut state = InteractiveState::new(vec![vec![0; 8]]);
    state.handle_key(KeyCode::Tab, KeyModifiers::Plain);
    assert_eq!(state.current_type(), DataType::U16Le);
    assert_eq!(message(&state), "Type: u16le");
    press(&mut state, "w3L");
    assert_eq!(message(&state), "Locked 3xu16le (6 bytes) at byte 2");
    assert_eq!(state.locked_fields().fields(), &vec![field(2, 6, DataType::U16Le)]);
    press(&mut state, "0");
    press(&mut state, "2L");
    assert_eq!(message(&state), "Cannot lock: overlaps with existing field");
    press(&mut state, "U");
    assert_eq!(message(&state), "Nothing to unlock at cursor");
    assert_eq!(state.locked_fields().fields(), &vec![field(2, 6, DataType::U16Le)]);
    press(&mut state, "wU");
    assert_eq!(message(&state), "Unlocked field");
    assert!(state.locked_fields().is_empty());
    press(&mut state, "$5L");
    assert_eq!(message(&state), "Cannot lock: 10 bytes needed, only 2 available");
    assert_eq!(state.lock_current(1), LockOutcome::Locked(field(6, 2, DataType::U16Le)));
    assert!(state.unlock_at_cursor());
    assert_eq!(message(&state), "Unlocked field");
    assert!(!state.unlock_at_cursor());
    assert_eq!(message(&state), "Nothing to unlock at cursor");
}

#[test]
fn field_moves() {
    let mut state = InteractiveState::new(vec![vec![0; 5], vec![0; 2]]);
    assert_eq!(state.max_fields(), 5);
    press(&mut state, "wwwwwww");
    assert_eq!(state.current_field(), 4);
    press(&mut state, "b");
    assert_eq!(state.current_field(), 3);
    press(&mut state, "0");
    assert_eq!(state.current_field(), 0);
    press(&mut state, "b");
    assert_eq!(state.current_field(), 0);
    press(&mut state, "$");
    assert_eq!(state.current_field(), 4);
    assert_eq!(state.current_field_byte(), 4);
    // on a shorter record the cursor is held within its fields
    press(&mut state, "j");
    assert_eq!(state.current_field(), 4);
    assert_eq!(state.cursor_field(), 1);
    assert_eq!(state.current_field_byte(), 1);
    press(&mut state, "b");
    assert_eq!(state.current_field(), 0);
    press(&mut state, "k$");
    state.handle_key(KeyCode::Tab, KeyModifiers::Plain);
    assert_eq!(state.max_fields(), 2);
    assert_eq!(state.cursor_field(), 1);
    assert_eq!(state.current_field_byte(), 2);
    assert_eq!(state.field_count(9), 4);
    assert_eq!(state.field_count(0), 0);
}

#[test]
fn alignment_shifts_within_the_type_width() {
    let mut state = InteractiveState::new(vec![vec![0; 8], vec![0; 2], vec![]]);
    press(&mut state, "lh");
    assert_eq!(state.field_offset(), 0);
    for _ in 0..3 {
        state.handle_key(KeyCode::Tab, KeyModifiers::Plain);
    }
    assert_eq!(state.current_type(), DataType::U32Le);
    press(&mut state, "lllll");
    assert_eq!(state.field_offset(), 3);
    assert_eq!(state.max_fields(), 1);
    assert_eq!(state.current_field_byte(), 3);
    press(&mut state, "h");
    assert_eq!(state.field_offset(), 2);
    // a narrower type holds the offset within its width
    state.handle_key(KeyCode::BackTab, KeyModifiers::Other);
    assert_eq!(state.current_type(), DataType::U16Be);
    assert_eq!(state.field_offset(), 1);
    assert_eq!(message(&state), "Type: u16be");
    state.handle_key(KeyCode::BackTab, KeyModifiers::Plain);
    state.handle_key(KeyCode::BackTab, KeyModifiers::Plain);
    assert_eq!(state.current_type(), DataType::U8);
    assert_eq!(state.field_offset(), 0);
    state.handle_key(KeyCode::BackTab, KeyModifiers::Plain);
    assert_eq!(state.current_type(), DataType::Ascii);
    // the width of the type bounds the shift, whatever the record holds
    let mut state = InteractiveState::new(vec![vec![0; 2]]);
    for _ in 0..3 {
        state.handle_key(KeyCode::Tab, KeyModifiers::Plain);
    }
    press(&mut state, "lllll");
    assert_eq!(state.field_offset(), 3);
    assert_eq!(state.max_fields(), 0);
    assert_eq!(state.current_field_byte(), 3);
    press(&mut state, "L");
    assert_eq!(message(&state), "Cannot lock: 4 bytes needed, only 0 available");
    assert!(state.render_records(80, 1)[0].cells.is_empty());
    assert_eq!(state.render_records(80, 1)[0].trailing, None);
}

#[test]
fn toggles() {
    let mut state = InteractiveState::new(records(10, 2));
    press(&mut state, "yof");
    assert!(state.frequency_mode());
    assert_eq!(message(&state), "Frequency mode ON");
    assert_eq!(state.pending(), PendingPrefix::Clear);
    press(&mut state, "yof");
    assert!(!state.frequency_mode());
    assert_eq!(message(&state), "Frequency mode OFF");
    press(&mut state, "yow");
    assert!(state.wrap_mode());
    assert_eq!(message(&state), "Wrap ON");
    press(&mut state, "yol");
    assert!(!state.show_locks());
    assert_eq!(message(&state), "Locks OFF");
    press(&mut state, "yog");
    assert!(!state.show_gutter());
    assert_eq!(message(&state), "Gutter OFF");
    press(&mut state, "[g");
    assert!(state.show_gutter());
    assert_eq!(message(&state), "Gutter ON");
    press(&mut state, "[g");
    assert!(state.show_gutter());
    press(&mut state, "]w");
    assert!(!state.wrap_mode());
    assert_eq!(message(&state), "Wrap OFF");
    press(&mut state, "]w[l]f");
    assert!(!state.wrap_mode());
    assert!(state.show_locks());
    assert!(!state.frequency_mode());
    assert_eq!(message(&state), "Frequency mode OFF");
    press(&mut state, "[f");
    assert!(state.frequency_mode());
    assert_eq!(state.frequencies().count_at(0, 3), 1);
}

#[test]
fn a_toggle_clears_the_count() {
    let mut state = InteractiveState::new(records(10, 2));
    press(&mut state, "5yof");
    assert!(state.count_buffer().is_empty());
    press(&mut state, "j");
    assert_eq!(state.current_record(), 1);
}

#[test]
fn any_other_key_ends_a_pending_command() {
    let mut state = InteractiveState::new(records(10, 4));
    press(&mut state, "y");
    assert_eq!(state.pending(), PendingPrefix::LetterO);
    press(&mut state, "o");
    assert_eq!(state.pending(), PendingPrefix::ToggleLetter);
    press(&mut state, "x");
    assert_eq!(state.pending(), PendingPrefix::Clear);
    assert!(!state.frequency_mode());
    press(&mut state, "yjo");
    assert_eq!(state.pending(), PendingPrefix::Clear);
    press(&mut state, "f");
    assert!(!state.frequency_mode());
    press(&mut state, "[");
    assert_eq!(state.pending(), PendingPrefix::OnLetter);
    press(&mut state, "]");
    assert_eq!(state.pending(), PendingPrefix::OffLetter);
    press(&mut state, "y");
    assert_eq!(state.pending(), PendingPrefix::LetterO);
    press(&mut state, "y");
    assert_eq!(state.pending(), PendingPrefix::LetterO);
    press(&mut state, "3");
    assert_eq!(state.pending(), PendingPrefix::Clear);
    press(&mut state, "o");
    assert_eq!(state.pending(), PendingPrefix::Clear);
    press(&mut state, "[");
    state.handle_key(KeyCode::Tab, KeyModifiers::Plain);
    assert_eq!(state.pending(), PendingPrefix::Clear);
    // after a prefix the letters are mode letters, not moves
    press(&mut state, "[w");
    assert_eq!(state.current_field(), 0);
    press(&mut state, "w");
    assert_eq!(state.current_field(), 1);
    state.clear_pending();
    assert_eq!(state.pending(), PendingPrefix::Clear);
}

#[test]
fn unbound_keys_reset_count_and_prefix() {
    let mut state = InteractiveState::new(records(10, 4));
    press(&mut state, "12[");
    state.handle_key(KeyCode::Char('z'), KeyModifiers::Plain);
    assert!(state.count_buffer().is_empty());
    assert_eq!(state.pending(), PendingPrefix::Clear);
    press(&mut state, "4");
    state.handle_key(KeyCode::Char('j'), KeyModifiers::Control);
    assert!(state.count_buffer().is_empty());
    assert_eq!(state.current_record(), 0);
    press(&mut state, "4");
    state.handle_key(KeyCode::Esc, KeyModifiers::Plain);
    assert!(state.count_buffer().is_empty());
    press(&mut state, "4");
    state.handle_key(KeyCode::Tab, KeyModifiers::Other);
    assert!(state.count_buffer().is_empty());
    assert_eq!(state.current_type(), DataType::U8);
}

#[test]
fn key_map() {
    let plain = KeyModifiers::Plain;
    assert_eq!(bind(KeyCode::Char(':'), KeyModifiers::Other), Binding::CommandLine);
    assert_eq!(bind(KeyCode::Tab, plain), Binding::NextType);
    assert_eq!(bind(KeyCode::Tab, KeyModifiers::Control), Binding::Unbound);
    assert_eq!(bind(KeyCode::BackTab, KeyModifiers::Other), Binding::PrevType);
    assert_eq!(bind(KeyCode::Char('h'), plain), Binding::ShiftBackward);
    assert_eq!(bind(KeyCode::Char('h'), KeyModifiers::Other), Binding::Unbound);
    assert_eq!(bind(KeyCode::Char('b'), plain), Binding::PrevField);
    assert_eq!(bind(KeyCode::Char('1'), plain), Binding::Digit('1'));
    assert_eq!(bind(KeyCode::Char('9'), plain), Binding::Digit('9'));
    assert_eq!(bind(KeyCode::Char('0'), plain), Binding::Zero);
    assert_eq!(bind(KeyCode::Char('$'), plain), Binding::LastField);
    assert_eq!(bind(KeyCode::Char('j'), plain), Binding::Down);
    assert_eq!(bind(KeyCode::Down, KeyModifiers::Other), Binding::Down);
    assert_eq!(bind(KeyCode::Char('k'), plain), Binding::Up);
    assert_eq!(bind(KeyCode::Up, plain), Binding::Up);
    assert_eq!(bind(KeyCode::Char('d'), KeyModifiers::Control), Binding::PageDown);
    assert_eq!(bind(KeyCode::Char('d'), plain), Binding::Unbound);
    assert_eq!(bind(KeyCode::PageDown, plain), Binding::PageDown);
    assert_eq!(bind(KeyCode::Char('u'), KeyModifiers::Control), Binding::PageUp);
    assert_eq!(bind(KeyCode::PageUp, KeyModifiers::Other), Binding::PageUp);
    assert_eq!(bind(KeyCode::Char('L'), KeyModifiers::Other), Binding::Lock);
    assert_eq!(bind(KeyCode::Char('U'), plain), Binding::Unlock);
    assert_eq!(bind(KeyCode::Char('G'), KeyModifiers::Control), Binding::LastRecord);
    assert_eq!(bind(KeyCode::Char('y'), plain), Binding::PrefixY);
    assert_eq!(bind(KeyCode::Char('o'), plain), Binding::PrefixO);
    assert_eq!(bind(KeyCode::Char('['), plain), Binding::PrefixOn);
    assert_eq!(bind(KeyCode::Char(']'), plain), Binding::PrefixOff);
    assert_eq!(bind(KeyCode::Char('f'), plain), Binding::Letter(ToggleTarget::Frequency));
    assert_eq!(bind(KeyCode::Char('w'), plain), Binding::Letter(ToggleTarget::Wrap));
    assert_eq!(bind(KeyCode::Char('l'), plain), Binding::Letter(ToggleTarget::ShowLocks));
    assert_eq!(bind(KeyCode::Char('g'), plain), Binding::Letter(ToggleTarget::ShowGutter));
    assert_eq!(bind(KeyCode::Char('q'), plain), Binding::Unbound);
    assert_eq!(bind(KeyCode::Enter, plain), Binding::Unbound);
    assert_eq!(bind(KeyCode::Other, plain), Binding::Unbound);
}

#[test]
fn command_line_editing() {
    let mut state = InteractiveState::new(records(3, 4));
    assert!(state.handle_command_input(KeyCode::Char('x')).is_none());
    press(&mut state, "L");
    state.handle_key(KeyCode::Char(':'), KeyModifiers::Plain);
    assert!(state.command_mode());
    assert_eq!(state.message(), &None);
    for c in "cleax".chars() {
        assert!(matches!(state.handle_command_input(KeyCode::Char(c)), Some(Effect::Nothing)));
    }
    state.handle_command_input(KeyCode::Backspace);
    state.handle_command_input(KeyCode::Tab);
    state.handle_command_input(KeyCode::Char('r'));
    assert_eq!(state.command_buffer().iter().collect::<String>(), "clear");
    // keys go to the command line, not to normal mode
    assert_eq!(state.current_record(), 0);
    assert!(matches!(state.handle_event(KeyCode::Char('j'), KeyModifiers::Plain), Effect::Nothing));
    assert_eq!(state.current_record(), 0);
    state.handle_command_input(KeyCode::Esc);
    assert!(!state.command_mode());
    assert!(state.command_buffer().is_empty());
    assert_eq!(state.locked_fields().len(), 1);
    state.handle_key(KeyCode::Char(':'), KeyModifiers::Plain);
    state.handle_command_input(KeyCode::Backspace);
    assert!(state.command_mode());
    assert!(matches!(state.handle_command_input(KeyCode::Enter), Some(Effect::Nothing)));
    assert!(!state.command_mode());
}

#[test]
fn commands_without_host_work() {
    let mut state = InteractiveState::new(records(3, 4));
    press(&mut state, "L");
    assert!(matches!(command(&mut state, "clear"), Effect::Nothing));
    assert!(state.locked_fields().is_empty());
    assert_eq!(message(&state), "Cleared all locked fields");
    assert!(!state.command_mode());
    assert!(matches!(command(&mut state, "  frobnicate now "), Effect::Nothing));
    assert_eq!(message(&state), "Unknown command: frobnicate");
    assert!(matches!(command(&mut state, "w"), Effect::Nothing));
    assert_eq!(message(&state), "No preset loaded. Usage: :w <preset_name>");
    assert!(matches!(command(&mut state, "write!"), Effect::Nothing));
    assert_eq!(message(&state), "No preset loaded. Usage: :w! <preset_name>");
    assert!(matches!(command(&mut state, "p"), Effect::Nothing));
    assert_eq!(message(&state), "No preset loaded. Usage: :p <preset_name>");
    assert!(matches!(command(&mut state, "e"), Effect::Nothing));
    assert_eq!(message(&state), "Usage: :e <filename>");
    assert!(matches!(command(&mut state, "q"), Effect::Quit));
    assert!(matches!(command(&mut state, "quit"), Effect::Quit));
    assert!(matches!(command(&mut state, "   "), Effect::Nothing));
    assert!(matches!(command(&mut state, "Q"), Effect::Nothing));
    assert_eq!(message(&state), "Unknown command: Q");
}

#[test]
fn commands_with_host_work() {
    let mut state = InteractiveState::new(records(3, 4));
    press(&mut state, "wL");
    match command(&mut state, "w items") {
        Effect::SavePreset { name, keep_existing, text } => {
            assert_eq!(name, "items");
            assert!(keep_existing);
            assert!(text.starts_with("# Locked fields: offset length type\n1 1 u8\n\n# Detection rules"));
        }
        other => panic!("{:?}", other),
    }
    match command(&mut state, "write!   my preset ") {
        Effect::SavePreset { name, keep_existing, .. } => {
            assert_eq!(name, "my preset");
            assert!(!keep_existing);
        }
        other => panic!("{:?}", other),
    }
    assert!(matches!(command(&mut state, "p items"), Effect::LoadPreset { name } if name == "items"));
    assert!(matches!(command(&mut state, "preset a/b.lwpreset"), Effect::LoadPreset { name } if name == "a/b.lwpreset"));
    for verb in ["e", "o", "open", "edit"] {
        let line = format!("{} /tmp/data.bin", verb);
        assert!(matches!(command(&mut state, &line), Effect::OpenFile { path } if path == "/tmp/data.bin"));
    }
    press(&mut state, "yow");
    match command(&mut state, "s") {
        Effect::SaveSettings { text } => {
            assert_eq!(text, "{\n  \"wrap_mode\": true,\n  \"frequency_mode\": false\n}\n");
        }
        other => panic!("{:?}", other),
    }
    assert!(matches!(command(&mut state, "save"), Effect::SaveSettings { .. }));
}

#[test]
fn write_and_preset_fall_back_on_the_loaded_preset() {
    let mut state = InteractiveState::new(records(3, 4));
    state.preset_read_done("items", Ok("0 1 u8\n2 2 u16le\n".to_string()));
    assert_eq!(state.current_preset(), &Some("items".to_string()));
    assert_eq!(message(&state), "Loaded preset 'items' (2 fields)");
    assert_eq!(
        state.locked_fields().fields(),
        &vec![field(0, 1, DataType::U8), field(2, 2, DataType::U16Le)]
    );
    match command(&mut state, "w") {
        Effect::SavePreset { name, keep_existing, text } => {
            assert_eq!(name, "items");
            // only the forcing verb may replace a file that exists
            assert!(keep_existing);
            assert!(text.contains("0 1 u8\n2 2 u16le\n"));
        }
        other => panic!("{:?}", other),
    }
    match command(&mut state, "w!") {
        Effect::SavePreset { name, keep_existing, .. } => {
            assert_eq!(name, "items");
            assert!(!keep_existing);
        }
        other => panic!("{:?}", other),
    }
    assert!(matches!(command(&mut state, "p"), Effect::LoadPreset { name } if name == "items"));
}

#[test]
fn reports_of_the_host() {
    let mut state = InteractiveState::new(records(3, 4));
    state.preset_write_done("items", Ok(()));
    assert_eq!(message(&state), "Saved to 'items'");
    state.preset_write_done("items", Err("Failed to save: disk full".to_string()));
    assert_eq!(message(&state), "Failed to save: disk full");
    state.preset_write_refused("items");
    assert_eq!(message(&state), "'items' exists. Use :w! items to overwrite");
    state.settings_write_done(Ok("/home/u/.config/linewise/settings.json".to_string()));
    assert_eq!(message(&state), "Saved config to /home/u/.config/linewise/settings.json");
    state.settings_write_done(Err("Failed to create config dir: denied".to_string()));
    assert_eq!(message(&state), "Failed to create config dir: denied");
    state.set_message("hello".to_string());
    assert_eq!(message(&state), "hello");
}

#[test]
fn a_faulty_preset_changes_only_the_message() {
    let mut state = InteractiveState::new(records(3, 4));
    press(&mut state, "L");
    state.preset_read_done("bad", Ok("0 1 u8\n1 x u8\n".to_string()));
    assert_eq!(message(&state), "Invalid length");
    assert_eq!(state.current_preset(), &None);
    assert_eq!(state.locked_fields().fields(), &vec![field(0, 1, DataType::U8)]);
    state.preset_read_done("gone", Err("Failed to read 'gone': not found".to_string()));
    assert_eq!(message(&state), "Failed to read 'gone': not found");
    assert_eq!(state.current_preset(), &None);
    assert_eq!(state.locked_fields().len(), 1);
    assert!(state.load_preset("5 1 nope").is_err());
    assert_eq!(state.load_preset("5 1 hex"), Ok(1));
    assert_eq!(state.locked_fields().fields(), &vec![field(5, 1, DataType::Hex)]);
}

#[test]
fn auto_detected_preset() {
    let mut state = InteractiveState::new(records(3, 4));
    state.auto_preset_done("items", Ok("0 4 u32le\n".to_string()));
    assert_eq!(message(&state), "Auto-loaded preset 'items'");
    assert_eq!(state.current_preset(), &Some("items".to_string()));
    assert_eq!(state.locked_fields().len(), 1);
    let mut state = InteractiveState::new(records(3, 4));
    state.auto_preset_done("items", Ok("0 4 u64\n".to_string()));
    assert_eq!(message(&state), "Auto-detect found 'items' but failed to load: Invalid type");
    assert_eq!(state.current_preset(), &None);
    assert!(state.locked_fields().is_empty());
    state.auto_preset_done("other", Err("Failed to read 'p': gone".to_string()));
    assert_eq!(
        message(&state),
        "Auto-detect found 'other' but failed to load: Failed to read 'p': gone"
    );
    assert_eq!(state.current_preset(), &None);
}

#[test]
fn opening_a_file_keeps_the_locks() {
    let mut state = InteractiveState::new(records(30, 4));
    state.handle_key(KeyCode::Tab, KeyModifiers::Plain);
    press(&mut state, "lwL25j[f");
    assert_eq!(state.current_record(), 25);
    state.file_read_done("new.bin", Ok(vec![vec![9, 9], vec![9, 8]]));
    assert_eq!(message(&state), "Opened 'new.bin' (2 records)");
    assert_eq!(state.records(), &vec![vec![9, 9], vec![9, 8]]);
    assert_eq!(state.current_record(), 0);
    assert_eq!(state.scroll_offset(), 0);
    assert_eq!(state.field_offset(), 0);
    assert_eq!(state.current_field(), 0);
    assert_eq!(state.current_type(), DataType::U16Le);
    assert_eq!(state.locked_fields().fields(), &vec![field(1, 2, DataType::U16Le)]);
    // in frequency mode the table is that of the new records
    assert_eq!(state.frequencies().count_at(0, 9), 2);
    assert_eq!(state.frequencies().count_at(1, 8), 1);
    state.file_read_done("gone.bin", Err("Failed to open 'gone.bin': not found".to_string()));
    assert_eq!(message(&state), "Failed to open 'gone.bin': not found");
    assert_eq!(state.records().len(), 2);
}

#[test]
fn resize_sets_the_window() {
    let mut state = InteractiveState::new(records(50, 4));
    state.resize(120, 4);
    assert_eq!(state.terminal_width(), 120);
    assert_eq!(state.visible_records(), 4);
    press(&mut state, "5j");
    assert_eq!(state.scroll_offset(), 2);
    state.handle_key(KeyCode::PageDown, KeyModifiers::Plain);
    assert_eq!(state.current_record(), 7);
    assert_eq!(state.scroll_offset(), 4);
    // a window without rows: the moves still end
    state.resize(120, 0);
    press(&mut state, "jkG");
    state.handle_key(KeyCode::PageDown, KeyModifiers::Plain);
    assert_eq!(state.current_record(), 49);
}

#[test]
fn verbs_and_arguments() {
    let chars = |s: &str| s.chars().collect::<Vec<char>>();
    assert_eq!(parse_verb(&chars("w")), Verb::Write);
    assert_eq!(parse_verb(&chars("write")), Verb::Write);
    assert_eq!(parse_verb(&chars("w!")), Verb::WriteForce);
    assert_eq!(parse_verb(&chars("write!")), Verb::WriteForce);
    assert_eq!(parse_verb(&chars("p")), Verb::Preset);
    assert_eq!(parse_verb(&chars("preset")), Verb::Preset);
    assert_eq!(parse_verb(&chars("e")), Verb::Open);
    assert_eq!(parse_verb(&chars("o")), Verb::Open);
    assert_eq!(parse_verb(&chars("open")), Verb::Open);
    assert_eq!(parse_verb(&chars("edit")), Verb::Open);
    assert_eq!(parse_verb(&chars("clear")), Verb::Clear);
    assert_eq!(parse_verb(&chars("s")), Verb::Save);
    assert_eq!(parse_verb(&chars("save")), Verb::Save);
    assert_eq!(parse_verb(&chars("q")), Verb::Quit);
    assert_eq!(parse_verb(&chars("quit")), Verb::Quit);
    assert_eq!(parse_verb(&chars("wq")), Verb::Unknown);
    assert_eq!(parse_verb(&chars("")), Verb::Unknown);
    let (verb, arg) = split_command(&chars("w \t my file"));
    assert_eq!(verb, chars("w"));
    assert_eq!(arg, Some("my file".to_string()));
    let (verb, arg) = split_command(&chars("quit"));
    assert_eq!(verb, chars("quit"));
    assert_eq!(arg, None);
}

#[test]
fn unlock_with_nothing_there_is_reported() {
    let mut state = InteractiveState::new(records(3, 4));
    assert_eq!(state.message(), &None);
    press(&mut state, "U");
    assert_eq!(message(&state), "Nothing to unlock at cursor");
    assert!(state.locked_fields().is_empty());
    press(&mut state, "wL");
    press(&mut state, "bU");
    assert_eq!(message(&state), "Nothing to unlock at cursor");
    assert_eq!(state.locked_fields().fields(), &vec![field(1, 1, DataType::U8)]);
    press(&mut state, "wU");
    assert_eq!(message(&state), "Unlocked field");
    assert!(state.locked_fields().is_empty());
}

#[test]
fn opening_a_file_rebuilds_the_table_out_of_frequency_mode_too() {
    let mut state = InteractiveState::new(vec![vec![1, 1], vec![1, 2]]);
    press(&mut state, "[f]f");
    assert!(!state.frequency_mode());
    assert_eq!(state.frequencies().count_at(0, 1), 2);
    state.file_read_done("new.bin", Ok(vec![vec![7], vec![7], vec![8]]));
    assert!(!state.frequency_mode());
    assert_eq!(state.frequencies().count_at(0, 7), 2);
    assert_eq!(state.frequencies().count_at(0, 8), 1);
    assert_eq!(state.frequencies().count_at(0, 1), 0);
    assert_eq!(state.frequencies().count_at(1, 2), 0);
    // a file that could not be read leaves the table as it was
    state.file_read_done("gone.bin", Err("Failed to open 'gone.bin': not found".to_string()));
    assert_eq!(state.frequencies().count_at(0, 7), 2);
    let mut fresh = InteractiveState::new(vec![vec![1]]);
    fresh.file_read_done("a.bin", Ok(vec![vec![5], vec![5]]));
    assert_eq!(fresh.frequencies().count_at(0, 5), 2);
}

#[test]
fn preset_lines_in_any_order_load_sorted() {
    let mut state = InteractiveState::new(records(3, 16));
    press(&mut state, "L");
    assert_eq!(state.load_preset("8 4 u32be\n0 1 hex\n4 2 u16le\n1 1 ascii\n"), Ok(4));
    assert_eq!(
        state.locked_fields().fields(),
        &vec![
            field(0, 1, DataType::Hex),
            field(1, 1, DataType::Ascii),
            field(4, 2, DataType::U16Le),
            field(8, 4, DataType::U32Be),
        ]
    );
}

use linewise::datatype::DataType;
use linewise::frequency::FrequencyTier;
use linewise::interactive::InteractiveState;
use linewise::keys::{KeyCode, KeyModifiers};
use linewise::render::{
    decode_value, format_field_value, CellStyle, HeaderKind, RecordRow, StatusLine, Trailing,
};

fn press(state: &mut InteractiveState, keys: &str) {
    for c in keys.chars() {
        state.handle_key(KeyCode::Char(c), KeyModifiers::Plain);
    }
}

fn tab(state: &mut InteractiveState, times: usize) {
    for _ in 0..times {
        state.handle_key(KeyCode::Tab, KeyModifiers::Plain);
    }
}

fn texts(row: &RecordRow) -> Vec<&str> {
    row.cells.iter().map(|c| c.text.as_str()).collect()
}

fn styles(row: &RecordRow) -> Vec<CellStyle> {
    row.cells.iter().map(|c| c.style).collect()
}

#[test]
fn values_are_right_aligned() {
    assert_eq!(format_field_value("7", DataType::U8), "  7");
    assert_eq!(format_field_value("ff", DataType::Hex), "ff");
    assert_eq!(format_field_value("1", DataType::U32Be), "         1");
    assert_eq!(format_field_value("", DataType::U16Le), "     ");
    assert_eq!(format_field_value("\\x00", DataType::Ascii), "\\x00");
    assert_eq!(format_field_value("12", DataType::VarInt), "        12");
    assert_eq!(format_field_value("1", DataType::Binary), "       1");
}

#[test]
fn values_are_decoded_from_an_offset() {
    assert_eq!(decode_value(&[1, 2, 3], 1, DataType::U16Le), "770");
    assert_eq!(decode_value(&[1, 2, 3], 2, DataType::U16Le), "");
    assert_eq!(decode_value(&[1, 2, 3], 3, DataType::U8), "");
    assert_eq!(decode_value(&[1, 2, 3], 4, DataType::U8), "");
    assert_eq!(decode_value(&[1, 2, 3], usize::MAX, DataType::U8), "");
    assert_eq!(decode_value(&[0xAC, 0x02, 3], 0, DataType::VarInt), "300");
}

#[test]
fn plain_rows() {
    let state = InteractiveState::new(vec![vec![0x21, 0x00, 0x05, 0xFF], vec![1, 2, 3, 4], vec![9]]);
    let rows = state.render_records(80, 10);
    assert_eq!(rows.len(), 3);
    assert_eq!(rows[0].index, 0);
    assert!(rows[0].current);
    assert_eq!(rows[0].number, "0");
    assert_eq!(rows[0].gutter, 2);
    assert_eq!(texts(&rows[0]), vec![" 33", "  0", "  5", "255"]);
    assert_eq!(
        styles(&rows[0]),
        vec![CellStyle::Cursor, CellStyle::Active, CellStyle::Active, CellStyle::Active]
    );
    assert_eq!(rows[0].trailing, None);
    assert!(!rows[1].current);
    assert_eq!(texts(&rows[1]), vec!["  1", "  2", "  3", "  4"]);
    assert_eq!(styles(&rows[1]), vec![CellStyle::Dimmed; 4]);
    assert_eq!(texts(&rows[2]), vec!["  9"]);
}

#[test]
fn rows_follow_the_window() {
    let records: Vec<Vec<u8>> = (0..120).map(|i| vec![i as u8]).collect();
    let mut state = InteractiveState::new(records);
    press(&mut state, "15j");
    assert_eq!(state.scroll_offset(), 6);
    let rows = state.render_records(80, 4);
    assert_eq!(rows.iter().map(|r| r.index).collect::<Vec<_>>(), vec![6, 7, 8, 9]);
    assert_eq!(rows[0].number, "  6");
    let rows = state.render_records(80, 10);
    assert_eq!(rows.len(), 10);
    assert!(rows[9].current);
    assert_eq!(rows[9].number, " 15");
    assert_eq!(rows[9].cells[0].text, " 15");
    press(&mut state, "G");
    assert_eq!(state.render_records(80, 200).len(), 10);
    assert_eq!(state.render_records(80, 0).len(), 0);
    assert!(InteractiveState::new(vec![]).render_records(80, 10).is_empty());
}

#[test]
fn gutter_and_width() {
    let mut state = InteractiveState::new(vec![vec![0; 40]]);
    // one digit, two blanks and one more column of prefix: 76 columns are
    // left for fields of four columns
    assert_eq!(state.visible_field_count(80), 19);
    assert_eq!(state.render_records(80, 1)[0].cells.len(), 19);
    press(&mut state, "]g");
    assert_eq!(state.visible_field_count(80), 19);
    assert_eq!(state.visible_field_count(6), 1);
    assert_eq!(state.visible_field_count(5), 0);
    assert_eq!(state.visible_field_count(2), 0);
    assert_eq!(state.visible_field_count(0), 0);
    let rows = state.render_records(10, 1);
    assert_eq!(rows[0].gutter, 1);
    assert_eq!(rows[0].cells.len(), 2);
    assert_eq!(state.render_records(3, 1)[0].cells.len(), 0);
    tab(&mut state, 3);
    assert_eq!(state.visible_field_count(80), 7);
}

#[test]
fn horizontal_scroll_keeps_the_cursor_about_the_middle() {
    let record: Vec<u8> = (0..60).collect();
    let mut state = InteractiveState::new(vec![record]);
    // ten fields fit in 44 columns
    assert_eq!(state.visible_field_count(44), 10);
    assert_eq!(state.first_visible_field(44), 0);
    press(&mut state, "wwwww");
    assert_eq!(state.first_visible_field(44), 0);
    press(&mut state, "ww");
    assert_eq!(state.first_visible_field(44), 2);
    let rows = state.render_records(44, 1);
    assert_eq!(texts(&rows[0]), vec!["  2", "  3", "  4", "  5", "  6", "  7", "  8", "  9", " 10", " 11"]);
    assert_eq!(rows[0].cells[5].style, CellStyle::Cursor);
    press(&mut state, "$");
    let rows = state.render_records(44, 1);
    assert_eq!(texts(&rows[0]), vec![" 54", " 55", " 56", " 57", " 58", " 59"]);
    assert_eq!(rows[0].cells[5].style, CellStyle::Cursor);
}

#[test]
fn trailing_bytes_are_counted() {
    let mut state = InteractiveState::new(vec![vec![1, 0, 2, 0, 3], vec![1, 0, 2, 0]]);
    tab(&mut state, 1);
    let rows = state.render_records(80, 2);
    assert_eq!(texts(&rows[0]), vec!["    1", "    2"]);
    assert_eq!(rows[0].trailing, Some(Trailing { remaining: 1, cursor: false }));
    assert_eq!(rows[1].trailing, None);
    tab(&mut state, 2);
    let rows = state.render_records(80, 2);
    assert_eq!(texts(&rows[0]), vec!["    131073"]);
    assert_eq!(rows[0].trailing, Some(Trailing { remaining: 1, cursor: false }));
    // when the fields shown fill the width there is no marker
    let mut state = InteractiveState::new(vec![vec![7; 5]]);
    tab(&mut state, 1);
    assert_eq!(state.visible_field_count(16), 2);
    assert_eq!(state.render_records(16, 1)[0].trailing, None);
    assert_eq!(state.visible_field_count(22), 3);
    assert_eq!(
        state.render_records(22, 1)[0].trailing,
        Some(Trailing { remaining: 1, cursor: false })
    );
}

#[test]
fn the_cursor_may_stand_on_the_trailing_bytes() {
    let mut state = InteractiveState::new(vec![vec![1, 2, 3], vec![9]]);
    tab(&mut state, 1);
    press(&mut state, "j");
    let rows = state.render_records(80, 2);
    assert!(rows[1].cells.is_empty());
    assert_eq!(rows[1].trailing, Some(Trailing { remaining: 1, cursor: true }));
    assert_eq!(rows[0].trailing, Some(Trailing { remaining: 1, cursor: false }));
}

#[test]
fn locked_fields_are_shown_under_their_own_type() {
    let mut state = InteractiveState::new(vec![
        vec![0x21, 0x34, 0x12, 0xFF, 0x05],
        vec![0x22, 0x01, 0x00, 0xFE, 0x06],
    ]);
    tab(&mut state, 1);
    press(&mut state, "lL");
    assert_eq!(state.locked_fields().len(), 1);
    press(&mut state, "h");
    tab(&mut state, 8);
    assert_eq!(state.current_type(), DataType::U8);
    let rows = state.render_records(80, 2);
    // the walk shows the locked field as one cell and goes on behind it
    assert_eq!(texts(&rows[0]), vec![" 33", " 4660", "255", "  5"]);
    assert_eq!(
        styles(&rows[0]),
        vec![CellStyle::Cursor, CellStyle::Locked, CellStyle::Active, CellStyle::Active]
    );
    assert_eq!(texts(&rows[1]), vec![" 34", "    1", "254", "  6"]);
    assert_eq!(
        styles(&rows[1]),
        vec![CellStyle::Dimmed, CellStyle::Locked, CellStyle::Dimmed, CellStyle::Dimmed]
    );
    // the cursor wins over the lock
    press(&mut state, "w");
    assert_eq!(state.render_records(80, 2)[0].cells[1].style, CellStyle::Cursor);
    // hidden locks are not shown
    press(&mut state, "]l");
    let rows = state.render_records(80, 2);
    assert_eq!(texts(&rows[0]), vec![" 33", " 52", " 18", "255", "  5"]);
    assert_eq!(rows[1].cells[1].style, CellStyle::Dimmed);
}

#[test]
fn a_field_that_reaches_into_a_lock_overflows() {
    let mut state = InteractiveState::new(vec![vec![1, 2, 3, 4, 5, 6, 7, 8]]);
    state.load_preset("1 2 u8\n").unwrap();
    tab(&mut state, 1);
    let rows = state.render_records(80, 1);
    // the first field starts before the lock and reaches into it; the next
    // starts inside the lock, which is shown from its own start
    assert_eq!(styles(&rows[0])[0], CellStyle::Overflow);
    // an overflowing field is not decoded
    assert_eq!(rows[0].cells[0].text, "     ");
    assert_eq!(rows[0].cells[1].style, CellStyle::Locked);
    assert_eq!(rows[0].cells[1].text, "  2");
    assert_eq!(texts(&rows[0]), vec!["     ", "  2", " 1284", " 1798"]);
    assert_eq!(rows[0].trailing, Some(Trailing { remaining: 1, cursor: false }));
}

#[test]
fn overlapping_locks_from_a_preset_are_walked_in_offset_order() {
    let mut state = InteractiveState::new(vec![vec![1, 2, 3, 4, 5, 6]]);
    state.load_preset("2 2 u16le\n0 4 u32le\n3 1 hex\n").unwrap();
    let rows = state.render_records(80, 1);
    // at byte 0 the first lock in offset order wins; the walk goes on at
    // byte 4, behind it, and the others are never reached
    assert_eq!(texts(&rows[0]), vec!["  67305985", "  5", "  6"]);
    assert_eq!(
        styles(&rows[0]),
        vec![CellStyle::Cursor, CellStyle::Active, CellStyle::Active]
    );
    let mut state = InteractiveState::new(vec![vec![1, 2, 3, 4, 5, 6], vec![0; 6]]);
    state.load_preset("2 2 u16le\n0 4 u32le\n3 1 hex\n").unwrap();
    press(&mut state, "j");
    let rows = state.render_records(80, 2);
    assert_eq!(styles(&rows[0]), vec![CellStyle::Locked, CellStyle::Dimmed, CellStyle::Dimmed]);
}

#[test]
fn a_lock_longer_than_the_record_ends_the_row() {
    let mut state = InteractiveState::new(vec![vec![1, 2, 3]]);
    state.load_preset("1 18446744073709551615 u8\n").unwrap();
    let rows = state.render_records(80, 1);
    assert_eq!(texts(&rows[0]), vec!["  1", "  2"]);
    assert_eq!(rows[0].trailing, None);
    let mut state = InteractiveState::new(vec![vec![1, 2, 3]]);
    state.load_preset("1 9 u32le\n").unwrap();
    let rows = state.render_records(80, 1);
    assert_eq!(texts(&rows[0]), vec!["  1", "          "]);
    assert_eq!(rows[0].trailing, None);
}

#[test]
fn frequency_colours_on_the_cursor_row() {
    let records: Vec<Vec<u8>> = (0..10).map(|i| vec![if i == 4 { 0 } else { 0x7E }, i as u8, 1]).collect();
    let mut state = InteractiveState::new(records);
    press(&mut state, "yof");
    let rows = state.render_records(80, 10);
    assert_eq!(
        styles(&rows[0]),
        vec![
            CellStyle::Cursor,
            CellStyle::Frequency(FrequencyTier::Tier1),
            CellStyle::Frequency(FrequencyTier::Tier5)
        ]
    );
    assert_eq!(styles(&rows[1]), vec![CellStyle::Dimmed; 3]);
    press(&mut state, "w");
    let rows = state.render_records(80, 10);
    assert_eq!(rows[0].cells[0].style, CellStyle::Frequency(FrequencyTier::Tier5));
    // a lock wins over the frequency colour
    press(&mut state, "wLb");
    let rows = state.render_records(80, 10);
    assert_eq!(rows[0].cells[2].style, CellStyle::Locked);
    assert_eq!(
        state.field_style(&[0x7E, 0, 1], true, 0, false),
        CellStyle::Frequency(FrequencyTier::Tier5)
    );
    assert!(!state.overflows_into_lock(0));
}

#[test]
fn header_segments() {
    let mut state = InteractiveState::new(vec![vec![1, 2, 3, 4], vec![5, 6]]);
    let header = state.header();
    let shown: Vec<(HeaderKind, &str)> = header.iter().map(|s| (s.kind, s.text.as_str())).collect();
    assert_eq!(
        shown,
        vec![
            (HeaderKind::Position, " 1/2 "),
            (HeaderKind::Type, " u8 "),
            (HeaderKind::Field, " field:0 +0 "),
        ]
    );
    tab(&mut state, 1);
    press(&mut state, "lwLj");
    state.auto_preset_done("items", Ok("0 1 u8\n".to_string()));
    press(&mut state, "yofyow]l]g");
    let header = state.header();
    let shown: Vec<(HeaderKind, &str)> = header.iter().map(|s| (s.kind, s.text.as_str())).collect();
    assert_eq!(
        shown,
        vec![
            (HeaderKind::Position, " 2/2 "),
            (HeaderKind::Type, " u16le "),
            (HeaderKind::Field, " field:0 +1 "),
            (HeaderKind::Preset, " items "),
            (HeaderKind::Locks, " 1L "),
            (HeaderKind::Modes, " freq wrap ~lock ~gut "),
        ]
    );
    press(&mut state, "[l]f");
    let header = state.header();
    assert_eq!(header.last().unwrap().text, " wrap ~gut ");
    press(&mut state, "]w");
    assert_eq!(state.header().last().unwrap().text, " ~gut ");
    let empty = InteractiveState::new(vec![]);
    assert_eq!(empty.header()[0].text, " 1/0 ");
}

#[test]
fn status_lines() {
    let mut state = InteractiveState::new(vec![vec![1, 2, 3, 4], vec![5, 6]]);
    match state.status_line(80) {
        StatusLine::Status { position, length, message } => {
            assert_eq!(position, " byte:0 ");
            assert_eq!(length, Some("len:4 ".to_string()));
            assert_eq!(message, None);
        }
        other => panic!("{:?}", other),
    }
    press(&mut state, "wwL");
    match state.status_line(80) {
        StatusLine::Status { position, length, message } => {
            assert_eq!(position, " byte:2 ");
            assert_eq!(length, Some("len:4 ".to_string()));
            // 80 columns less 14 at the left, 19 of text and one to spare
            assert_eq!(message, Some((46, "Locked u8 at byte 2".to_string())));
        }
        other => panic!("{:?}", other),
    }
    // the text needs two columns to spare
    assert!(matches!(state.status_line(36), StatusLine::Status { message: Some((2, _)), .. }));
    assert!(matches!(state.status_line(35), StatusLine::Status { message: None, .. }));
    assert!(matches!(state.status_line(0), StatusLine::Status { message: None, .. }));
    // the width of the text is that of its encoding
    state.set_message("é".to_string());
    assert!(matches!(state.status_line(19), StatusLine::Status { message: Some((2, _)), .. }));
    assert!(matches!(state.status_line(18), StatusLine::Status { message: None, .. }));
    state.handle_key(KeyCode::Char(':'), KeyModifiers::Plain);
    state.handle_event(KeyCode::Char('w'), KeyModifiers::Plain);
    state.handle_event(KeyCode::Char(' '), KeyModifiers::Plain);
    assert!(matches!(state.status_line(80), StatusLine::Command { typed } if typed == "w "));
    let empty = InteractiveState::new(vec![]);
    assert!(matches!(
        empty.status_line(80),
        StatusLine::Status { length: None, message: None, .. }
    ));
}

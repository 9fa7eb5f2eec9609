use linewise::boundaries::{detect_field_boundaries, field_description, Position, Stretch};
use linewise::framing::{
    frame_length16, group_file_name, parse_hex_line, parse_hex_lines, parse_hex_value,
    parse_length16, FrameError, HexError,
};
use linewise::paths::{
    choose_existing, config_dir_path, contains_separator, locate_preset, preset_dir_path,
    settings_path, user_preset_path, PresetLocation,
};
use linewise::scan::{hex_digit, parse_hex_number};

fn chars(s: &str) -> Vec<char> {
    s.chars().collect()
}

#[test]
fn length_prefixed_records() {
    assert_eq!(parse_length16(&[]), Ok(vec![]));
    assert_eq!(parse_length16(&[2, 0, 0xaa, 0xbb, 0, 0, 1, 0, 0xcc]), Ok(vec![vec![0xaa, 0xbb], vec![], vec![0xcc]]));
    // a single byte at the end is no length
    assert_eq!(parse_length16(&[1, 0, 7, 9]), Ok(vec![vec![7]]));
    assert_eq!(parse_length16(&[9]), Ok(vec![]));
    let mut long = vec![0x00, 0x01];
    long.extend(std::iter::repeat(5).take(256));
    assert_eq!(parse_length16(&long), Ok(vec![vec![5; 256]]));
}

#[test]
fn a_record_cut_short_is_an_error() {
    assert_eq!(
        parse_length16(&[3, 0, 1, 2]),
        Err(FrameError::Truncated { at: 0, needed: 3, available: 2 })
    );
    assert_eq!(
        parse_length16(&[1, 0, 1, 0xff, 0xff]),
        Err(FrameError::Truncated { at: 3, needed: 65535, available: 0 })
    );
    // the first record that is cut short is the one reported
    assert_eq!(
        parse_length16(&[0, 0, 2, 0, 9, 9, 4, 0, 1, 2, 3]),
        Err(FrameError::Truncated { at: 6, needed: 4, available: 3 })
    );
    assert_eq!(
        parse_length16(&[2, 0, 7]),
        Err(FrameError::Truncated { at: 0, needed: 2, available: 1 })
    );
}

#[test]
fn written_records_are_read_back() {
    let a = vec![1, 2, 3];
    let b = vec![];
    let c = vec![9; 300];
    let bytes = frame_length16(&[&a, &b, &c]);
    assert_eq!(&bytes[..7], &[3, 0, 1, 2, 3, 0, 0]);
    assert_eq!(&bytes[7..9], &[44, 1]);
    assert_eq!(bytes.len(), 2 + 3 + 2 + 2 + 300);
    assert_eq!(parse_length16(&bytes), Ok(vec![a.clone(), b.clone(), c.clone()]));
    assert_eq!(frame_length16(&[]), Vec::<u8>::new());
    // the prefix holds the low sixteen bits of the length
    let huge = vec![0; 65536 + 2];
    let bytes = frame_length16(&[&huge]);
    assert_eq!(&bytes[..2], &[2, 0]);
    assert_eq!(bytes.len(), 65540);
}

#[test]
fn hexadecimal_lines() {
    assert_eq!(parse_hex_lines("2100\n\n  05FF  \nab\r\n"), Ok(vec![vec![0x21, 0], vec![5, 0xff], vec![0xab]]));
    assert_eq!(parse_hex_lines(""), Ok(vec![]));
    assert_eq!(parse_hex_lines("\n \n"), Ok(vec![]));
    assert_eq!(parse_hex_lines("abc\n"), Err(HexError::OddLength));
    assert_eq!(parse_hex_lines("00\nzz\n000\n"), Err(HexError::InvalidDigit));
    assert_eq!(parse_hex_lines("00\n000\nzz\n"), Err(HexError::OddLength));
    assert_eq!(parse_hex_lines("0 0\n"), Err(HexError::OddLength));
    assert_eq!(parse_hex_lines("00 1\n"), Err(HexError::InvalidDigit));
    assert_eq!(parse_hex_line(&chars("DeadBEEF")), Ok(vec![0xde, 0xad, 0xbe, 0xef]));
    assert_eq!(parse_hex_line(&chars("+f")), Ok(vec![15]));
    assert_eq!(parse_hex_line(&chars("f+")), Err(HexError::InvalidDigit));
    assert_eq!(parse_hex_line(&chars("-1")), Err(HexError::InvalidDigit));
    assert_eq!(parse_hex_line(&chars("zz1")), Err(HexError::OddLength));
}

#[test]
fn hexadecimal_values() {
    assert_eq!(parse_hex_value("21"), Some(0x21));
    assert_eq!(parse_hex_value("0x21"), Some(0x21));
    assert_eq!(parse_hex_value("0X21"), Some(0x21));
    assert_eq!(parse_hex_value("  0xff \n"), Some(0xff));
    assert_eq!(parse_hex_value("0x0x7"), Some(7));
    assert_eq!(parse_hex_value("0x0X7"), Some(7));
    assert_eq!(parse_hex_value("0X0x7"), None);
    assert_eq!(parse_hex_value("0"), Some(0));
    assert_eq!(parse_hex_value("0x"), None);
    assert_eq!(parse_hex_value("0x0"), Some(0));
    assert_eq!(parse_hex_value("000000ff"), Some(0xff));
    assert_eq!(parse_hex_value("100"), None);
    assert_eq!(parse_hex_value("+a"), Some(10));
    assert_eq!(parse_hex_value(""), None);
    assert_eq!(parse_hex_value("g"), None);
    assert_eq!(parse_hex_value("0x 1"), None);
    assert_eq!(parse_hex_number(&chars("ffffffffffffffff"), u64::MAX), Some(u64::MAX));
    assert_eq!(parse_hex_number(&chars("10000000000000000"), u64::MAX), None);
    assert_eq!(hex_digit('a'), Some(10));
    assert_eq!(hex_digit('F'), Some(15));
    assert_eq!(hex_digit('9'), Some(9));
    assert_eq!(hex_digit('g'), None);
}

#[test]
fn group_file_names() {
    assert_eq!(group_file_name(0), "group_a.bin");
    assert_eq!(group_file_name(25), "group_z.bin");
    assert_eq!(group_file_name(26), "group_a1.bin");
    assert_eq!(group_file_name(27), "group_b1.bin");
    assert_eq!(group_file_name(26 * 12 + 3), "group_d12.bin");
}

fn positions(flags: &[(usize, bool)]) -> Vec<Position> {
    flags.iter().map(|&(position, is_fixed)| Position { position, is_fixed }).collect()
}

#[test]
fn field_boundaries() {
    assert_eq!(detect_field_boundaries(&[]), vec![]);
    assert_eq!(
        detect_field_boundaries(&positions(&[(0, true)])),
        vec![Stretch { start: 0, end: 0, is_fixed: true }]
    );
    assert_eq!(
        detect_field_boundaries(&positions(&[(0, true), (1, true), (2, false), (3, false), (4, false), (5, true)])),
        vec![
            Stretch { start: 0, end: 1, is_fixed: true },
            Stretch { start: 2, end: 4, is_fixed: false },
            Stretch { start: 5, end: 5, is_fixed: true },
        ]
    );
    // positions may have gaps: a stretch ends before the next begins
    assert_eq!(
        detect_field_boundaries(&positions(&[(2, false), (3, false), (7, true), (8, true)])),
        vec![
            Stretch { start: 2, end: 6, is_fixed: false },
            Stretch { start: 7, end: 8, is_fixed: true },
        ]
    );
    assert_eq!(
        detect_field_boundaries(&positions(&[(5, false), (0, true)])),
        vec![
            Stretch { start: 5, end: 0, is_fixed: false },
            Stretch { start: 0, end: 0, is_fixed: true },
        ]
    );
}

#[test]
fn field_descriptions() {
    assert_eq!(field_description(true, 1), "likely header/delimiter");
    assert_eq!(field_description(true, 4), "likely header/delimiter");
    assert_eq!(field_description(true, 5), "padding or constant");
    assert_eq!(field_description(true, 0), "padding or constant");
    assert_eq!(field_description(false, 1), "small field (ID?)");
    assert_eq!(field_description(false, 2), "small field (ID?)");
    assert_eq!(field_description(false, 3), "medium field (value?)");
    assert_eq!(field_description(false, 4), "medium field (value?)");
    assert_eq!(field_description(false, 5), "large field (data block)");
    assert_eq!(field_description(false, 0), "large field (data block)");
}

#[test]
fn preset_locations() {
    assert!(matches!(locate_preset("/abs/p.lwpreset", true, "/home/u"), PresetLocation::AsGiven));
    assert!(matches!(locate_preset("dir/p.lwpreset", false, "/home/u"), PresetLocation::Relative));
    assert!(matches!(locate_preset("dir\\p", false, "/home/u"), PresetLocation::Relative));
    match locate_preset("items", false, "/home/u") {
        PresetLocation::Candidates(files) => assert_eq!(
            files,
            vec![
                "/home/u/.config/linewise/presets/items.lwpreset",
                "/home/u/.local/etc/linewise/presets/items.lwpreset",
                "items.lwpreset",
            ]
        ),
        other => panic!("{:?}", other),
    }
    assert!(contains_separator(&chars("a/b")));
    assert!(!contains_separator(&chars("ab.lwpreset")));
    assert_eq!(choose_existing(&[false, true, true]), 1);
    assert_eq!(choose_existing(&[true, false, false]), 0);
    assert_eq!(choose_existing(&[false, false, true]), 2);
    assert_eq!(choose_existing(&[false, false, false]), 0);
    assert_eq!(choose_existing(&[]), 0);
    assert_eq!(user_preset_path("/h", "x"), "/h/.config/linewise/presets/x.lwpreset");
    assert_eq!(preset_dir_path("/h"), "/h/.config/linewise/presets");
    assert_eq!(config_dir_path("/h"), "/h/.config/linewise");
    assert_eq!(settings_path("/h"), "/h/.config/linewise/settings.json");
}

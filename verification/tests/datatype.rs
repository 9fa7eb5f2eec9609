use linewise::datatype::DataType;

const ALL: [DataType; 9] = [
    DataType::U8,
    DataType::U16Le,
    DataType::U16Be,
    DataType::U32Le,
    DataType::U32Be,
    DataType::VarInt,
    DataType::Hex,
    DataType::Binary,
    DataType::Ascii,
];

#[test]
fn all_lists_the_types_in_order() {
    assert_eq!(DataType::all(), ALL);
}

#[test]
fn next_nine_times_returns_to_start() {
    for start in ALL {
        let mut t = start;
        for step in 1..=9 {
            t = t.next();
            if step < 9 {
                assert_ne!(t, start);
            }
        }
        assert_eq!(t, start);
    }
}

#[test]
fn prev_is_the_inverse_of_next() {
    for t in ALL {
        assert_eq!(t.next().prev(), t);
        assert_eq!(t.prev().next(), t);
    }
    assert_eq!(DataType::Ascii.next(), DataType::U8);
    assert_eq!(DataType::U8.prev(), DataType::Ascii);
    assert_eq!(DataType::U8.next(), DataType::U16Le);
}

#[test]
fn names_round_trip() {
    let names = ["u8", "u16le", "u16be", "u32le", "u32be", "varint", "hex", "binary", "ascii"];
    for (t, name) in ALL.iter().zip(names) {
        assert_eq!(t.name(), name);
        assert_eq!(DataType::from_name(name), Some(*t));
    }
    assert_eq!(DataType::from_name("U8"), None);
    assert_eq!(DataType::from_name(""), None);
    assert_eq!(DataType::from_name("u16"), None);
    assert_eq!(DataType::from_name("u8 "), None);
}

#[test]
fn byte_sizes() {
    assert_eq!(DataType::U8.byte_size(), Some(1));
    assert_eq!(DataType::Hex.byte_size(), Some(1));
    assert_eq!(DataType::Binary.byte_size(), Some(1));
    assert_eq!(DataType::Ascii.byte_size(), Some(1));
    assert_eq!(DataType::U16Le.byte_size(), Some(2));
    assert_eq!(DataType::U16Be.byte_size(), Some(2));
    assert_eq!(DataType::U32Le.byte_size(), Some(4));
    assert_eq!(DataType::U32Be.byte_size(), Some(4));
    assert_eq!(DataType::VarInt.byte_size(), None);
    assert_eq!(DataType::VarInt.unit_size(), 1);
    assert_eq!(DataType::U32Be.unit_size(), 4);
}

#[test]
fn display_and_format_widths() {
    let display = [4, 6, 6, 11, 11, 11, 3, 9, 2];
    for (t, w) in ALL.iter().zip(display) {
        assert_eq!(t.display_width(), w);
        assert_eq!(t.format_width(), w - 1);
    }
}

#[test]
fn decode_one_byte_types() {
    assert_eq!(DataType::U8.decode(&[255]), "255");
    assert_eq!(DataType::U8.decode(&[0, 9]), "0");
    assert_eq!(DataType::Hex.decode(&[0x0f]), "0f");
    assert_eq!(DataType::Hex.decode(&[0xa0]), "a0");
    assert_eq!(DataType::Binary.decode(&[5]), "00000101");
    assert_eq!(DataType::Binary.decode(&[0x80]), "10000000");
    assert_eq!(DataType::Binary.decode(&[0xff]), "11111111");
}

#[test]
fn decode_ascii() {
    assert_eq!(DataType::Ascii.decode(b"A"), "A");
    assert_eq!(DataType::Ascii.decode(b" "), " ");
    assert_eq!(DataType::Ascii.decode(b"~"), "~");
    assert_eq!(DataType::Ascii.decode(b"!"), "!");
    assert_eq!(DataType::Ascii.decode(&[0x0a]), "\\x0a");
    assert_eq!(DataType::Ascii.decode(&[0x7f]), "\\x7f");
    assert_eq!(DataType::Ascii.decode(&[0x1f]), "\\x1f");
    assert_eq!(DataType::Ascii.decode(&[0xff]), "\\xff");
}

#[test]
fn decode_fixed_width_integers() {
    assert_eq!(DataType::U16Le.decode(&[0x34, 0x12]), "4660");
    assert_eq!(DataType::U16Be.decode(&[0x34, 0x12]), "13330");
    assert_eq!(DataType::U16Le.decode(&[0xff, 0xff, 0x00]), "65535");
    assert_eq!(DataType::U32Le.decode(&[1, 0, 0, 0]), "1");
    assert_eq!(DataType::U32Be.decode(&[0, 0, 1, 0]), "256");
    assert_eq!(DataType::U32Le.decode(&[0xff; 4]), "4294967295");
    assert_eq!(DataType::U32Be.decode(&[0x12, 0x34, 0x56, 0x78]), "305419896");
    assert_eq!(DataType::U32Le.decode(&[0x12, 0x34, 0x56, 0x78]), "2018915346");
}

#[test]
fn decode_with_too_few_bytes_is_empty() {
    for t in ALL {
        assert_eq!(t.decode(&[]), "");
    }
    assert_eq!(DataType::U16Le.decode(&[1]), "");
    assert_eq!(DataType::U16Be.decode(&[1]), "");
    assert_eq!(DataType::U32Le.decode(&[1, 2, 3]), "");
    assert_eq!(DataType::U32Be.decode(&[1, 2, 3]), "");
}

#[test]
fn decode_varint_300() {
    assert_eq!(DataType::VarInt.decode(&[0xAC, 0x02]), "300");
    assert_eq!(DataType::decode_varint(&[0xAC, 0x02]), "300");
    assert_eq!(DataType::varint(&[0xAC, 0x02]), Some(300));
}

#[test]
fn decode_varint_without_end_is_empty() {
    assert_eq!(DataType::VarInt.decode(&[0xFF; 10]), "");
    assert_eq!(DataType::VarInt.decode(&[0x80, 0x80, 0x80]), "");
    assert_eq!(DataType::varint(&[0xFF; 10]), None);
}

#[test]
fn decode_varint_edges() {
    assert_eq!(DataType::VarInt.decode(&[0x05]), "5");
    assert_eq!(DataType::VarInt.decode(&[0x00]), "0");
    assert_eq!(DataType::VarInt.decode(&[0x7f, 0xff]), "127");
    assert_eq!(DataType::VarInt.decode(&[0x80, 0x01]), "128");
    let mut max = vec![0xff; 9];
    max.push(0x01);
    assert_eq!(DataType::VarInt.decode(&max), "18446744073709551615");
    // what does not fit in 64 bits is cut off
    let mut over = vec![0xff; 9];
    over.push(0x7f);
    assert_eq!(DataType::VarInt.decode(&over), "18446744073709551615");
    let mut over = vec![0x80; 9];
    over.push(0x02);
    assert_eq!(DataType::VarInt.decode(&over), "0");
    // the end must stand among the first ten bytes
    let mut late = vec![0x80; 10];
    late.push(0x01);
    assert_eq!(DataType::VarInt.decode(&late), "");
}

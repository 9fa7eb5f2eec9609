use linewise::datatype::DataType;
use linewise::lockfile::{deserialize, preset_file_text, serialize, PresetError};
use linewise::locks::{LockOutcome, LockRegistry, LockedField};

fn field(byte_offset: usize, byte_length: usize, data_type: DataType) -> LockedField {
    LockedField { byte_offset, byte_length, data_type }
}

#[test]
fn lock_then_unlock_restores_the_empty_registry() {
    for offset in 0..6 {
        for count in 1..3 {
            for ty in [DataType::U8, DataType::U16Le, DataType::U32Be, DataType::VarInt] {
                let len = ty.unit_size() * count;
                for inside in offset..offset + len {
                    let mut reg = LockRegistry::new();
                    let outcome = reg.lock(offset, ty, count, 64);
                    assert_eq!(outcome, LockOutcome::Locked(field(offset, len, ty)));
                    assert_eq!(reg.len(), 1);
                    assert!(reg.unlock_at(inside));
                    assert!(reg.is_empty());
                }
            }
        }
    }
}

#[test]
fn unlock_outside_the_range_removes_nothing() {
    let mut reg = LockRegistry::new();
    reg.lock(2, DataType::U16Le, 1, 16);
    assert!(!reg.unlock_at(1));
    assert!(!reg.unlock_at(4));
    assert_eq!(reg.fields(), &vec![field(2, 2, DataType::U16Le)]);
    assert!(reg.unlock_at(3));
    assert!(reg.is_empty());
}

#[test]
fn disjoint_ranges_lock_in_either_order() {
    let mut ab = LockRegistry::new();
    assert!(matches!(ab.lock(0, DataType::U16Le, 1, 8), LockOutcome::Locked(_)));
    assert!(matches!(ab.lock(2, DataType::U32Le, 1, 8), LockOutcome::Locked(_)));
    let mut ba = LockRegistry::new();
    assert!(matches!(ba.lock(2, DataType::U32Le, 1, 8), LockOutcome::Locked(_)));
    assert!(matches!(ba.lock(0, DataType::U16Le, 1, 8), LockOutcome::Locked(_)));
    let expected = vec![field(0, 2, DataType::U16Le), field(2, 4, DataType::U32Le)];
    assert_eq!(ab.fields(), &expected);
    assert_eq!(ba.fields(), &expected);
}

#[test]
fn overlapping_range_is_refused_and_changes_nothing() {
    let mut reg = LockRegistry::new();
    reg.lock(2, DataType::U32Le, 1, 16);
    let before = reg.fields().clone();
    assert_eq!(reg.lock(5, DataType::U8, 1, 16), LockOutcome::Overlap);
    assert_eq!(reg.lock(0, DataType::U32Be, 1, 16), LockOutcome::Overlap);
    assert_eq!(reg.lock(2, DataType::U32Le, 1, 16), LockOutcome::Overlap);
    assert_eq!(reg.lock(3, DataType::U8, 2, 16), LockOutcome::Overlap);
    assert_eq!(reg.fields(), &before);
    // touching ranges do not overlap
    assert!(matches!(reg.lock(6, DataType::U8, 1, 16), LockOutcome::Locked(_)));
    assert!(matches!(reg.lock(0, DataType::U16Be, 1, 16), LockOutcome::Locked(_)));
    assert_eq!(reg.len(), 3);
}

#[test]
fn range_past_the_record_is_refused() {
    let mut reg = LockRegistry::new();
    assert_eq!(
        reg.lock(2, DataType::U32Le, 1, 4),
        LockOutcome::TooShort { needed: 4, available: 2 }
    );
    assert_eq!(
        reg.lock(9, DataType::U8, 3, 4),
        LockOutcome::TooShort { needed: 3, available: 0 }
    );
    assert_eq!(
        reg.lock(0, DataType::U8, 1, 0),
        LockOutcome::TooShort { needed: 1, available: 0 }
    );
    assert!(reg.is_empty());
    assert_eq!(reg.lock(0, DataType::U32Le, 1, 4), LockOutcome::Locked(field(0, 4, DataType::U32Le)));
}

#[test]
fn overlap_is_reported_before_shortness() {
    let mut reg = LockRegistry::new();
    reg.lock(0, DataType::U16Le, 1, 4);
    assert_eq!(reg.lock(1, DataType::U32Le, 1, 4), LockOutcome::Overlap);
}

#[test]
fn a_length_beyond_the_machine_range_is_cut() {
    let mut reg = LockRegistry::new();
    assert_eq!(
        reg.lock(0, DataType::U32Le, usize::MAX, 8),
        LockOutcome::TooShort { needed: usize::MAX, available: 8 }
    );
}

#[test]
fn fields_stay_sorted_by_offset() {
    let mut reg = LockRegistry::new();
    reg.lock(8, DataType::U8, 1, 16);
    reg.lock(0, DataType::U8, 1, 16);
    reg.lock(4, DataType::U16Le, 2, 16);
    let offsets: Vec<usize> = reg.fields().iter().map(|f| f.byte_offset).collect();
    assert_eq!(offsets, vec![0, 4, 8]);
    assert_eq!(reg.find_covering(5), Some(field(4, 4, DataType::U16Le)));
    assert_eq!(reg.find_covering(3), None);
    assert!(reg.overlaps_any(7, 2));
    assert!(!reg.overlaps_any(1, 3));
    reg.clear();
    assert!(reg.is_empty());
}

#[test]
fn two_line_preset_loads_two_fields() {
    let fields = deserialize("0 1 u8\n2 2 u16le\n").unwrap();
    assert_eq!(fields, vec![field(0, 1, DataType::U8), field(2, 2, DataType::U16Le)]);
    let mut reg = LockRegistry::new();
    assert_eq!(reg.deserialize("2 2 u16le\n0 1 u8\n"), Ok(2));
    assert_eq!(reg.fields(), &vec![field(0, 1, DataType::U8), field(2, 2, DataType::U16Le)]);
}

#[test]
fn lines_without_a_field_are_passed_over() {
    let text = "# Locked fields: offset length type\n\n  \n0 1 u8 trailing words\n@rules\nmin_length 30\n\t4\t4\tu32be\n";
    let fields = deserialize(text).unwrap();
    assert_eq!(fields, vec![field(0, 1, DataType::U8), field(4, 4, DataType::U32Be)]);
    assert_eq!(deserialize("").unwrap(), vec![]);
}

#[test]
fn faulty_lines_are_errors() {
    assert_eq!(deserialize("x 1 u8\n"), Err(PresetError::InvalidOffset));
    assert_eq!(deserialize("-1 1 u8\n"), Err(PresetError::InvalidOffset));
    assert_eq!(deserialize("0 one u8\n"), Err(PresetError::InvalidLength));
    // a field holds at least one byte
    assert_eq!(deserialize("0 0 u8\n"), Err(PresetError::InvalidLength));
    assert_eq!(deserialize("3 00 nope\n"), Err(PresetError::InvalidLength));
    assert_eq!(deserialize("0 1 u8\n"), Ok(vec![field(0, 1, DataType::U8)]));
    assert_eq!(deserialize("0 1 u9\n"), Err(PresetError::InvalidType));
    assert_eq!(deserialize("0 1 u8\n0 1 U8\n"), Err(PresetError::InvalidType));
    assert_eq!(deserialize("byte_equals 0 33\n"), Err(PresetError::InvalidOffset));
    assert_eq!(
        deserialize("99999999999999999999999999 1 u8\n"),
        Err(PresetError::InvalidOffset)
    );
    // the first faulty line gives the error
    assert_eq!(deserialize("0 x u8\ny 1 u8\n"), Err(PresetError::InvalidLength));
    assert_eq!(PresetError::InvalidOffset.message(), "Invalid offset");
    assert_eq!(PresetError::InvalidLength.message(), "Invalid length");
    assert_eq!(PresetError::InvalidType.message(), "Invalid type");
}

#[test]
fn a_faulty_preset_leaves_the_registry_untouched() {
    let mut reg = LockRegistry::new();
    reg.lock(3, DataType::Hex, 1, 8);
    let before = reg.fields().clone();
    assert_eq!(reg.deserialize("0 1 u8\n1 1 nope\n"), Err(PresetError::InvalidType));
    assert_eq!(reg.fields(), &before);
}

#[test]
fn loaded_fields_may_overlap_and_are_sorted_stably() {
    let mut reg = LockRegistry::new();
    assert_eq!(reg.deserialize("4 4 u32le\n0 8 hex\n4 1 u8\n0 2 ascii\n"), Ok(4));
    assert_eq!(
        reg.fields(),
        &vec![
            field(0, 8, DataType::Hex),
            field(0, 2, DataType::Ascii),
            field(4, 4, DataType::U32Le),
            field(4, 1, DataType::U8),
        ]
    );
    // every range that holds the byte is removed
    assert!(reg.unlock_at(4));
    assert_eq!(reg.fields(), &vec![field(0, 2, DataType::Ascii)]);
}

#[test]
fn serialized_fields_load_back() {
    let fields = vec![field(0, 1, DataType::U8), field(2, 2, DataType::U16Le), field(10, 12, DataType::VarInt)];
    assert_eq!(serialize(&fields), "0 1 u8\n2 2 u16le\n10 12 varint\n");
    assert_eq!(deserialize(&serialize(&fields)).unwrap(), fields);
    let text = preset_file_text(&fields);
    assert_eq!(
        text,
        "# Locked fields: offset length type\n0 1 u8\n2 2 u16le\n10 12 varint\n\n# Detection rules (uncomment and edit to enable auto-detection)\n# @rules\n# byte_equals 0 33\n# min_length 30\n"
    );
    assert_eq!(deserialize(&text).unwrap(), fields);
    let mut reg = LockRegistry::new();
    reg.deserialize(&text).unwrap();
    assert_eq!(reg.serialize(), "0 1 u8\n2 2 u16le\n10 12 varint\n");
}

#[test]
fn field_predicates() {
    let f = field(2, 3, DataType::U8);
    assert!(!f.contains(1));
    assert!(f.contains(2));
    assert!(f.contains(4));
    assert!(!f.contains(5));
    assert!(f.overlaps(4, 1));
    assert!(f.overlaps(0, 3));
    assert!(!f.overlaps(0, 2));
    assert!(!f.overlaps(5, 1));
    assert!(f.overlaps(0, usize::MAX));
    let far = field(usize::MAX, 5, DataType::U8);
    assert!(far.contains(usize::MAX));
    assert!(!far.overlaps(0, 5));
}

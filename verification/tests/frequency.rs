use linewise::frequency::{ByteFrequencyTable, FrequencyTier};

fn ten_records() -> Vec<Vec<u8>> {
    // byte 0 is 0x7E in nine of ten records; at byte 1 the value 1 stands
    // in three records, 2 and 3 in two each, 4, 5 and 6 in one each
    let second = [1, 1, 1, 2, 2, 3, 3, 4, 5, 6];
    (0..10)
        .map(|i| vec![if i == 4 { 0x00 } else { 0x7E }, second[i]])
        .collect()
}

#[test]
fn nine_of_ten_is_the_fifth_tier() {
    let table = ByteFrequencyTable::compute(&ten_records());
    assert_eq!(table.count_at(0, 0x7E), 9);
    assert_eq!(table.color(0, 0x7E), FrequencyTier::Tier5);
    assert_eq!(table.color(0, 0x00), FrequencyTier::Tier1);
}

#[test]
fn top_value_in_three_of_ten() {
    let table = ByteFrequencyTable::compute(&ten_records());
    assert_eq!(table.count_at(1, 1), 3);
    // thirty percent lie in the second tier; the values that stand there
    // once, and those that never do, lie in the first
    assert_eq!(table.color(1, 1), FrequencyTier::Tier2);
    assert_eq!(table.color(1, 2), FrequencyTier::Tier2);
    assert_eq!(table.color(1, 4), FrequencyTier::Tier1);
    assert_eq!(table.color(1, 200), FrequencyTier::Tier1);
}

#[test]
fn tier_boundaries() {
    // 100 records: value 1 in 80, value 2 in 20 at byte 0; at byte 1 value
    // 1 in 79, 2 in 19, 3 in 2; at byte 2 value 1 in 60, 2 in 40; at byte 3
    // value 1 in 59, 2 in 39, 3 in 2
    let records: Vec<Vec<u8>> = (0..100)
        .map(|i| {
            vec![
                if i < 80 { 1 } else { 2 },
                if i < 79 { 1 } else if i < 98 { 2 } else { 3 },
                if i < 60 { 1 } else { 2 },
                if i < 59 { 1 } else if i < 98 { 2 } else { 3 },
            ]
        })
        .collect();
    let table = ByteFrequencyTable::compute(&records);
    assert_eq!(table.color(0, 1), FrequencyTier::Tier5);
    assert_eq!(table.color(0, 2), FrequencyTier::Tier2);
    assert_eq!(table.color(1, 1), FrequencyTier::Tier4);
    assert_eq!(table.color(1, 2), FrequencyTier::Tier1);
    assert_eq!(table.color(2, 1), FrequencyTier::Tier4);
    assert_eq!(table.color(2, 2), FrequencyTier::Tier3);
    assert_eq!(table.color(3, 1), FrequencyTier::Tier3);
    assert_eq!(table.color(3, 2), FrequencyTier::Tier2);
}

#[test]
fn percentage_is_of_all_records() {
    // three records, only one long enough to have byte 2: one of three
    let records = vec![vec![1, 2, 3], vec![1], vec![]];
    let table = ByteFrequencyTable::compute(&records);
    assert_eq!(table.count_at(2, 3), 1);
    assert_eq!(table.color(2, 3), FrequencyTier::Tier2);
    assert_eq!(table.color(0, 1), FrequencyTier::Tier4);
}

#[test]
fn no_data() {
    let empty = ByteFrequencyTable::compute(&[]);
    assert_eq!(empty.color(0, 0), FrequencyTier::NoData);
    assert_eq!(ByteFrequencyTable::new().color(3, 7), FrequencyTier::NoData);
    let table = ByteFrequencyTable::compute(&[vec![1, 2]]);
    assert_eq!(table.color(2, 0), FrequencyTier::NoData);
    assert_eq!(table.color(usize::MAX, 0), FrequencyTier::NoData);
    assert_eq!(table.count_at(2, 0), 0);
    assert_eq!(table.color(1, 2), FrequencyTier::Tier5);
    let blank = ByteFrequencyTable::compute(&[vec![], vec![]]);
    assert_eq!(blank.color(0, 0), FrequencyTier::NoData);
}

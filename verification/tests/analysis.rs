use linewise::analysis::{
    byte_frequency, count_of, most_common, ranked_frequencies, values_at, Ranked,
};
use linewise::records::{filter_by_position, group_by_position};

#[test]
fn frequencies_of_bytes() {
    let freq = byte_frequency(&[1, 2, 1, 3, 1, 2]);
    assert_eq!(freq.len(), 3);
    assert_eq!(freq[&1], 3);
    assert_eq!(freq[&2], 2);
    assert_eq!(freq[&3], 1);
    assert!(byte_frequency(&[]).is_empty());
    assert_eq!(count_of(&[1, 2, 1, 3, 1, 2], 1), 3);
    assert_eq!(count_of(&[1, 2, 1], 9), 0);
}

#[test]
fn most_common_byte() {
    assert_eq!(most_common(&[]), None);
    assert_eq!(most_common(&[7]), Some((7, 1)));
    assert_eq!(most_common(&[1, 2, 1, 3, 1, 2]), Some((1, 3)));
    assert_eq!(most_common(&[255, 255, 0]), Some((255, 2)));
    // of several values that occur most often the least is given
    assert_eq!(most_common(&[9, 3, 9, 3, 5]), Some((3, 2)));
    assert_eq!(most_common(&[255, 0]), Some((0, 1)));
}

#[test]
fn column_of_values() {
    let a = vec![1, 2, 3];
    let b = vec![4];
    let c = vec![5, 6];
    let records = vec![&a, &b, &c];
    assert_eq!(values_at(&records, 0), vec![1, 4, 5]);
    assert_eq!(values_at(&records, 1), vec![2, 6]);
    assert_eq!(values_at(&records, 2), vec![3]);
    assert_eq!(values_at(&records, 3), Vec::<u8>::new());
}

#[test]
fn filtering_by_position() {
    let records = vec![vec![1, 9], vec![2, 9], vec![1], vec![], vec![1, 8]];
    let hits = filter_by_position(&records, 0, 1);
    assert_eq!(hits, vec![&records[0], &records[2], &records[4]]);
    assert_eq!(filter_by_position(&records, 1, 9), vec![&records[0], &records[1]]);
    assert!(filter_by_position(&records, 2, 0).is_empty());
    assert!(filter_by_position(&records, 0, 7).is_empty());
}

#[test]
fn grouping_by_position() {
    let records = vec![vec![1, 9], vec![2, 9], vec![1], vec![], vec![1, 8]];
    let groups = group_by_position(&records, 0);
    assert_eq!(groups.len(), 2);
    assert_eq!(groups[&1], vec![&records[0], &records[2], &records[4]]);
    assert_eq!(groups[&2], vec![&records[1]]);
    let groups = group_by_position(&records, 1);
    assert_eq!(groups.len(), 2);
    assert_eq!(groups[&9], vec![&records[0], &records[1]]);
    assert_eq!(groups[&8], vec![&records[4]]);
    assert!(group_by_position(&records, 5).is_empty());
}

#[test]
fn ranking_of_frequencies() {
    assert_eq!(ranked_frequencies(&[]), vec![]);
    assert_eq!(
        ranked_frequencies(&[9, 3, 9, 3, 5, 255, 255, 255]),
        vec![
            Ranked { value: 255, count: 3 },
            Ranked { value: 3, count: 2 },
            Ranked { value: 9, count: 2 },
            Ranked { value: 5, count: 1 },
        ]
    );
    assert_eq!(ranked_frequencies(&[0, 0]), vec![Ranked { value: 0, count: 2 }]);
}

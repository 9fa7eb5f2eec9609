use linewise::tables::{
    bytes_eq, copy_bytes, count_items, descending_order, find_key, group_by_header, top_places,
    windows_of, Counted,
};

#[test]
fn windows_of_records() {
    let records = vec![vec![1, 2, 3, 4], vec![9], vec![5, 6]];
    let windows = windows_of(&records, 2);
    assert_eq!(windows, vec![&[1, 2][..], &[2, 3], &[3, 4], &[5, 6]]);
    assert_eq!(windows_of(&records, 4), vec![&[1, 2, 3, 4][..]]);
    assert!(windows_of(&records, 5).is_empty());
    assert!(windows_of(&records, 0).is_empty());
    assert_eq!(windows_of(&records, 1).len(), 7);
    assert!(windows_of(&[], 1).is_empty());
}

#[test]
fn counting_equal_byte_strings() {
    let items: Vec<&[u8]> = vec![&[1, 2], &[3], &[1, 2], &[], &[3], &[1, 2], &[2, 1]];
    assert_eq!(
        count_items(&items),
        vec![
            Counted { bytes: vec![1, 2], count: 3 },
            Counted { bytes: vec![3], count: 2 },
            Counted { bytes: vec![], count: 1 },
            Counted { bytes: vec![2, 1], count: 1 },
        ]
    );
    assert!(count_items(&[]).is_empty());
    let records = vec![vec![0, 0, 0, 1], vec![0, 0]];
    let table = count_items(&windows_of(&records, 2));
    assert_eq!(
        table,
        vec![Counted { bytes: vec![0, 0], count: 3 }, Counted { bytes: vec![0, 1], count: 1 }]
    );
}

#[test]
fn keys_and_bytes() {
    assert!(bytes_eq(&[1, 2], &[1, 2]));
    assert!(!bytes_eq(&[1, 2], &[1, 3]));
    assert!(!bytes_eq(&[1, 2], &[1]));
    assert!(bytes_eq(&[], &[]));
    assert_eq!(copy_bytes(&[7, 8]), vec![7, 8]);
    let keys = vec![vec![1], vec![2, 2], vec![1]];
    assert_eq!(find_key(&keys, &[2, 2]), 1);
    assert_eq!(find_key(&keys, &[1]), 0);
    assert_eq!(find_key(&keys, &[3]), 3);
}

#[test]
fn descending_order_is_stable() {
    assert_eq!(descending_order(&[]), Vec::<usize>::new());
    assert_eq!(descending_order(&[5]), vec![0]);
    assert_eq!(descending_order(&[1, 3, 2, 3, 1]), vec![1, 3, 2, 0, 4]);
    assert_eq!(descending_order(&[2, 2, 2]), vec![0, 1, 2]);
    assert_eq!(descending_order(&[1, 2, 3]), vec![2, 1, 0]);
}

#[test]
fn top_places_of_sizes() {
    let sizes = [1, 9, 4, 9, 2, 4];
    assert_eq!(top_places(&sizes, 0, 50), vec![1, 3, 2, 5, 4, 0]);
    assert_eq!(top_places(&sizes, 4, 50), vec![1, 3, 2, 5]);
    assert_eq!(top_places(&sizes, 4, 3), vec![1, 3, 2]);
    assert_eq!(top_places(&sizes, 10, 3), Vec::<usize>::new());
    assert_eq!(top_places(&sizes, 0, 0), Vec::<usize>::new());
    assert_eq!(top_places(&[], 0, 5), Vec::<usize>::new());
}

#[test]
fn grouping_by_header() {
    let records = vec![vec![1, 2, 9], vec![3, 4, 8], vec![1, 2], vec![1], vec![], vec![3, 4, 7, 7], vec![1]];
    let groups = group_by_header(&records, 2);
    let shown: Vec<(Vec<u8>, Vec<&Vec<u8>>)> =
        groups.into_iter().map(|g| (g.header, g.records)).collect();
    assert_eq!(
        shown,
        vec![
            (vec![1, 2], vec![&records[0], &records[2]]),
            (vec![3, 4], vec![&records[1], &records[5]]),
            (vec![1], vec![&records[3], &records[6]]),
            (vec![], vec![&records[4]]),
        ]
    );
    let all = group_by_header(&records, 0);
    assert_eq!(all.len(), 1);
    assert!(all[0].header.is_empty());
    assert_eq!(all[0].records.len(), 7);
    assert!(group_by_header(&[], 4).is_empty());
    assert_eq!(group_by_header(&records, 10).len(), 6);
}

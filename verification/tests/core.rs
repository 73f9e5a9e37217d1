use fast_dedup::aggregate::aggregate;
use fast_dedup::images::is_image;
use fast_dedup::records::hash_records;
use fast_dedup::split::get_splits;
use fast_dedup::stats::total_size;

#[test]
fn split_uneven() {
    let v: Vec<u32> = vec![1, 2, 3, 4, 5, 6, 7];
    let splits = get_splits(v, 3);
    assert_eq!(splits, vec![vec![1, 2, 3], vec![4, 5], vec![6, 7]]);
}

#[test]
fn split_exact() {
    let v: Vec<u32> = vec![1, 2, 3, 4, 5, 6];
    let splits = get_splits(v, 3);
    assert_eq!(splits, vec![vec![1, 2], vec![3, 4], vec![5, 6]]);
}

#[test]
fn split_single_chunk() {
    let v: Vec<u32> = vec![4, 2, 9];
    let splits = get_splits(v, 1);
    assert_eq!(splits, vec![vec![4, 2, 9]]);
}

#[test]
fn split_empty_input_yields_empty_chunks() {
    let v: Vec<u32> = vec![];
    let splits = get_splits(v, 4);
    assert_eq!(splits, vec![vec![], vec![], vec![], vec![]]);
}

#[test]
fn split_more_chunks_than_items() {
    let v: Vec<u32> = vec![1, 2];
    let splits = get_splits(v, 5);
    assert_eq!(splits, vec![vec![1], vec![2], vec![], vec![], vec![]]);
}

#[test]
fn split_preserves_all_elements() {
    let v: Vec<u32> = vec![9, 3, 3, 7, 1, 8, 2, 6, 5, 4, 3];
    let splits = get_splits(v.clone(), 4);
    // Contiguous concatenation: the chunks rebuild the input exactly,
    // so in particular the multisets agree.
    let mut rebuilt: Vec<u32> = vec![];
    for chunk in &splits {
        rebuilt.extend_from_slice(chunk);
    }
    assert_eq!(rebuilt, v);
}

#[test]
fn split_balanced_lengths() {
    let v: Vec<u32> = (0..23).collect();
    let splits = get_splits(v, 5);
    let lens: Vec<usize> = splits.iter().map(|c| c.len()).collect();
    assert_eq!(lens, vec![5, 5, 5, 4, 4]);
    let max = lens.iter().max().unwrap();
    let min = lens.iter().min().unwrap();
    assert!(max - min <= 1);
}

#[test]
fn image_extensions_recognised() {
    assert!(is_image("a/b/c.jpg"));
    assert!(is_image("photo.jpeg"));
    assert!(is_image("photo.png"));
    assert!(is_image("UPPER.JPG"));
    assert!(is_image("UPPER.JPEG"));
    assert!(is_image("UPPER.PNG"));
}

#[test]
fn non_image_extensions_rejected() {
    assert!(!is_image("notes.txt"));
    assert!(!is_image("archive.tar.gz"));
    assert!(!is_image("mixed.Jpg"));
    assert!(!is_image("noextension"));
    assert!(!is_image("dir.d/file"));
    assert!(!is_image("trailing."));
}

#[test]
fn hidden_files_have_no_extension() {
    assert!(!is_image(".png"));
    assert!(!is_image("a/.jpg"));
    assert!(is_image(".hidden.png"));
}

#[test]
fn hash_records_skips_failures_and_counts_all() {
    let paths = vec![
        String::from("x.jpg"),
        String::from("bad.jpg"),
        String::from("y.png"),
    ];
    let fps = vec![Some(5u64), None, Some(6u64)];
    let (records, processed) = hash_records(&paths, &fps);
    assert_eq!(
        records,
        vec![(String::from("x.jpg"), 5), (String::from("y.png"), 6)]
    );
    assert_eq!(processed, 3);
}

#[test]
fn aggregate_concatenates_worker_outputs() {
    let outputs = vec![
        vec![(String::from("a"), 1u64)],
        vec![],
        vec![(String::from("b"), 2u64), (String::from("c"), 3u64)],
    ];
    let merged = aggregate(&outputs);
    assert_eq!(
        merged,
        vec![
            (String::from("a"), 1),
            (String::from("b"), 2),
            (String::from("c"), 3)
        ]
    );
}

#[test]
fn aggregate_order_changes_nothing_but_order() {
    let first = vec![
        vec![(String::from("a"), 1u64), (String::from("b"), 2)],
        vec![(String::from("c"), 3)],
    ];
    let second = vec![
        vec![(String::from("c"), 3u64)],
        vec![(String::from("a"), 1), (String::from("b"), 2)],
    ];
    let mut m1 = aggregate(&first);
    let mut m2 = aggregate(&second);
    m1.sort();
    m2.sort();
    assert_eq!(m1, m2);
}

#[test]
fn total_size_adds_up() {
    assert_eq!(total_size(&vec![1, 2, 3]), Some(6));
    assert_eq!(total_size(&vec![]), Some(0));
}

#[test]
fn total_size_reports_overflow() {
    assert_eq!(total_size(&vec![u64::MAX, 1]), None);
    assert_eq!(total_size(&vec![u64::MAX]), Some(u64::MAX));
}

use fast_dedup::hashing::{fingerprint_parts, generate_hashes};
use fast_dedup::quality::is_better_quality;
use fast_dedup::resolve::find_duplicates;

#[test]
fn fingerprint_of_gradient_rows() {
    // A 9x8 single-channel image whose rows strictly decrease: every one
    // of the 64 dhash bits compares a cell with its brighter left
    // neighbour, so all bits are set.
    let mut bytes: Vec<u8> = Vec::new();
    for _y in 0..8 {
        for x in 0..9u8 {
            bytes.push(8 - x);
        }
    }
    let fp = fingerprint_parts(&bytes, 9, 8, 1);
    assert_eq!(fp, Some(u64::MAX));
}

#[test]
fn fingerprint_of_flat_image_is_zero() {
    let bytes = vec![7u8; 72];
    let fp = fingerprint_parts(&bytes, 9, 8, 1);
    assert_eq!(fp, Some(0));
}

#[test]
fn fingerprint_rejects_mismatched_geometry() {
    let bytes = vec![0u8; 10];
    assert_eq!(fingerprint_parts(&bytes, 9, 8, 1), None);
    assert_eq!(fingerprint_parts(&bytes, 0, 0, 0), None);
    let empty: Vec<u8> = vec![];
    assert_eq!(fingerprint_parts(&empty, 5, 5, 0), None);
}

#[test]
fn undecodable_files_are_skipped() {
    let images = vec![
        String::from("surely-missing-a.jpg"),
        String::from("surely-missing-b.png"),
    ];
    let bar = indicatif::ProgressBar::hidden();
    let records = generate_hashes(images, bar);
    assert_eq!(records, Vec::<(String, u64)>::new());
}

#[test]
fn quality_of_unreadable_files_is_unknown() {
    assert_eq!(
        is_better_quality("surely-missing-a.jpg", "surely-missing-b.jpg"),
        None
    );
    assert_eq!(is_better_quality("not-an-image.txt", "also-not.doc"), None);
}

#[test]
fn find_duplicates_keeps_first_when_quality_unknown() {
    // None of these files exists, so every quality read fails and the
    // first record of each fingerprint group stays the original.
    let pairs = vec![
        (7u64, String::from("surely-missing-a.jpg")),
        (7u64, String::from("surely-missing-b.jpg")),
        (9u64, String::from("surely-missing-c.png")),
    ];
    let (originals, duplicates) = find_duplicates(pairs);
    assert_eq!(
        originals,
        vec![
            String::from("surely-missing-a.jpg"),
            String::from("surely-missing-c.png")
        ]
    );
    assert_eq!(duplicates, vec![String::from("surely-missing-b.jpg")]);
}

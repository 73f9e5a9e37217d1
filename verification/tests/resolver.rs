use fast_dedup::quality::compare_quality;
use fast_dedup::resolve::resolve_with_quality;

fn pairs_of(v: &[(u64, &str)]) -> Vec<(u64, String)> {
    v.iter().map(|(fp, p)| (*fp, String::from(*p))).collect()
}

#[test]
fn compare_quality_strict_greater() {
    assert_eq!(compare_quality(Some(20), Some(10)), Some(true));
    assert_eq!(compare_quality(Some(10), Some(20)), Some(false));
    assert_eq!(compare_quality(Some(10), Some(10)), Some(false));
    assert_eq!(compare_quality(None, Some(10)), None);
    assert_eq!(compare_quality(Some(10), None), None);
    assert_eq!(compare_quality(None, None), None);
}

#[test]
fn first_equal_quality_contender_wins() {
    // A is overtaken by the strictly better B; C ties with B and loses.
    let pairs = pairs_of(&[(1, "A"), (1, "B"), (1, "C")]);
    let quals = vec![Some(10u64), Some(20u64), Some(20u64)];
    let (originals, duplicates) = resolve_with_quality(&pairs, &quals);
    assert_eq!(originals, vec![String::from("B")]);
    assert_eq!(duplicates, vec![String::from("A"), String::from("C")]);
}

#[test]
fn unique_fingerprints_have_no_duplicates() {
    let pairs = pairs_of(&[(1, "a"), (2, "b"), (3, "c")]);
    let quals = vec![Some(1u64), None, Some(3u64)];
    let (originals, duplicates) = resolve_with_quality(&pairs, &quals);
    assert_eq!(
        originals,
        vec![String::from("a"), String::from("b"), String::from("c")]
    );
    assert_eq!(duplicates, Vec::<String>::new());
}

#[test]
fn unreadable_challenger_keeps_incumbent() {
    // The challenger's quality is unknown, so the incumbent stays even
    // though the challenger might in truth be larger.
    let pairs = pairs_of(&[(1, "keep"), (1, "unknown")]);
    let quals = vec![Some(10u64), None];
    let (originals, duplicates) = resolve_with_quality(&pairs, &quals);
    assert_eq!(originals, vec![String::from("keep")]);
    assert_eq!(duplicates, vec![String::from("unknown")]);
}

#[test]
fn unreadable_incumbent_also_keeps_incumbent() {
    let pairs = pairs_of(&[(1, "keep"), (1, "bigger")]);
    let quals = vec![None, Some(1_000_000u64)];
    let (originals, duplicates) = resolve_with_quality(&pairs, &quals);
    assert_eq!(originals, vec![String::from("keep")]);
    assert_eq!(duplicates, vec![String::from("bigger")]);
}

#[test]
fn better_challenger_demotes_incumbent() {
    let pairs = pairs_of(&[(1, "small"), (1, "large"), (2, "other")]);
    let quals = vec![Some(100u64), Some(400u64), Some(50u64)];
    let (originals, duplicates) = resolve_with_quality(&pairs, &quals);
    assert_eq!(originals, vec![String::from("large"), String::from("other")]);
    assert_eq!(duplicates, vec![String::from("small")]);
}

#[test]
fn resolving_twice_gives_identical_partitions() {
    let pairs = pairs_of(&[(1, "A"), (2, "B"), (1, "C"), (2, "D"), (3, "E")]);
    let quals = vec![Some(4u64), Some(9u64), Some(4u64), None, Some(1u64)];
    let first = resolve_with_quality(&pairs, &quals);
    let second = resolve_with_quality(&pairs, &quals);
    assert_eq!(first, second);
}

#[test]
fn same_content_same_size_keeps_exactly_one() {
    // Two files with identical content and dimensions share a fingerprint
    // and tie on quality: exactly one of them survives, plus the unique
    // third file.
    let pairs = pairs_of(&[(0xAA, "a.jpg"), (0xAA, "b.jpg"), (0xBB, "c.png")]);
    let quals = vec![Some(250_000u64), Some(250_000u64), Some(1u64)];
    let (originals, duplicates) = resolve_with_quality(&pairs, &quals);
    assert_eq!(originals, vec![String::from("a.jpg"), String::from("c.png")]);
    assert_eq!(duplicates, vec![String::from("b.jpg")]);
    // Never both copies among the originals.
    assert!(
        !(originals.contains(&String::from("a.jpg")) && originals.contains(&String::from("b.jpg")))
    );
}

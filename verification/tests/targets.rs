use swift_project_model::targets::{
    Targets, MAX_NAME_LEN, MAX_SUBTYPE_LEN, MAX_TARGETS, TARGET_KIND_LIBRARY, TARGET_KIND_TEST,
    TARGET_KIND_UNKNOWN,
};

#[test]
fn new_targets_are_empty() {
    let targets = Targets::new();
    assert_eq!(targets.count(), 0);
    assert!(targets.name(0).is_empty());
    assert!(targets.subtype(63).is_empty());
    assert_eq!(targets.kind(63), TARGET_KIND_UNKNOWN);
}

#[test]
fn pushed_targets_keep_their_order() {
    let mut targets = Targets::new();
    targets.push(b"A", TARGET_KIND_LIBRARY, b"swift-library");
    targets.push(b"B", TARGET_KIND_TEST, b"");
    assert_eq!(targets.count(), 2);
    assert_eq!(targets.name(0), b"A");
    assert_eq!(targets.kind(0), TARGET_KIND_LIBRARY);
    assert_eq!(targets.subtype(0), b"swift-library");
    assert_eq!(targets.name(1), b"B");
    assert_eq!(targets.kind(1), TARGET_KIND_TEST);
    assert!(targets.subtype(1).is_empty());
    assert!(targets.name(2).is_empty());
}

#[test]
fn long_names_and_subtypes_are_cut() {
    let mut targets = Targets::new();
    targets.push(&[b'n'; 200], 1, &[b's'; 40]);
    assert_eq!(targets.name(0), &[b'n'; 128][..]);
    assert_eq!(targets.subtype(0), &[b's'; 32][..]);
    assert_eq!(MAX_NAME_LEN, 128);
    assert_eq!(MAX_SUBTYPE_LEN, 32);
    targets.push(&[b'n'; 128], 1, &[b's'; 32]);
    assert_eq!(targets.name(1), &[b'n'; 128][..]);
    assert_eq!(targets.subtype(1), &[b's'; 32][..]);
}

#[test]
fn full_targets_stay_as_they_are() {
    let mut targets = Targets::new();
    for i in 0..70u8 {
        targets.push(&[i], i, b"");
    }
    assert_eq!(targets.count(), MAX_TARGETS);
    assert_eq!(MAX_TARGETS, 64);
    assert_eq!(targets.name(63), &[63u8][..]);
    assert_eq!(targets.kind(63), 63);
}

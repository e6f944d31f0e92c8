use visionary::snapshots::{
    add_bytes, discard_unpublished, reserve, retire_before, tree_bytes, SnapshotRefusal,
    CACHE_LIMIT, MAX_SNAPSHOT,
};

#[test]
fn immutable_reservations_and_precise_retirement() {
    let sizes = Vec::new();
    for (generation, name) in [(7, "7"), (8, "8"), (9, "9")] {
        assert_eq!(reserve(generation, false, &sizes).as_deref(), Ok(name));
    }
    assert!(reserve(0, false, &sizes).is_err());
    assert_eq!(reserve(10, false, &sizes).as_deref(), Ok("10"));
    assert_eq!(discard_unpublished(10, false).as_deref(), Some("10"));
    assert!(retire_before("7", true, 8));
    for kept in ["8", "9", "07", "notes"] {
        assert!(!retire_before(kept, true, 8), "{kept}");
    }
}

#[test]
fn cache_links_are_not_followed() {
    assert_eq!(reserve(2, true, &Vec::new()), Err(SnapshotRefusal::Link));
    // A link is no folder.
    assert!(!retire_before("1", false, 2));
    assert_eq!(discard_unpublished(2, true), None);
}

#[test]
fn a_full_cache_takes_no_more() {
    let free = CACHE_LIMIT - MAX_SNAPSHOT;
    assert_eq!(reserve(1, false, &vec![free]).as_deref(), Ok("1"));
    assert_eq!(
        reserve(1, false, &vec![free, 1]),
        Err(SnapshotRefusal::CacheFull)
    );
    assert_eq!(
        reserve(1, false, &vec![u64::MAX, 1]),
        Err(SnapshotRefusal::SizeOverflow)
    );
    assert_eq!(reserve(0, true, &Vec::new()), Err(SnapshotRefusal::ZeroGeneration));
    assert_eq!(tree_bytes(&vec![1, 2, 3]), Ok(6));
    assert_eq!(add_bytes(u64::MAX, 1), Err(SnapshotRefusal::SizeOverflow));
}

#[test]
fn generations_are_written_in_one_way() {
    for odd in ["", "0", "00", "+1", "-1", " 1", "1x", "18446744073709551616"] {
        assert!(!retire_before(odd, true, u64::MAX), "{odd}");
    }
    assert!(retire_before("18446744073709551614", true, u64::MAX));
    assert_eq!(discard_unpublished(0, false), None);
}

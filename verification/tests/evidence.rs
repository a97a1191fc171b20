use clipfarmer::evidence::EvidenceRing;

#[test]
fn keeps_only_the_newest_entries_when_capacity_is_reached() {
    let mut ring = EvidenceRing::new(2);
    ring.record("first", "session", "{\"value\":1}".to_owned(), 1);
    ring.record("second", "session", "{\"value\":2}".to_owned(), 2);
    ring.record("third", "session", "{\"value\":3}".to_owned(), 3);
    let snapshot = ring.snapshot();
    assert_eq!(snapshot.len(), 2);
    assert_eq!(snapshot[0].kind, "second");
    assert_eq!(snapshot[1].kind, "third");
}

#[test]
fn a_ring_without_room_still_records() {
    let mut ring = EvidenceRing::new(0);
    ring.record("a", "s", "{}".to_owned(), 1);
    ring.record("b", "s", "{}".to_owned(), 2);
    assert_eq!(ring.snapshot().len(), 2);
}

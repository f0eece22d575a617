use fingerprint::{Occurrence, OccurrenceIndex};

fn occurrence(start: u32, end: u32) -> Occurrence<u32, &'static str> {
    Occurrence { start_index: start, start_meta: "first", end_index: end, end_meta: "last" }
}

fn bounds<'a>(
    group: impl Iterator<Item = &'a Occurrence<u32, &'static str>>,
) -> Vec<(u32, u32)> {
    group.map(|occurrence| (occurrence.start_index, occurrence.end_index)).collect()
}

#[test]
fn new_index_is_empty() {
    let index: OccurrenceIndex<u32, &'static str> = OccurrenceIndex::new();
    assert!(index.occurrences(0).is_none());
    assert!(index.occurrences(u64::MAX).is_none());
    assert!(index.duplicates().is_empty());
}

#[test]
fn record_appends_to_the_group_of_its_digest() {
    let mut index = OccurrenceIndex::new();
    index.record(7, occurrence(0, 2));
    index.record(9, occurrence(1, 3));
    index.record(7, occurrence(3, 5));
    index.record(7, occurrence(4, 6));
    assert_eq!(bounds(index.occurrences(7).unwrap()), vec![(0, 2), (3, 5), (4, 6)]);
    assert_eq!(bounds(index.occurrences(9).unwrap()), vec![(1, 3)]);
    assert!(index.occurrences(8).is_none());
}

#[test]
fn record_keeps_metadata() {
    let mut index = OccurrenceIndex::new();
    index.record(
        1,
        Occurrence { start_index: 0u32, start_meta: "a", end_index: 1u32, end_meta: "b" },
    );
    let group: Vec<&Occurrence<u32, &str>> = index.occurrences(1).unwrap().collect();
    assert_eq!(group[0].start_meta, "a");
    assert_eq!(group[0].end_meta, "b");
}

#[test]
fn duplicates_are_the_groups_of_more_than_one() {
    let mut index = OccurrenceIndex::new();
    index.record(1, occurrence(0, 1));
    index.record(2, occurrence(1, 2));
    index.record(3, occurrence(2, 3));
    index.record(2, occurrence(3, 4));
    index.record(3, occurrence(4, 5));
    index.record(3, occurrence(5, 6));
    let mut found: Vec<Vec<(u32, u32)>> =
        index.duplicates().into_iter().map(|group| bounds(group.iter())).collect();
    found.sort();
    assert_eq!(found, vec![vec![(1, 2), (3, 4)], vec![(2, 3), (4, 5), (5, 6)]]);
}

#[test]
fn equal_groups_under_two_digests_are_both_reported() {
    let mut index = OccurrenceIndex::new();
    index.record(10, occurrence(0, 0));
    index.record(10, occurrence(0, 0));
    index.record(20, occurrence(0, 0));
    index.record(20, occurrence(0, 0));
    index.record(30, occurrence(0, 0));
    let found = index.duplicates();
    assert_eq!(found.len(), 2);
    for group in found {
        assert_eq!(bounds(group.iter()), vec![(0, 0), (0, 0)]);
    }
}

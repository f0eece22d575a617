use fingerprint::{Fingerprinter, Occurrence};
use rand::Rng;

fn numbered(values: &[i64]) -> Vec<(usize, i64)> {
    values.iter().cloned().enumerate().collect()
}

fn starts(group: &[Occurrence<usize, ()>]) -> Vec<usize> {
    group.iter().map(|occurrence| occurrence.start_index).collect()
}

#[test]
fn repeated_triple_is_one_duplicate_group() {
    let mut fingerprinter = Fingerprinter::new(
        |record: &(usize, i64)| record.1,
        |record: &(usize, i64)| record.0,
        |_: &(usize, i64)| (),
        3,
        |_: &[i64]| true,
    )
    .unwrap();
    let data = numbered(&[1, 2, 3, 1, 2, 3, 9]);
    fingerprinter.process_series(&data);

    let duplicates = fingerprinter.duplicates();
    assert_eq!(duplicates.len(), 1);
    let group = duplicates[0];
    assert_eq!(group.len(), 2);
    assert_eq!(group[0].start_index, 0);
    assert_eq!(group[0].end_index, 2);
    assert_eq!(group[1].start_index, 3);
    assert_eq!(group[1].end_index, 5);

    assert_eq!(starts_of(fingerprinter.matches(&[1, 2, 3]).unwrap()), vec![0, 3]);
}

#[test]
fn other_windows_of_repeated_triple_are_singletons() {
    let mut fingerprinter = Fingerprinter::new(
        |record: &(usize, i64)| record.1,
        |record: &(usize, i64)| record.0,
        |_: &(usize, i64)| (),
        3,
        |_: &[i64]| true,
    )
    .unwrap();
    let data = numbered(&[1, 2, 3, 1, 2, 3, 9]);
    fingerprinter.process_series(&data);

    let expected: [(&[i64], usize); 3] = [(&[2, 3, 1], 1), (&[3, 1, 2], 2), (&[2, 3, 9], 4)];
    for (window, offset) in expected {
        let group: Vec<&Occurrence<usize, ()>> = fingerprinter.matches(window).unwrap().collect();
        assert_eq!(group.len(), 1);
        assert_eq!(group[0].start_index, offset);
        assert_eq!(group[0].end_index, offset + 2);
    }
    for group in fingerprinter.duplicates() {
        assert_eq!(starts(group), vec![0, 3]);
    }
}

#[test]
fn random_series_repeated_has_duplicates_one_period_apart() {
    let mut rng = rand::thread_rng();
    let mut random_data: Vec<f64> = (0..5_000).map(|_| rng.gen::<f64>()).collect();
    random_data.extend(random_data.clone());
    assert_eq!(random_data.len(), 10_000);
    let data: Vec<(usize, f64)> = random_data.iter().cloned().enumerate().collect();

    let mut fingerprinter = Fingerprinter::new(
        |record: &(usize, f64)| (record.1 * 10_000.0).round() as i64,
        |record: &(usize, f64)| record.0,
        |_: &(usize, f64)| (),
        100,
        |_: &[i64]| true,
    )
    .unwrap();
    fingerprinter.process_series(&data);

    let duplicates = fingerprinter.duplicates();
    assert!(!duplicates.is_empty());
    assert!(duplicates.iter().any(|group| {
        group.len() == 2 && group[1].start_index - group[0].start_index == 5_000
    }));
    let first_window: Vec<i64> =
        random_data[..100].iter().map(|value| (value * 10_000.0).round() as i64).collect();
    let found = starts_of(fingerprinter.matches(&first_window).unwrap());
    assert!(found.contains(&0));
    assert!(found.contains(&5_000));
}

fn starts_of<'a>(group: impl Iterator<Item = &'a Occurrence<usize, ()>>) -> Vec<usize> {
    group.map(|occurrence| occurrence.start_index).collect()
}

#[test]
fn increasing_series_has_no_duplicates() {
    let mut fingerprinter = Fingerprinter::new(
        |record: &(usize, i64)| record.1,
        |record: &(usize, i64)| record.0,
        |_: &(usize, i64)| (),
        2,
        |_: &[i64]| true,
    )
    .unwrap();
    let values: Vec<i64> = (0..500).map(|step| step * 3 + 1).collect();
    fingerprinter.process_series(&numbered(&values));
    assert!(fingerprinter.duplicates().is_empty());

    let mut wider = Fingerprinter::new(
        |record: &(usize, i64)| record.1,
        |record: &(usize, i64)| record.0,
        |_: &(usize, i64)| (),
        7,
        |_: &[i64]| true,
    )
    .unwrap();
    wider.process_series(&numbered(&values));
    assert!(wider.duplicates().is_empty());
}

use change_model::Change;
use change_model::Changeset;
use change_model::DateTime;
use change_model::EntryDiff;
use change_model::MaybeChange;
use change_model::MetaEntryDiff;
use change_model::MetadataChange;
use change_model::MetadataInfo;
use change_model::Timestamp;
use std::collections::BTreeMap;

fn stamp(year: i32, nanosecond: u32) -> Timestamp {
    Timestamp::new(DateTime {
        year,
        month: 1,
        day: 1,
        hour: 0,
        minute: 0,
        second: 0,
        nanosecond,
    })
    .expect("a date and time that exist")
}

fn info(size: u64, modified: Option<Timestamp>) -> MetadataInfo<Timestamp> {
    MetadataInfo {
        changes: vec![MetadataChange::Size(Change { from: size, to: size + 10 })],
        inode: MaybeChange::Same(None),
        created: MaybeChange::Same(None),
        modified: MaybeChange::Same(modified),
        accessed: MaybeChange::Same(None),
        inode_modified: MaybeChange::Same(None),
    }
}

fn pairs() -> Vec<(String, MetaEntryDiff<Timestamp>)> {
    vec![
        ("b/c".to_string(), MetaEntryDiff::Added(info(1, Some(stamp(2001, 1))))),
        ("a".to_string(), MetaEntryDiff::Deleted(info(2, None))),
        ("b".to_string(), MetaEntryDiff::MetaOnlyChange(info(3, Some(stamp(2003, 3))))),
        ("a/b.txt".to_string(), MetaEntryDiff::EntryChange(EntryDiff::OtherChange, info(4, None))),
        ("Z".to_string(), MetaEntryDiff::Added(info(5, None))),
        ("é".to_string(), MetaEntryDiff::Added(info(6, None))),
        ("".to_string(), MetaEntryDiff::Added(info(7, None))),
        ("a!".to_string(), MetaEntryDiff::Added(info(8, None))),
    ]
}

fn paths_of<Ts>(changeset: &Changeset<Ts>) -> Vec<String> {
    (0..changeset.len())
        .map(|i| changeset.entry(i).expect("an entry below the length").0.to_string())
        .collect()
}

fn built(order: &[usize]) -> Changeset<Timestamp> {
    let all = pairs();
    let mut changeset = Changeset::new(stamp(2024, 0));
    for &i in order {
        let (path, diff) = all[i].clone();
        assert_eq!(changeset.insert(path, diff), None);
    }
    changeset
}

#[test]
fn new_changeset_is_empty() {
    let changeset: Changeset<Timestamp> = Changeset::new(stamp(2024, 0));
    assert_eq!(changeset.len(), 0);
    assert_eq!(*changeset.earliest_timestamp(), stamp(2024, 0));
    assert!(changeset.entry(0).is_none());
    assert!(changeset.get("a").is_none());
}

#[test]
fn entries_come_in_the_order_of_their_paths() {
    let changeset = built(&[0, 1, 2, 3, 4, 5, 6, 7]);
    assert_eq!(paths_of(&changeset), ["", "Z", "a", "a!", "a/b.txt", "b", "b/c", "é"]);
    assert!(changeset.entry(8).is_none());
}

#[test]
fn entries_come_in_the_order_of_a_btree_map() {
    let changeset = built(&[5, 3, 7, 1, 0, 6, 2, 4]);
    let reference: BTreeMap<String, MetaEntryDiff<Timestamp>> = pairs().into_iter().collect();
    assert_eq!(changeset.len(), reference.len());
    for (i, (path, diff)) in reference.iter().enumerate() {
        let entry = changeset.entry(i).expect("an entry below the length");
        assert_eq!(entry.0, path);
        assert_eq!(entry.1, diff);
    }
}

#[test]
fn insertion_order_does_not_matter() {
    let first = built(&[0, 1, 2, 3, 4, 5, 6, 7]);
    let orders: [[usize; 8]; 4] = [
        [7, 6, 5, 4, 3, 2, 1, 0],
        [3, 0, 6, 1, 7, 2, 5, 4],
        [1, 3, 5, 7, 0, 2, 4, 6],
        [4, 5, 6, 7, 0, 1, 2, 3],
    ];
    for order in orders {
        let other = built(&order);
        assert_eq!(other, first);
        assert_eq!(paths_of(&other), paths_of(&first));
    }
}

#[test]
fn get_finds_each_diff_under_its_path() {
    let changeset = built(&[2, 0, 1, 3, 7, 6, 5, 4]);
    for (path, diff) in pairs() {
        assert_eq!(changeset.get(&path), Some(&diff));
    }
    assert_eq!(changeset.get("a/b"), None);
    assert_eq!(changeset.get("c"), None);
    assert_eq!(changeset.get("A"), None);
}

#[test]
fn insert_under_a_known_path_overwrites() {
    let mut changeset = built(&[0, 1, 2]);
    let newer = MetaEntryDiff::Added(info(99, None));
    let previous = changeset.insert("a".to_string(), newer.clone());
    assert_eq!(previous, Some(MetaEntryDiff::Deleted(info(2, None))));
    assert_eq!(changeset.len(), 3);
    assert_eq!(changeset.get("a"), Some(&newer));
    assert_eq!(paths_of(&changeset), ["a", "b", "b/c"]);
    let newest = MetaEntryDiff::Deleted(info(100, None));
    assert_eq!(changeset.insert("a".to_string(), newest.clone()), Some(newer));
    assert_eq!(changeset.get("a"), Some(&newest));
    assert_eq!(changeset.len(), 3);
}

#[test]
fn transform_keeps_paths_variants_and_changes() {
    let changeset = built(&[0, 1, 2, 3, 4, 5, 6, 7]);
    let mapped = changeset.transform_timestamps(|t| t.encode());
    assert_eq!(mapped.len(), changeset.len());
    assert_eq!(mapped.earliest_timestamp(), "2024-01-01 00:00:00.0");
    assert_eq!(paths_of(&mapped), paths_of(&changeset));
    for i in 0..changeset.len() {
        let before = changeset.entry(i).expect("an entry").1;
        let after = mapped.entry(i).expect("an entry").1;
        assert_eq!(
            matches!(before, MetaEntryDiff::Added(_)),
            matches!(after, MetaEntryDiff::Added(_))
        );
        assert_eq!(
            matches!(before, MetaEntryDiff::Deleted(_)),
            matches!(after, MetaEntryDiff::Deleted(_))
        );
        assert_eq!(
            matches!(before, MetaEntryDiff::MetaOnlyChange(_)),
            matches!(after, MetaEntryDiff::MetaOnlyChange(_))
        );
        assert_eq!(
            matches!(before, MetaEntryDiff::EntryChange(EntryDiff::OtherChange, _)),
            matches!(after, MetaEntryDiff::EntryChange(EntryDiff::OtherChange, _))
        );
        assert_eq!(before.meta_info().changes, after.meta_info().changes);
        assert_eq!(before.meta_info().inode, after.meta_info().inode);
    }
    assert_eq!(
        mapped.get("b").expect("a diff").meta_info().modified,
        MaybeChange::Same(Some("2003-01-01 00:00:00.000000003".to_string()))
    );
    assert_eq!(mapped.get("a").expect("a diff").meta_info().modified, MaybeChange::Same(None));
}

#[test]
fn transform_there_and_back_gives_the_changeset() {
    let changeset = built(&[3, 1, 4, 0, 5, 2, 6, 7]);
    let as_text = changeset.transform_timestamps(|t| t.encode());
    let back =
        as_text.transform_timestamps(|text| Timestamp::decode(text).expect("a timestamp's text"));
    assert_eq!(back, changeset);
}

#[test]
fn into_parts_hands_out_the_entries_in_order() {
    let changeset = built(&[5, 3, 7, 1, 0, 6, 2, 4]);
    let mut expected = pairs();
    expected.sort_by(|a, b| a.0.cmp(&b.0));
    assert_eq!(changeset.into_parts(), (stamp(2024, 0), expected));
}

#[test]
fn transform_maps_the_earliest_timestamp_too() {
    let changeset = built(&[0, 1]);
    let years = changeset.transform_timestamps(|t| t.utc().year);
    assert_eq!(*years.earliest_timestamp(), 2024);
    assert_eq!(years.get("b/c").expect("a diff").meta_info().modified, MaybeChange::Same(Some(2001)));
    let empty: Changeset<Timestamp> = Changeset::new(stamp(1999, 7));
    let mapped = empty.transform_timestamps(|t| t.utc().nanosecond + 1);
    assert_eq!(*mapped.earliest_timestamp(), 8);
    assert_eq!(mapped.len(), 0);
}

#[test]
fn clone_is_equal() {
    let changeset = built(&[3, 1, 4, 0]);
    assert_eq!(changeset.clone(), changeset);
}

#[test]
fn one_entry_changeset_end_to_end() {
    let earliest = Timestamp::decode("2024-01-01 00:00:00.0").expect("a timestamp's text");
    let diff: MetaEntryDiff<Timestamp> = MetaEntryDiff::MetaOnlyChange(MetadataInfo {
        changes: vec![MetadataChange::Size(Change { from: 10, to: 20 })],
        inode: MaybeChange::Same(None),
        created: MaybeChange::Same(None),
        modified: MaybeChange::Same(None),
        accessed: MaybeChange::Same(None),
        inode_modified: MaybeChange::Same(None),
    });
    let mut changeset = Changeset::new(earliest);
    assert_eq!(changeset.insert("a/b.txt".to_string(), diff.clone()), None);
    assert_eq!(changeset.len(), 1);
    assert_eq!(paths_of(&changeset), ["a/b.txt"]);
    assert_eq!(changeset.earliest_timestamp().encode(), "2024-01-01 00:00:00.0");

    // What a record of the changeset holds, and the changeset read back from it.
    let record = changeset.transform_timestamps(|t| t.encode());
    assert_eq!(record.earliest_timestamp(), "2024-01-01 00:00:00.0");
    assert_eq!(record.len(), 1);
    assert_eq!(paths_of(&record), ["a/b.txt"]);

    let read =
        record.transform_timestamps(|text| Timestamp::decode(text).expect("a timestamp"));
    assert_eq!(read, changeset);
    assert_eq!(read.get("a/b.txt"), Some(&diff));
}

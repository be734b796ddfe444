use plate_prep::labels::{
    build_label_array, build_label_index, LabelError, LabelMap, LabelMapError,
};
use plate_prep::manifest::{index_observations, Observation, Split};

fn observation(label: &str, split: Split) -> Observation {
    Observation {
        class_id: String::from("0"),
        filepath: String::from("x.png"),
        label: String::from(label),
        split,
    }
}

fn train(labels: &[&str]) -> Vec<Observation> {
    labels.iter().map(|l| observation(l, Split::Train)).collect()
}

#[test]
fn end_to_end_label_encoding() {
    let manifest = b"class id,filepaths,labels,data set\n\
        0,1.png,a,train\n0,2.png,a,train\n1,3.png,b,train\n0,4.png,a,test\n";
    let observations = index_observations("plates", manifest).unwrap();
    let map = build_label_index(&observations.train);
    assert_eq!(map.entries(), vec![(String::from("a"), 0), (String::from("b"), 1)]);
    assert_eq!(build_label_array(&observations.train, &map), Ok(vec![0, 0, 1]));
    assert_eq!(build_label_array(&observations.test, &map), Ok(vec![0]));
}

#[test]
fn ids_are_contiguous_from_zero() {
    let map = build_label_index(&train(&["pear", "apple", "fig", "apple", "pear", "kiwi"]));
    assert_eq!(map.len(), 4);
    let ids: Vec<u64> = map.entries().into_iter().map(|(_, id)| id).collect();
    assert_eq!(ids, vec![0, 1, 2, 3]);
    assert_eq!(map.id_of("apple"), Some(0));
    assert_eq!(map.id_of("fig"), Some(1));
    assert_eq!(map.id_of("kiwi"), Some(2));
    assert_eq!(map.id_of("pear"), Some(3));
    assert_eq!(map.id_of("plum"), None);
}

#[test]
fn building_twice_gives_the_same_map() {
    let entries = train(&["b", "c", "a", "b"]);
    let first = build_label_index(&entries);
    let second = build_label_index(&entries);
    assert_eq!(first.entries(), second.entries());
    let reordered = train(&["a", "b", "b", "c"]);
    assert_eq!(build_label_index(&reordered).entries(), first.entries());
}

#[test]
fn labels_are_ordered_by_their_bytes() {
    let map = build_label_index(&train(&["b", "B", "a", "ab", "", "é", "z", "10", "9"]));
    let names: Vec<String> = map.entries().into_iter().map(|(name, _)| name).collect();
    assert_eq!(names, vec!["", "10", "9", "B", "a", "ab", "b", "z", "é"]);
    let mut sorted = names.clone();
    sorted.sort();
    assert_eq!(names, sorted);
}

#[test]
fn empty_split_gives_empty_map() {
    let map = build_label_index(&[]);
    assert_eq!(map.len(), 0);
    assert_eq!(LabelMap::new().len(), 0);
    assert_eq!(map.id_of("a"), None);
    assert_eq!(build_label_array(&[], &map), Ok(vec![]));
}

#[test]
fn only_the_given_split_is_consulted() {
    let map = build_label_index(&train(&["a"]));
    let test = vec![observation("a", Split::Test), observation("b", Split::Test)];
    assert_eq!(build_label_array(&test, &map), Err(LabelError::UnseenLabel { index: 1 }));
}

#[test]
fn first_unseen_label_is_reported() {
    let map = build_label_index(&train(&["a", "b"]));
    let valid = vec![
        observation("b", Split::Valid),
        observation("x", Split::Valid),
        observation("y", Split::Valid),
    ];
    assert_eq!(build_label_array(&valid, &map), Err(LabelError::UnseenLabel { index: 1 }));
}

#[test]
fn ids_map_back_to_labels() {
    let map = build_label_index(&train(&["b", "a"]));
    assert_eq!(map.label_of(0).map(String::as_str), Some("a"));
    assert_eq!(map.label_of(1).map(String::as_str), Some("b"));
    assert_eq!(map.label_of(2), None);
    assert_eq!(map.label_of_class(1).map(String::as_str), Some("b"));
    assert_eq!(map.label_of_class(2), None);
    assert_eq!(map.label_of_class(-1), None);
    assert_eq!(map.label_of_class(i64::MAX), None);
}

#[test]
fn entries_make_the_same_map_again() {
    let map = build_label_index(&train(&["c", "a", "b"]));
    let again = LabelMap::from_entries(&map.entries()).unwrap();
    assert_eq!(again.entries(), map.entries());
}

#[test]
fn entries_must_be_numbered_in_order() {
    let entry = |s: &str, id: u64| (String::from(s), id);
    assert_eq!(
        LabelMap::from_entries(&vec![entry("a", 0), entry("b", 2)]).unwrap_err(),
        LabelMapError::WrongId { index: 1 }
    );
    assert_eq!(
        LabelMap::from_entries(&vec![entry("a", 1)]).unwrap_err(),
        LabelMapError::WrongId { index: 0 }
    );
    assert_eq!(
        LabelMap::from_entries(&vec![entry("b", 0), entry("a", 1)]).unwrap_err(),
        LabelMapError::OutOfOrder { index: 1 }
    );
    assert_eq!(
        LabelMap::from_entries(&vec![entry("a", 0), entry("a", 1)]).unwrap_err(),
        LabelMapError::OutOfOrder { index: 1 }
    );
    assert_eq!(LabelMap::from_entries(&vec![]).unwrap().len(), 0);
}

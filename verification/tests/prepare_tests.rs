use plate_prep::labels::LabelError;
use plate_prep::manifest::{index_observations, Split};
use plate_prep::prepare::{encode_labels, EncodeError};

fn manifest(rows: &[&str]) -> Vec<u8> {
    let mut text = String::from("class id,filepaths,labels,data set\n");
    for row in rows {
        text.push_str(row);
        text.push('\n');
    }
    text.into_bytes()
}

#[test]
fn all_splits_are_encoded_with_the_training_map() {
    let data = manifest(&[
        "0,1.png,b,train",
        "0,2.png,a,test",
        "0,3.png,c,train",
        "0,4.png,a,train",
        "0,5.png,c,valid",
        "0,6.png,b,valid",
    ]);
    let observations = index_observations("plates", &data).unwrap();
    let encoded = encode_labels(&observations).unwrap();
    assert_eq!(encoded.map.len(), 3);
    assert_eq!(encoded.train, vec![1, 2, 0]);
    assert_eq!(encoded.test, vec![0]);
    assert_eq!(encoded.valid, vec![2, 1]);
}

#[test]
fn label_unseen_in_training_is_an_error() {
    let data = manifest(&["0,1.png,a,train", "0,2.png,a,valid", "0,3.png,z,valid", "0,4.png,q,test"]);
    let observations = index_observations("plates", &data).unwrap();
    assert_eq!(
        encode_labels(&observations).unwrap_err(),
        EncodeError { split: Split::Test, error: LabelError::UnseenLabel { index: 0 } }
    );
    let data = manifest(&["0,1.png,a,train", "0,2.png,a,valid", "0,3.png,z,valid"]);
    let observations = index_observations("plates", &data).unwrap();
    assert_eq!(
        encode_labels(&observations).unwrap_err(),
        EncodeError { split: Split::Valid, error: LabelError::UnseenLabel { index: 1 } }
    );
}

#[test]
fn empty_training_split_encodes_nothing_else() {
    let data = manifest(&["0,2.png,a,test"]);
    let observations = index_observations("plates", &data).unwrap();
    assert_eq!(
        encode_labels(&observations).unwrap_err(),
        EncodeError { split: Split::Test, error: LabelError::UnseenLabel { index: 0 } }
    );
    let observations = index_observations("plates", &manifest(&[])).unwrap();
    let encoded = encode_labels(&observations).unwrap();
    assert_eq!(encoded.map.len(), 0);
    assert!(encoded.train.is_empty() && encoded.test.is_empty() && encoded.valid.is_empty());
}

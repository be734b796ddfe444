use plate_prep::codec::{
    check_label_array, decode_label_array, decode_label_map, encode_label_array,
    encode_label_map, CodecError,
};
use plate_prep::labels::{build_label_index, LabelMapError};
use plate_prep::manifest::{Observation, Split};

fn train(labels: &[&str]) -> Vec<Observation> {
    labels
        .iter()
        .map(|l| Observation {
            class_id: String::from("0"),
            filepath: String::from("x.png"),
            label: String::from(*l),
            split: Split::Train,
        })
        .collect()
}

#[test]
fn label_array_round_trip_empty() {
    let ids: Vec<i64> = vec![];
    let data = encode_label_array(&ids).unwrap();
    assert_eq!(decode_label_array(&data, 0, 0), Ok(ids));
}

#[test]
fn label_array_round_trip_one() {
    let ids: Vec<i64> = vec![4];
    let data = encode_label_array(&ids).unwrap();
    assert_eq!(decode_label_array(&data, 1, 5), Ok(ids));
}

#[test]
fn label_array_round_trip_hundred() {
    let ids: Vec<i64> = (0..100).map(|i| (i * 37) % 50).collect();
    let data = encode_label_array(&ids).unwrap();
    assert_eq!(decode_label_array(&data, 100, 50), Ok(ids));
}

#[test]
fn label_array_round_trip_wide_ids() {
    let ids: Vec<i64> = vec![0, 127, 128, 255, 256, 65_535, 65_536, 4_294_967_296, i64::MAX - 1];
    let data = encode_label_array(&ids).unwrap();
    assert_eq!(decode_label_array(&data, ids.len(), usize::MAX), Ok(ids));
}

#[test]
fn label_array_bytes_carry_version_shape_and_values() {
    let data = encode_label_array(&vec![0, 0, 1]).unwrap();
    assert_eq!(data, vec![0x93, 0x01, 0x91, 0x03, 0x93, 0x00, 0x00, 0x01]);
}

#[test]
fn label_array_can_be_read_by_ndarray() {
    let data = encode_label_array(&vec![2, 0, 1]).unwrap();
    let array: ndarray::Array1<i64> = rmp_serde::decode::from_read(&data[..]).unwrap();
    assert_eq!(array.shape(), &[3]);
    assert_eq!(array.to_vec(), vec![2, 0, 1]);
}

#[test]
fn label_array_written_by_ndarray_can_be_read() {
    let array = ndarray::Array1::from(vec![1i64, 1, 0]);
    let mut data = Vec::new();
    rmp_serde::encode::write(&mut data, &array).unwrap();
    assert_eq!(decode_label_array(&data, 3, 2), Ok(vec![1, 1, 0]));
}

#[test]
fn corrupt_label_array_is_malformed() {
    assert_eq!(decode_label_array(&[], 0, 0), Err(CodecError::Malformed));
    assert_eq!(decode_label_array(&[0x93, 0x02, 0x91, 0x00, 0x90], 0, 0), Err(CodecError::Malformed));
    assert_eq!(decode_label_array(&[0x93, 0x01, 0x91, 0x02, 0x91, 0x00], 2, 1), Err(CodecError::Malformed));
    let mut data = encode_label_array(&vec![0, 1, 2]).unwrap();
    data.truncate(data.len() - 1);
    assert_eq!(decode_label_array(&data, 3, 3), Err(CodecError::Malformed));
}

#[test]
fn label_array_must_match_the_observations() {
    let data = encode_label_array(&vec![0, 1]).unwrap();
    assert_eq!(decode_label_array(&data, 3, 2), Err(CodecError::WrongLength { found: 2 }));
}

#[test]
fn label_array_must_hold_valid_ids() {
    let data = encode_label_array(&vec![0, 1, 2, 5]).unwrap();
    assert_eq!(decode_label_array(&data, 4, 2), Err(CodecError::InvalidId { index: 2 }));
    let data = encode_label_array(&vec![0, -1]).unwrap();
    assert_eq!(decode_label_array(&data, 2, 2), Err(CodecError::InvalidId { index: 1 }));
}

#[test]
fn label_array_is_checked_length_first() {
    assert_eq!(check_label_array(&vec![9], 2, 1), Err(CodecError::WrongLength { found: 1 }));
    assert_eq!(check_label_array(&vec![0, 9], 2, 1), Err(CodecError::InvalidId { index: 1 }));
    assert_eq!(check_label_array(&vec![0, 0], 2, 1), Ok(()));
    assert_eq!(check_label_array(&vec![], 0, 0), Ok(()));
}

#[test]
fn label_map_text_is_a_json_object() {
    let map = build_label_index(&train(&["a", "a", "b"]));
    let text = encode_label_map(&map).unwrap();
    assert_eq!(String::from_utf8(text).unwrap(), "{\n  \"a\": 0,\n  \"b\": 1\n}");
}

#[test]
fn label_map_round_trip() {
    let map = build_label_index(&train(&["pear", "apple", "é", "with \"quote\"", ""]));
    let text = encode_label_map(&map).unwrap();
    let again = decode_label_map(&text).unwrap();
    assert_eq!(again.entries(), map.entries());
    let empty = build_label_index(&[]);
    let text = encode_label_map(&empty).unwrap();
    assert_eq!(decode_label_map(&text).unwrap().len(), 0);
}

#[test]
fn label_map_text_in_any_layout_is_read() {
    let map = decode_label_map(b"{\"b\":1,\"a\":0}").unwrap();
    assert_eq!(map.entries(), vec![(String::from("a"), 0), (String::from("b"), 1)]);
}

#[test]
fn corrupt_label_map_is_rejected() {
    assert_eq!(decode_label_map(b"").unwrap_err(), LabelMapError::Malformed);
    assert_eq!(decode_label_map(b"[0, 1]").unwrap_err(), LabelMapError::Malformed);
    assert_eq!(decode_label_map(b"{\"a\": -1}").unwrap_err(), LabelMapError::Malformed);
    assert_eq!(decode_label_map(b"{\"a\": 0} x").unwrap_err(), LabelMapError::Malformed);
    assert_eq!(decode_label_map(b"{\"a\": 1}").unwrap_err(), LabelMapError::WrongId { index: 0 });
    assert_eq!(
        decode_label_map(b"{\"a\": 0, \"b\": 0}").unwrap_err(),
        LabelMapError::WrongId { index: 1 }
    );
}

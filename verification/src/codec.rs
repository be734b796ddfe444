//! The bytes of the persisted artifacts: label arrays in MessagePack, as
//! `rmp_serde` writes an `ndarray` array, and label maps in JSON.

use vstd::prelude::*;
use crate::text::text_lt;
use crate::labels::{entry_fault, fault_index, numbered, strictly_sorted, LabelMap, LabelMapError};

verus! {

#[verifier::external_type_specification]
#[verifier::external_body]
pub struct ExEncodeError(rmp_serde::encode::Error);

#[verifier::external_type_specification]
#[verifier::external_body]
pub struct ExDecodeError(rmp_serde::decode::Error);

#[verifier::external_type_specification]
#[verifier::external_body]
pub struct ExJsonError(serde_json::Error);

/// The bytes that stand for a one-dimensional array of ids, or `None` where
/// the encoder gives none.
pub uninterp spec fn label_array_bytes(ids: Seq<i64>) -> Option<Seq<u8>>;

/// The one-dimensional array of ids that bytes stand for, or `None` where the
/// decoder rejects them.
pub uninterp spec fn label_array_ids(data: Seq<u8>) -> Option<Seq<i64>>;

/// The JSON text that stands for a map from labels to ids, or `None` where
/// the encoder gives none.
pub uninterp spec fn label_map_text(entries: Seq<(Seq<char>, u64)>) -> Option<Seq<u8>>;

/// The entries of the map from labels to ids that a JSON text stands for, in
/// the byte order of the labels, or `None` where the decoder rejects it.
pub uninterp spec fn label_map_entries(data: Seq<u8>) -> Option<Seq<(Seq<char>, u64)>>;

/// `rmp_serde::encode::write` of the `ndarray::Array1` that holds `ids`, into
/// a vector. Nothing is claimed of the bytes but that they are
/// [`label_array_bytes`] of the ids.
#[verifier::external_body]
fn write_label_array(ids: &Vec<i64>) -> (r: Result<Vec<u8>, rmp_serde::encode::Error>)
    ensures
        match r {
            Ok(data) => label_array_bytes(ids@) == Some(data@),
            Err(_) => label_array_bytes(ids@) is None,
        },
{
    let array = ndarray::Array1::from(ids.clone());
    let mut data = Vec::new();
    rmp_serde::encode::write(&mut data, &array).map(|_| data)
}

/// `rmp_serde::decode::from_read` of an `ndarray::Array1` of ids. Nothing is
/// claimed of the ids but that they are [`label_array_ids`] of the bytes.
#[verifier::external_body]
fn read_label_array(data: &[u8]) -> (r: Result<Vec<i64>, rmp_serde::decode::Error>)
    ensures
        match r {
            Ok(ids) => label_array_ids(data@) == Some(ids@),
            Err(_) => label_array_ids(data@) is None,
        },
{
    rmp_serde::decode::from_read::<_, ndarray::Array1<i64>>(data).map(|array| array.to_vec())
}

/// `serde_json::to_vec_pretty` of the `BTreeMap` that holds the entries,
/// which are sorted by label and name no label twice. Nothing is claimed of
/// the text but that it is [`label_map_text`] of the entries.
#[verifier::external_body]
fn write_label_map(entries: &Vec<(String, u64)>) -> (r: Result<Vec<u8>, serde_json::Error>)
    requires
        forall|i: int, j: int|
            0 <= i < j < entries.len() ==> text_lt(
                (#[trigger] entries.deep_view()[i]).0,
                (#[trigger] entries.deep_view()[j]).0,
            ),
    ensures
        match r {
            Ok(data) => label_map_text(entries.deep_view()) == Some(data@),
            Err(_) => label_map_text(entries.deep_view()) is None,
        },
{
    let map: std::collections::BTreeMap<String, u64> = entries.iter().cloned().collect();
    serde_json::to_vec_pretty(&map)
}

/// `serde_json::from_slice` of a `BTreeMap` from labels to ids, handed out
/// entry by entry in the order of the map. Nothing is claimed of the entries
/// but that they are [`label_map_entries`] of the text.
#[verifier::external_body]
fn read_label_map(data: &[u8]) -> (r: Result<Vec<(String, u64)>, serde_json::Error>)
    ensures
        match r {
            Ok(entries) => label_map_entries(data@) == Some(entries.deep_view()),
            Err(_) => label_map_entries(data@) is None,
        },
{
    serde_json::from_slice::<std::collections::BTreeMap<String, u64>>(data).map(
        |map| map.into_iter().collect(),
    )
}

/// Why an array artifact could not be written or read.
#[derive(Clone, Copy, Debug, PartialEq, Eq, Structural)]
pub enum CodecError {
    /// The encoder gave no bytes.
    Unwritable,
    /// The bytes are no array of ids.
    Malformed,
    /// The array holds `found` ids, not one for each observation.
    WrongLength { found: usize },
    /// The id at position `index` is not the id of a label.
    InvalidId { index: usize },
}

/// Checks that a label array holds one valid id for each observation.
pub fn check_label_array(ids: &Vec<i64>, observations: usize, labels: usize) -> (r: Result<
    (),
    CodecError,
>)
    ensures
        match r {
            Ok(()) => {
                &&& ids@.len() == observations
                &&& forall|i: int| 0 <= i < ids@.len() ==> 0 <= #[trigger] ids@[i] < labels
            },
            Err(CodecError::WrongLength { found }) => found == ids@.len() && found != observations,
            Err(CodecError::InvalidId { index }) => {
                &&& ids@.len() == observations
                &&& index < ids@.len()
                &&& !(0 <= ids@[index as int] < labels)
                &&& forall|k: int| 0 <= k < index ==> 0 <= #[trigger] ids@[k] < labels
            },
            Err(_) => false,
        },
{
    if ids.len() != observations {
        return Err(CodecError::WrongLength { found: ids.len() });
    }
    let mut i: usize = 0;
    while i < ids.len()
        invariant
            i <= ids.len(),
            ids@.len() == observations,
            forall|k: int| 0 <= k < i ==> 0 <= #[trigger] ids@[k] < labels,
        decreases ids.len() - i,
    {
        let id = ids[i];
        if id < 0 || id as u64 >= labels as u64 {
            return Err(CodecError::InvalidId { index: i });
        }
        i += 1;
    }
    Ok(())
}

/// The bytes of a label array.
pub fn encode_label_array(ids: &Vec<i64>) -> (r: Result<Vec<u8>, CodecError>)
    ensures
        match r {
            Ok(data) => label_array_bytes(ids@) == Some(data@),
            Err(e) => e == CodecError::Unwritable && label_array_bytes(ids@) is None,
        },
{
    match write_label_array(ids) {
        Ok(data) => Ok(data),
        Err(_) => Err(CodecError::Unwritable),
    }
}

/// Reads a label array and checks it against the number of observations and
/// of labels that it is meant for.
pub fn decode_label_array(data: &[u8], observations: usize, labels: usize) -> (r: Result<
    Vec<i64>,
    CodecError,
>)
    ensures
        match r {
            Ok(ids) => {
                &&& label_array_ids(data@) == Some(ids@)
                &&& ids@.len() == observations
                &&& forall|i: int| 0 <= i < ids@.len() ==> 0 <= #[trigger] ids@[i] < labels
            },
            Err(CodecError::Unwritable) => false,
            Err(CodecError::Malformed) => label_array_ids(data@) is None,
            Err(CodecError::WrongLength { found }) => {
                &&& label_array_ids(data@) matches Some(ids)
                &&& found == ids.len()
                &&& found != observations
            },
            Err(CodecError::InvalidId { index }) => {
                &&& label_array_ids(data@) matches Some(ids)
                &&& ids.len() == observations
                &&& index < ids.len()
                &&& !(0 <= ids[index as int] < labels)
                &&& forall|k: int| 0 <= k < index ==> 0 <= #[trigger] ids[k] < labels
            },
        },
{
    match read_label_array(data) {
        Err(_) => Err(CodecError::Malformed),
        Ok(ids) => match check_label_array(&ids, observations, labels) {
            Ok(()) => Ok(ids),
            Err(e) => Err(e),
        },
    }
}

/// The JSON text of a label map: each label with its id.
pub fn encode_label_map(map: &LabelMap) -> (r: Result<Vec<u8>, CodecError>)
    ensures
        match r {
            Ok(data) => label_map_text(numbered(map@)) == Some(data@),
            Err(e) => e == CodecError::Unwritable && label_map_text(numbered(map@)) is None,
        },
{
    let entries = map.entries();
    assert forall|i: int, j: int| 0 <= i < j < entries.len() implies text_lt(
        (#[trigger] entries.deep_view()[i]).0,
        (#[trigger] entries.deep_view()[j]).0,
    ) by {
        assert(entries.deep_view().len() == entries.len());
        assert(numbered(map@).len() == map@.len());
        assert(numbered(map@)[i].0 == map@[i] && numbered(map@)[j].0 == map@[j]);
    }
    match write_label_map(&entries) {
        Ok(data) => Ok(data),
        Err(_) => Err(CodecError::Unwritable),
    }
}

/// Reads a label map from its JSON text, and checks that the ids are the
/// positions of the labels in byte order.
pub fn decode_label_map(data: &[u8]) -> (r: Result<LabelMap, LabelMapError>)
    ensures
        match r {
            Ok(map) => label_map_entries(data@) == Some(numbered(map@)) && strictly_sorted(map@),
            Err(LabelMapError::Malformed) => label_map_entries(data@) is None,
            Err(e) => {
                &&& label_map_entries(data@) matches Some(entries)
                &&& entry_fault(entries, fault_index(e)) == Some(e)
                &&& forall|i: int| 0 <= i < fault_index(e) ==> entry_fault(entries, i) is None
            },
        },
{
    match read_label_map(data) {
        Err(_) => Err(LabelMapError::Malformed),
        Ok(entries) => LabelMap::from_entries(&entries),
    }
}

} // verus!

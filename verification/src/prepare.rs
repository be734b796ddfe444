//! Preparation: what is derived from the training split, and what is
//! encoded with it.
//!
//! The label map and the statistics come from the training split alone; the
//! test and validation splits are encoded with the map that training gave.

use vstd::prelude::*;
use crate::array::{holds_values, PixelArray};
use crate::labels::{
    build_label_array,
    build_label_index,
    encodable,
    encodes,
    fails_with,
    is_label_index,
    labels_of,
    LabelError,
    LabelMap,
};
use crate::manifest::{ObservationView, Observations, ObservationsView, Split};
use crate::stats::{ints, spread, PixelStats, StatsError};

verus! {

/// The label map of a dataset and the label array of each split.
#[derive(Debug)]
pub struct EncodedLabels {
    pub map: LabelMap,
    pub train: Vec<i64>,
    pub test: Vec<i64>,
    pub valid: Vec<i64>,
}

/// A label of `split` could not be encoded.
#[derive(Clone, Copy, Debug, PartialEq, Eq, Structural)]
pub struct EncodeError {
    pub split: Split,
    pub error: LabelError,
}

/// The observations of one split.
pub open spec fn split_of(observations: ObservationsView, split: Split) -> Seq<ObservationView> {
    match split {
        Split::Train => observations.train,
        Split::Test => observations.test,
        Split::Valid => observations.valid,
    }
}

/// Builds the label map from the training split, and encodes the labels of
/// all three splits with it.
///
/// The test and validation splits have no part in the map: a label of
/// theirs that training did not see is an error. The splits are encoded in
/// the order train, test, valid, and the first failure is reported.
pub fn encode_labels(observations: &Observations) -> (r: Result<EncodedLabels, EncodeError>)
    ensures
        match r {
            Ok(encoded) => {
                &&& is_label_index(observations@.train, encoded.map@)
                &&& encodes(encoded.map@, labels_of(observations@.train), encoded.train@)
                &&& encodes(encoded.map@, labels_of(observations@.test), encoded.test@)
                &&& encodes(encoded.map@, labels_of(observations@.valid), encoded.valid@)
            },
            Err(e) => exists|names: Seq<Seq<char>>|
                {
                    &&& is_label_index(observations@.train, names)
                    &&& fails_with(names, labels_of(split_of(observations@, e.split)), e.error)
                    &&& e.split != Split::Train ==> forall|i: int|
                        0 <= i < observations@.train.len() ==> encodable(
                            names,
                            labels_of(observations@.train),
                            i,
                        )
                    &&& e.split == Split::Valid ==> forall|i: int|
                        0 <= i < observations@.test.len() ==> encodable(
                            names,
                            labels_of(observations@.test),
                            i,
                        )
                },
        },
{
    let map = build_label_index(observations.train.as_slice());
    let train = match build_label_array(observations.train.as_slice(), &map) {
        Ok(ids) => ids,
        Err(error) => {
            assert(is_label_index(observations@.train, map@));
            assert(fails_with(map@, labels_of(split_of(observations@, Split::Train)), error));
            return Err(EncodeError { split: Split::Train, error });
        },
    };
    let test = match build_label_array(observations.test.as_slice(), &map) {
        Ok(ids) => ids,
        Err(error) => {
            assert(is_label_index(observations@.train, map@));
            assert(fails_with(map@, labels_of(split_of(observations@, Split::Test)), error));
            return Err(EncodeError { split: Split::Test, error });
        },
    };
    let valid = match build_label_array(observations.valid.as_slice(), &map) {
        Ok(ids) => ids,
        Err(error) => {
            assert(is_label_index(observations@.train, map@));
            assert(fails_with(map@, labels_of(split_of(observations@, Split::Valid)), error));
            return Err(EncodeError { split: Split::Valid, error });
        },
    };
    Ok(EncodedLabels { map, train, test, valid })
}

/// Computes the statistics of a training array: of every cell of it, all
/// channels together.
pub fn training_statistics(train: &PixelArray) -> (r: Result<PixelStats, StatsError>)
    ensures
        exists|values: Seq<u8>|
            #![trigger holds_values(*train, values)]
            {
                &&& holds_values(*train, values)
                &&& match r {
                    Ok(stats) => stats@.describes(ints(values)) && spread(ints(values)) > 0,
                    Err(StatsError::Empty) => values.len() == 0,
                    Err(StatsError::Degenerate) => values.len() > 0 && spread(ints(values)) == 0,
                }
            },
{
    let values = train.values();
    let r = PixelStats::compute(values.as_slice());
    assert(holds_values(*train, values@));
    r
}

} // verus!

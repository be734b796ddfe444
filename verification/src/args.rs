//! What a run is asked to do, and where its files lie.

use vstd::prelude::*;
use crate::manifest::{resolve_path, spec_resolve};

verus! {

/// The options of a run.
#[derive(Clone, Debug)]
pub struct Args {
    /// The data directory to use when preparing and training.
    pub data: String,
    /// What to do.
    pub command: Command,
}

/// The three things a run can do.
#[derive(Clone, Debug)]
pub enum Command {
    /// Turn the training set into arrays ready for training.
    Prepare(Prepare),
    /// Train a model.
    Train(Train),
    /// Classify images with the trained model.
    Inference(Inference),
}

/// Options of preparation.
#[derive(Clone, Debug)]
pub struct Prepare {
    /// The file in which the normalization is stored.
    pub norm: String,
    /// The file in which the label map is stored.
    pub label_map: String,
}

/// Options of training.
#[derive(Clone, Debug)]
pub struct Train {
    /// The file in which the trained model is saved.
    pub model: String,
}

/// Options of inference.
#[derive(Clone, Debug)]
pub struct Inference {
    /// The model to use.
    pub model: String,
    /// The normalization that was used in training.
    pub normalization: String,
    /// The label map that was used in training.
    pub label_map: String,
    /// The image files to classify.
    pub image: Vec<String>,
}

/// The files of a data directory.
#[derive(Clone, Debug)]
pub struct Layout {
    /// The directory against which the manifest's image files are resolved.
    pub images: String,
    /// The manifest.
    pub manifest: String,
    pub train_images: String,
    pub train_labels: String,
    pub test_images: String,
    pub test_labels: String,
    pub valid_images: String,
    pub valid_labels: String,
}

impl Args {
    /// The data directory that a run uses when it is given none.
    pub fn default_data() -> (data: String)
        ensures
            data@ == "data"@,
    {
        "data".to_owned()
    }

    /// Where the files of the data directory lie.
    pub fn layout(&self) -> (layout: Layout)
        ensures
            layout.images@ == spec_resolve(self.data@, "plates"@),
            layout.manifest@ == spec_resolve(self.data@, "plates/plates.csv"@),
            layout.train_images@ == spec_resolve(self.data@, "train.array"@),
            layout.train_labels@ == spec_resolve(self.data@, "train.label.array"@),
            layout.test_images@ == spec_resolve(self.data@, "test.array"@),
            layout.test_labels@ == spec_resolve(self.data@, "test.label.array"@),
            layout.valid_images@ == spec_resolve(self.data@, "valid.array"@),
            layout.valid_labels@ == spec_resolve(self.data@, "valid.label.array"@),
    {
        let data = self.data.as_str();
        Layout {
            images: resolve_path(data, "plates"),
            manifest: resolve_path(data, "plates/plates.csv"),
            train_images: resolve_path(data, "train.array"),
            train_labels: resolve_path(data, "train.label.array"),
            test_images: resolve_path(data, "test.array"),
            test_labels: resolve_path(data, "test.label.array"),
            valid_images: resolve_path(data, "valid.array"),
            valid_labels: resolve_path(data, "valid.label.array"),
        }
    }
}

} // verus!

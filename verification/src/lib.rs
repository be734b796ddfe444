//! Dataset preparation for supervised image classification.
//!
//! A labelled image corpus is described by a manifest. Preparation indexes
//! the manifest into three splits, derives a label encoding and pixel
//! statistics from the training split alone, converts the images of each
//! split into one dense array, and persists what training and inference
//! read back later.
//!
//! - [`manifest`]: the manifest and its partition into splits
//! - [`labels`]: the label map and the label arrays
//! - [`raster`], [`array`], [`convert`]: from image files to arrays
//! - [`stats`]: exact statistics of pixel intensities
//! - [`codec`]: the bytes of label arrays and label maps
//! - [`prepare`]: what preparation derives from the training split
//! - [`args`]: the options of a run and the files of a data directory
//! - [`text`]: byte-wise order of text, and decimal notation
//!
//! Reading and writing files, floating-point arithmetic and the network are
//! left to the caller: the library takes and gives bytes and whole numbers.

pub mod args;
pub mod array;
pub mod codec;
pub mod convert;
pub mod labels;
pub mod manifest;
pub mod prepare;
pub mod raster;
pub mod stats;
pub mod text;

//! From image files to arrays: each observation fills its own slice of a
//! shared array, channel by channel.

use vstd::prelude::*;
use crate::array::{array_cells, array_dims, extent, in_bounds, PixelArray};
use crate::raster::{
    decode_image,
    decoded,
    image_height,
    image_pixel,
    image_width,
    picture_of,
    raster_height,
    raster_rgb,
    raster_width,
    Picture,
};

verus! {

/// The number of channels of an observation: red, green, blue.
pub const CHANNELS: usize = 3;

/// Why an image could not be written into an array.
#[derive(Clone, Copy, Debug, PartialEq, Eq, Structural)]
pub enum FillError {
    /// The array has no such observation, or not three channels.
    NoSuchSlice,
    /// The image is not as wide and as high as the array's observations.
    WrongSize,
}

/// One of the three intensities of a pixel.
pub open spec fn channel_of(rgb: (u8, u8, u8), c: int) -> u8 {
    if c == 0 {
        rgb.0
    } else if c == 1 {
        rgb.1
    } else {
        rgb.2
    }
}

/// Whether `at` is a cell of observation `index` in a row before `y`, or in
/// row `y` and a column before `x`: the cells that are written before the
/// pixel at column `x` of row `y` is.
pub open spec fn written(index: int, y: int, x: int, at: (int, int, int, int)) -> bool {
    &&& at.0 == index
    &&& 0 <= at.1 < 3
    &&& 0 <= at.3
    &&& (0 <= at.2 < y || (at.2 == y && at.3 < x))
}

/// The observation at `index` shows `picture`: it has three channels and the
/// picture's size, and in each channel every cell holds the intensity of the
/// pixel at its row and column.
pub open spec fn shows(array: PixelArray, index: int, picture: Picture) -> bool {
    &&& 0 <= index < array_dims(array).0
    &&& array_dims(array).1 == 3
    &&& array_dims(array).2 == picture.height
    &&& array_dims(array).3 == picture.width
    &&& forall|at: (int, int, int, int)|
        in_bounds(array_dims(array), at) && at.0 == index ==> #[trigger] array_cells(array)[at]
            == channel_of(picture.rgb[(at.3, at.2)], at.1)
}

/// Outside the observation at `index` no cell differs between two arrays.
pub open spec fn same_elsewhere(before: PixelArray, after: PixelArray, index: int) -> bool {
    &&& array_dims(after) == array_dims(before)
    &&& forall|at: (int, int, int, int)|
        at.0 != index ==> #[trigger] array_cells(after)[at] == array_cells(before)[at]
}

/// Writes a decoded image into the observation at `index`.
///
/// Only cells of that observation change, and none does unless the image has
/// the size of the array's observations.
pub fn fill_observation(array: &mut PixelArray, index: usize, image: &image::DynamicImage) -> (r:
    Result<(), FillError>)
    ensures
        same_elsewhere(*old(array), *final(array), index as int),
        match r {
            Ok(()) => shows(*final(array), index as int, picture_of(*image)),
            Err(FillError::NoSuchSlice) => {
                &&& index >= array_dims(*old(array)).0 || array_dims(*old(array)).1 != 3
                &&& array_cells(*final(array)) == array_cells(*old(array))
            },
            Err(FillError::WrongSize) => {
                &&& index < array_dims(*old(array)).0
                &&& array_dims(*old(array)).1 == 3
                &&& (array_dims(*old(array)).2 != raster_height(*image) || array_dims(
                    *old(array),
                ).3 != raster_width(*image))
                &&& array_cells(*final(array)) == array_cells(*old(array))
            },
        },
{
    let (n, c, h, w) = array.dims();
    if index >= n || c != CHANNELS {
        return Err(FillError::NoSuchSlice);
    }
    let width = image_width(image);
    let height = image_height(image);
    if width as u64 != w as u64 || height as u64 != h as u64 {
        return Err(FillError::WrongSize);
    }
    let ghost before = array_cells(*array);
    let ghost dims = array_dims(*array);
    let ghost rgb = raster_rgb(*image);
    let mut y: u32 = 0;
    while y < height
        invariant
            y <= height,
            height == h,
            width == w,
            index < n,
            dims == (n as nat, 3nat, h as nat, w as nat),
            array_dims(*array) == dims,
            raster_width(*image) == width,
            raster_height(*image) == height,
            rgb == raster_rgb(*image),
            forall|at: (int, int, int, int)|
                #[trigger] array_cells(*array)[at] == if in_bounds(dims, at) && written(
                    index as int,
                    y as int,
                    0,
                    at,
                ) {
                    channel_of(rgb[(at.3, at.2)], at.1)
                } else {
                    before[at]
                },
        decreases height - y,
    {
        let mut x: u32 = 0;
        while x < width
            invariant
                x <= width,
                y < height,
                height == h,
                width == w,
                index < n,
                dims == (n as nat, 3nat, h as nat, w as nat),
                array_dims(*array) == dims,
                raster_width(*image) == width,
                raster_height(*image) == height,
                rgb == raster_rgb(*image),
                forall|at: (int, int, int, int)|
                    #[trigger] array_cells(*array)[at] == if in_bounds(dims, at) && written(
                        index as int,
                        y as int,
                        x as int,
                        at,
                    ) {
                        channel_of(rgb[(at.3, at.2)], at.1)
                    } else {
                        before[at]
                    },
            decreases width - x,
        {
            let pixel = image_pixel(image, x, y);
            array.set_cell((index, 0, y as usize, x as usize), pixel.0);
            array.set_cell((index, 1, y as usize, x as usize), pixel.1);
            array.set_cell((index, 2, y as usize, x as usize), pixel.2);
            x += 1;
        }
        y += 1;
    }
    Ok(())
}

/// An image file: the extension of its name, without the dot, and what the
/// file holds.
#[derive(Clone, Debug)]
pub struct ImageFile {
    pub extension: String,
    pub content: Vec<u8>,
}

/// What an [`ImageFile`] holds, as mathematical values.
pub ghost struct ImageFileView {
    pub extension: Seq<char>,
    pub content: Seq<u8>,
}

impl View for ImageFile {
    type V = ImageFileView;

    open spec fn view(&self) -> ImageFileView {
        ImageFileView { extension: self.extension@, content: self.content@ }
    }
}

impl DeepView for ImageFile {
    type V = ImageFileView;

    open spec fn deep_view(&self) -> ImageFileView {
        self.view()
    }
}

/// Why a split could not be converted.
#[derive(Clone, Copy, Debug, PartialEq, Eq, Structural)]
pub enum ConvertError {
    /// An array of the size asked for cannot be held.
    TooLarge,
    /// The array has no observation `index`, or not three channels.
    NoSuchSlice { index: usize },
    /// The content of image `index` is not an image of the format that its
    /// extension stands for, or the extension stands for none.
    Undecodable { index: usize },
    /// Image `index` is not as wide and as high as asked for.
    WrongSize { index: usize },
}

/// The image at which a conversion failed.
pub open spec fn failing_index(e: ConvertError) -> int {
    match e {
        ConvertError::TooLarge => 0,
        ConvertError::NoSuchSlice { index } => index as int,
        ConvertError::Undecodable { index } => index as int,
        ConvertError::WrongSize { index } => index as int,
    }
}

/// What a file shows, where it decodes.
pub open spec fn picture_in(file: ImageFileView) -> Option<Picture> {
    decoded(file.extension, file.content)
}

/// The file decodes to a picture of the given size.
pub open spec fn well_sized(file: ImageFileView, height: nat, width: nat) -> bool {
    picture_in(file) matches Some(picture) && picture.height == height && picture.width == width
}

/// The observation at `index` shows the picture that the file decodes to.
pub open spec fn converted(array: PixelArray, index: int, file: ImageFileView) -> bool {
    picture_in(file) matches Some(picture) && shows(array, index, picture)
}

/// Decodes an image file and writes it into the observation at `index`.
///
/// Only cells of that observation change, and none does on an error.
pub fn load_observation(array: &mut PixelArray, index: usize, file: &ImageFile) -> (r: Result<
    (),
    ConvertError,
>)
    ensures
        same_elsewhere(*old(array), *final(array), index as int),
        r is Err ==> array_cells(*final(array)) == array_cells(*old(array)),
        match r {
            Ok(()) => converted(*final(array), index as int, file@),
            Err(ConvertError::Undecodable { index: i }) => i == index && picture_in(file@) is None,
            Err(ConvertError::NoSuchSlice { index: i }) => {
                &&& i == index
                &&& picture_in(file@) is Some
                &&& index >= array_dims(*old(array)).0 || array_dims(*old(array)).1 != 3
            },
            Err(ConvertError::WrongSize { index: i }) => {
                &&& i == index
                &&& index < array_dims(*old(array)).0
                &&& array_dims(*old(array)).1 == 3
                &&& picture_in(file@) is Some
                &&& !well_sized(file@, array_dims(*old(array)).2, array_dims(*old(array)).3)
            },
            Err(ConvertError::TooLarge) => false,
        },
{
    let image = match decode_image(file.extension.as_str(), file.content.as_slice()) {
        Some(image) => image,
        None => {
            return Err(ConvertError::Undecodable { index });
        },
    };
    match fill_observation(array, index, &image) {
        Ok(()) => Ok(()),
        Err(FillError::NoSuchSlice) => Err(ConvertError::NoSuchSlice { index }),
        Err(FillError::WrongSize) => Err(ConvertError::WrongSize { index }),
    }
}

/// Whether an array of `n` observations of three channels, `h` rows and `w`
/// columns can be held.
fn fits(n: usize, h: usize, w: usize) -> (ok: bool)
    ensures
        ok == (extent(n as nat, 3, h as nat, w as nat) <= isize::MAX),
{
    let limit: u128 = isize::MAX as u128;
    let nf: u128 = if n == 0 { 1 } else { n as u128 };
    let hf: u128 = if h == 0 { 1 } else { h as u128 };
    let wf: u128 = if w == 0 { 1 } else { w as u128 };
    let p1: u128 = nf * 3;
    assert(extent(n as nat, 3, h as nat, w as nat) == p1 * hf * wf);
    assert(p1 * hf >= p1 && p1 * hf * wf >= p1 * hf) by (nonlinear_arith)
        requires
            hf >= 1,
            wf >= 1,
            p1 >= 0,
    ;
    if p1 > limit {
        return false;
    }
    assert(p1 * hf <= 0x8000_0000_0000_0000 * 0x1_0000_0000_0000_0000) by (nonlinear_arith)
        requires
            p1 <= 0x8000_0000_0000_0000,
            hf <= 0x1_0000_0000_0000_0000,
    ;
    let p2: u128 = p1 * hf;
    if p2 > limit {
        return false;
    }
    assert(p2 * wf <= 0x8000_0000_0000_0000 * 0x1_0000_0000_0000_0000) by (nonlinear_arith)
        requires
            p2 <= 0x8000_0000_0000_0000,
            wf <= 0x1_0000_0000_0000_0000,
    ;
    let p3: u128 = p2 * wf;
    p3 <= limit
}

/// Whether `r` is the result of converting `files` into an array of
/// `height` rows and `width` columns.
///
/// The array shows every image, each in the observation of its position. An
/// error names the first image that fails: every image before it decodes to
/// a picture of the size asked for, and this one does not.
pub open spec fn converts(
    files: Seq<ImageFileView>,
    height: nat,
    width: nat,
    r: Result<PixelArray, ConvertError>,
) -> bool {
    match r {
        Ok(array) => {
            &&& array_dims(array) == (files.len(), 3nat, height, width)
            &&& forall|k: int| 0 <= k < files.len() ==> converted(array, k, #[trigger] files[k])
        },
        Err(ConvertError::TooLarge) => extent(files.len(), 3, height, width) > isize::MAX,
        Err(e) => {
            &&& extent(files.len(), 3, height, width) <= isize::MAX
            &&& 0 <= failing_index(e) < files.len()
            &&& forall|k: int|
                0 <= k < failing_index(e) ==> well_sized(#[trigger] files[k], height, width)
            &&& match e {
                ConvertError::Undecodable { index } => picture_in(files[index as int]) is None,
                ConvertError::WrongSize { index } => picture_in(files[index as int]) is Some
                    && !well_sized(files[index as int], height, width),
                _ => false,
            }
        },
    }
}

/// Converts the images of a split into one array of `files.len()`
/// observations, three channels, `height` rows and `width` columns.
///
/// The conversion stops at the first image that fails, and hands out no
/// array then.
pub fn build_observation_array(files: &Vec<ImageFile>, height: usize, width: usize) -> (r: Result<
    PixelArray,
    ConvertError,
>)
    ensures
        converts(files.deep_view(), height as nat, width as nat, r),
{
    let n = files.len();
    let ghost listed = files.deep_view();
    if !fits(n, height, width) {
        return Err(ConvertError::TooLarge);
    }
    let mut array = PixelArray::zeros(n, CHANNELS, height, width);
    let mut i: usize = 0;
    while i < n
        invariant
            i <= n,
            n == files.len(),
            listed == files.deep_view(),
            array_dims(array) == (n as nat, 3nat, height as nat, width as nat),
            extent(n as nat, 3, height as nat, width as nat) <= isize::MAX,
            forall|k: int| 0 <= k < i ==> converted(array, k, #[trigger] listed[k]),
        decreases n - i,
    {
        let ghost before = array;
        assert(listed[i as int] == files[i as int]@);
        match load_observation(&mut array, i, &files[i]) {
            Err(e) => {
                return Err(e);
            },
            Ok(()) => {
                assert forall|k: int| 0 <= k < i + 1 implies converted(
                    array,
                    k,
                    #[trigger] listed[k],
                ) by {
                    if k < i {
                        assert(converted(before, k, listed[k]));
                    }
                }
            },
        }
        i += 1;
    }
    Ok(array)
}

/// Converts one image, as inference does: an array of a single observation.
pub fn single_observation(file: &ImageFile, height: usize, width: usize) -> (r: Result<
    PixelArray,
    ConvertError,
>)
    ensures
        converts(seq![file@], height as nat, width as nat, r),
{
    let mut files: Vec<ImageFile> = Vec::new();
    files.push(ImageFile { extension: file.extension.clone(), content: file.content.clone() });
    assert(files.deep_view() =~= seq![file@]);
    build_observation_array(&files, height, width)
}

} // verus!

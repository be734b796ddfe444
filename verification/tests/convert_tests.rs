use plate_prep::array::PixelArray;
use plate_prep::convert::{
    build_observation_array, fill_observation, load_observation, single_observation,
    ConvertError, FillError, ImageFile,
};
use plate_prep::prepare::training_statistics;
use plate_prep::stats::{PixelStats, StatsError};

fn shade(x: u32, y: u32, seed: u8) -> [u8; 3] {
    [
        (x as u8).wrapping_mul(31).wrapping_add(seed),
        (y as u8).wrapping_mul(17).wrapping_add(seed),
        (x as u8 ^ y as u8).wrapping_add(seed),
    ]
}

fn picture(width: u32, height: u32, seed: u8) -> image::DynamicImage {
    image::DynamicImage::ImageRgb8(image::RgbImage::from_fn(width, height, |x, y| {
        image::Rgb(shade(x, y, seed))
    }))
}

fn encoded(image: &image::DynamicImage, format: image::ImageOutputFormat) -> Vec<u8> {
    let mut data = std::io::Cursor::new(Vec::new());
    image.write_to(&mut data, format).unwrap();
    data.into_inner()
}

fn png(width: u32, height: u32, seed: u8) -> ImageFile {
    ImageFile {
        extension: String::from("png"),
        content: encoded(&picture(width, height, seed), image::ImageOutputFormat::Png),
    }
}

fn blank(n: usize, h: usize, w: usize) -> PixelArray {
    let files: Vec<ImageFile> = (0..n).map(|_| png(w as u32, h as u32, 0)).collect();
    build_observation_array(&files, h, w).unwrap()
}

#[test]
fn every_observation_fills_its_own_slice() {
    let files = vec![png(5, 4, 1), png(5, 4, 2), png(5, 4, 3)];
    let array = build_observation_array(&files, 4, 5).unwrap();
    assert_eq!(array.shape(), (3, 3, 4, 5));
    for n in 0..3usize {
        for y in 0..4usize {
            for x in 0..5usize {
                let rgb = shade(x as u32, y as u32, n as u8 + 1);
                for c in 0..3usize {
                    assert_eq!(array.get((n, c, y, x)), Some(rgb[c]));
                }
            }
        }
    }
    assert_eq!(array.get((3, 0, 0, 0)), None);
    assert_eq!(array.get((0, 3, 0, 0)), None);
    assert_eq!(array.get((0, 0, 4, 0)), None);
    assert_eq!(array.get((0, 0, 0, 5)), None);
}

#[test]
fn values_list_the_cells_with_the_last_axis_fastest() {
    let files = vec![png(3, 2, 9), png(3, 2, 40)];
    let array = build_observation_array(&files, 2, 3).unwrap();
    let values = array.values();
    assert_eq!(values.len(), 2 * 3 * 2 * 3);
    for n in 0..2usize {
        for c in 0..3usize {
            for y in 0..2usize {
                for x in 0..3usize {
                    let place = ((n * 3 + c) * 2 + y) * 3 + x;
                    assert_eq!(Some(values[place]), array.get((n, c, y, x)));
                }
            }
        }
    }
    assert_eq!(values[0], shade(0, 0, 9)[0]);
    assert_eq!(values[1], shade(1, 0, 9)[0]);
    assert_eq!(values[3], shade(0, 1, 9)[0]);
    assert_eq!(values[6], shade(0, 0, 9)[1]);
    assert_eq!(values[18], shade(0, 0, 40)[0]);
}

#[test]
fn empty_split_gives_empty_array() {
    let array = build_observation_array(&vec![], 4, 5).unwrap();
    assert_eq!(array.shape(), (0, 3, 4, 5));
    assert_eq!(array.values(), Vec::<u8>::new());
    assert_eq!(array.get((0, 0, 0, 0)), None);
}

#[test]
fn image_of_other_size_fails_the_split() {
    let files = vec![png(5, 4, 1), png(4, 5, 2), png(5, 4, 3)];
    assert_eq!(
        build_observation_array(&files, 4, 5).unwrap_err(),
        ConvertError::WrongSize { index: 1 }
    );
    let files = vec![png(5, 3, 1)];
    assert_eq!(
        build_observation_array(&files, 4, 5).unwrap_err(),
        ConvertError::WrongSize { index: 0 }
    );
}

#[test]
fn corrupt_image_fails_the_split() {
    let mut broken = png(5, 4, 2);
    broken.content.truncate(20);
    let files = vec![png(5, 4, 1), broken];
    assert_eq!(
        build_observation_array(&files, 4, 5).unwrap_err(),
        ConvertError::Undecodable { index: 1 }
    );
    let files = vec![ImageFile { extension: String::from("png"), content: vec![] }];
    assert_eq!(
        build_observation_array(&files, 4, 5).unwrap_err(),
        ConvertError::Undecodable { index: 0 }
    );
}

#[test]
fn format_follows_the_extension() {
    let mut misnamed = png(5, 4, 1);
    misnamed.extension = String::from("bmp");
    assert_eq!(
        build_observation_array(&vec![misnamed], 4, 5).unwrap_err(),
        ConvertError::Undecodable { index: 0 }
    );
    for extension in ["", "txt", ".png", "png "] {
        let mut unnamed = png(5, 4, 1);
        unnamed.extension = String::from(extension);
        assert_eq!(
            build_observation_array(&vec![unnamed], 4, 5).unwrap_err(),
            ConvertError::Undecodable { index: 0 }
        );
    }
    let bitmap = ImageFile {
        extension: String::from("BMP"),
        content: encoded(&picture(5, 4, 7), image::ImageOutputFormat::Bmp),
    };
    let array = build_observation_array(&vec![bitmap], 4, 5).unwrap();
    assert_eq!(array.get((0, 1, 2, 3)), Some(shade(3, 2, 7)[1]));
}

#[test]
fn jpeg_is_decoded_as_the_image_crate_decodes_it() {
    let content = encoded(&picture(8, 8, 3), image::ImageOutputFormat::Jpeg(90));
    let expected = image::load_from_memory_with_format(&content, image::ImageFormat::Jpeg).unwrap();
    let file = ImageFile { extension: String::from("jpg"), content };
    let array = build_observation_array(&vec![file], 8, 8).unwrap();
    for y in 0..8u32 {
        for x in 0..8u32 {
            let pixel = image::GenericImageView::get_pixel(&expected, x, y);
            for c in 0..3usize {
                assert_eq!(array.get((0, c, y as usize, x as usize)), Some(pixel.0[c]));
            }
        }
    }
}

#[test]
fn first_failure_is_reported() {
    let mut broken = png(5, 4, 2);
    broken.content = vec![1, 2, 3];
    let files = vec![png(5, 4, 1), png(9, 9, 2), broken];
    assert_eq!(
        build_observation_array(&files, 4, 5).unwrap_err(),
        ConvertError::WrongSize { index: 1 }
    );
}

#[test]
fn too_large_an_array_is_refused() {
    assert_eq!(
        build_observation_array(&vec![], usize::MAX, usize::MAX).unwrap_err(),
        ConvertError::TooLarge
    );
    assert_eq!(
        build_observation_array(&vec![], usize::MAX / 2, 1).unwrap_err(),
        ConvertError::TooLarge
    );
    assert!(build_observation_array(&vec![], usize::MAX / 8, 1).is_ok());
    assert!(build_observation_array(&vec![], usize::MAX / 8, 0).is_ok());
}

#[test]
fn filling_touches_no_other_observation() {
    let mut array = blank(3, 4, 5);
    let before = array.values();
    fill_observation(&mut array, 1, &picture(5, 4, 77)).unwrap();
    let after = array.values();
    let slice = 3 * 4 * 5;
    assert_eq!(after[..slice], before[..slice]);
    assert_eq!(after[2 * slice..], before[2 * slice..]);
    assert_ne!(after[slice..2 * slice], before[slice..2 * slice]);
    assert_eq!(array.get((1, 2, 3, 4)), Some(shade(4, 3, 77)[2]));
}

#[test]
fn failed_fill_changes_nothing() {
    let mut array = blank(2, 4, 5);
    let before = array.values();
    assert_eq!(fill_observation(&mut array, 2, &picture(5, 4, 1)), Err(FillError::NoSuchSlice));
    assert_eq!(fill_observation(&mut array, 0, &picture(4, 4, 1)), Err(FillError::WrongSize));
    assert_eq!(fill_observation(&mut array, 0, &picture(5, 5, 1)), Err(FillError::WrongSize));
    let broken = ImageFile { extension: String::from("png"), content: vec![0, 1, 2] };
    assert_eq!(
        load_observation(&mut array, 0, &broken),
        Err(ConvertError::Undecodable { index: 0 })
    );
    assert_eq!(
        load_observation(&mut array, 5, &png(5, 4, 3)),
        Err(ConvertError::NoSuchSlice { index: 5 })
    );
    assert_eq!(
        load_observation(&mut array, 1, &png(4, 5, 3)),
        Err(ConvertError::WrongSize { index: 1 })
    );
    assert_eq!(array.values(), before);
}

#[test]
fn alpha_is_dropped_and_grey_is_spread() {
    let rgba = image::DynamicImage::ImageRgba8(image::RgbaImage::from_fn(2, 1, |x, _| {
        image::Rgba([10 + x as u8, 20, 30, 0])
    }));
    let grey = image::DynamicImage::ImageLuma8(image::GrayImage::from_fn(2, 1, |x, _| {
        image::Luma([100 + x as u8])
    }));
    let mut array = blank(2, 1, 2);
    fill_observation(&mut array, 0, &rgba).unwrap();
    fill_observation(&mut array, 1, &grey).unwrap();
    assert_eq!(array.values(), vec![10, 11, 20, 20, 30, 30, 100, 101, 100, 101, 100, 101]);
}

#[test]
fn single_image_is_an_array_of_one_observation() {
    let array = single_observation(&png(5, 4, 8), 4, 5).unwrap();
    assert_eq!(array.shape(), (1, 3, 4, 5));
    assert_eq!(array.get((0, 0, 0, 1)), Some(shade(1, 0, 8)[0]));
    assert_eq!(array.get((0, 2, 3, 4)), Some(shade(4, 3, 8)[2]));
    assert_eq!(
        single_observation(&png(5, 4, 8), 5, 4).unwrap_err(),
        ConvertError::WrongSize { index: 0 }
    );
}

#[test]
fn statistics_come_from_every_cell_of_the_training_array() {
    let array = build_observation_array(&vec![png(3, 2, 9), png(3, 2, 40)], 2, 3).unwrap();
    let values = array.values();
    let stats = training_statistics(&array).unwrap();
    assert_eq!(stats.count(), 36);
    assert_eq!(stats.sum(), values.iter().map(|v| *v as u128).sum::<u128>());
    assert_eq!(stats.sum_sq(), values.iter().map(|v| (*v as u128) * (*v as u128)).sum::<u128>());
    let none = build_observation_array(&vec![], 2, 3).unwrap();
    assert_eq!(training_statistics(&none), Err(StatsError::Empty));
}

#[test]
fn constant_training_images_are_degenerate() {
    let flat = image::DynamicImage::ImageRgb8(image::RgbImage::from_pixel(5, 4, image::Rgb([9, 9, 9])));
    let file = ImageFile {
        extension: String::from("png"),
        content: encoded(&flat, image::ImageOutputFormat::Png),
    };
    let array = build_observation_array(&vec![file.clone(), file], 4, 5).unwrap();
    assert_eq!(PixelStats::compute(&array.values()), Err(StatsError::Degenerate));
    let array = build_observation_array(&vec![png(5, 4, 8)], 4, 5).unwrap();
    assert!(PixelStats::compute(&array.values()).is_ok());
}

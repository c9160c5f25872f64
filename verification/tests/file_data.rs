use cega::file_data::Raw;
use cega::parser::{DecodeError, ParserType};
use cega::ImageType;

#[test]
fn image_type_numbers() {
    assert_eq!(ImageType::CGA.palette_length(), 4);
    assert_eq!(ImageType::EGA.palette_length(), 16);
    assert_eq!(ImageType::CGA.word_size(), 2);
    assert_eq!(ImageType::EGA.word_size(), 4);
    assert_eq!(ImageType::CGA.words_per_byte(), 4);
    assert_eq!(ImageType::EGA.words_per_byte(), 2);
    assert_eq!(ImageType::CGA.pixel_count(10), 40);
    assert_eq!(ImageType::EGA.pixel_count(10), 20);
    assert_eq!(ParserType::CGA.image_type(), ImageType::CGA);
    assert_eq!(ParserType::EGARowPlanar.image_type(), ImageType::EGA);
}

#[test]
fn image_type_fullscreen() {
    assert!(ImageType::CGA.fullscreen(16_000));
    assert!(!ImageType::CGA.fullscreen(32_000));
    assert!(ImageType::EGA.fullscreen(32_000));
    assert!(!ImageType::EGA.fullscreen(16_000));
    assert!(!ImageType::CGA.fullscreen(usize::MAX));
}

#[test]
fn factors_between_five_and_the_limit() {
    assert_eq!(ImageType::factors(16, 80), vec![8]);
    assert_eq!(ImageType::factors(100, 80), vec![5, 10, 20, 25, 50]);
    assert_eq!(ImageType::factors(100, 20), vec![5, 10, 20]);
    assert_eq!(ImageType::factors(7, 80), Vec::<i64>::new());
    assert_eq!(ImageType::factors(0, 80), Vec::<i64>::new());
    assert_eq!(ImageType::factors(5, 80), Vec::<i64>::new());
    assert_eq!(ImageType::factors(10, 4), Vec::<i64>::new());
}

#[test]
fn widths_and_heights() {
    assert_eq!(ImageType::CGA.widths(25), vec![5, 10, 20, 25, 50]);
    assert_eq!(ImageType::EGA.widths(25), vec![5, 10, 25]);
    assert_eq!(ImageType::CGA.heights(75, 2), vec![5, 6, 10, 15, 25, 30, 50]);
}

#[test]
fn raw_counts() {
    let raw = Raw::new(&[0u8; 25]);
    assert_eq!(raw.byte_count(), 25);
    assert_eq!(raw.pixel_count(ImageType::CGA), 100);
    assert_eq!(raw.pixel_count(ImageType::EGA), 50);
    assert!(!raw.fullscreen(ImageType::CGA));
    assert!(Raw::new(&vec![0u8; 16_000]).fullscreen(ImageType::CGA));
    assert_eq!(raw.widths(ImageType::CGA), vec![5, 10, 20, 25, 50]);
    assert_eq!(raw.heights(ImageType::CGA, 4), vec![5]);
}

#[test]
fn raw_parse() {
    let raw = Raw::new(&[0b00_01_10_11, 0b11_10_01_00]);
    let image = raw.parse(ParserType::CGA, 4).unwrap();
    assert_eq!(image.data(), vec![vec![0, 1, 2, 3], vec![3, 2, 1, 0]]);
    assert!(matches!(
        raw.parse(ParserType::CGA, 3),
        Err(DecodeError::DimensionMismatch {
            pixel_count: 8,
            width: 3
        })
    ));
    assert!(matches!(
        raw.parse(ParserType::EGARowPlanar, 8),
        Err(DecodeError::DimensionMismatch {
            pixel_count: 4,
            width: 8
        })
    ));
}

#[test]
fn raw_previews() {
    let raw = Raw::new(&[0b00_01_10_11; 5]);
    let previews = raw.previews();
    let widths: Vec<usize> = previews.iter().map(|p| p.width()).collect();
    assert_eq!(widths, vec![5, 10]);
    assert_eq!(previews[0].height(), 4);
    assert_eq!(previews[1].height(), 2);
    assert_eq!(previews[0].data()[0], vec![0, 1, 2, 3, 0]);
    assert_eq!(previews[0].data()[1], vec![1, 2, 3, 0, 1]);
    assert_eq!(Raw::new(&[0u8; 1]).previews().len(), 0);
}

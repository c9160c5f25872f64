use base64::engine::general_purpose::STANDARD;
use base64::Engine;
use cega::color::palette::palette_from_abbr;
use cega::color::Color;
use cega::parser::DecodeError;
use cega::png::{self, Raster};
use cega::wasm::{self, FileUpload, ImageComponent, SrcError};

#[test]
fn raster_of_a_grid() {
    let raster = png::convert_image(
        vec![vec![0, 1], vec![2, 3], vec![1, 1]],
        palette_from_abbr("cga0"),
    );
    assert_eq!(raster.width, 2);
    assert_eq!(raster.height, 3);
    assert_eq!(
        raster.pixels,
        vec![
            0x00, 0x00, 0x00, 0x55, 0xFF, 0xFF, 0xFF, 0x55, 0xFF, 0xFF, 0xFF, 0xFF, 0x55, 0xFF,
            0xFF, 0x55, 0xFF, 0xFF
        ]
    );
}

#[test]
fn raster_with_dark_brown() {
    let raster = png::convert_image(vec![vec![1, 0]], vec![Color::Red(false), Color::Brown(false)]);
    assert_eq!(raster.pixels, vec![0xAA, 0x55, 0x00, 0xAA, 0x00, 0x00]);
}

#[test]
fn indices_of_a_raster() {
    let raster = Raster {
        width: 3,
        height: 2,
        pixels: vec![
            0, 0, 0, 85, 255, 255, 255, 85, 255, 255, 255, 255, 1, 2, 3, 0, 0, 1,
        ],
    };
    assert_eq!(
        png::palette_indices_of(&raster),
        vec![vec![0, 1, 2], vec![3, 4, 4]]
    );
}

#[test]
fn png_file_round_trip() {
    let grid = vec![vec![0, 1, 2, 3], vec![3, 2, 1, 0], vec![1, 1, 0, 0]];
    let mut bytes: Vec<u8> = vec![1, 2, 3];
    assert_eq!(
        png::write_to(&mut bytes, grid.clone(), palette_from_abbr("cga0")),
        Ok(())
    );
    assert_eq!(&bytes[0..8], &[0x89, b'P', b'N', b'G', 0x0d, 0x0a, 0x1a, 0x0a]);
    assert_eq!(png::process_input(&bytes), Ok(grid));
}

#[test]
fn png_file_in_another_palette_reads_as_other_colors() {
    let mut bytes: Vec<u8> = Vec::new();
    assert_eq!(
        png::write_to(&mut bytes, vec![vec![0, 1, 2, 3]], palette_from_abbr("cga1")),
        Ok(())
    );
    assert_eq!(png::process_input(&bytes), Ok(vec![vec![0, 4, 4, 4]]));
}

#[test]
fn no_png_file() {
    let result = png::process_input(&[1, 2, 3, 4]);
    assert!(result.is_err());
    assert!(!result.unwrap_err().message.is_empty());
}

#[test]
fn data_url_of_bytes() {
    assert_eq!(
        wasm::data_url(b"hello"),
        Some("data:application/png;base64,aGVsbG8=".to_string())
    );
    assert_eq!(
        wasm::data_url(b""),
        Some("data:application/png;base64,".to_string())
    );
    assert_eq!(
        wasm::data_url(&[0xfb, 0xff]),
        Some("data:application/png;base64,+/8=".to_string())
    );
}

fn upload(mime_type: &str, data: &[u8]) -> FileUpload {
    FileUpload {
        name: "file".to_string(),
        mime_type: mime_type.to_string(),
        data: data.to_vec(),
    }
}

fn grid_of_url(url: &str) -> Vec<Vec<u8>> {
    let text = url.strip_prefix("data:application/png;base64,").unwrap();
    png::process_input(&STANDARD.decode(text).unwrap()).unwrap()
}

#[test]
fn src_of_an_image_file_is_the_file() {
    let component = ImageComponent::create();
    assert_eq!(component.width(), 320);
    assert_eq!(
        component.src(&upload("image/png", b"hello")),
        Ok("data:application/png;base64,aGVsbG8=".to_string())
    );
    assert_eq!(
        component.src(&upload("an image", b"hello")),
        Ok("data:application/png;base64,aGVsbG8=".to_string())
    );
}

#[test]
fn src_of_a_raw_file_is_its_png() {
    let mut component = ImageComponent::create();
    component.set_width(4);
    let url = component
        .src(&upload("application/octet-stream", &[0b00_01_10_11, 0b11_10_01_00]))
        .unwrap();
    assert_eq!(grid_of_url(&url), vec![vec![0, 1, 2, 3], vec![3, 2, 1, 0]]);
}

#[test]
fn src_of_a_raw_file_at_a_width_that_does_not_fit() {
    let mut component = ImageComponent::create();
    component.set_width(3);
    assert_eq!(
        component.src(&upload("", &[0, 0])),
        Err(SrcError::Decode(DecodeError::DimensionMismatch {
            pixel_count: 8,
            width: 3
        }))
    );
    component.set_width(0);
    assert_eq!(
        component.src(&upload("", &[0, 0])),
        Err(SrcError::Decode(DecodeError::InvalidWidth))
    );
}

#[test]
fn src_of_an_empty_raw_file() {
    let component = ImageComponent::create();
    assert_eq!(
        component.src(&upload("", &[])),
        Ok("data:application/png;base64,".to_string())
    );
}

#[test]
fn previews_of_a_raw_file() {
    let component = ImageComponent::create();
    let previews = component.previews(&upload("", &[0b00_01_10_11; 5]));
    assert_eq!(previews.len(), 2);
    assert_eq!(previews[0].0, 5);
    assert_eq!(previews[1].0, 10);
    assert_eq!(
        grid_of_url(&previews[0].1),
        vec![
            vec![0, 1, 2, 3, 0],
            vec![1, 2, 3, 0, 1],
            vec![2, 3, 0, 1, 2],
            vec![3, 0, 1, 2, 3]
        ]
    );
    assert_eq!(
        grid_of_url(&previews[1].1),
        vec![
            vec![0, 1, 2, 3, 0, 1, 2, 3, 0, 1],
            vec![2, 3, 0, 1, 2, 3, 0, 1, 2, 3]
        ]
    );
    assert!(component
        .previews(&upload("image/png", &[0b00_01_10_11; 5]))
        .is_empty());
}

#[test]
fn png_of_a_grid_that_cannot_be_shown() {
    assert_eq!(wasm::png_of(vec![]), Vec::<u8>::new());
    assert_eq!(wasm::png_of(vec![vec![0, 4]]), Vec::<u8>::new());
    assert!(png::all_below(&vec![vec![0, 3], vec![]], 4));
    assert!(!png::all_below(&vec![vec![0, 3], vec![4]], 4));
    assert!(png::convertible(&vec![vec![0, 3]], &palette_from_abbr("cga0")));
    assert!(!png::convertible(&vec![vec![0, 4]], &palette_from_abbr("cga0")));
    assert!(png::convertible(&vec![vec![0, 4]], &palette_from_abbr("ega")));
    assert!(!png::convertible(&vec![], &palette_from_abbr("ega")));
}

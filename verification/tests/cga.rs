use cega::cga;
use cega::color::palette::{cga0, cga0i, cga1, cga1i, ega0};
use cega::exp;
use cega::palette;
use cega::parser::DecodeError;

#[test]
fn indices() {
    let data: u128 = 0xFF_FF_FF_FF_FD_7F_F6_9F_F6_9F_FD_7F_FF_FF_FF_FF;
    let buffer = data.to_be_bytes();
    assert_eq!(
        cga::palette_indices(&buffer),
        [
            3, 3, 3, 3, 3, 3, 3, 3, 3, 3, 3, 3, 3, 3, 3, 3, 3, 3, 3, 1, 1, 3, 3, 3, 3, 3, 1, 2,
            2, 1, 3, 3, 3, 3, 1, 2, 2, 1, 3, 3, 3, 3, 3, 1, 1, 3, 3, 3, 3, 3, 3, 3, 3, 3, 3, 3,
            3, 3, 3, 3, 3, 3, 3, 3
        ]
    );
}

#[test]
fn cga_tiling() {
    let data: u32 = 0b00011011000110110001101100011011;
    let buffer = data.to_be_bytes();
    assert_eq!(
        cga::tile(&cga::palette_indices(&buffer), 2, Some(2), Some(4)),
        [0, 1, 0, 1, 2, 3, 2, 3, 0, 1, 0, 1, 2, 3, 2, 3]
    );

    let data: u64 = 0b0001101100011011000110110001101100011011000110110001101100011011;
    let buffer = data.to_be_bytes();
    assert_eq!(
        cga::tile(&cga::palette_indices(&buffer), 2, Some(2), Some(6)),
        [
            0, 1, 0, 1, 0, 1, 2, 3, 2, 3, 2, 3, 0, 1, 0, 1, 0, 1, 2, 3, 2, 3, 2, 3, 0, 1, 0, 1,
            0, 0, 2, 3, 2, 3, 0, 0
        ]
    );
}

#[test]
fn place_of_a_pixel_in_the_mosaic() {
    // Tiles of 2 by 2 pixels, three to a row, in a mosaic 6 pixels wide.
    assert_eq!(cga::new_index(0, 4, 2, 2, 6, 3), 0);
    assert_eq!(cga::new_index(1, 4, 2, 2, 6, 3), 1);
    assert_eq!(cga::new_index(2, 4, 2, 2, 6, 3), 6);
    assert_eq!(cga::new_index(3, 4, 2, 2, 6, 3), 7);
    assert_eq!(cga::new_index(4, 4, 2, 2, 6, 3), 2);
    assert_eq!(cga::new_index(11, 4, 2, 2, 6, 3), 11);
    assert_eq!(cga::new_index(12, 4, 2, 2, 6, 3), 12);
    assert_eq!(cga::new_index(15, 4, 2, 2, 6, 3), 19);
    // A mosaic that is wider than its tiles need: 7 pixels.
    assert_eq!(cga::new_index(14, 4, 2, 2, 7, 3), 21);
}

#[test]
fn tiling_defaults() {
    // Without a tile height the stream is one tile; without a width the
    // mosaic is 320 pixels wide.
    let pixels: Vec<u8> = (0..8).collect();
    let mosaic = cga::tile(&pixels, 4, None, None);
    assert_eq!(mosaic.len(), 640);
    assert_eq!(&mosaic[0..4], &[0, 1, 2, 3]);
    assert_eq!(&mosaic[320..324], &[4, 5, 6, 7]);
    assert!(mosaic[4..320].iter().all(|&p| p == 0));
    assert!(mosaic[324..].iter().all(|&p| p == 0));
    assert_eq!(cga::tile(&[], 4, Some(2), Some(8)), Vec::<u8>::new());
}

#[test]
fn tiling_a_stream_that_ends_inside_a_tile() {
    // Five pixels, tiles of 2 by 2, two to a row: the fifth pixel starts
    // the second tile of the only row.
    assert_eq!(
        cga::tile(&[1, 2, 3, 4, 5], 2, Some(2), Some(4)),
        [1, 2, 5, 0, 3, 4, 0, 0]
    );
}

#[test]
fn test_row() {
    let data: u32 = 0b00011011000110110001101100011011;
    let buffer = exp::EGARowPlanar::process_row(&data.to_be_bytes());
    assert_eq!(buffer.len(), 8);

    assert_eq!(
        buffer,
        vec!(0b0000, 0b0000, 0b0000, 0b1111, 0b1111, 0b0000, 0b1111, 0b1111)
    );
}

#[test]
fn test_input() {
    let data: u128 = 0xFF_FF_FF_FF_FD_7F_F6_9F_F6_9F_FD_7F_FF_FF_FF_FF;
    assert_eq!(
        exp::EGARowPlanar::process_input(&data.to_be_bytes(), 8),
        Ok(vec!(
            15, 15, 15, 15, 15, 15, 15, 15, 11, 14, 14, 15, 13, 15, 7, 13, 14, 11, 11, 15, 7,
            15, 13, 7, 15, 15, 15, 15, 15, 15, 15, 15
        ))
    );
}

#[test]
fn flat_row_planar_errors() {
    assert_eq!(
        exp::EGARowPlanar::process_input(&[0xff; 4], 4),
        Err(DecodeError::UnsupportedWidth)
    );
    assert_eq!(
        exp::EGARowPlanar::process_input(&[0xff; 5], 8),
        Err(DecodeError::DimensionMismatch {
            pixel_count: 10,
            width: 8
        })
    );
}

#[test]
fn palettes_by_short_name() {
    assert_eq!(palette::palette_from_abbr("e"), ega0().to_vec());
    assert_eq!(palette::palette_from_abbr("0"), cga0().to_vec());
    assert_eq!(palette::palette_from_abbr("0i"), cga0i().to_vec());
    assert_eq!(palette::palette_from_abbr("1i"), cga1i().to_vec());
    assert_eq!(palette::palette_from_abbr("1"), cga1().to_vec());
    assert_eq!(palette::palette_from_abbr("cga0"), cga1().to_vec());
    assert_eq!(palette::cga_char_palette(), vec![' ', '*', '+', '▒']);
    assert_eq!(palette::ega_char_palette().len(), 16);
}

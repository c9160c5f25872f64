use cega::image::{self, Image};
use cega::parser::{DecodeError, ParserType};

#[test]
fn basic_properties() {
    let data: u32 = 0b00011011000110110001101100011011;
    let mut image = Image::new(&data.to_be_bytes(), 4, ParserType::type_str("cga")).unwrap();

    assert_eq!(image.pixel_count(), 16);
    assert_eq!(image.width(), 4);
    assert_eq!(image.height(), 4);
    assert!(!image.is_fullscreen());
    assert_eq!(image.width_factors(), [2, 4, 8]);
    assert_eq!(image.height_factors(), [2]);
    assert!(!image.is_tall());
    image = Image::new(
        &0b0001101100011011000110110001101100011011000110110001101100011011_u64.to_be_bytes(),
        2,
        ParserType::type_str("cga"),
    )
    .unwrap();
    assert!(image.is_tall());
}

#[test]
fn concat_vecs() {
    let tiles = vec![
        vec![0, 1],
        vec![2, 3],
        vec![4, 5],
        vec![6, 7],
        vec![8, 9],
        vec![10, 11],
    ];
    let new_vecs = image::concat_tiles(tiles, 2);
    assert_eq!(
        vec![vec![0, 1, 4, 5, 8, 9], vec![2, 3, 6, 7, 10, 11]],
        new_vecs
    );
}

#[test]
fn image_tiling() {
    let data: u32 = 0b00011011000110110001101100011011;
    let tiled = image::tile(
        Image::new(&data.to_be_bytes(), 2, ParserType::type_str("cga"))
            .unwrap()
            .data(),
        2,
    );
    assert_eq!(
        tiled,
        [vec![0, 1, 0, 1, 0, 1, 0, 1], vec![2, 3, 2, 3, 2, 3, 2, 3],]
    );

    let data: u64 = 0b0001101100011011000110110001101100011011000110110001101100011011;
    let tiled = image::tile(
        Image::new(&data.to_be_bytes(), 2, ParserType::type_str("cga"))
            .unwrap()
            .data(),
        2,
    );
    assert_eq!(
        tiled,
        vec![
            vec![0, 1, 0, 1, 0, 1, 0, 1, 0, 1, 0, 1, 0, 1, 0, 1],
            vec![2, 3, 2, 3, 2, 3, 2, 3, 2, 3, 2, 3, 2, 3, 2, 3],
        ]
    );
}

#[test]
fn decode_then_retile_in_bands() {
    let data: u32 = 0b00011011_00011011_00011011_00011011;
    let grid = Image::new(&data.to_be_bytes(), 2, ParserType::CGA)
        .unwrap()
        .data();
    assert_eq!(
        image::retile(grid, 2, Some(4)),
        vec![
            vec![0, 1, 0, 1],
            vec![2, 3, 2, 3],
            vec![0, 1, 0, 1],
            vec![2, 3, 2, 3]
        ]
    );
}

fn numbered(rows: usize, width: usize) -> Vec<Vec<u32>> {
    (0..rows)
        .map(|r| (0..width).map(|c| (r * width + c) as u32).collect())
        .collect()
}

fn sorted_cells(grid: &[Vec<u32>]) -> Vec<u32> {
    let mut cells: Vec<u32> = grid.iter().flatten().copied().collect();
    cells.sort();
    cells
}

#[test]
fn retile_places_tiles_side_by_side() {
    // Six tiles of two rows and three columns, two to a band.
    let grid = numbered(12, 3);
    let mosaic = image::retile(grid, 2, Some(6));
    assert_eq!(
        mosaic,
        vec![
            vec![0, 1, 2, 6, 7, 8],
            vec![3, 4, 5, 9, 10, 11],
            vec![12, 13, 14, 18, 19, 20],
            vec![15, 16, 17, 21, 22, 23],
            vec![24, 25, 26, 30, 31, 32],
            vec![27, 28, 29, 33, 34, 35],
        ]
    );
}

#[test]
fn retile_width_that_is_no_multiple_leaves_the_rest_unused() {
    let grid = numbered(4, 3);
    assert_eq!(
        image::retile(grid.clone(), 1, Some(7)),
        image::retile(grid, 1, Some(6))
    );
}

#[test]
fn retile_without_limit_is_one_band() {
    let grid = numbered(6, 2);
    assert_eq!(
        image::retile(grid, 2, None),
        vec![vec![0, 1, 4, 5, 8, 9], vec![2, 3, 6, 7, 10, 11]]
    );
}

#[test]
fn retile_last_band_and_last_tile_may_be_short() {
    let grid = numbered(7, 1);
    // Bands of two tiles of two rows: rows 0..4, rows 4..7.
    assert_eq!(
        image::retile(grid, 2, Some(2)),
        vec![vec![0, 2], vec![1, 3], vec![4, 6], vec![5]]
    );
}

#[test]
fn retile_keeps_every_cell() {
    for (rows, width, tile_height, limit) in [
        (12, 3, 2, Some(6)),
        (7, 1, 2, Some(2)),
        (9, 4, 4, Some(9)),
        (5, 2, 3, None),
        (8, 2, 8, Some(320)),
    ] {
        let grid = numbered(rows, width);
        let mosaic = image::retile(grid.clone(), tile_height, limit);
        assert_eq!(sorted_cells(&mosaic), sorted_cells(&grid));
    }
}

#[test]
fn retile_twice_gives_the_same() {
    let grid = numbered(12, 3);
    assert_eq!(
        image::retile(grid.clone(), 2, Some(6)),
        image::retile(grid, 2, Some(6))
    );
}

#[test]
fn concat_tiles_of_nothing_is_empty_rows() {
    let none: Vec<Vec<u8>> = vec![];
    assert_eq!(image::concat_tiles(none, 3), vec![vec![], vec![], vec![]]);
}

#[test]
fn image_reports_decode_errors() {
    assert!(matches!(
        Image::new(&[0xff], 0, ParserType::CGA),
        Err(DecodeError::InvalidWidth)
    ));
    assert!(matches!(
        Image::new(&[0xff], 3, ParserType::CGA),
        Err(DecodeError::DimensionMismatch {
            pixel_count: 4,
            width: 3
        })
    ));
    assert!(matches!(
        Image::new(&[0xff; 4], 4, ParserType::EGARowPlanar),
        Err(DecodeError::UnsupportedWidth)
    ));
}

#[test]
fn image_decodes_row_planar() {
    let image = Image::new(&[0xff; 8], 8, ParserType::type_str("ega_row_planar")).unwrap();
    assert_eq!(image.height(), 2);
    assert_eq!(image.width(), 8);
    assert_eq!(image.data(), vec![vec![15; 8]; 2]);
}

#[test]
fn fullscreen_image() {
    let image = Image::new(&vec![0u8; 16_000], 320, ParserType::CGA).unwrap();
    assert_eq!(image.pixel_count(), 64_000);
    assert_eq!(image.height(), 200);
    assert!(image.is_fullscreen());
    assert!(!image.is_tall());
    assert_eq!(image.suggestions(), "");
}

#[test]
fn suggestion_for_a_wide_image_that_is_no_full_screen() {
    let image = Image::new(&vec![0u8; 80], 320, ParserType::CGA).unwrap();
    assert_eq!(
        image.suggestions(),
        "Image appears to not be fullscreen 320*200.It may be tiled, try setting a narrower -w width to detect tiles.\nPossible widths: [2, 4, 5, 8, 10, 16, 20, 32, 40, 64, 80, 160]"
    );
}

#[test]
fn suggestion_for_a_tall_image() {
    let image = Image::new(&[0u8; 5], 2, ParserType::CGA).unwrap();
    assert!(image.is_tall());
    assert_eq!(
        image.suggestions(),
        "Image height appears to >= 4x its width.If there are tiles, setting a smaller -t tile_height will make a more compact view\nPossible heights: [2, 5]"
    );
}

#[test]
fn tall_means_more_than_four_times() {
    // Eight rows of two cells: 8 / 2 is 4, which is not more than 4.
    let image = Image::new(&[0u8; 4], 2, ParserType::CGA).unwrap();
    assert!(!image.is_tall());
    assert_eq!(image.suggestions(), "");
}

#[test]
fn retile_needs_a_tile_that_fits() {
    let grid = numbered(4, 3);
    assert!(image::retile_fits(&grid, 2, Some(3)));
    assert!(image::retile_fits(&grid, 2, Some(320)));
    assert!(image::retile_fits(&grid, 12, None));
    assert!(!image::retile_fits(&grid, 13, None));
    assert!(!image::retile_fits(&grid, 2, Some(2)));
    assert!(!image::retile_fits(&grid, 0, Some(6)));
    assert!(!image::retile_fits(&Vec::<Vec<u32>>::new(), 2, Some(6)));
    assert!(!image::retile_fits(&vec![Vec::<u32>::new()], 2, Some(6)));
}

#[test]
fn full_bands_of_a_grid_make_a_grid() {
    let mosaic = image::retile(numbered(24, 5), 3, Some(23));
    // Four tiles of five cells fit into 23: bands of twelve rows.
    assert_eq!(mosaic.len(), 6);
    assert!(mosaic.iter().all(|row| row.len() == 20));
    // Cell c of row i of tile t of band b.
    for b in 0..2 {
        for t in 0..4 {
            for i in 0..3 {
                for c in 0..5 {
                    assert_eq!(
                        mosaic[b * 3 + i][t * 5 + c],
                        ((b * 12 + t * 3 + i) * 5 + c) as u32
                    );
                }
            }
        }
    }
}

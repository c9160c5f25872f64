use cega::parser::{DecodeError, EGARowPlanar, ParserType, ProcessBinary, CGA};

#[test]
fn test_ega_row_planar_row() {
    let data: u32 = 0b00011011000110110001101100011011;
    let buffer = EGARowPlanar.words_to_bytes_row(&data.to_be_bytes());
    assert_eq!(buffer.len(), 8);

    assert_eq!(
        buffer,
        vec!(0b0000, 0b0000, 0b0000, 0b1111, 0b1111, 0b0000, 0b1111, 0b1111)
    );
}

#[test]
fn test_ega_row_planar_process_input() {
    let data: u128 = 0xFF_FF_FF_FF_FD_7F_F6_9F_F6_9F_FD_7F_FF_FF_FF_FF;
    assert_eq!(
        EGARowPlanar.process_input(&data.to_be_bytes(), 8),
        Ok(vec!(
            vec!(15, 15, 15, 15, 15, 15, 15, 15),
            vec!(11, 14, 14, 15, 13, 15, 7, 13),
            vec!(14, 11, 11, 15, 7, 15, 13, 7),
            vec!(15, 15, 15, 15, 15, 15, 15, 15),
        ))
    );
}

#[test]
fn test_cga_process_input() {
    let data: u128 = 0xFF_FF_FF_FF_FD_7F_F6_9F_F6_9F_FD_7F_FF_FF_FF_FF;
    assert_eq!(
        CGA.process_input(&data.to_be_bytes(), 8),
        Ok(vec!(
            vec!(3, 3, 3, 3, 3, 3, 3, 3),
            vec!(3, 3, 3, 3, 3, 3, 3, 3),
            vec!(3, 3, 3, 1, 1, 3, 3, 3),
            vec!(3, 3, 1, 2, 2, 1, 3, 3),
            vec!(3, 3, 1, 2, 2, 1, 3, 3),
            vec!(3, 3, 3, 1, 1, 3, 3, 3),
            vec!(3, 3, 3, 3, 3, 3, 3, 3),
            vec!(3, 3, 3, 3, 3, 3, 3, 3),
        ))
    );
}

#[test]
fn test_cga_to_bytes() {
    let data = vec![
        vec![3, 3, 3, 3, 3, 3, 3, 3],
        vec![3, 3, 3, 3, 3, 3, 3, 3],
        vec![3, 3, 3, 1, 1, 3, 3, 3],
        vec![3, 3, 1, 2, 2, 1, 3, 3],
        vec![3, 3, 1, 2, 2, 1, 3, 3],
        vec![3, 3, 3, 1, 1, 3, 3, 3],
        vec![3, 3, 3, 3, 3, 3, 3, 3],
        vec![3, 3, 3, 3, 3, 3, 3, 3],
    ];
    assert_eq!(
        CGA.to_bytes(data),
        0xFF_FF_FF_FF_FD_7F_F6_9F_F6_9F_FD_7F_FF_FF_FF_FFu128.to_be_bytes()
    );
}

#[test]
fn test_compress_bytes_to_words() {
    assert_eq!(
        CGA::compress_bytes_to_words(&[0b00, 0b01, 0b10, 0b11]),
        0b00011011
    );
}

#[test]
fn cga_zero_width_is_invalid() {
    assert_eq!(
        CGA.process_input(&[0xff, 0x00], 0),
        Err(DecodeError::InvalidWidth)
    );
}

#[test]
fn cga_width_must_divide_pixel_count() {
    assert_eq!(
        CGA.process_input(&[0xff, 0x00], 3),
        Err(DecodeError::DimensionMismatch {
            pixel_count: 8,
            width: 3
        })
    );
}

#[test]
fn row_planar_narrow_width_is_unsupported() {
    assert_eq!(
        EGARowPlanar.process_input(&[0xff; 4], 4),
        Err(DecodeError::UnsupportedWidth)
    );
    assert_eq!(
        EGARowPlanar.process_input(&[0xff; 4], 0),
        Err(DecodeError::UnsupportedWidth)
    );
}

#[test]
fn row_planar_width_must_be_whole_bytes() {
    assert_eq!(
        EGARowPlanar.process_input(&[0xff; 6], 12),
        Err(DecodeError::InvalidWidth)
    );
}

#[test]
fn row_planar_width_must_divide_pixel_count() {
    assert_eq!(
        EGARowPlanar.process_input(&[0xff; 6], 8),
        Err(DecodeError::DimensionMismatch {
            pixel_count: 12,
            width: 8
        })
    );
}

#[test]
fn row_planar_all_ones_row() {
    assert_eq!(
        EGARowPlanar.process_input(&[0xff; 4], 8),
        Ok(vec![vec![15, 15, 15, 15, 15, 15, 15, 15]])
    );
}

#[test]
fn row_planar_first_plane_is_most_significant() {
    assert_eq!(
        EGARowPlanar.process_input(&[0b1000_0000, 0b0100_0000, 0b0010_0000, 0b0001_0000], 8),
        Ok(vec![vec![8, 4, 2, 1, 0, 0, 0, 0]])
    );
}

#[test]
fn row_planar_two_byte_planes() {
    let block = [0x80, 0x01, 0x00, 0x00, 0x00, 0x00, 0x00, 0x01];
    assert_eq!(
        EGARowPlanar.process_input(&block, 16),
        Ok(vec![vec![8, 0, 0, 0, 0, 0, 0, 0, 0, 0, 0, 0, 0, 0, 0, 9]])
    );
}

#[test]
fn cga_first_word_is_in_the_high_bits() {
    assert_eq!(CGA.words_to_bytes(&[0b11_10_01_00]), vec![3, 2, 1, 0]);
    assert_eq!(
        CGA.process_input(&[0b11_10_01_00], 2),
        Ok(vec![vec![3, 2], vec![1, 0]])
    );
}

#[test]
fn cga_empty_buffer_decodes_to_no_rows() {
    assert_eq!(CGA.process_input(&[], 5), Ok(vec![]));
}

#[test]
fn cga_encoding_keeps_two_bits_and_pads_with_zeros() {
    assert_eq!(CGA.to_bytes(vec![vec![7, 1], vec![2]]), vec![0b11_01_10_00]);
    assert_eq!(CGA::compress_bytes_to_words(&[]), 0);
    assert_eq!(CGA::compress_bytes_to_words(&[1]), 0b01_00_00_00);
}

#[test]
fn cga_round_trip() {
    let grid = vec![vec![0, 1, 2, 3, 3, 2], vec![1, 0, 3, 3, 0, 1]];
    let bytes = CGA.to_bytes(grid.clone());
    assert_eq!(bytes, vec![0b00_01_10_11, 0b11_10_01_00, 0b11_11_00_01]);
    assert_eq!(CGA.process_input(&bytes, 6), Ok(grid));
}

#[test]
fn cga_decode_then_encode_gives_the_bytes_back() {
    let bytes = [0x12, 0x34, 0x56, 0x78, 0x9a, 0xbc];
    let grid = CGA.process_input(&bytes, 12).unwrap();
    assert_eq!(CGA.to_bytes(grid), bytes);
}

#[test]
fn format_names() {
    assert_eq!(ParserType::type_str("cga"), ParserType::CGA);
    assert_eq!(ParserType::type_str("erp"), ParserType::EGARowPlanar);
    assert_eq!(ParserType::type_str("ega_row_parser"), ParserType::EGARowPlanar);
    assert_eq!(ParserType::type_str("ega_row_planar"), ParserType::EGARowPlanar);
    assert_eq!(ParserType::type_str("no such format"), ParserType::CGA);
    assert_eq!(ParserType::type_str(""), ParserType::CGA);
}

#[test]
fn cga_grid_has_the_width_asked_for() {
    let buffer: Vec<u8> = (0..30).collect();
    for width in [1, 2, 3, 4, 5, 6, 8, 10, 12, 15, 20, 24, 30, 40, 60, 120] {
        let grid = CGA.process_input(&buffer, width).unwrap();
        assert_eq!(grid.len(), buffer.len() * 4 / width);
        assert!(grid.iter().all(|row| row.len() == width));
        assert!(grid.iter().flatten().all(|&cell| cell < 4));
    }
}

#[test]
fn row_planar_grid_has_the_width_asked_for() {
    let buffer: Vec<u8> = (0..96).collect();
    for width in [8, 16, 24, 32, 48, 64, 96, 192] {
        let grid = EGARowPlanar.process_input(&buffer, width).unwrap();
        assert_eq!(grid.len(), buffer.len() / (width / 2));
        assert!(grid.iter().all(|row| row.len() == width));
        assert!(grid.iter().flatten().all(|&cell| cell < 16));
    }
}

#[test]
fn decoding_twice_gives_the_same() {
    let buffer: Vec<u8> = (0..=255).collect();
    assert_eq!(
        EGARowPlanar.process_input(&buffer, 16),
        EGARowPlanar.process_input(&buffer, 16)
    );
    assert_eq!(
        EGARowPlanar.process_input(&buffer, 12),
        EGARowPlanar.process_input(&buffer, 12)
    );
    assert_eq!(CGA.process_input(&buffer, 16), CGA.process_input(&buffer, 16));
    assert_eq!(
        ParserType::EGARowPlanar.process_input(&buffer, 16),
        EGARowPlanar.process_input(&buffer, 16)
    );
    assert_eq!(
        ParserType::CGA.process_input(&buffer, 16),
        CGA.process_input(&buffer, 16)
    );
}

#[test]
fn any_parser_encodes_in_the_packed_format() {
    let grid = vec![vec![0, 1, 2, 3], vec![15, 14, 13, 12]];
    assert_eq!(
        ParserType::EGARowPlanar.to_bytes(grid.clone()),
        vec![0b00_01_10_11, 0b11_10_01_00]
    );
    assert_eq!(ParserType::CGA.to_bytes(grid.clone()), CGA.to_bytes(grid));
}

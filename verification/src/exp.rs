//! The row-planar 16-colour format as one stream of pixels.

use crate::parser::{
    decode_row_planar, flatten_rows, planar_row, DecodeError, EGARowPlanar as RowDecoder,
    ProcessBinary,
};
use vstd::prelude::*;

verus! {

/// The row-planar 16-colour format, decoded into one stream of pixels.
pub struct EGARowPlanar;

impl EGARowPlanar {
    /// Decodes one row block: four bit planes of equal length, the first
    /// holding the most significant bit of each pixel.
    pub fn process_row(buffer: &[u8]) -> (row: Vec<u8>)
        requires
            buffer@.len() % 4 == 0,
            buffer@.len() <= usize::MAX / 2,
        ensures
            row@ == planar_row(buffer@),
    {
        RowDecoder.words_to_bytes_row(buffer)
    }

    /// Decodes `buffer` at `width` pixels to the row and puts the rows one
    /// after the other. The number of pixels that the buffer holds must
    /// fit in `usize`.
    pub fn process_input(buffer: &[u8], width: usize) -> (result: Result<Vec<u8>, DecodeError>)
        requires
            buffer@.len() * 2 <= usize::MAX,
        ensures
            match result {
                Ok(pixels) => decode_row_planar(buffer@, width as nat) is Ok && pixels@
                    == decode_row_planar(buffer@, width as nat)->Ok_0.flatten(),
                Err(e) => decode_row_planar(buffer@, width as nat) == Err::<
                    Seq<Seq<u8>>,
                    DecodeError,
                >(e),
            },
    {
        match RowDecoder.process_input(buffer, width) {
            Ok(rows) => Ok(flatten_rows(&rows)),
            Err(e) => Err(e),
        }
    }
}

} // verus!

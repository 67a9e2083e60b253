//! An H.264 (AVC) decoding toolkit for 8-bit 4:2:0 progressive content,
//! with its bitstream parsers, prediction and filtering stages stated and
//! proved against mathematical models.
use vstd::prelude::*;

pub mod arith;
pub mod binarization;
pub mod bitreader;
pub mod cabac;
pub mod cavlc;
pub mod deblocking;
pub mod decoder;
pub mod error;
pub mod extradata;
pub mod format;
pub mod frame;
pub mod inter_pred;
pub mod intra_pred;
pub mod macroblock;
pub mod packets;
pub mod params;
pub mod plane;
pub mod ref_lists;
pub mod residual;
pub mod vlc_tables;

verus! {

} // verus!

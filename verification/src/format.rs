//! The codec-agnostic description of a decoded stream, built from an
//! active sequence parameter set and its VUI signalling (Annex E).
use vstd::prelude::*;

use crate::params::{ChromaFormat, CropDimensions, SequenceParameterSet, VuiParameters};

verus! {

/// The codec of a stream.
#[derive(Clone, Copy, Debug, PartialEq, Eq, Structural)]
pub enum Codec {
    H264,
}

/// Layout of the decoded samples.
#[derive(Clone, Copy, Debug, PartialEq, Eq, Structural)]
pub enum PixelFormat {
    /// 8-bit 4:2:0 planar: Y, then Cb and Cr at half resolution.
    I420,
}

/// Colour primaries (Table E-3).
#[derive(Clone, Copy, Debug, PartialEq, Eq, Structural)]
pub enum ColorPrimaries {
    Unspecified,
    Bt709,
    Bt470bg,
    Smpte170m,
    Bt2020,
    Smpte432,
}

/// Transfer characteristics (Table E-4).
#[allow(non_camel_case_types)]
#[derive(Clone, Copy, Debug, PartialEq, Eq, Structural)]
pub enum TransferCharacteristics {
    Unspecified,
    Bt709,
    Bt601,
    Smpte240,
    Linear,
    Srgb,
    Bt2020_10,
    Bt2020_12,
    SmptePq,
    AribStdB67,
}

/// Matrix coefficients (Table E-5).
#[derive(Clone, Copy, Debug, PartialEq, Eq, Structural)]
pub enum MatrixCoefficients {
    Unspecified,
    Identity,
    Bt709,
    Bt601,
    Smpte240,
    Bt2020Ncl,
    Bt2020Cl,
}

/// Range of the sample values.
#[derive(Clone, Copy, Debug, PartialEq, Eq, Structural)]
pub enum ColorRange {
    /// Luma in 16..=235, chroma in 16..=240.
    Limited,
    /// The whole 8-bit range.
    Full,
}

/// The colour signalling of a stream.
#[derive(Clone, Copy, Debug, PartialEq, Eq, Structural)]
pub struct ColorSpace {
    pub primaries: ColorPrimaries,
    pub transfer: TransferCharacteristics,
    pub matrix: MatrixCoefficients,
    pub range: ColorRange,
}

/// The shape of the pictures a stream decodes to.
#[derive(Clone, Copy, Debug, PartialEq, Eq, Structural)]
pub struct StreamFormat {
    pub codec: Codec,
    pub coded_width: u32,
    pub coded_height: u32,
    pub crop_left: u32,
    pub crop_top: u32,
    pub display_width: u32,
    pub display_height: u32,
    pub color_space: Option<ColorSpace>,
    pub pixel_format: PixelFormat,
    pub bit_depth: u8,
}

/// Table E-3.
pub open spec fn spec_primaries(code: u8) -> ColorPrimaries {
    if code == 1 {
        ColorPrimaries::Bt709
    } else if code == 5 {
        ColorPrimaries::Bt470bg
    } else if code == 6 || code == 7 {
        ColorPrimaries::Smpte170m
    } else if code == 9 {
        ColorPrimaries::Bt2020
    } else if code == 12 {
        ColorPrimaries::Smpte432
    } else {
        ColorPrimaries::Unspecified
    }
}

/// Table E-4.
pub open spec fn spec_transfer(code: u8) -> TransferCharacteristics {
    if code == 1 {
        TransferCharacteristics::Bt709
    } else if code == 6 {
        TransferCharacteristics::Bt601
    } else if code == 7 {
        TransferCharacteristics::Smpte240
    } else if code == 8 {
        TransferCharacteristics::Linear
    } else if code == 13 {
        TransferCharacteristics::Srgb
    } else if code == 14 {
        TransferCharacteristics::Bt2020_10
    } else if code == 15 {
        TransferCharacteristics::Bt2020_12
    } else if code == 16 {
        TransferCharacteristics::SmptePq
    } else if code == 18 {
        TransferCharacteristics::AribStdB67
    } else {
        TransferCharacteristics::Unspecified
    }
}

/// Table E-5.
pub open spec fn spec_matrix(code: u8) -> MatrixCoefficients {
    if code == 0 {
        MatrixCoefficients::Identity
    } else if code == 1 {
        MatrixCoefficients::Bt709
    } else if code == 5 || code == 6 {
        MatrixCoefficients::Bt601
    } else if code == 7 {
        MatrixCoefficients::Smpte240
    } else if code == 9 {
        MatrixCoefficients::Bt2020Ncl
    } else if code == 10 {
        MatrixCoefficients::Bt2020Cl
    } else {
        MatrixCoefficients::Unspecified
    }
}

/// The colour space that VUI parameters signal: none without a video
/// signal type; unspecified primaries, transfer and matrix without a
/// colour description.
pub open spec fn spec_color_space(vui: Option<VuiParameters>) -> Option<ColorSpace> {
    match vui {
        None => None,
        Some(v) => if !v.video_signal_type_present_flag {
            None
        } else {
            let range = if v.video_full_range_flag {
                ColorRange::Full
            } else {
                ColorRange::Limited
            };
            if !v.color_description_present_flag {
                Some(
                    ColorSpace {
                        primaries: ColorPrimaries::Unspecified,
                        transfer: TransferCharacteristics::Unspecified,
                        matrix: MatrixCoefficients::Unspecified,
                        range,
                    },
                )
            } else {
                Some(
                    ColorSpace {
                        primaries: spec_primaries(v.color_primaries),
                        transfer: spec_transfer(v.transfer_characteristics),
                        matrix: spec_matrix(v.matrix_coefficients),
                        range,
                    },
                )
            }
        },
    }
}

/// ISO/IEC 14496-10 Table E-3.
pub fn map_primaries(code: u8) -> (p: ColorPrimaries)
    ensures
        p == spec_primaries(code),
{
    match code {
        1 => ColorPrimaries::Bt709,
        5 => ColorPrimaries::Bt470bg,
        6 | 7 => ColorPrimaries::Smpte170m,
        9 => ColorPrimaries::Bt2020,
        12 => ColorPrimaries::Smpte432,
        _ => ColorPrimaries::Unspecified,
    }
}

/// ISO/IEC 14496-10 Table E-4.
pub fn map_transfer(code: u8) -> (t: TransferCharacteristics)
    ensures
        t == spec_transfer(code),
{
    match code {
        1 => TransferCharacteristics::Bt709,
        6 => TransferCharacteristics::Bt601,
        7 => TransferCharacteristics::Smpte240,
        8 => TransferCharacteristics::Linear,
        13 => TransferCharacteristics::Srgb,
        14 => TransferCharacteristics::Bt2020_10,
        15 => TransferCharacteristics::Bt2020_12,
        16 => TransferCharacteristics::SmptePq,
        18 => TransferCharacteristics::AribStdB67,
        _ => TransferCharacteristics::Unspecified,
    }
}

/// ISO/IEC 14496-10 Table E-5.
pub fn map_matrix(code: u8) -> (m: MatrixCoefficients)
    ensures
        m == spec_matrix(code),
{
    match code {
        0 => MatrixCoefficients::Identity,
        1 => MatrixCoefficients::Bt709,
        6 | 5 => MatrixCoefficients::Bt601,
        7 => MatrixCoefficients::Smpte240,
        9 => MatrixCoefficients::Bt2020Ncl,
        10 => MatrixCoefficients::Bt2020Cl,
        _ => MatrixCoefficients::Unspecified,
    }
}

/// The `StreamFormat` of an active SPS: its coded and cropped geometry,
/// colour signalling, I420 samples of `8 + bit_depth_luma_minus8` bits.
pub fn stream_format_from_sps(sps: &SequenceParameterSet) -> (f: StreamFormat)
    requires
        sps.geometry_ok(),
        sps.bit_depth_luma_minus8 <= 247,
    ensures
        f == (StreamFormat {
            codec: Codec::H264,
            coded_width: sps.spec_pic_width() as u32,
            coded_height: sps.spec_pic_height() as u32,
            crop_left: sps.spec_crop().crop_left,
            crop_top: sps.spec_crop().crop_top,
            display_width: sps.spec_crop().display_width,
            display_height: sps.spec_crop().display_height,
            color_space: spec_color_space(sps.vui_parameters),
            pixel_format: PixelFormat::I420,
            bit_depth: (8 + sps.bit_depth_luma_minus8) as u8,
        }),
{
    let crop = sps.crop_dimensions();
    let color_space = match sps.vui_parameters {
        None => None,
        Some(vui) => {
            if !vui.video_signal_type_present_flag {
                None
            } else {
                let range = if vui.video_full_range_flag {
                    ColorRange::Full
                } else {
                    ColorRange::Limited
                };
                if !vui.color_description_present_flag {
                    Some(
                        ColorSpace {
                            primaries: ColorPrimaries::Unspecified,
                            transfer: TransferCharacteristics::Unspecified,
                            matrix: MatrixCoefficients::Unspecified,
                            range,
                        },
                    )
                } else {
                    Some(
                        ColorSpace {
                            primaries: map_primaries(vui.color_primaries),
                            transfer: map_transfer(vui.transfer_characteristics),
                            matrix: map_matrix(vui.matrix_coefficients),
                            range,
                        },
                    )
                }
            }
        },
    };
    StreamFormat {
        codec: Codec::H264,
        coded_width: sps.pic_width(),
        coded_height: sps.pic_height(),
        crop_left: crop.crop_left,
        crop_top: crop.crop_top,
        display_width: crop.display_width,
        display_height: crop.display_height,
        color_space,
        pixel_format: PixelFormat::I420,
        bit_depth: 8 + sps.bit_depth_luma_minus8,
    }
}

/// Table E-5, `matrix_coefficients`: 0 is the identity (GBR), 1 BT.709,
/// 5 and 6 BT.601 (BT.470 System B/G and SMPTE 170M), 7 SMPTE 240M, 9 and
/// 10 BT.2020 non-constant and constant luminance; each of these codes
/// alone names its matrix, and every other code leaves it unspecified.
pub proof fn lemma_matrix_table_e5(code: u8)
    ensures
        spec_matrix(code) == MatrixCoefficients::Identity <==> code == 0,
        spec_matrix(code) == MatrixCoefficients::Bt709 <==> code == 1,
        spec_matrix(code) == MatrixCoefficients::Bt601 <==> (code == 5 || code == 6),
        spec_matrix(code) == MatrixCoefficients::Smpte240 <==> code == 7,
        spec_matrix(code) == MatrixCoefficients::Bt2020Ncl <==> code == 9,
        spec_matrix(code) == MatrixCoefficients::Bt2020Cl <==> code == 10,
        spec_matrix(code) == MatrixCoefficients::Unspecified <==> !(code == 0 || code == 1 || code == 5 || code
            == 6 || code == 7 || code == 9 || code == 10),
{
}

/// Table E-3, `colour_primaries`: 1 BT.709, 5 BT.470 System B/G, 6 and 7
/// SMPTE 170M / 240M primaries, 9 BT.2020, 12 SMPTE EG 432 (P3-D65); each
/// of these codes alone names its primaries, every other code none.
pub proof fn lemma_primaries_table_e3(code: u8)
    ensures
        spec_primaries(code) == ColorPrimaries::Bt709 <==> code == 1,
        spec_primaries(code) == ColorPrimaries::Bt470bg <==> code == 5,
        spec_primaries(code) == ColorPrimaries::Smpte170m <==> (code == 6 || code == 7),
        spec_primaries(code) == ColorPrimaries::Bt2020 <==> code == 9,
        spec_primaries(code) == ColorPrimaries::Smpte432 <==> code == 12,
        spec_primaries(code) == ColorPrimaries::Unspecified <==> !(code == 1 || code == 5 || code == 6 || code
            == 7 || code == 9 || code == 12),
{
}

/// Table E-4, `transfer_characteristics`: 1 BT.709, 6 BT.601, 7 SMPTE
/// 240M, 8 linear, 13 sRGB (IEC 61966-2-1), 14 and 15 BT.2020 for 10 and
/// 12 bits, 16 SMPTE ST 2084 (PQ), 18 ARIB STD-B67 (HLG); each of these
/// codes alone names its transfer, every other code none.
pub proof fn lemma_transfer_table_e4(code: u8)
    ensures
        spec_transfer(code) == TransferCharacteristics::Bt709 <==> code == 1,
        spec_transfer(code) == TransferCharacteristics::Bt601 <==> code == 6,
        spec_transfer(code) == TransferCharacteristics::Smpte240 <==> code == 7,
        spec_transfer(code) == TransferCharacteristics::Linear <==> code == 8,
        spec_transfer(code) == TransferCharacteristics::Srgb <==> code == 13,
        spec_transfer(code) == TransferCharacteristics::Bt2020_10 <==> code == 14,
        spec_transfer(code) == TransferCharacteristics::Bt2020_12 <==> code == 15,
        spec_transfer(code) == TransferCharacteristics::SmptePq <==> code == 16,
        spec_transfer(code) == TransferCharacteristics::AribStdB67 <==> code == 18,
        spec_transfer(code) == TransferCharacteristics::Unspecified <==> !(code == 1 || code == 6 || code == 7
            || code == 8 || code == 13 || code == 14 || code == 15 || code == 16 || code == 18),
{
}

/// Section 7.4.2.1.1 (Eqs. 7-13 to 7-22): a progressive 4:2:0
/// stream is `16 * PicWidthInMbs` by `16 * PicHeightInMapUnits` samples;
/// its crop offsets count pairs of luma samples in both directions, so the
/// window starts `2 * left` samples in and `2 * top` down, and the window
/// and the offsets on its two sides fill the coded picture exactly. With
/// no cropping the window is the whole picture.
pub proof fn lemma_crop_window_4_2_0(sps: SequenceParameterSet)
    requires
        sps.geometry_ok(),
        sps.chroma_format_idc == ChromaFormat::YUV420,
        sps.frame_mbs_only_flag,
    ensures
        sps.spec_pic_width() == 16 * (sps.pic_width_in_mbs_minus1 + 1),
        sps.spec_pic_height() == 16 * (sps.pic_height_in_map_units_minus1 + 1),
        match sps.frame_cropping {
            Some(c) => {
                &&& sps.spec_crop().crop_left == 2 * c.left
                &&& sps.spec_crop().crop_top == 2 * c.top
                &&& 2 * c.left + sps.spec_crop().display_width + 2 * c.right == sps.spec_pic_width()
                &&& 2 * c.top + sps.spec_crop().display_height + 2 * c.bottom == sps.spec_pic_height()
                &&& sps.spec_crop().display_width >= 1 && sps.spec_crop().display_height >= 1
            },
            None => sps.spec_crop().crop_left == 0 && sps.spec_crop().crop_top == 0
                && sps.spec_crop().display_width == sps.spec_pic_width() && sps.spec_crop().display_height
                == sps.spec_pic_height(),
        },
{
    let h = sps.pic_height_in_map_units_minus1 as int + 1;
    assert((2 - 1int) * h * 16 == 16 * h) by (nonlinear_arith);
    assert(sps.crop_unit_x() == 2 && sps.crop_unit_y() == 2);
    match sps.frame_cropping {
        Some(c) => {
            assert(2 * c.left <= 2 * (c.left + c.right) < sps.spec_pic_width() <= 0x1000_0000);
            assert(2 * c.top <= 2 * (c.top + c.bottom) < sps.spec_pic_height() <= 0x1000_0000);
        },
        None => {},
    }
}

} // verus!

//! The fields of the sequence and picture parameter sets (Sections 7.3.2.1
//! and 7.3.2.2) that the library's stages read, and the picture geometry
//! that the sequence parameter set fixes.
use vstd::prelude::*;

use crate::plane::ColorPlane;

verus! {

/// `profile_idc` of the profiles the decoder knows.
#[derive(Clone, Copy, Debug, Default, PartialEq, Eq, Structural)]
pub enum Profile {
    #[default]
    Baseline,
    Main,
    Extended,
    High,
}

/// `chroma_format_idc` (Table 6-1).
#[derive(Clone, Copy, Debug, Default, PartialEq, Eq, Structural)]
pub enum ChromaFormat {
    Monochrome,
    #[default]
    YUV420,
    YUV422,
    YUV444,
}

/// `frame_crop_{left,right,top,bottom}_offset`, in crop units.
#[derive(Clone, Copy, Debug, Default, PartialEq, Eq, Structural)]
pub struct FrameCrop {
    pub left: u32,
    pub right: u32,
    pub top: u32,
    pub bottom: u32,
}

/// The video signal type fields of the VUI parameters (Annex E).
#[derive(Clone, Copy, Debug, Default, PartialEq, Eq, Structural)]
pub struct VuiParameters {
    pub video_signal_type_present_flag: bool,
    pub video_full_range_flag: bool,
    pub color_description_present_flag: bool,
    pub color_primaries: u8,
    pub transfer_characteristics: u8,
    pub matrix_coefficients: u8,
}

/// A sequence parameter set.
#[derive(Clone, Copy, Debug, Default, PartialEq, Eq, Structural)]
pub struct SequenceParameterSet {
    pub profile: Profile,
    pub seq_parameter_set_id: u8,
    pub chroma_format_idc: ChromaFormat,
    pub bit_depth_luma_minus8: u8,
    pub bit_depth_chroma_minus8: u8,
    pub pic_order_cnt_type: u8,
    pub pic_width_in_mbs_minus1: u32,
    pub pic_height_in_map_units_minus1: u32,
    pub frame_mbs_only_flag: bool,
    pub gaps_in_frame_num_value_allowed_flag: bool,
    pub frame_cropping: Option<FrameCrop>,
    pub vui_parameters: Option<VuiParameters>,
}

/// The visible window of the decoded picture (Section 7.4.2.1.1).
#[derive(Clone, Copy, Debug, Default, PartialEq, Eq, Structural)]
pub struct CropDimensions {
    pub crop_left: u32,
    pub crop_top: u32,
    pub display_width: u32,
    pub display_height: u32,
}

impl SequenceParameterSet {
    /// `PicWidthInSamplesL` (Eq. 7-13).
    pub open spec fn spec_pic_width(self) -> int {
        (self.pic_width_in_mbs_minus1 + 1) * 16
    }

    /// `FrameHeightInMbs * 16` (Eqs. 7-17, 7-18).
    pub open spec fn spec_pic_height(self) -> int {
        (2 - if self.frame_mbs_only_flag {
            1int
        } else {
            0
        }) * (self.pic_height_in_map_units_minus1 + 1) * 16
    }

    /// `CropUnitX` (Eqs. 7-19, 7-21).
    pub open spec fn crop_unit_x(self) -> int {
        match self.chroma_format_idc {
            ChromaFormat::YUV420 | ChromaFormat::YUV422 => 2,
            _ => 1,
        }
    }

    /// `CropUnitY` (Eqs. 7-20, 7-22).
    pub open spec fn crop_unit_y(self) -> int {
        let fields = 2 - if self.frame_mbs_only_flag {
            1int
        } else {
            0
        };
        match self.chroma_format_idc {
            ChromaFormat::YUV420 => 2 * fields,
            _ => fields,
        }
    }

    /// The crop offsets leave a window of at least one sample, and the
    /// picture's size fits in a `u32`.
    pub open spec fn geometry_ok(self) -> bool {
        &&& self.spec_pic_width() <= 0x1000_0000
        &&& self.spec_pic_height() <= 0x1000_0000
        &&& match self.frame_cropping {
            Some(c) => {
                &&& self.crop_unit_x() * (c.left + c.right) < self.spec_pic_width()
                &&& self.crop_unit_y() * (c.top + c.bottom) < self.spec_pic_height()
            },
            None => true,
        }
    }

    /// The crop window of Section 7.4.2.1.1 in samples.
    pub open spec fn spec_crop(self) -> CropDimensions {
        match self.frame_cropping {
            Some(c) => CropDimensions {
                crop_left: (self.crop_unit_x() * c.left) as u32,
                crop_top: (self.crop_unit_y() * c.top) as u32,
                display_width: (self.spec_pic_width() - self.crop_unit_x() * (c.left + c.right)) as u32,
                display_height: (self.spec_pic_height() - self.crop_unit_y() * (c.top + c.bottom)) as u32,
            },
            None => CropDimensions {
                crop_left: 0,
                crop_top: 0,
                display_width: self.spec_pic_width() as u32,
                display_height: self.spec_pic_height() as u32,
            },
        }
    }

    /// Width of the decoded picture in luma samples.
    pub fn pic_width(&self) -> (w: u32)
        requires
            self.geometry_ok(),
        ensures
            w == self.spec_pic_width(),
    {
        (self.pic_width_in_mbs_minus1 + 1) * 16
    }

    /// Height of the decoded frame in luma samples.
    pub fn pic_height(&self) -> (h: u32)
        requires
            self.geometry_ok(),
        ensures
            h == self.spec_pic_height(),
    {
        let fields: u32 = if self.frame_mbs_only_flag {
            1
        } else {
            2
        };
        assert(fields * (self.pic_height_in_map_units_minus1 + 1) * 16 == self.spec_pic_height());
        fields * (self.pic_height_in_map_units_minus1 + 1) * 16
    }

    /// The crop window in samples (Section 7.4.2.1.1).
    pub fn crop_dimensions(&self) -> (c: CropDimensions)
        requires
            self.geometry_ok(),
        ensures
            c == self.spec_crop(),
    {
        let width = self.pic_width();
        let height = self.pic_height();
        let fields: u32 = if self.frame_mbs_only_flag {
            1
        } else {
            2
        };
        let (unit_x, unit_y): (u32, u32) = match self.chroma_format_idc {
            ChromaFormat::YUV420 => (2, 2 * fields),
            ChromaFormat::YUV422 => (2, fields),
            _ => (1, fields),
        };
        match self.frame_cropping {
            Some(c) => {
                assert(unit_x * (c.left + c.right) < width);
                assert(unit_y * (c.top + c.bottom) < height);
                assert(c.left + c.right <= unit_x * (c.left + c.right)) by (nonlinear_arith)
                    requires
                        unit_x >= 1,
                        c.left + c.right >= 0,
                ;
                assert(c.top + c.bottom <= unit_y * (c.top + c.bottom)) by (nonlinear_arith)
                    requires
                        unit_y >= 1,
                        c.top + c.bottom >= 0,
                ;
                assert(unit_x * c.left <= unit_x * (c.left + c.right)) by (nonlinear_arith)
                    requires
                        unit_x <= 2,
                ;
                assert(unit_y * c.top <= unit_y * (c.top + c.bottom)) by (nonlinear_arith)
                    requires
                        unit_y <= 4,
                ;
                CropDimensions {
                    crop_left: unit_x * c.left,
                    crop_top: unit_y * c.top,
                    display_width: width - unit_x * (c.left + c.right),
                    display_height: height - unit_y * (c.top + c.bottom),
                }
            },
            None => CropDimensions {
                crop_left: 0,
                crop_top: 0,
                display_width: width,
                display_height: height,
            },
        }
    }
}

/// A picture parameter set.
#[derive(Clone, Copy, Debug, Default, PartialEq, Eq, Structural)]
pub struct PicParameterSet {
    pub pic_parameter_set_id: u8,
    pub seq_parameter_set_id: u8,
    pub entropy_coding_mode_flag: bool,
    pub weighted_pred_flag: bool,
    pub weighted_bipred_idc: u8,
    pub pic_init_qp_minus26: i32,
    pub chroma_qp_index_offset: i32,
    pub second_chroma_qp_index_offset: i32,
    pub transform_8x8_mode_flag: bool,
    pub num_slice_groups_minus1: u32,
    pub constrained_intra_pred_flag: bool,
}

impl PicParameterSet {
    /// The chroma QP index offset of `plane`: `chroma_qp_index_offset` for
    /// Cb, `second_chroma_qp_index_offset` for Cr (Section 7.4.2.2), 0 for
    /// luma.
    pub fn get_chroma_qp_index_offset(&self, plane: ColorPlane) -> (o: i32)
        ensures
            o == match plane {
                ColorPlane::Cb => self.chroma_qp_index_offset,
                ColorPlane::Cr => self.second_chroma_qp_index_offset,
                ColorPlane::Y => 0,
            },
    {
        match plane {
            ColorPlane::Cb => self.chroma_qp_index_offset,
            ColorPlane::Cr => self.second_chroma_qp_index_offset,
            ColorPlane::Y => 0,
        }
    }
}

} // verus!

use lib::format::{
    map_matrix, map_primaries, map_transfer, stream_format_from_sps, Codec, ColorPrimaries,
    ColorRange, MatrixCoefficients, PixelFormat, TransferCharacteristics,
};
use lib::params::{ChromaFormat, FrameCrop, Profile, SequenceParameterSet, VuiParameters};

fn base_sps() -> SequenceParameterSet {
    SequenceParameterSet {
        profile: Profile::Baseline,
        chroma_format_idc: ChromaFormat::YUV420,
        // 320x240 visible at 16-px MB alignment -> 20x15 MBs = 320x240
        pic_width_in_mbs_minus1: 19,
        pic_height_in_map_units_minus1: 14,
        frame_mbs_only_flag: true,
        ..Default::default()
    }
}

#[test]
fn coded_geometry_matches_sps() {
    let sps = base_sps();
    let fmt = stream_format_from_sps(&sps);
    assert_eq!(fmt.codec, Codec::H264);
    assert_eq!(fmt.coded_width, 320);
    assert_eq!(fmt.coded_height, 240);
    assert_eq!(fmt.display_width, 320);
    assert_eq!(fmt.display_height, 240);
    assert_eq!(fmt.pixel_format, PixelFormat::I420);
    assert_eq!(fmt.bit_depth, 8);
    assert!(fmt.color_space.is_none());
}

#[test]
fn crop_propagates() {
    let mut sps = base_sps();
    sps.frame_cropping = Some(FrameCrop { left: 0, right: 4, top: 0, bottom: 4 });
    let fmt = stream_format_from_sps(&sps);
    // crop_unit = 2 (4:2:0, frame-only) so 4 -> 8 pixels per side.
    assert_eq!(fmt.display_width, 320 - 8);
    assert_eq!(fmt.display_height, 240 - 8);
}

#[test]
fn vui_color_signaling_maps_to_full_struct() {
    let mut sps = base_sps();
    sps.vui_parameters = Some(VuiParameters {
        video_signal_type_present_flag: true,
        video_full_range_flag: true,
        color_description_present_flag: true,
        color_primaries: 1,           // BT.709
        transfer_characteristics: 16, // SMPTE PQ
        matrix_coefficients: 9,       // BT.2020 NCL
        ..Default::default()
    });
    let fmt = stream_format_from_sps(&sps);
    let cs = fmt.color_space.expect("color_space");
    assert_eq!(cs.primaries, ColorPrimaries::Bt709);
    assert_eq!(cs.transfer, TransferCharacteristics::SmptePq);
    assert_eq!(cs.matrix, MatrixCoefficients::Bt2020Ncl);
    assert_eq!(cs.range, ColorRange::Full);
}

#[test]
fn vui_without_color_description_returns_unspecified_color_space() {
    let mut sps = base_sps();
    sps.vui_parameters = Some(VuiParameters {
        video_signal_type_present_flag: true,
        video_full_range_flag: false,
        color_description_present_flag: false,
        ..Default::default()
    });
    let fmt = stream_format_from_sps(&sps);
    let cs = fmt.color_space.expect("color_space");
    assert_eq!(cs.primaries, ColorPrimaries::Unspecified);
    assert_eq!(cs.range, ColorRange::Limited);
}

#[test]
fn color_range_defaults_to_limited_without_full_range_flag() {
    let mut sps = base_sps();
    sps.vui_parameters = Some(VuiParameters {
        video_signal_type_present_flag: true,
        color_description_present_flag: true,
        color_primaries: 9,
        transfer_characteristics: 14,
        matrix_coefficients: 10,
        ..Default::default()
    });
    let cs = stream_format_from_sps(&sps).color_space.expect("color_space");
    assert_eq!(cs.range, ColorRange::Limited);
    assert_eq!(cs.primaries, ColorPrimaries::Bt2020);
    assert_eq!(cs.transfer, TransferCharacteristics::Bt2020_10);
    assert_eq!(cs.matrix, MatrixCoefficients::Bt2020Cl);
}

#[test]
fn vui_without_signal_type_has_no_color_space() {
    let mut sps = base_sps();
    sps.vui_parameters = Some(VuiParameters {
        video_signal_type_present_flag: false,
        video_full_range_flag: true,
        color_description_present_flag: true,
        color_primaries: 1,
        ..Default::default()
    });
    assert!(stream_format_from_sps(&sps).color_space.is_none());
}

#[test]
fn field_coding_doubles_height_and_crop_unit() {
    let mut sps = base_sps();
    sps.frame_mbs_only_flag = false;
    sps.frame_cropping = Some(FrameCrop { left: 1, right: 0, top: 1, bottom: 1 });
    let fmt = stream_format_from_sps(&sps);
    assert_eq!(fmt.coded_height, 480);
    assert_eq!((fmt.crop_left, fmt.crop_top), (2, 4));
    assert_eq!((fmt.display_width, fmt.display_height), (318, 472));
}

#[test]
fn code_tables_map_unknown_codes_to_unspecified() {
    assert_eq!(map_primaries(7), ColorPrimaries::Smpte170m);
    assert_eq!(map_primaries(2), ColorPrimaries::Unspecified);
    assert_eq!(map_transfer(18), TransferCharacteristics::AribStdB67);
    assert_eq!(map_transfer(17), TransferCharacteristics::Unspecified);
    assert_eq!(map_matrix(0), MatrixCoefficients::Identity);
    assert_eq!(map_matrix(5), MatrixCoefficients::Bt601);
    assert_eq!(map_matrix(11), MatrixCoefficients::Unspecified);
}

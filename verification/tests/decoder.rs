use lib::decoder::assign_slice_qps;
use lib::macroblock::{IMb, Macroblock, PMb, PMbType};
use lib::decoder::reconstruct_pcm;
use lib::frame::BorderedFrame;
use lib::macroblock::PcmMb;
use lib::plane::ColorPlane;
use lib::decoder::{check_supported_pps, check_supported_sps};
use lib::error::DecoderError;
use lib::params::ChromaFormat;
use lib::decoder::{get_chroma_qp, next_qp, BitVec, DecoderContext};
use lib::params::{PicParameterSet, SequenceParameterSet};

#[test]
fn bit_vec_set_and_get_round_trip() {
    let mut bits = BitVec::zeros(130);
    assert_eq!(bits.len(), 130);
    assert!(!bits.is_empty());
    for i in 0..130 {
        assert!(!bits.get(i));
    }
    for i in [0usize, 1, 63, 64, 65, 127, 128, 129] {
        bits.set(i, true);
    }
    for i in 0..130 {
        assert_eq!(bits.get(i), [0usize, 1, 63, 64, 65, 127, 128, 129].contains(&i), "bit {i}");
    }
    bits.set(64, false);
    assert!(!bits.get(64));
    assert!(bits.get(63) && bits.get(65));
    assert!(BitVec::zeros(0).is_empty());
}

#[test]
fn chroma_qp_follows_table_8_15() {
    assert_eq!(get_chroma_qp(20, 0, 0), 20);
    assert_eq!(get_chroma_qp(29, 0, 0), 29);
    assert_eq!(get_chroma_qp(30, 0, 0), 29);
    assert_eq!(get_chroma_qp(34, 0, 0), 32);
    assert_eq!(get_chroma_qp(51, 0, 0), 39);
    assert_eq!(get_chroma_qp(51, 12, 0), 39);
    assert_eq!(get_chroma_qp(40, -2, 0), 35);
    assert_eq!(get_chroma_qp(44, 0, 0), 37);
    assert_eq!(get_chroma_qp(45, 0, 0), 38);
    assert_eq!(get_chroma_qp(47, 0, 0), 38);
    assert_eq!(get_chroma_qp(48, 0, 0), 39);
    assert_eq!(get_chroma_qp(0, -12, 0), 0);
    // With QpBdOffsetC, negative qPI stays below the table and is shifted up.
    assert_eq!(get_chroma_qp(0, -3, 12), 9);
    assert_eq!(get_chroma_qp(-20, 0, 12), 0);
}

#[test]
fn next_qp_wraps_around_the_range() {
    assert_eq!(next_qp(26, 0, 0), 26);
    assert_eq!(next_qp(50, 3, 0), 1);
    assert_eq!(next_qp(1, -3, 0), 50);
    assert_eq!(next_qp(-12, -1, 12), 51);
}

#[test]
fn parameter_sets_are_replaced_by_id() {
    let mut ctx = DecoderContext::new();
    assert!(ctx.get_sps(0).is_none());
    let a = SequenceParameterSet { seq_parameter_set_id: 0, pic_width_in_mbs_minus1: 10, ..Default::default() };
    let b = SequenceParameterSet { seq_parameter_set_id: 1, pic_width_in_mbs_minus1: 20, ..Default::default() };
    let a2 = SequenceParameterSet { seq_parameter_set_id: 0, pic_width_in_mbs_minus1: 30, ..Default::default() };
    ctx.put_sps(a);
    ctx.put_sps(b);
    assert_eq!(ctx.get_sps(0), Some(&a));
    ctx.put_sps(a2);
    assert_eq!(ctx.get_sps(0), Some(&a2));
    assert_eq!(ctx.get_sps(1), Some(&b));
    assert!(ctx.get_sps(2).is_none());

    let p = PicParameterSet { pic_parameter_set_id: 3, chroma_qp_index_offset: -2, ..Default::default() };
    let p2 = PicParameterSet { pic_parameter_set_id: 3, chroma_qp_index_offset: 4, ..Default::default() };
    ctx.put_pps(p);
    assert_eq!(ctx.get_pps(3), Some(&p));
    ctx.put_pps(p2);
    assert_eq!(ctx.get_pps(3), Some(&p2));
    assert!(ctx.get_pps(0).is_none());
    assert_eq!(ctx.get_sps(1), Some(&b));
}

use lib::decoder::{is_new_picture, PictureIdentity};

#[test]
fn slices_of_one_picture_are_not_new() {
    let id = PictureIdentity { frame_num: 3, pic_order_cnt_lsb: 6, ..PictureIdentity::default() };
    for poc_type in 0..3 {
        assert!(!is_new_picture(&id, &id, poc_type));
    }
}

#[test]
fn each_differing_field_starts_a_new_picture() {
    let prev = PictureIdentity {
        frame_num: 3,
        pic_parameter_set_id: 0,
        nal_ref_idc_nonzero: true,
        nal_unit_type_is_idr: true,
        idr_pic_id: 1,
        pic_order_cnt_lsb: 6,
        delta_pic_order_cnt: [1, 2],
        ..PictureIdentity::default()
    };
    assert!(is_new_picture(&prev, &PictureIdentity { frame_num: 4, ..prev }, 2));
    assert!(is_new_picture(&prev, &PictureIdentity { pic_parameter_set_id: 1, ..prev }, 2));
    assert!(is_new_picture(&prev, &PictureIdentity { field_pic_flag: true, ..prev }, 2));
    assert!(is_new_picture(&prev, &PictureIdentity { nal_ref_idc_nonzero: false, ..prev }, 2));
    assert!(is_new_picture(&prev, &PictureIdentity { nal_unit_type_is_idr: false, ..prev }, 2));
    assert!(is_new_picture(&prev, &PictureIdentity { idr_pic_id: 2, ..prev }, 2));
    // The picture order count fields count only for their type.
    let lsb = PictureIdentity { pic_order_cnt_lsb: 8, ..prev };
    assert!(is_new_picture(&prev, &lsb, 0));
    assert!(!is_new_picture(&prev, &lsb, 1));
    let bottom = PictureIdentity { delta_pic_order_cnt_bottom: -1, ..prev };
    assert!(is_new_picture(&prev, &bottom, 0));
    let delta = PictureIdentity { delta_pic_order_cnt: [1, 3], ..prev };
    assert!(is_new_picture(&prev, &delta, 1));
    assert!(!is_new_picture(&prev, &delta, 0));
    assert!(!is_new_picture(&prev, &delta, 2));
    // idr_pic_id matters only between two IDR pictures.
    let non_idr = PictureIdentity { nal_unit_type_is_idr: false, ..prev };
    assert!(!is_new_picture(&non_idr, &PictureIdentity { idr_pic_id: 9, ..non_idr }, 2));
}

#[test]
fn resolve_ref_pic_list_selects_dpb_pictures_in_order() {
    let dpb = [10u32, 20, 30];
    let list = lib::decoder::resolve_ref_pic_list(&[2, 0, 2], &dpb, "RefPicList0").unwrap();
    assert_eq!(list, vec![&30, &10, &30]);
    let err = lib::decoder::resolve_ref_pic_list(&[1, 3], &dpb, "RefPicList1").unwrap_err();
    assert!(matches!(err, lib::error::DecoderError::ReferenceNotFound(_)));
}

#[test]
fn unsupported_parameter_sets_are_refused() {
    let ok = SequenceParameterSet { frame_mbs_only_flag: true, ..Default::default() };
    assert!(check_supported_sps(&ok).is_ok());
    for bad in [
        SequenceParameterSet { chroma_format_idc: ChromaFormat::YUV422, ..ok },
        SequenceParameterSet { chroma_format_idc: ChromaFormat::Monochrome, ..ok },
        SequenceParameterSet { frame_mbs_only_flag: false, ..ok },
        SequenceParameterSet { gaps_in_frame_num_value_allowed_flag: true, ..ok },
    ] {
        assert!(matches!(check_supported_sps(&bad), Err(DecoderError::FeatureNotSupported(_))));
    }
    let pps = PicParameterSet::default();
    assert!(check_supported_pps(&pps).is_ok());
    let groups = PicParameterSet { num_slice_groups_minus1: 1, ..pps };
    assert!(matches!(check_supported_pps(&groups), Err(DecoderError::FeatureNotSupported(_))));
    let constrained = PicParameterSet { constrained_intra_pred_flag: true, ..pps };
    assert!(matches!(check_supported_pps(&constrained), Err(DecoderError::FeatureNotSupported(_))));
}

#[test]
fn put_sps_sequence_keeps_the_last_of_each_id() {
    let mut ctx = DecoderContext::new();
    for (id, w) in [(0u8, 1u32), (1, 2), (0, 3), (2, 4), (1, 5)] {
        ctx.put_sps(SequenceParameterSet { seq_parameter_set_id: id, pic_width_in_mbs_minus1: w, ..Default::default() });
    }
    assert_eq!(ctx.get_sps(0).unwrap().pic_width_in_mbs_minus1, 3);
    assert_eq!(ctx.get_sps(1).unwrap().pic_width_in_mbs_minus1, 5);
    assert_eq!(ctx.get_sps(2).unwrap().pic_width_in_mbs_minus1, 4);
    assert!(ctx.get_sps(3).is_none());
}

#[test]
fn bit_vec_keeps_the_last_value_set() {
    let mut bits = BitVec::zeros(70);
    for (i, v) in [(3usize, true), (65, true), (3, false), (69, true), (65, true)] {
        bits.set(i, v);
    }
    assert!(!bits.get(3));
    assert!(bits.get(65));
    assert!(bits.get(69));
    assert!(!bits.get(0));
}

#[test]
fn refused_parameter_sets_are_not_stored() {
    let mut ctx = DecoderContext::new();
    let ok = SequenceParameterSet { frame_mbs_only_flag: true, pic_width_in_mbs_minus1: 9, ..Default::default() };
    assert_eq!(ctx.accept_sps(ok), Ok(()));
    let interlaced = SequenceParameterSet { frame_mbs_only_flag: false, pic_width_in_mbs_minus1: 19, ..ok };
    assert!(matches!(ctx.accept_sps(interlaced), Err(DecoderError::FeatureNotSupported(_))));
    assert_eq!(ctx.get_sps(0).map(|s| s.pic_width_in_mbs_minus1), Some(9));

    let pps = PicParameterSet { pic_parameter_set_id: 2, ..Default::default() };
    assert_eq!(ctx.accept_pps(pps), Ok(()));
    let grouped = PicParameterSet { pic_parameter_set_id: 3, num_slice_groups_minus1: 1, ..Default::default() };
    assert!(matches!(ctx.accept_pps(grouped), Err(DecoderError::FeatureNotSupported(_))));
    assert!(ctx.get_pps(2).is_some());
    assert!(ctx.get_pps(3).is_none());
}

#[test]
fn pcm_samples_fill_their_macroblock() {
    let mut frame = BorderedFrame::alloc_4_2_0(32, 32).expect("alloc");
    let mb = PcmMb {
        qp: 0,
        pcm_sample_luma: (0..=255u8).collect(),
        pcm_sample_chroma_cb: vec![7; 64],
        pcm_sample_chroma_cr: vec![9; 64],
    };
    assert_eq!(reconstruct_pcm(&mut frame, &mb, 1, 0, ChromaFormat::YUV420), Ok(()));
    let y = frame.plane(ColorPlane::Y);
    assert_eq!(y.at(16, 0), 0);
    assert_eq!(y.at(16 + 5, 3), 3 * 16 + 5);
    assert_eq!(y.at(15, 0), 0);
    assert_eq!(frame.plane(ColorPlane::Cb).at(8 + 7, 7), 7);
    assert_eq!(frame.plane(ColorPlane::Cb).at(7, 7), 0);
    assert_eq!(frame.plane(ColorPlane::Cr).at(8, 0), 9);

    let mut frame = BorderedFrame::alloc_4_2_0(32, 32).expect("alloc");
    assert!(matches!(
        reconstruct_pcm(&mut frame, &mb, 0, 1, ChromaFormat::Monochrome),
        Err(DecoderError::FeatureNotSupported(_))
    ));
    assert_eq!(frame.plane(ColorPlane::Y).at(1, 17), 17);
    assert_eq!(frame.plane(ColorPlane::Cb).at(0, 8), 0);
}

#[test]
fn slice_qps_follow_the_deltas_and_restart_after_pcm() {
    let mbs_in = vec![
        Macroblock::I(IMb { mb_qp_delta: 2, ..IMb::default() }),
        Macroblock::PCM(PcmMb::default()),
        Macroblock::P(PMb { mb_qp_delta: -1, ..PMb::default() }),
        Macroblock::P(PMb { mb_type: PMbType::P_Skip, ..PMb::default() }),
    ];
    let mut mbs = mbs_in;
    assign_slice_qps(&mut mbs, 26, 0);
    let qps: Vec<u8> = mbs
        .iter()
        .map(|mb| match mb {
            Macroblock::I(m) => m.qp,
            Macroblock::P(m) => m.qp,
            Macroblock::B(m) => m.qp,
            Macroblock::PCM(m) => m.qp,
        })
        .collect();
    assert_eq!(qps, vec![28, 0, 51, 51]);
}

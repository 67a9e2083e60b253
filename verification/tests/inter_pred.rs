use lib::inter_pred::{
    average_into, build_implicit_weight_table, collect_pred_rects, fill_rect, get_implicit_weights,
    get_weighted_pred_mode, interpolate_chroma, interpolate_chroma_clamped, interpolate_luma,
    mb_origin, weight_bi_into, weight_uni_in_place, weighted_bi_pred, weighted_uni_pred, Area,
    InterpolationBuffer, PartitionRect, PredKey, PredRects, RefPicInfo, SliceType, WeightParams,
    WeightedPredMode,
};
use lib::macroblock::{MbMotion, MbPredictionMode, MotionVector, PMb, PMbType, PartitionInfo};
use lib::plane::{ColorPlane, Plane, PlaneConfig, Point};

// --- weighted_uni_pred tests (Eq 8-274/8-275) ---

#[test]
fn uni_pred_identity() {
    // w = 1 << log_wd, o = 0 should produce the same value (default weight)
    for log_wd in 0..8u32 {
        let w = 1i32 << log_wd;
        for pred in [0u8, 1, 127, 128, 254, 255] {
            assert_eq!(
                weighted_uni_pred(pred, w, 0, log_wd),
                pred,
                "identity failed for pred={pred}, log_wd={log_wd}"
            );
        }
    }
}

#[test]
fn uni_pred_log_wd_zero() {
    // log_wd = 0: result = pred * w + o, clamped
    assert_eq!(weighted_uni_pred(100, 2, 10, 0), 210);
    assert_eq!(weighted_uni_pred(200, 2, 0, 0), 255); // clamped
    assert_eq!(weighted_uni_pred(10, -1, 0, 0), 0); // clamped negative
}

#[test]
fn uni_pred_with_offset() {
    // log_wd = 7, w = 128 (=1<<7), o = 10 => pred + 10
    assert_eq!(weighted_uni_pred(100, 128, 10, 7), 110);
    // Clamping to 255
    assert_eq!(weighted_uni_pred(250, 128, 10, 7), 255);
}

#[test]
fn uni_pred_clamping() {
    // Should clamp to [0, 255]
    assert_eq!(weighted_uni_pred(0, 128, -50, 7), 0);
    assert_eq!(weighted_uni_pred(255, 256, 100, 7), 255);
}

// --- weighted_bi_pred tests (Eq 8-276) ---

#[test]
fn bi_pred_equal_weights() {
    // w0=w1=32, log_wd=5, o0=o1=0 => same as default (l0+l1+1)>>1
    let wp = WeightParams { log_wd: 5, w0: 32, o0: 0, w1: 32, o1: 0 };
    assert_eq!(weighted_bi_pred(100, 200, &wp), 150);
    assert_eq!(weighted_bi_pred(0, 0, &wp), 0);
    assert_eq!(weighted_bi_pred(255, 255, &wp), 255);
    assert_eq!(weighted_bi_pred(1, 0, &wp), 1); // (1*32 + 0*32 + 32) >> 6 = 64 >> 6 = 1
}

#[test]
fn bi_pred_arithmetic() {
    // Manual calculation: log_wd=5, w0=32, w1=32, o0=0, o1=0
    // (100*32 + 200*32 + 32) >> 6 + 0 = (3200 + 6400 + 32) >> 6 = 9632 >> 6 = 150
    let wp = WeightParams { log_wd: 5, w0: 32, o0: 0, w1: 32, o1: 0 };
    assert_eq!(weighted_bi_pred(100, 200, &wp), 150);

    // w0=64, w1=0 => effectively uni-pred from L0
    // (100*64 + 200*0 + 32) >> 6 + 0 = 6432 >> 6 = 100
    let wp2 = WeightParams { log_wd: 5, w0: 64, o0: 0, w1: 0, o1: 0 };
    assert_eq!(weighted_bi_pred(100, 200, &wp2), 100);
}

#[test]
fn bi_pred_with_offsets() {
    // log_wd=5, w0=32, w1=32, o0=20, o1=10
    // (100*32 + 100*32 + 32) >> 6 + (20+10+1)>>1 = (6400+32)>>6 + 15 = 100 + 15 = 115
    let wp = WeightParams { log_wd: 5, w0: 32, o0: 20, w1: 32, o1: 10 };
    assert_eq!(weighted_bi_pred(100, 100, &wp), 115);
}

#[test]
fn bi_pred_clamping() {
    let wp = WeightParams { log_wd: 5, w0: 64, o0: 127, w1: 64, o1: 127 };
    assert_eq!(weighted_bi_pred(255, 255, &wp), 255); // clamped
    let wp2 = WeightParams { log_wd: 5, w0: 64, o0: -128, w1: 64, o1: -128 };
    assert_eq!(weighted_bi_pred(0, 0, &wp2), 0); // clamped
}

// --- Default weight identity ---

#[test]
fn default_weight_is_identity() {
    // Explicit weights with w = 1 << log_wd, o = 0 should match unweighted copy
    for log_wd in 0..8u32 {
        let w = 1i32 << log_wd;
        for pred in [0u8, 64, 128, 200, 255] {
            let weighted = weighted_uni_pred(pred, w, 0, log_wd);
            assert_eq!(weighted, pred, "default weight not identity: pred={pred}, log_wd={log_wd}");
        }
    }
}

fn test_plane_cfg(width: usize, height: usize) -> PlaneConfig {
    PlaneConfig {
        stride: width + 32,
        width,
        height,
        xorigin: 16,
        yorigin: 16,
        alloc_height: height + 32,
    }
}

fn create_test_plane(width: usize, height: usize, fill: u8) -> (Vec<u8>, PlaneConfig) {
    let cfg = test_plane_cfg(width, height);
    let buf = vec![fill; cfg.total_bytes()];
    (buf, cfg)
}

fn alternating_plane(width: usize, height: usize) -> (Vec<u8>, PlaneConfig) {
    let cfg = test_plane_cfg(width, height);
    let mut buf = vec![0u8; cfg.total_bytes()];
    for y in 0..cfg.alloc_height {
        for x in 0..cfg.stride {
            buf[y * cfg.stride + x] = if x % 2 == 0 { 100 } else { 200 };
        }
    }
    (buf, cfg)
}

#[test]
fn test_interpolate_integer() {
    let (buf, cfg) = create_test_plane(32, 32, 100);
    let plane = Plane { data: &buf, cfg };
    let mut dst = [0u8; 16];
    let mut buffer = InterpolationBuffer::new();
    interpolate_luma(
        plane,
        0,
        0,
        0,
        0,
        4,
        4,
        MotionVector { x: 0, y: 0 },
        &mut dst,
        4,
        &mut buffer,
    );
    assert_eq!(dst, [100; 16]);
}

#[test]
fn test_interpolate_half_pel_horizontal() {
    let (buf, cfg) = alternating_plane(32, 32);
    let plane = Plane { data: &buf, cfg };
    let mut dst = [0u8; 16];
    let mut buffer = InterpolationBuffer::new();
    interpolate_luma(
        plane,
        2,
        2,
        0,
        0,
        4,
        4,
        MotionVector { x: 2, y: 0 },
        &mut dst,
        4,
        &mut buffer,
    );
    assert_eq!(dst[0], 150);
}

#[test]
fn test_interpolate_quarter_pel_a() {
    let (buf, cfg) = alternating_plane(32, 32);
    let plane = Plane { data: &buf, cfg };
    let mut dst = [0u8; 16];
    let mut buffer = InterpolationBuffer::new();
    interpolate_luma(
        plane,
        2,
        2,
        0,
        0,
        4,
        4,
        MotionVector { x: 1, y: 0 },
        &mut dst,
        4,
        &mut buffer,
    );
    assert_eq!(dst[0], 125);
}

#[test]
fn test_interpolate_chroma_integer() {
    let (buf, cfg) = create_test_plane(16, 16, 50);
    let plane = Plane { data: &buf, cfg };
    let mut dst = [0u8; 4];
    interpolate_chroma(plane, 0, 0, 0, 0, 2, 2, MotionVector { x: 0, y: 0 }, &mut dst, 2);
    assert_eq!(dst, [50; 4]);
}

#[test]
fn test_interpolate_chroma_half() {
    let (buf, cfg) = alternating_plane(16, 16);
    let plane = Plane { data: &buf, cfg };
    let mut dst = [0u8; 4];
    interpolate_chroma(plane, 0, 0, 0, 0, 2, 2, MotionVector { x: 4, y: 0 }, &mut dst, 2);
    assert_eq!(dst[0], 150);
    assert_eq!(dst[1], 150);
}

#[test]
fn test_interpolate_chroma_eighth() {
    let cfg = test_plane_cfg(16, 16);
    let mut buf = vec![100u8; cfg.total_bytes()];
    // Set visible (1, 0) = 164.
    let one_off = cfg.yorigin * cfg.stride + cfg.xorigin + 1;
    buf[one_off] = 164;
    let plane = Plane { data: &buf, cfg };
    let mut dst = [0u8; 1];
    interpolate_chroma(plane, 0, 0, 0, 0, 1, 1, MotionVector { x: 1, y: 0 }, &mut dst, 1);
    assert_eq!(dst[0], 108);
}

/// `(grid_y, grid_x, grid_h, grid_w, key)` of each rectangle, in order.
fn rect_list(rects: &PredRects) -> Vec<(u8, u8, u8, u8, PredKey)> {
    rects.as_slice().iter().map(|r| (r.grid_y, r.grid_x, r.grid_h, r.grid_w, r.key)).collect()
}

fn uniform_motion(info: PartitionInfo) -> MbMotion {
    MbMotion { partitions: [[info; 4]; 4], decoded_mask: 0xFFFF }
}

/// The key of P cells with the given L0 motion.
fn l0_key(ref_idx: u8, mv: MotionVector) -> PredKey {
    PredKey {
        pred_mode: MbPredictionMode::Pred_L0,
        ref_idx_l0: ref_idx,
        mv_l0: mv,
        ..PredKey::default()
    }
}

/// `PredRects::for_p` of a P macroblock with the given type and motion.
fn p_rects(mb_type: PMbType, motion: MbMotion) -> Vec<(u8, u8, u8, u8, PredKey)> {
    rect_list(&PredRects::for_p(&PMb { mb_type, motion, ..Default::default() }))
}

#[test]
fn test_pred_rects_p_16x16_is_one_rect() {
    let mv = MotionVector { x: 3, y: -2 };
    let motion = uniform_motion(PartitionInfo { ref_idx_l0: 1, mv_l0: mv, ..Default::default() });
    for mb_type in [PMbType::P_Skip, PMbType::P_L0_16x16] {
        assert_eq!(p_rects(mb_type, motion.clone()), vec![(0, 0, 4, 4, l0_key(1, mv))]);
    }
}

#[test]
fn test_pred_rects_p_16x8_and_8x8() {
    // 16x8: the two halves have different MVs.
    let top_mv = MotionVector { x: 1, y: 0 };
    let bottom_mv = MotionVector { x: 2, y: 0 };
    let mut motion = uniform_motion(PartitionInfo { mv_l0: top_mv, ..Default::default() });
    for row in &mut motion.partitions[2..] {
        for cell in row.iter_mut() {
            cell.mv_l0 = bottom_mv;
        }
    }
    assert_eq!(
        p_rects(PMbType::P_L0_L0_16x8, motion),
        vec![(0, 0, 2, 4, l0_key(0, top_mv)), (2, 0, 2, 4, l0_key(0, bottom_mv))]
    );

    // 8x8: each quadrant has its own reference index.
    let refs = [[0, 0, 1, 1], [0, 0, 1, 1], [2, 2, 3, 3], [2, 2, 3, 3]];
    let mut motion = uniform_motion(PartitionInfo::default());
    for (row, row_refs) in motion.partitions.iter_mut().zip(refs) {
        for (cell, ref_idx) in row.iter_mut().zip(row_refs) {
            cell.ref_idx_l0 = ref_idx;
        }
    }
    let mv = MotionVector::default();
    assert_eq!(
        p_rects(PMbType::P_8x8, motion),
        vec![
            (0, 0, 2, 2, l0_key(0, mv)),
            (0, 2, 2, 2, l0_key(1, mv)),
            (2, 0, 2, 2, l0_key(2, mv)),
            (2, 2, 2, 2, l0_key(3, mv))
        ]
    );
}

#[test]
fn test_pred_rects_p_ignores_l1_and_mvd() {
    // A P key covers only (ref_idx_l0, mv_l0): stale L1 fields and mvds
    // must not split a partition.
    let mut motion = uniform_motion(PartitionInfo { ref_idx_l0: 2, ..Default::default() });
    motion.partitions[1][2].ref_idx_l1 = 7;
    motion.partitions[3][0].mvd_l0 = MotionVector { x: 5, y: 5 };
    let mv = MotionVector::default();
    assert_eq!(p_rects(PMbType::P_8x8, motion), vec![(0, 0, 4, 4, l0_key(2, mv))]);
}

#[test]
fn test_pred_rects_b_split_on_full_key() {
    // Top half Pred_L0; bottom-left BiPred; bottom-right Pred_L1 with the
    // same L1 motion as the BiPred cells. Each region is one rectangle
    // with fixed lists, references and motion vectors.
    let l0 = PartitionInfo {
        pred_mode: MbPredictionMode::Pred_L0,
        mv_l0: MotionVector { x: 4, y: 4 },
        ref_idx_l1: u8::MAX,
        ..Default::default()
    };
    let bi = PartitionInfo {
        pred_mode: MbPredictionMode::BiPred,
        ref_idx_l0: 1,
        mv_l0: MotionVector { x: -4, y: 0 },
        mv_l1: MotionVector { x: 8, y: 0 },
        ..Default::default()
    };
    let l1 = PartitionInfo {
        pred_mode: MbPredictionMode::Pred_L1,
        ref_idx_l0: u8::MAX,
        mv_l1: bi.mv_l1,
        ..Default::default()
    };
    let mut motion = uniform_motion(l0);
    for row in &mut motion.partitions[2..] {
        row[..2].fill(bi);
        row[2..].fill(l1);
    }
    assert_eq!(
        rect_list(&PredRects::for_b(&motion)),
        vec![
            (0, 0, 2, 4, PredKey::b(&l0)),
            (2, 0, 2, 2, PredKey::b(&bi)),
            (2, 2, 2, 2, PredKey::b(&l1))
        ]
    );

    // The mvds don't affect prediction, so they don't split rectangles.
    let mut motion = uniform_motion(bi);
    motion.partitions[1][1].mvd_l1 = MotionVector { x: 3, y: 3 };
    assert_eq!(rect_list(&PredRects::for_b(&motion)), vec![(0, 0, 4, 4, PredKey::b(&bi))]);
}

#[test]
fn test_pred_rects_fast_path_falls_back() {
    // Only the last cell differs, so the greedy walk must run.
    let mut motion = uniform_motion(PartitionInfo::default());
    motion.partitions[3][3].ref_idx_l0 = 1;
    let mv = MotionVector::default();
    assert_eq!(
        p_rects(PMbType::P_8x8, motion),
        vec![
            (0, 0, 3, 4, l0_key(0, mv)),
            (3, 0, 1, 3, l0_key(0, mv)),
            (3, 3, 1, 1, l0_key(1, mv))
        ]
    );
}

#[test]
fn test_pred_rects_p_from_mb_type() {
    // 8x16: left and right halves with different motion.
    let (left, right) = (MotionVector { x: 1, y: 2 }, MotionVector { x: -3, y: 0 });
    let mut motion = uniform_motion(PartitionInfo { mv_l0: left, ..Default::default() });
    for row in &mut motion.partitions {
        row[2..].fill(PartitionInfo { mv_l0: right, ..Default::default() });
    }
    assert_eq!(
        p_rects(PMbType::P_L0_L0_8x16, motion),
        vec![(0, 0, 4, 2, l0_key(0, left)), (0, 2, 4, 2, l0_key(0, right))]
    );

    // The partitions come from mb_type, so two 16x8 halves with the same
    // motion stay two rectangles, where the grid scan would merge them.
    // Either way the prediction is the same.
    let motion = uniform_motion(PartitionInfo { mv_l0: left, ..Default::default() });
    assert_eq!(
        p_rects(PMbType::P_L0_L0_16x8, motion),
        vec![(0, 0, 2, 4, l0_key(0, left)), (2, 0, 2, 4, l0_key(0, left))]
    );
}

#[test]
fn test_bi_combine_matches_per_sample() {
    let wp = WeightParams { log_wd: 5, w0: 40, o0: -3, w1: 24, o1: 7 };
    let l0: Vec<u8> = (0..256).map(|i| u8::try_from(i * 7 % 256).expect("fits")).collect();
    let l1: Vec<u8> = (0..256).map(|i| u8::try_from((i * 13 + 5) % 256).expect("fits")).collect();
    let stride = 24;
    // Every rectangle width, placed at row 1, column 1 of the destination.
    for (w, h) in [(2, 2), (4, 8), (6, 4), (8, 8), (12, 4), (16, 16), (16, 8)] {
        let area = Area { x: 0, y: 0, w, h };
        let mut avg = vec![9u8; stride * 18];
        average_into(&mut avg[stride + 1..], stride, &l0, &l1, 16, area);
        let mut weighted = vec![9u8; stride * 18];
        weight_bi_into(&mut weighted[stride + 1..], stride, &l0, &l1, 16, area, &wp);
        for i in 0..stride * 18 {
            let (row, col) = (i / stride, i % stride);
            if (1..=usize::from(h)).contains(&row) && (1..=usize::from(w)).contains(&col) {
                let src = (row - 1) * 16 + col - 1;
                let (a, b) = (l0[src], l1[src]);
                let mean = (u16::from(a) + u16::from(b)).div_ceil(2);
                assert_eq!(u16::from(avg[i]), mean, "average at ({row}, {col}), {w}x{h}");
                let want = weighted_bi_pred(a, b, &wp);
                assert_eq!(weighted[i], want, "weighted at ({row}, {col}), {w}x{h}");
            } else {
                assert_eq!((avg[i], weighted[i]), (9, 9), "outside at ({row}, {col}), {w}x{h}");
            }
        }
    }
}

#[test]
fn test_fill_rect_stays_inside() {
    let stride = 10;
    let mut buf = vec![1u8; stride * 6];
    fill_rect(&mut buf[stride + 2..], stride, Area { x: 0, y: 0, w: 4, h: 3 }, 0);
    for (i, &value) in buf.iter().enumerate() {
        let (row, col) = (i / stride, i % stride);
        let inside = (1..4).contains(&row) && (2..6).contains(&col);
        assert_eq!(value, u8::from(!inside), "({row}, {col})");
    }
}

#[test]
fn test_rect_area_and_origins() {
    let rect = PartitionRect { grid_y: 2, grid_x: 1, grid_h: 2, grid_w: 3, ..Default::default() };
    assert_eq!(rect.area(ColorPlane::Y), Area { x: 4, y: 8, w: 12, h: 8 });
    assert_eq!(rect.area(ColorPlane::Cr), Area { x: 2, y: 4, w: 6, h: 4 });
    assert_eq!(rect.area(ColorPlane::Y).offset(100), 8 * 100 + 4);
    let mb_loc = Point { x: 32, y: 48 };
    assert_eq!(mb_origin(ColorPlane::Y, mb_loc, 200), 48 * 200 + 32);
    assert_eq!(mb_origin(ColorPlane::Cb, mb_loc, 100), 24 * 100 + 16);
}

#[test]
fn test_weight_uni_in_place_matches_per_sample() {
    let stride = 20;
    let area = Area { x: 0, y: 0, w: 12, h: 4 };
    for (weight, offset, log_wd) in [(64, 0, 6), (-3, 10, 2), (5, -20, 0), (200, 127, 7)] {
        let original: Vec<u8> =
            (0..stride * 6).map(|i| u8::try_from(i * 37 % 256).expect("fits")).collect();
        let mut dst = original.clone();
        // The rectangle starts at row 1, column 3.
        weight_uni_in_place(&mut dst[stride + 3..], stride, area, weight, offset, log_wd);
        for (i, (&got, &was)) in dst.iter().zip(&original).enumerate() {
            let (row, col) = (i / stride, i % stride);
            let inside = (1..5).contains(&row) && (3..15).contains(&col);
            let want = if inside { weighted_uni_pred(was, weight, offset, log_wd) } else { was };
            assert_eq!(got, want, "sample ({row}, {col}), weight {weight}, log_wd {log_wd}");
        }
    }
}

/// `interpolate_chroma` against the clamped reference, for one block.
fn check_chroma_block(
    buf: &[u8],
    cfg: PlaneConfig,
    (w, h): (u8, u8),
    (x_int, y_int): (i32, i32),
    (x_frac, y_frac): (i16, i16),
) {
    let mv = MotionVector {
        x: i16::try_from(x_int * 8).expect("fits") + x_frac,
        y: i16::try_from(y_int * 8).expect("fits") + y_frac,
    };
    let (mut fast, mut clamped) = ([0u8; 64], [0u8; 64]);
    interpolate_chroma(Plane { data: buf, cfg }, 0, 0, 0, 0, w, h, mv, &mut fast, 8);
    let plane = Plane { data: buf, cfg };
    interpolate_chroma_clamped(plane, x_int, y_int, x_frac, y_frac, w, h, &mut clamped, 8);
    assert_eq!(fast, clamped, "{w}x{h} at ({x_int}, {y_int}), fraction ({x_frac}, {y_frac})");
}

#[test]
fn test_chroma_fast_path_matches_clamped() {
    // Every block size and fraction, at positions inside, on and beyond
    // each edge of a 24x16 plane: wherever interpolate_chroma takes its
    // fast path, it must match the clamped reference exactly.
    let cfg = test_plane_cfg(24, 16);
    let mut state = 0x9E37_79B9_7F4A_7C15_u64;
    let buf: Vec<u8> = (0..cfg.total_bytes())
        .map(|_| {
            state ^= state << 13;
            state ^= state >> 7;
            state ^= state << 17;
            state.to_be_bytes()[0]
        })
        .collect();
    let positions = |len: i32, size: u8| {
        let size = i32::from(size);
        [-3, -1, 0, 1, 5, len - size - 1, len - size, len - size + 1, len - 1]
    };
    for (w, h) in [2u8, 4, 6, 8].iter().flat_map(|&w| [2u8, 4, 6, 8].map(move |h| (w, h))) {
        for x_int in positions(24, w) {
            for y_int in positions(16, h) {
                for x_frac in 0..8 {
                    for y_frac in 0..8 {
                        let (int, frac) = ((x_int, y_int), (x_frac, y_frac));
                        check_chroma_block(&buf, cfg, (w, h), int, frac);
                    }
                }
            }
        }
    }
}

// --- Further checks of the library's own ---

#[test]
fn weighted_pred_mode_follows_slice_type_and_pps_flags() {
    assert_eq!(get_weighted_pred_mode(SliceType::P, true, 0), WeightedPredMode::Explicit);
    assert_eq!(get_weighted_pred_mode(SliceType::SP, false, 2), WeightedPredMode::Default);
    assert_eq!(get_weighted_pred_mode(SliceType::B, false, 1), WeightedPredMode::Explicit);
    assert_eq!(get_weighted_pred_mode(SliceType::B, true, 2), WeightedPredMode::Implicit);
    assert_eq!(get_weighted_pred_mode(SliceType::B, true, 0), WeightedPredMode::Default);
    assert_eq!(get_weighted_pred_mode(SliceType::I, true, 1), WeightedPredMode::Default);
}

#[test]
fn implicit_weights_follow_poc_distances() {
    let pic = |poc: i32, long_term: bool| RefPicInfo { poc, long_term };
    let wp = get_implicit_weights(&pic(0, false), &pic(4, false), 2);
    assert_eq!((wp.log_wd, wp.w0, wp.w1, wp.o0, wp.o1), (5, 32, 32, 0, 0));
    let wp = get_implicit_weights(&pic(0, false), &pic(8, false), 2);
    assert_eq!((wp.w0, wp.w1), (48, 16));
    let wp = get_implicit_weights(&pic(8, false), &pic(0, false), 4);
    assert_eq!((wp.w0, wp.w1), (32, 32));
    let wp = get_implicit_weights(&pic(0, false), &pic(4, false), 6);
    assert_eq!((wp.w0, wp.w1), (-32, 96));
    // Long-term references and equal distances fall back to 32/32.
    let wp = get_implicit_weights(&pic(0, true), &pic(8, false), 2);
    assert_eq!((wp.w0, wp.w1), (32, 32));
    let wp = get_implicit_weights(&pic(6, false), &pic(6, false), 2);
    assert_eq!((wp.w0, wp.w1), (32, 32));
    // A scale factor out of range falls back too.
    let wp = get_implicit_weights(&pic(0, false), &pic(1, false), 100);
    assert_eq!((wp.w0, wp.w1), (32, 32));
}

#[test]
fn implicit_weight_table_defaults_past_list_ends() {
    let l0 = [RefPicInfo { poc: 0, long_term: false }];
    let l1 = [RefPicInfo { poc: 8, long_term: false }, RefPicInfo { poc: 4, long_term: false }];
    let table = build_implicit_weight_table(&l0, &l1, 2);
    assert_eq!(table.len(), 256);
    assert_eq!((table[0].w0, table[0].w1), (48, 16));
    assert_eq!((table[1].w0, table[1].w1), (32, 32));
    assert_eq!((table[2].w0, table[2].w1), (32, 32));
    assert_eq!((table[16].w0, table[16].w1), (32, 32));
    for wp in &table {
        assert_eq!(wp.w0 + wp.w1, 64);
    }
}

#[test]
fn greedy_scan_covers_every_cell_once_per_key() {
    // A staircase where a later rectangle reaches over an earlier one: the
    // rectangles still cover every cell with its own key.
    let a = PredKey { ref_idx_l0: 1, ..PredKey::default() };
    let b = PredKey { ref_idx_l0: 2, ..PredKey::default() };
    let mut keys = vec![a; 16];
    keys[0] = b;
    let rects = collect_pred_rects(&keys);
    assert_eq!(
        rects,
        vec![
            PartitionRect { grid_y: 0, grid_x: 0, grid_h: 1, grid_w: 1, key: b },
            PartitionRect { grid_y: 0, grid_x: 1, grid_h: 4, grid_w: 3, key: a },
            PartitionRect { grid_y: 1, grid_x: 0, grid_h: 3, grid_w: 4, key: a },
        ]
    );
    for y in 0..4u8 {
        for x in 0..4u8 {
            let covering: Vec<_> = rects
                .iter()
                .filter(|r| {
                    (r.grid_y..r.grid_y + r.grid_h).contains(&y)
                        && (r.grid_x..r.grid_x + r.grid_w).contains(&x)
                })
                .collect();
            assert!(!covering.is_empty());
            for r in covering {
                assert_eq!(r.key, keys[usize::from(4 * y + x)]);
            }
        }
    }
}

#[test]
fn luma_quarter_positions_out_of_picture_use_edge_samples() {
    // A flat picture predicts flat at every fraction, even far outside it.
    let (buf, cfg) = create_test_plane(16, 16, 77);
    let plane = Plane { data: &buf, cfg };
    let mut buffer = InterpolationBuffer::new();
    for x in -3..4i16 {
        for y in -3..4i16 {
            let mut dst = [0u8; 64];
            let mv = MotionVector { x: -200 + x, y: 150 + y };
            interpolate_luma(plane, 0, 0, 4, 4, 8, 8, mv, &mut dst, 8, &mut buffer);
            assert_eq!(dst, [77u8; 64], "mv ({}, {})", mv.x, mv.y);
        }
    }
}

#[test]
fn luma_centre_half_sample_of_a_ramp() {
    // On a horizontal ramp of step 5 the vertical filter changes nothing,
    // and the half sample between 120 and 125 rounds up to 123.
    let cfg = test_plane_cfg(32, 32);
    let mut buf = vec![0u8; cfg.total_bytes()];
    for y in 0..cfg.alloc_height {
        for x in 0..cfg.stride {
            buf[y * cfg.stride + x] = u8::try_from((x * 5) % 256).expect("fits");
        }
    }
    let plane = Plane { data: &buf, cfg };
    let mut buffer = InterpolationBuffer::new();
    let mut dst = [0u8; 16];
    interpolate_luma(plane, 8, 8, 0, 0, 4, 4, MotionVector { x: 2, y: 2 }, &mut dst, 4, &mut buffer);
    // Visible column 8 is buffer column 24 (value 120); its right neighbour 125.
    assert_eq!(dst[0], 123);
}

#[test]
fn constant_plane_interpolates_to_its_value_everywhere() {
    let (buf, cfg) = create_test_plane(32, 32, 77);
    let plane = Plane { data: &buf, cfg };
    let mut buffer = InterpolationBuffer::new();
    assert!(buffer.data.iter().all(|&b| b == 0));
    for mv in [(1i16, 3i16), (-70, 2), (2, 2), (123, -90), (-3, 129)] {
        let mut dst = [5u8; 16 * 17];
        interpolate_luma(plane, 16, 16, 4, 0, 16, 16, MotionVector { x: mv.0, y: mv.1 }, &mut dst, 17, &mut buffer);
        for y in 0..16 {
            for x in 0..17 {
                assert_eq!(dst[y * 17 + x], if x < 16 { 77 } else { 5 });
            }
        }
    }
}

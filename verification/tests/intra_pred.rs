use lib::intra_pred::{fill_predicted_8x8, Intra_8x8_SamplePredMode, Surroundings8x8};
use lib::plane::{Plane, PlaneConfig, Point};

fn ctx_with(top: [u8; 16], left: [u8; 8], corner: u8) -> Surroundings8x8 {
    Surroundings8x8 {
        offset: Point::default(),
        p_top: top,
        p_left: left,
        p_corner: corner,
        top_available: true,
        left_available: true,
        corner_available: true,
    }
}

#[test]
fn mode_vertical_copies_top_row() {
    let mut top = [0u8; 16];
    for i in 0..16 {
        top[i] = (10 + i) as u8;
    }
    let ctx = ctx_with(top, [0; 8], 0);
    let mut pred = [[0u8; 8]; 8];
    fill_predicted_8x8(&mut pred, &ctx, Intra_8x8_SamplePredMode::Vertical);
    for y in 0..8 {
        for x in 0..8 {
            assert_eq!(pred[y][x], top[x], "(x={x}, y={y})");
        }
    }
}

#[test]
fn mode_horizontal_copies_left_column() {
    let left = [20u8, 21, 22, 23, 24, 25, 26, 27];
    let ctx = ctx_with([0; 16], left, 0);
    let mut pred = [[0u8; 8]; 8];
    fill_predicted_8x8(&mut pred, &ctx, Intra_8x8_SamplePredMode::Horizontal);
    for y in 0..8 {
        for x in 0..8 {
            assert_eq!(pred[y][x], left[y], "(x={x}, y={y})");
        }
    }
}

#[test]
fn mode_dc_all_available_averages_sixteen() {
    // Sum of 0..=7 = 28 (top) + 28 (left) = 56; (56 + 8) >> 4 = 4.
    let top = [0, 1, 2, 3, 4, 5, 6, 7, 0, 0, 0, 0, 0, 0, 0, 0];
    let left = [0, 1, 2, 3, 4, 5, 6, 7];
    let ctx = ctx_with(top, left, 0);
    let mut pred = [[0u8; 8]; 8];
    fill_predicted_8x8(&mut pred, &ctx, Intra_8x8_SamplePredMode::DC);
    for y in 0..8 {
        for x in 0..8 {
            assert_eq!(pred[y][x], 4);
        }
    }
}

#[test]
fn mode_dc_only_top() {
    let top = [10u8; 16];
    let mut ctx = ctx_with(top, [0; 8], 0);
    ctx.left_available = false;
    ctx.corner_available = false;
    let mut pred = [[0u8; 8]; 8];
    fill_predicted_8x8(&mut pred, &ctx, Intra_8x8_SamplePredMode::DC);
    // sum = 80, (80 + 4) >> 3 = 10.
    for row in pred {
        for v in row {
            assert_eq!(v, 10);
        }
    }
}

#[test]
fn mode_dc_only_left() {
    let left = [20u8; 8];
    let mut ctx = ctx_with([0; 16], left, 0);
    ctx.top_available = false;
    ctx.corner_available = false;
    let mut pred = [[0u8; 8]; 8];
    fill_predicted_8x8(&mut pred, &ctx, Intra_8x8_SamplePredMode::DC);
    for row in pred {
        for v in row {
            assert_eq!(v, 20);
        }
    }
}

#[test]
fn mode_dc_no_neighbors_is_128() {
    let mut ctx = ctx_with([0; 16], [0; 8], 0);
    ctx.top_available = false;
    ctx.left_available = false;
    ctx.corner_available = false;
    let mut pred = [[0u8; 8]; 8];
    fill_predicted_8x8(&mut pred, &ctx, Intra_8x8_SamplePredMode::DC);
    for row in pred {
        for v in row {
            assert_eq!(v, 128);
        }
    }
}

#[test]
fn flat_input_produces_flat_output_all_modes() {
    // If every reference sample is the same constant K, every prediction mode
    // must produce a block filled with K.
    const K: u8 = 42;
    let ctx = ctx_with([K; 16], [K; 8], K);

    let modes = [
        Intra_8x8_SamplePredMode::Vertical,
        Intra_8x8_SamplePredMode::Horizontal,
        Intra_8x8_SamplePredMode::DC,
        Intra_8x8_SamplePredMode::Diagonal_Down_Left,
        Intra_8x8_SamplePredMode::Diagonal_Down_Right,
        Intra_8x8_SamplePredMode::Vertical_Right,
        Intra_8x8_SamplePredMode::Horizontal_Down,
        Intra_8x8_SamplePredMode::Vertical_Left,
        Intra_8x8_SamplePredMode::Horizontal_Up,
    ];
    for mode in modes {
        let mut pred = [[0u8; 8]; 8];
        fill_predicted_8x8(&mut pred, &ctx, mode);
        for y in 0..8 {
            for x in 0..8 {
                assert_eq!(pred[y][x], K, "mode={mode:?} x={x} y={y}");
            }
        }
    }
}

#[test]
fn diagonal_down_left_top_right_corner_uses_edge_formula() {
    // Eq. 8-96: pred[7][7] = (t[14] + 3*t[15] + 2) >> 2.
    let mut top = [0u8; 16];
    top[14] = 0;
    top[15] = 100;
    let ctx = ctx_with(top, [0; 8], 0);
    let mut pred = [[0u8; 8]; 8];
    fill_predicted_8x8(&mut pred, &ctx, Intra_8x8_SamplePredMode::Diagonal_Down_Left);
    // (0 + 300 + 2) >> 2 = 75.
    assert_eq!(pred[7][7], 75);
}

#[test]
fn diagonal_modes_read_the_corner_next_to_the_diagonal() {
    let mut top = [0u8; 16];
    let mut left = [0u8; 8];
    for i in 0..16 {
        top[i] = (4 * i) as u8;
    }
    for i in 0..8 {
        left[i] = (100 + 4 * i) as u8;
    }
    let ctx = ctx_with(top, left, 50);
    let mut pred = [[0u8; 8]; 8];
    fill_predicted_8x8(&mut pred, &ctx, Intra_8x8_SamplePredMode::Diagonal_Down_Right);
    // Eq. 8-99: (t[0] + 2 * corner + l[0] + 2) >> 2 on the diagonal.
    assert_eq!(pred[3][3], ((0 + 100 + 100 + 2) / 4) as u8);
    // Eq. 8-97 at x - y = 1: (corner + 2 * t[0] + t[1] + 2) >> 2.
    assert_eq!(pred[0][1], ((50 + 0 + 4 + 2) / 4) as u8);
    // Eq. 8-98 at y - x = 2: (l[0] + 2 * l[1] + l[2] + 2) >> 2.
    assert_eq!(pred[2][0], ((100 + 208 + 108 + 2) / 4) as u8);
    fill_predicted_8x8(&mut pred, &ctx, Intra_8x8_SamplePredMode::Vertical_Left);
    // Eq. 8-108 at (1, 0): (t[1] + t[2] + 1) >> 1.
    assert_eq!(pred[0][1], 6);
    fill_predicted_8x8(&mut pred, &ctx, Intra_8x8_SamplePredMode::Horizontal_Up);
    // Eq. 8-113 past z = 13: l[7].
    assert_eq!(pred[7][7], 128);
}

#[test]
fn load_filters_the_reference_samples() {
    // A 16x16 plane with a border of 2, samples equal to 10 * row + column.
    let cfg = PlaneConfig { stride: 20, width: 16, height: 16, xorigin: 2, yorigin: 2, alloc_height: 20 };
    let mut data = vec![0u8; 20 * 20];
    for y in 0..20 {
        for x in 0..20 {
            data[y * 20 + x] = (10 * y + x) as u8;
        }
    }
    let plane = Plane { data: &data, cfg };
    let mut ctx = Surroundings8x8::default();
    ctx.load(&plane, Point { x: 8, y: 8 }, true, true, true, false);
    assert!(ctx.top_available && ctx.left_available && ctx.corner_available);
    // The raw samples above are 10 * 9 + 2 + 8.. = 100..107, then 107 repeated.
    let raw_top: Vec<u16> = (0..16).map(|i| 100 + i.min(7)).collect();
    let corner = 99u16;
    let raw_left: Vec<u16> = (0..8).map(|i| 10 * (i + 10) + 9).collect();
    // Eq. 8-79 with the corner, Eq. 8-80 inside, Eq. 8-81 at the end.
    assert_eq!(ctx.p_top[0] as u16, (corner + 2 * raw_top[0] + raw_top[1] + 2) / 4);
    assert_eq!(ctx.p_top[5] as u16, (raw_top[4] + 2 * raw_top[5] + raw_top[6] + 2) / 4);
    assert_eq!(ctx.p_top[15] as u16, (raw_top[14] + 3 * raw_top[15] + 2) / 4);
    assert_eq!(ctx.p_left[0] as u16, (corner + 2 * raw_left[0] + raw_left[1] + 2) / 4);
    assert_eq!(ctx.p_left[7] as u16, (raw_left[6] + 3 * raw_left[7] + 2) / 4);
    assert_eq!(ctx.p_corner as u16, (raw_top[0] + 2 * corner + raw_left[0] + 2) / 4);

    // On the first row nothing above is available.
    let mut ctx = Surroundings8x8::default();
    ctx.load(&plane, Point { x: 8, y: 0 }, true, true, true, true);
    assert!(!ctx.top_available && !ctx.corner_available && ctx.left_available);
    assert_eq!(ctx.p_top, [0; 16]);
    assert_eq!(ctx.p_corner, 0);
    // Without the corner, Eq. 8-86: (3 * p[-1, 0] + p[-1, 1] + 2) >> 2.
    assert_eq!(ctx.p_left[0] as u16, (3 * 29 + 39 + 2) / 4);
}

use lib::frame::{BorderedFrame, PlaneBuf};
use lib::intra_pred::{
    predict_16x16, predict_4x4, predict_chroma, render_chroma_intra_prediction,
    render_luma_16x16_intra_prediction, Block4x4, Intra_16x16_SamplePredMode,
    Intra_4x4_SamplePredMode, Surroundings4x4,
};
use lib::macroblock::Intra_Chroma_Pred_Mode;

#[test]
fn intra_4x4_modes_follow_equations_8_46_to_8_70() {
    // top_row: corner 50, then p[0..7, -1] = 10, 20, ..., 80; left: 50 and 15, 25, 35, 45.
    let ctx = Surroundings4x4 {
        offset: Point::default(),
        top_row: [50, 10, 20, 30, 40, 50, 60, 70, 80],
        left_column: [50, 15, 25, 35, 45],
    };
    let v = predict_4x4(&ctx, Intra_4x4_SamplePredMode::Vertical, true, true);
    assert_eq!(v[3], [10, 20, 30, 40]);
    let h = predict_4x4(&ctx, Intra_4x4_SamplePredMode::Horizontal, true, true);
    assert_eq!(h[2], [35; 4]);
    // (10 + 20 + 30 + 40 + 15 + 25 + 35 + 45 + 4) >> 3 = 28.
    assert_eq!(predict_4x4(&ctx, Intra_4x4_SamplePredMode::DC, true, true)[0][0], 28);
    assert_eq!(predict_4x4(&ctx, Intra_4x4_SamplePredMode::DC, false, true)[0][0], 25);
    assert_eq!(predict_4x4(&ctx, Intra_4x4_SamplePredMode::DC, false, false)[1][1], 128);
    let ddl = predict_4x4(&ctx, Intra_4x4_SamplePredMode::Diagonal_Down_Left, true, true);
    // (p[0] + 2 p[1] + p[2] + 2) >> 2 and (p[6] + 3 p[7] + 2) >> 2.
    assert_eq!(ddl[0][0], 20);
    assert_eq!(ddl[3][3], 78);
    let ddr = predict_4x4(&ctx, Intra_4x4_SamplePredMode::Diagonal_Down_Right, true, true);
    // (p[0, -1] + 2 p[-1, -1] + p[-1, 0] + 2) >> 2 on the diagonal.
    assert_eq!(ddr[1][1], (10 + 100 + 15 + 2) / 4);
    let hu = predict_4x4(&ctx, Intra_4x4_SamplePredMode::Horizontal_Up, true, true);
    assert_eq!(hu[3][3], 45);
    assert_eq!(hu[0][0], 20);
}

#[test]
fn intra_16x16_plane_mode_ramps() {
    // A ramp: p[x, -1] = 10 + 4x, p[-1, y] = 10 + 2y, corner 8.
    let mut top = [0u8; 17];
    let mut left = [0u8; 17];
    top[0] = 8;
    left[0] = 8;
    for i in 0..16 {
        top[1 + i] = (10 + 4 * i) as u8;
        left[1 + i] = (10 + 2 * i) as u8;
    }
    let pred = predict_16x16(&top, &left, Intra_16x16_SamplePredMode::Intra_16x16_Plane, true, true);
    // H = sum i * (top[8 + i] - top[8 - i]) = 4 * 2 * (1 + ... + 7) + 8 * (70 - 8) = 448 + 496.
    let h: i32 = (1..=8).map(|i| i * (top[8 + i as usize] as i32 - top[8 - i as usize] as i32)).sum();
    let v: i32 = (1..=8).map(|i| i * (left[8 + i as usize] as i32 - left[8 - i as usize] as i32)).sum();
    let a = 16 * (top[16] as i32 + left[16] as i32);
    let b = (5 * h + 32) >> 6;
    let c = (5 * v + 32) >> 6;
    for y in 0..16 {
        for x in 0..16 {
            let want = ((a + b * (x - 7) + c * (y - 7) + 16) >> 5).clamp(0, 255) as u8;
            assert_eq!(pred[y as usize][x as usize], want, "({x}, {y})");
        }
    }
    let dc = predict_16x16(&top, &left, Intra_16x16_SamplePredMode::Intra_16x16_DC, true, false);
    let s: u32 = left[1..].iter().map(|&v| v as u32).sum();
    assert_eq!(dc[5][9] as u32, (s + 8) >> 4);
}

#[test]
fn chroma_dc_uses_the_neighbours_of_each_block() {
    let mut top = [0u8; 9];
    let mut left = [0u8; 9];
    for i in 0..4 {
        top[1 + i] = 20;
        top[5 + i] = 60;
        left[1 + i] = 40;
        left[5 + i] = 100;
    }
    let pred = predict_chroma(&top, &left, Intra_Chroma_Pred_Mode::DC, true, true);
    assert_eq!(pred[0][0], 30); // (4 * 20 + 4 * 40 + 4) >> 3
    assert_eq!(pred[0][7], 60); // above-right block takes its top
    assert_eq!(pred[7][0], 100); // below-left block takes its left
    assert_eq!(pred[7][7], 80); // (4 * 100 + 4 * 60 + 4) >> 3
    let only_left = predict_chroma(&top, &left, Intra_Chroma_Pred_Mode::DC, true, false);
    assert_eq!(only_left[0][7], 40);
    let plane = predict_chroma(&[50; 9], &[50; 9], Intra_Chroma_Pred_Mode::Plane, true, true);
    assert_eq!(plane, [[50; 8]; 8]);
}

fn filled_frame() -> BorderedFrame {
    let mut f = BorderedFrame::alloc_4_2_0(32, 32).expect("alloc");
    for p in [&mut f.luma, &mut f.chroma_cb] {
        let n = p.data.len();
        for (i, v) in p.data.iter_mut().enumerate() {
            *v = (i * 7 % 251) as u8;
        }
        assert_eq!(p.data.len(), n);
    }
    f
}

fn at(p: &PlaneBuf, x: usize, y: usize) -> u8 {
    p.data[(p.cfg.yorigin + y) * p.cfg.stride + p.cfg.xorigin + x]
}

#[test]
fn render_16x16_vertical_copies_the_row_above_and_adds_residuals() {
    let mut f = filled_frame();
    let above: Vec<u8> = (0..16).map(|x| at(&f.luma, 16 + x, 15)).collect();
    let mut res = [Block4x4::default(); 16];
    res[3].samples[1][2] = 5; // block 3 sits at (4, 4) of the macroblock
    render_luma_16x16_intra_prediction(
        true,
        true,
        Point { x: 16, y: 16 },
        &mut f.luma,
        Intra_16x16_SamplePredMode::Intra_16x16_Vertical,
        &res,
    );
    for y in 0..16 {
        for x in 0..16 {
            let want = if (x, y) == (6, 5) { (above[x] as i32 + 5).min(255) as u8 } else { above[x] };
            assert_eq!(at(&f.luma, 16 + x, 16 + y), want, "({x}, {y})");
        }
    }
    // Outside the macroblock nothing moved.
    assert_eq!(at(&f.luma, 15, 16), filled_frame().luma.data[(16 + 16) * f.luma.cfg.stride + 16 + 15]);
}

#[test]
fn render_chroma_horizontal_copies_the_column_left() {
    let mut f = filled_frame();
    let left: Vec<u8> = (0..8).map(|y| at(&f.chroma_cb, 7, 8 + y)).collect();
    render_chroma_intra_prediction(
        true,
        false,
        Point { x: 16, y: 16 },
        &mut f.chroma_cb,
        Intra_Chroma_Pred_Mode::Horizontal,
        &[],
    );
    for y in 0..8 {
        for x in 0..8 {
            assert_eq!(at(&f.chroma_cb, 8 + x, 8 + y), left[y]);
        }
    }
}

use lib::intra_pred::{render_luma_4x4_intra_prediction, render_luma_8x8_intra_prediction};

#[test]
fn render_4x4_dc_without_neighbours_spreads_the_first_block() {
    let mut f = filled_frame();
    let mut res = [Block4x4::default(); 1];
    res[0].samples = [[10; 4]; 4];
    render_luma_4x4_intra_prediction(
        false,
        false,
        false,
        Point { x: 0, y: 0 },
        &mut f.luma,
        &[Intra_4x4_SamplePredMode::DC; 16],
        &res,
    );
    // Block 0 is 128 + 10; every later block averages the samples of the
    // blocks before it, so the whole macroblock is 138.
    for y in 0..16 {
        for x in 0..16 {
            assert_eq!(at(&f.luma, x, y), 138, "({x}, {y})");
        }
    }
}

#[test]
fn render_4x4_vertical_copies_the_row_above_down_the_macroblock() {
    let mut f = filled_frame();
    let above: Vec<u8> = (0..16).map(|x| at(&f.luma, 16 + x, 15)).collect();
    let before_right = at(&f.luma, 32, 16);
    render_luma_4x4_intra_prediction(
        true,
        true,
        true,
        Point { x: 16, y: 16 },
        &mut f.luma,
        &[Intra_4x4_SamplePredMode::Vertical; 16],
        &[],
    );
    for y in 0..16 {
        for x in 0..16 {
            assert_eq!(at(&f.luma, 16 + x, 16 + y), above[x], "({x}, {y})");
        }
    }
    assert_eq!(at(&f.luma, 32, 16), before_right);
}

#[test]
fn render_4x4_horizontal_reads_the_blocks_already_written() {
    let mut f = filled_frame();
    let left: Vec<u8> = (0..16).map(|y| at(&f.luma, 15, 16 + y)).collect();
    let mut res = [Block4x4::default(); 16];
    // Block 0 adds 1 to its last column, which block 1 then copies on.
    for y in 0..4 {
        res[0].samples[y][3] = 1;
    }
    render_luma_4x4_intra_prediction(
        true,
        true,
        true,
        Point { x: 16, y: 16 },
        &mut f.luma,
        &[Intra_4x4_SamplePredMode::Horizontal; 16],
        &res,
    );
    for y in 0..4 {
        let want = (left[y] as u32 + 1).min(255) as u8;
        assert_eq!(at(&f.luma, 16 + 3, 16 + y), want);
        assert_eq!(at(&f.luma, 16 + 4, 16 + y), want);
        assert_eq!(at(&f.luma, 16 + 15, 16 + y), want);
        assert_eq!(at(&f.luma, 16 + 2, 16 + y), left[y]);
    }
    for y in 4..16 {
        assert_eq!(at(&f.luma, 16 + 9, 16 + y), left[y]);
    }
}

#[test]
fn render_8x8_dc_without_neighbours_is_flat() {
    let mut f = filled_frame();
    render_luma_8x8_intra_prediction(
        false,
        false,
        false,
        false,
        Point { x: 0, y: 0 },
        &mut f.luma,
        &[Intra_8x8_SamplePredMode::DC; 4],
        &[],
    );
    for y in 0..16 {
        for x in 0..16 {
            assert_eq!(at(&f.luma, x, y), 128, "({x}, {y})");
        }
    }
}

#[test]
fn render_8x8_vertical_adds_the_residuals_of_each_4x4() {
    // Flat samples above and left give a flat prediction, filtering
    // included; 4x4 block 5 (second 8x8, its top-right 4x4) adds 3.
    let mut f = filled_frame();
    for x in 0..40 {
        let i = (f.luma.cfg.yorigin + 15) * f.luma.cfg.stride + f.luma.cfg.xorigin + x;
        f.luma.data[i] = 90;
    }
    for y in 15..32 {
        let i = (f.luma.cfg.yorigin + y) * f.luma.cfg.stride + f.luma.cfg.xorigin + 15;
        f.luma.data[i] = 90;
    }
    let mut res = [Block4x4::default(); 16];
    res[5].samples = [[3; 4]; 4];
    render_luma_8x8_intra_prediction(
        true,
        true,
        true,
        true,
        Point { x: 16, y: 16 },
        &mut f.luma,
        &[Intra_8x8_SamplePredMode::Vertical; 4],
        &res,
    );
    for y in 0..16 {
        for x in 0..16 {
            let want = if (12..16).contains(&x) && y < 4 { 93 } else { 90 };
            assert_eq!(at(&f.luma, 16 + x, 16 + y), want, "({x}, {y})");
        }
    }
}

use lib::plane::{point_to_plane_offset, ColorPlane};

#[test]
fn surroundings_give_the_four_samples_above_and_left() {
    let ctx = Surroundings4x4 {
        offset: Point::default(),
        top_row: [50, 10, 20, 30, 40, 50, 60, 70, 80],
        left_column: [50, 15, 25, 35, 45],
    };
    assert_eq!(ctx.top4(), [10, 20, 30, 40]);
    assert_eq!(ctx.left4(), [15, 25, 35, 45]);
}

#[test]
fn plane_offsets_keep_the_point() {
    let o = point_to_plane_offset(Point { x: 48, y: 16 });
    assert_eq!((o.x, o.y), (48, 16));
}

#[test]
fn writes_through_plane_mut_reach_only_that_plane() {
    let mut frame = BorderedFrame::alloc_4_2_0(32, 32).expect("alloc");
    let cfg = frame.plane(ColorPlane::Cb).cfg;
    let i = cfg.index(3, 2);
    frame.plane_mut(ColorPlane::Cb).data[i] = 7;
    assert_eq!(frame.plane(ColorPlane::Cb).at(3, 2), 7);
    assert_eq!(frame.plane(ColorPlane::Cr).at(3, 2), 0);
}

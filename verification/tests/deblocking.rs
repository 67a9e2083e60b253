use lib::deblocking::{
    blocks_across, compute_bs_arrays, mb_neighbors, segment_bs, segment_strengths,
    should_filter_edge, BlockInfo, DeblockRecords, MbDeblockInfo, RefPictureIds, SliceRefIds,
    BS_CODED, BS_INTRA, BS_MOTION, BS_NONE, BS_STRONG, INTRA, L1_EMPTY, NOT_DECODED,
    NO_INTERNAL_EDGES, TRANSFORM_8X8,
};
use lib::deblocking::{filter_picture, PictureDeblockInput};
use lib::decoder::{get_chroma_qp, DeblockingFilterIdc, SliceDeblockParams};
use lib::frame::{round_up, BorderedFrame, PlaneBuf, BORDER_PX};
use lib::plane::ColorPlane;
use lib::macroblock::{
    scan_4x4, BMb, BMbType, CodedBlockPattern, IMb, IMbType, LumaLevel8x8, LumaResidual,
    Macroblock, MbMotion, MotionVector, PMb, PMbType, PartitionInfo, PcmMb, Residual,
};
use lib::params::PicParameterSet;

/// A 4x2 picture (8 MBs in raster order):
///
/// ```text
///   +---+---+---+---+
///   | 0 | 1 | 2 | 3 |
///   +---+---+---+---+
///   | 4 | 5 | 6 | 7 |
///   +---+---+---+---+
/// ```
const W: usize = 4;
const H: usize = 2;

/// The neighbour across the left (A) or top (B) edge of a macroblock.
#[derive(Clone, Copy, Debug, PartialEq, Eq)]
enum MbNeighborName {
    A,
    B,
}

fn dummy_mbs() -> Vec<Option<Macroblock>> {
    (0..W * H).map(|_| Some(Macroblock::I(IMb::default()))).collect()
}

fn deblock(idc: DeblockingFilterIdc) -> SliceDeblockParams {
    SliceDeblockParams { idc, alpha_c0_offset_div2: 0, beta_offset_div2: 0 }
}

/// A decoded picture as the decoder holds it while its slices arrive.
struct TestPicture<'a> {
    pps: &'a PicParameterSet,
    macroblocks: &'a [Option<Macroblock>],
    mb_slice_id: &'a [u16],
    slice_deblock: &'a [SliceDeblockParams],
    slice_ref_pocs: &'a [(Vec<i32>, Vec<i32>)],
    pic_width_in_mbs: usize,
    pic_height_in_mbs: usize,
}

/// Gathers the records of `picture` into `records` as the decoder does:
/// macroblocks in raster order, the slice started when it changes.
fn gather(picture: &TestPicture, records: &mut DeblockRecords) -> Vec<MbDeblockInfo> {
    let pic_size = picture.pic_width_in_mbs * picture.pic_height_in_mbs;
    records.start_picture(pic_size, picture.pps);
    let mut slice = None;
    for (mb_addr, mb) in picture.macroblocks.iter().enumerate().take(pic_size) {
        let Some(mb) = mb else { continue };
        let slice_id = picture.mb_slice_id[mb_addr];
        if slice != Some(slice_id) {
            let (l0, l1) = &picture.slice_ref_pocs[usize::from(slice_id)];
            records.start_slice(slice_id, l0, l1);
            slice = Some(slice_id);
        }
        records.record(mb_addr, mb);
    }
    records.records().to_vec()
}

fn build_records(picture: &TestPicture) -> Vec<MbDeblockInfo> {
    gather(picture, &mut DeblockRecords::default())
}

fn make_input<'a>(
    pps: &'a PicParameterSet,
    macroblocks: &'a [Option<Macroblock>],
    mb_slice_id: &'a [u16],
    slice_deblock: &'a [SliceDeblockParams],
    slice_ref_pocs: &'a [(Vec<i32>, Vec<i32>)],
) -> TestPicture<'a> {
    TestPicture {
        pps,
        macroblocks,
        mb_slice_id,
        slice_deblock,
        slice_ref_pocs,
        pic_width_in_mbs: W,
        pic_height_in_mbs: H,
    }
}

/// Whether the left (A) or top (B) edge of macroblock `mb_addr` is
/// filtered: the neighbour lookup and `should_filter_edge`.
fn edge_filtered(input: &TestPicture, mb_addr: usize, neighbor: MbNeighborName) -> bool {
    let records = build_records(input);
    let width = input.pic_width_in_mbs;
    let (left, top) = mb_neighbors(&records, width, mb_addr % width, mb_addr / width);
    let p = match neighbor {
        MbNeighborName::A => left,
        MbNeighborName::B => top,
    };
    let q = &records[mb_addr];
    let idc = input.slice_deblock[usize::from(q.slice_id)].idc;
    p.is_some_and(|p| should_filter_edge(idc, q, p))
}

#[test]
fn picture_boundary_edges_never_filtered() {
    let pps = PicParameterSet::default();
    let mbs = dummy_mbs();
    let mb_slice_id = vec![0u16; W * H];
    let slice_deblock = [deblock(DeblockingFilterIdc::On)];
    let slice_ref_pocs = [(vec![], vec![])];
    let input = make_input(&pps, &mbs, &mb_slice_id, &slice_deblock, &slice_ref_pocs);

    // MB 0 is at the top-left corner -- both A (left) and B (top) are out of picture.
    assert!(!edge_filtered(&input, 0, MbNeighborName::A));
    assert!(!edge_filtered(&input, 0, MbNeighborName::B));
    // MB 4 is at the left edge -- A is out of picture.
    assert!(!edge_filtered(&input, 4, MbNeighborName::A));
    // MB 3 is at the top edge -- B is out of picture.
    assert!(!edge_filtered(&input, 3, MbNeighborName::B));
}

#[test]
fn single_slice_idc_on_filters_internal_edges() {
    let pps = PicParameterSet::default();
    let mbs = dummy_mbs();
    let mb_slice_id = vec![0u16; W * H];
    let slice_deblock = [deblock(DeblockingFilterIdc::On)];
    let slice_ref_pocs = [(vec![], vec![])];
    let input = make_input(&pps, &mbs, &mb_slice_id, &slice_deblock, &slice_ref_pocs);

    // MB 5 has both an A (MB 4) and B (MB 1) neighbor inside the picture.
    assert!(edge_filtered(&input, 5, MbNeighborName::A));
    assert!(edge_filtered(&input, 5, MbNeighborName::B));
}

#[test]
fn single_slice_idc_off_filters_nothing() {
    let pps = PicParameterSet::default();
    let mbs = dummy_mbs();
    let mb_slice_id = vec![0u16; W * H];
    let slice_deblock = [deblock(DeblockingFilterIdc::Off)];
    let slice_ref_pocs = [(vec![], vec![])];
    let input = make_input(&pps, &mbs, &mb_slice_id, &slice_deblock, &slice_ref_pocs);

    assert!(!edge_filtered(&input, 5, MbNeighborName::A));
    assert!(!edge_filtered(&input, 5, MbNeighborName::B));
}

#[test]
fn single_slice_idc_2_behaves_like_idc_on() {
    // OnExceptSliceBounds with one slice has no slice boundaries to skip,
    // so it should filter every internal edge identically to On.
    let pps = PicParameterSet::default();
    let mbs = dummy_mbs();
    let mb_slice_id = vec![0u16; W * H];
    let slice_deblock = [deblock(DeblockingFilterIdc::OnExceptSliceBounds)];
    let slice_ref_pocs = [(vec![], vec![])];
    let input = make_input(&pps, &mbs, &mb_slice_id, &slice_deblock, &slice_ref_pocs);

    assert!(edge_filtered(&input, 5, MbNeighborName::A));
    assert!(edge_filtered(&input, 5, MbNeighborName::B));
}

#[test]
fn two_slices_idc_on_still_filters_cross_slice_edges() {
    // disable_deblocking_filter_idc=0 (On): cross-slice edges DO filter.
    let pps = PicParameterSet::default();
    let mbs = dummy_mbs();
    // Top row -> slice 0, bottom row -> slice 1.
    let mb_slice_id = vec![0, 0, 0, 0, 1, 1, 1, 1];
    let slice_deblock = [deblock(DeblockingFilterIdc::On), deblock(DeblockingFilterIdc::On)];
    let slice_ref_pocs = [(vec![], vec![]), (vec![], vec![])];
    let input = make_input(&pps, &mbs, &mb_slice_id, &slice_deblock, &slice_ref_pocs);

    // MB 5 is in slice 1; its B neighbor is MB 1 (slice 0) -- cross-slice.
    // Still filtered because idc=On disregards slice boundaries.
    assert!(edge_filtered(&input, 5, MbNeighborName::B));
    // MB 5's A neighbor is MB 4 (slice 1) -- same slice, also filtered.
    assert!(edge_filtered(&input, 5, MbNeighborName::A));
}

#[test]
fn two_slices_idc_2_suppresses_cross_slice_edges() {
    // disable_deblocking_filter_idc=2: cross-slice edges suppressed,
    // intra-slice edges filtered.
    let pps = PicParameterSet::default();
    let mbs = dummy_mbs();
    let mb_slice_id = vec![0, 0, 0, 0, 1, 1, 1, 1];
    let slice_deblock = [
        deblock(DeblockingFilterIdc::OnExceptSliceBounds),
        deblock(DeblockingFilterIdc::OnExceptSliceBounds),
    ];
    let slice_ref_pocs = [(vec![], vec![]), (vec![], vec![])];
    let input = make_input(&pps, &mbs, &mb_slice_id, &slice_deblock, &slice_ref_pocs);

    // MB 4: B neighbor is MB 0 (slice 0) -- cross-slice -> suppressed.
    assert!(!edge_filtered(&input, 4, MbNeighborName::B));
    // MB 5: B neighbor is MB 1 (slice 0) -- cross-slice -> suppressed.
    assert!(!edge_filtered(&input, 5, MbNeighborName::B));
    // MB 5: A neighbor is MB 4 (slice 1) -- same slice -> filtered.
    assert!(edge_filtered(&input, 5, MbNeighborName::A));
    // MB 1: A neighbor is MB 0 (slice 0) -- same slice -> filtered.
    assert!(edge_filtered(&input, 1, MbNeighborName::A));
}

#[test]
fn two_slices_with_mixed_idcs_uses_q_block_idc() {
    // The deblock IDC for an edge is taken from the slice containing the
    // q-block (lower/right MB).
    let pps = PicParameterSet::default();
    let mbs = dummy_mbs();
    let mb_slice_id = vec![0, 0, 0, 0, 1, 1, 1, 1];
    let slice_deblock = [deblock(DeblockingFilterIdc::Off), deblock(DeblockingFilterIdc::On)];
    let slice_ref_pocs = [(vec![], vec![]), (vec![], vec![])];
    let input = make_input(&pps, &mbs, &mb_slice_id, &slice_deblock, &slice_ref_pocs);

    // q = MB 5 (slice 1, idc=On) -> edges filter regardless of p's slice.
    assert!(edge_filtered(&input, 5, MbNeighborName::A));
    assert!(edge_filtered(&input, 5, MbNeighborName::B));
    // q = MB 1 (slice 0, idc=Off) -> no filtering.
    assert!(!edge_filtered(&input, 1, MbNeighborName::A));
}

#[test]
fn edges_next_to_undecoded_macroblocks_are_not_filtered() {
    let pps = PicParameterSet::default();
    let mut mbs = dummy_mbs();
    mbs[4] = None;
    let mb_slice_id = vec![0, 0, 0, 0, u16::MAX, 0, 0, 0];
    let slice_deblock = [deblock(DeblockingFilterIdc::On)];
    let slice_ref_pocs = [(vec![], vec![])];
    let input = make_input(&pps, &mbs, &mb_slice_id, &slice_deblock, &slice_ref_pocs);

    assert!(build_records(&input)[4].is(NOT_DECODED));
    // MB 5's left neighbour was never decoded.
    assert!(!edge_filtered(&input, 5, MbNeighborName::A));
    assert!(edge_filtered(&input, 5, MbNeighborName::B));
}

/// The boundary-strength derivation straight from the macroblocks and the
/// per-slice POC lists, for every edge segment: the reference that the
/// record-based derivation must match exactly.
fn reference_compute_bs_arrays(
    input: &TestPicture,
    mb: &Macroblock,
    q_slice_id: u16,
    left: Option<(&Macroblock, u16)>,
    top: Option<(&Macroblock, u16)>,
    transform_8x8: bool,
) -> ([[u8; 4]; 4], [[u8; 4]; 4]) {
    let ref_pocs = |slice_id: u16| {
        let (l0, l1) = &input.slice_ref_pocs[slice_id as usize];
        (l0.as_slice(), l1.as_slice())
    };
    let mut bs_vert = [[BS_NONE; 4]; 4];
    let mut bs_horz = [[BS_NONE; 4]; 4];
    let q_intra = mb.is_intra();

    let (q_l0, q_l1) = ref_pocs(q_slice_id);

    if let Some((p_mb, p_slice_id)) = left {
        if q_intra || p_mb.is_intra() {
            bs_vert[0] = [BS_STRONG; 4];
        } else {
            let (p_l0, p_l1) = ref_pocs(p_slice_id);
            for b in 0..4 {
                bs_vert[0][b] = reference_get_bs(mb, p_mb, q_l0, q_l1, p_l0, p_l1, 0, b, true);
            }
        }
    }
    if let Some((p_mb, p_slice_id)) = top {
        if q_intra || p_mb.is_intra() {
            bs_horz[0] = [BS_STRONG; 4];
        } else {
            let (p_l0, p_l1) = ref_pocs(p_slice_id);
            for b in 0..4 {
                bs_horz[0][b] = reference_get_bs(mb, p_mb, q_l0, q_l1, p_l0, p_l1, 0, b, false);
            }
        }
    }

    if q_intra {
        if !transform_8x8 {
            for edge in 1..4 {
                bs_vert[edge] = [BS_INTRA; 4];
                bs_horz[edge] = [BS_INTRA; 4];
            }
        } else {
            bs_vert[2] = [BS_INTRA; 4];
            bs_horz[2] = [BS_INTRA; 4];
        }
    } else if !reference_has_no_internal_edges(mb) {
        if !transform_8x8 {
            for edge in 1..4 {
                for b in 0..4 {
                    bs_vert[edge][b] = reference_get_bs(mb, mb, q_l0, q_l1, q_l0, q_l1, edge, b, true);
                    bs_horz[edge][b] = reference_get_bs(mb, mb, q_l0, q_l1, q_l0, q_l1, edge, b, false);
                }
            }
        } else {
            for b in 0..4 {
                bs_vert[2][b] = reference_get_bs(mb, mb, q_l0, q_l1, q_l0, q_l1, 2, b, true);
                bs_horz[2][b] = reference_get_bs(mb, mb, q_l0, q_l1, q_l0, q_l1, 2, b, false);
            }
        }
    }

    (bs_vert, bs_horz)
}

fn reference_has_no_internal_edges(mb: &Macroblock) -> bool {
    if mb.get_coded_block_pattern().luma() != 0 {
        return false;
    }
    match mb {
        Macroblock::P(m) => m.mb_type.num_mb_part() == 1,
        Macroblock::B(m) => m.mb_type.num_mb_part() == 1,
        _ => false,
    }
}

fn has_nonzero_coeffs(mb: &Macroblock, blk_idx: usize) -> bool {
    let Some(res) = mb.get_residual() else { return false };
    match &res.luma {
        LumaResidual::Intra16x16 { dc, ac_nc, .. } => ac_nc[blk_idx] != 0 || dc[blk_idx] != 0,
        LumaResidual::Block8x8 { .. } => {
            let i8x8 = blk_idx / 4;
            res.coded_block_pattern.luma() & (1 << i8x8) != 0
        }
        LumaResidual::Block4x4 { nc, .. } => nc[blk_idx] != 0,
        LumaResidual::Empty => false,
    }
}

fn get_partition(mb: &Macroblock, y: usize, x: usize) -> Option<PartitionInfo> {
    match mb {
        Macroblock::P(m) => Some(m.motion.partitions[y][x]),
        Macroblock::B(m) => Some(m.motion.partitions[y][x]),
        _ => None,
    }
}

/// (q_y, q_x, p_y, p_x) of segment `block_idx` of edge `edge_idx`; for
/// edge 0 the p block is in row or column 3 of the neighbouring MB.
fn edge_block_coords(edge_idx: usize, block_idx: usize, is_vertical: bool) -> (usize, usize, usize, usize) {
    let p = if edge_idx == 0 { 3 } else { edge_idx - 1 };
    if is_vertical {
        (block_idx, edge_idx, block_idx, p)
    } else {
        (edge_idx, block_idx, p, block_idx)
    }
}

#[allow(clippy::too_many_arguments)]
fn reference_get_bs(
    mb_q: &Macroblock,
    mb_p: &Macroblock,
    q_l0_pocs: &[i32],
    q_l1_pocs: &[i32],
    p_l0_pocs: &[i32],
    p_l1_pocs: &[i32],
    edge_idx: usize,
    block_idx: usize,
    is_vertical: bool,
) -> u8 {
    let (q_y, q_x, p_y, p_x) = edge_block_coords(edge_idx, block_idx, is_vertical);

    if mb_p.is_intra() || mb_q.is_intra() {
        if edge_idx == 0 {
            return BS_STRONG;
        }
        return BS_INTRA;
    }

    let blk_q_idx = scan_4x4(q_y, q_x);
    let blk_p_idx = scan_4x4(p_y, p_x);

    if has_nonzero_coeffs(mb_p, blk_p_idx) || has_nonzero_coeffs(mb_q, blk_q_idx) {
        return BS_CODED;
    }

    let p_part = get_partition(mb_p, p_y, p_x);
    let q_part = get_partition(mb_q, q_y, q_x);

    match (p_part, q_part) {
        (Some(pp), Some(qq)) => {
            if q_l1_pocs.is_empty() {
                let ref_p_l0 = p_l0_pocs.get(pp.ref_idx_l0 as usize).copied();
                let ref_q_l0 = q_l0_pocs.get(qq.ref_idx_l0 as usize).copied();
                if ref_p_l0 != ref_q_l0 {
                    return BS_MOTION;
                }
                let mv_diff_x = (pp.mv_l0.x as i32 - qq.mv_l0.x as i32).abs();
                let mv_diff_y = (pp.mv_l0.y as i32 - qq.mv_l0.y as i32).abs();
                if mv_diff_x >= 4 || mv_diff_y >= 4 {
                    return BS_MOTION;
                }
                return BS_NONE;
            }

            let ref_p_l0 = p_l0_pocs.get(pp.ref_idx_l0 as usize).copied();
            let ref_q_l0 = q_l0_pocs.get(qq.ref_idx_l0 as usize).copied();
            let ref_p_l1 = p_l1_pocs.get(pp.ref_idx_l1 as usize).copied();
            let ref_q_l1 = q_l1_pocs.get(qq.ref_idx_l1 as usize).copied();

            let direct_match = ref_p_l0 == ref_q_l0
                && ref_p_l1 == ref_q_l1
                && (pp.mv_l0.x as i32 - qq.mv_l0.x as i32).abs() < 4
                && (pp.mv_l0.y as i32 - qq.mv_l0.y as i32).abs() < 4
                && (pp.mv_l1.x as i32 - qq.mv_l1.x as i32).abs() < 4
                && (pp.mv_l1.y as i32 - qq.mv_l1.y as i32).abs() < 4;

            let swap_match = ref_p_l0 == ref_q_l1
                && ref_p_l1 == ref_q_l0
                && (pp.mv_l0.x as i32 - qq.mv_l1.x as i32).abs() < 4
                && (pp.mv_l0.y as i32 - qq.mv_l1.y as i32).abs() < 4
                && (pp.mv_l1.x as i32 - qq.mv_l0.x as i32).abs() < 4
                && (pp.mv_l1.y as i32 - qq.mv_l0.y as i32).abs() < 4;

            if direct_match || swap_match {
                BS_NONE
            } else {
                BS_MOTION
            }
        }
        (Some(_), None) | (None, Some(_)) => BS_MOTION,
        (None, None) => BS_NONE,
    }
}

/// Deterministic generator for the randomized tests (`SplitMix64`).
struct Rng(u64);

impl Rng {
    fn next(&mut self) -> u64 {
        self.0 = self.0.wrapping_add(0x9E37_79B9_7F4A_7C15);
        let mut z = self.0;
        z = (z ^ (z >> 30)).wrapping_mul(0xBF58_476D_1CE4_E5B9);
        z = (z ^ (z >> 27)).wrapping_mul(0x94D0_49BB_1331_11EB);
        z ^ (z >> 31)
    }

    /// A number in `0..n`, as a `T`.
    fn below<T: TryFrom<u64>>(&mut self, n: u64) -> T
    where
        T::Error: std::fmt::Debug,
    {
        T::try_from(self.next() % n).expect("fits")
    }

    fn pick<T: Copy>(&mut self, items: &[T]) -> T {
        items[self.below::<usize>(items.len() as u64)]
    }
}

fn random_partition(rng: &mut Rng) -> PartitionInfo {
    // In-range indices, indices past the end of the test lists, and the
    // unused-list marker.
    const REF_IDX: [u8; 6] = [0, 1, 2, 3, 5, u8::MAX];
    let mut mv = || MotionVector { x: rng.below::<i16>(17) - 8, y: rng.below::<i16>(17) - 8 };
    let (mv_l0, mv_l1) = (mv(), mv());
    PartitionInfo {
        ref_idx_l0: rng.pick(&REF_IDX),
        ref_idx_l1: rng.pick(&REF_IDX),
        mv_l0,
        mv_l1,
        ..PartitionInfo::default()
    }
}

/// A motion field that is uniform, uniform per 8x8, a small perturbation
/// of one partition, or random per 4x4, so that equal and nearly equal
/// neighbours are common.
fn random_motion(rng: &mut Rng) -> MbMotion {
    let mut motion = MbMotion::default();
    match rng.below::<u8>(4) {
        0 => {
            let part = random_partition(rng);
            motion.partitions = [[part; 4]; 4];
        }
        1 => {
            for quadrant in 0..4 {
                let part = random_partition(rng);
                for blk in 0..4 {
                    let (row, col) = (quadrant / 2 * 2 + blk / 2, quadrant % 2 * 2 + blk % 2);
                    motion.partitions[row][col] = part;
                }
            }
        }
        2 => {
            let part = random_partition(rng);
            for row in &mut motion.partitions {
                for blk in row {
                    *blk = part;
                    blk.mv_l0.x += rng.below::<i16>(9) - 4;
                    blk.mv_l1.y += rng.below::<i16>(9) - 4;
                    if rng.below::<u8>(8) == 0 {
                        blk.ref_idx_l1 = random_partition(rng).ref_idx_l1;
                    }
                }
            }
        }
        _ => {
            for row in &mut motion.partitions {
                for blk in row {
                    *blk = random_partition(rng);
                }
            }
        }
    }
    motion
}

fn random_residual(rng: &mut Rng) -> Option<Box<Residual>> {
    let mut residual = Box::new(Residual {
        coded_block_pattern: CodedBlockPattern(rng.below(64)),
        ..Residual::default()
    });
    match rng.below::<u8>(5) {
        0 => return None,
        1 => {}
        2 | 3 => {
            let mut nc = [0u8; 16];
            for n in &mut nc {
                if rng.below::<u8>(3) == 0 {
                    *n = rng.below::<u8>(16) + 1;
                }
            }
            residual.luma = LumaResidual::Block4x4 { levels: [[0; 16]; 16], nc };
        }
        _ => {
            residual.luma =
                LumaResidual::Block8x8 { levels: [LumaLevel8x8::default(); 4], nc: [0; 16] };
        }
    }
    Some(residual)
}

fn random_mb(rng: &mut Rng) -> Macroblock {
    const P_TYPES: [PMbType; 6] = [
        PMbType::P_L0_16x16,
        PMbType::P_L0_L0_16x8,
        PMbType::P_L0_L0_8x16,
        PMbType::P_8x8,
        PMbType::P_8x8ref0,
        PMbType::P_Skip,
    ];
    let qp = rng.below(52);
    // Coded luma is left out half of the time, which enables the
    // single-partition no-internal-edges fast path.
    let cbp = if rng.below::<u8>(2) == 0 { rng.below::<u8>(4) << 4 } else { rng.below(64) };
    let coded_block_pattern = CodedBlockPattern(cbp);
    let transform_size_8x8_flag = rng.below::<u8>(3) == 0;
    match rng.below::<u8>(10) {
        0 => Macroblock::I(IMb {
            mb_type: IMbType::from_value(rng.below::<u32>(25)).expect("I mb_type"),
            transform_size_8x8_flag,
            coded_block_pattern,
            qp,
            residual: random_residual(rng),
            ..IMb::default()
        }),
        1 => Macroblock::PCM(PcmMb { qp, ..PcmMb::default() }),
        2..=4 => Macroblock::P(PMb {
            mb_type: rng.pick(&P_TYPES),
            motion: random_motion(rng),
            coded_block_pattern,
            qp,
            transform_size_8x8_flag,
            residual: random_residual(rng),
            ..PMb::default()
        }),
        _ => Macroblock::B(BMb {
            mb_type: BMbType::from_value(rng.below::<u32>(24)).expect("B mb_type"),
            sub_mb_types: Default::default(),
            motion: random_motion(rng),
            coded_block_pattern,
            qp,
            transform_size_8x8_flag,
            residual: random_residual(rng),
            ..BMb::default()
        }),
    }
}

fn transform_8x8(mb: &Macroblock) -> bool {
    match mb {
        Macroblock::I(m) => m.transform_size_8x8_flag,
        Macroblock::P(m) => m.transform_size_8x8_flag,
        Macroblock::B(m) => m.transform_size_8x8_flag,
        Macroblock::PCM(_) => false,
    }
}

/// The bS of the 16 segments of `q`'s vertical or horizontal edges as the
/// edge derivation computes them, with `neighbour` across edge 0.
fn segments(q: &MbDeblockInfo, neighbour: &MbDeblockInfo, vertical: bool) -> [u8; 16] {
    let p_blocks = blocks_across(&q.blocks, &neighbour.blocks, vertical);
    segment_strengths(&p_blocks, &q.blocks, q.is(L1_EMPTY))
}

/// Raster indices (p, q) of the two 4x4 blocks of segment `b` of edge
/// `edge`; for edge 0, p is a block of the neighbouring macroblock.
fn edge_blocks(edge: usize, b: usize, vertical: bool) -> (usize, usize) {
    let p_edge = (edge + 3) % 4;
    if vertical {
        (4 * b + p_edge, 4 * b + edge)
    } else {
        (4 * p_edge + b, 4 * edge + b)
    }
}

/// The index of segment `b` of edge `edge` in the result of `segments`.
fn segment(edge: usize, b: usize, vertical: bool) -> usize {
    if vertical {
        4 * b + edge
    } else {
        4 * edge + b
    }
}

/// Checks the whole-macroblock bS arrays of the two macroblocks of
/// `input`, side by side or one above the other, against the reference,
/// fast paths included. Returns those of the second one.
fn check_bs_arrays(input: &TestPicture, records: &[MbDeblockInfo]) -> ([[u8; 4]; 4], [[u8; 4]; 4]) {
    let [Some(p_mb), Some(q_mb)] = input.macroblocks else { unreachable!("two macroblocks") };
    let (width, height) = (input.pic_width_in_mbs, input.pic_height_in_mbs);
    let neighbour = Some((p_mb, input.mb_slice_id[0]));
    let (left, top) = if width == 2 { (neighbour, None) } else { (None, neighbour) };
    let q_slice_id = input.mb_slice_id[1];
    let expected =
        reference_compute_bs_arrays(input, q_mb, q_slice_id, left, top, transform_8x8(q_mb));
    let (left, top) = mb_neighbors(records, width, width - 1, height - 1);
    let actual = compute_bs_arrays(&records[1], left, top);
    assert_eq!(actual, expected, "{p_mb:?} | {q_mb:?}");

    let p_slice_id = input.mb_slice_id[0];
    let expected =
        reference_compute_bs_arrays(input, p_mb, p_slice_id, None, None, transform_8x8(p_mb));
    assert_eq!(compute_bs_arrays(&records[0], None, None), expected, "{p_mb:?}");
    actual
}

/// Two macroblocks, side by side or one above the other, with random
/// types, residuals, motion and slices: the record-based derivation must
/// give the bS of the reference `get_bs` on every edge segment between
/// inter blocks, and the bS arrays of the reference `compute_bs_arrays`.
#[test]
fn record_bs_matches_reference_get_bs() {
    let pps = PicParameterSet::default();
    // POC 4 appears twice in slice 0's list 0 and in both slices; slice
    // 1 has no list 1, as a P slice.
    let slice_ref_pocs = [(vec![8, 4, 16, 4], vec![16, 12, 8]), (vec![4, 12, 8], vec![])];
    let slice_deblock = [deblock(DeblockingFilterIdc::On), deblock(DeblockingFilterIdc::On)];
    let mut rng = Rng(0x5EED_DEB1_0C4B_0001);
    let (mut checked, mut by_bs) = (0usize, [0usize; 5]);
    for _ in 0..6000 {
        let mbs = [Some(random_mb(&mut rng)), Some(random_mb(&mut rng))];
        let mb_slice_id = [rng.below::<u16>(2), rng.below::<u16>(2)];
        let [Some(p_mb), Some(q_mb)] = &mbs else { unreachable!() };
        for vertical_edge in [true, false] {
            // MB 1 is right of MB 0 when their shared edge is vertical,
            // below it otherwise.
            let (width, height) = if vertical_edge { (2, 1) } else { (1, 2) };
            let input = TestPicture {
                pps: &pps,
                macroblocks: &mbs,
                mb_slice_id: &mb_slice_id,
                slice_deblock: &slice_deblock,
                slice_ref_pocs: &slice_ref_pocs,
                pic_width_in_mbs: width,
                pic_height_in_mbs: height,
            };
            let records = build_records(&input);
            let pocs = |mb_addr: usize| {
                let (l0, l1) = &slice_ref_pocs[usize::from(mb_slice_id[mb_addr])];
                (l0.as_slice(), l1.as_slice())
            };
            let ((p_l0, p_l1), (q_l0, q_l1)) = (pocs(0), pocs(1));
            let mut check = |actual: u8, expected: u8, what: &dyn Fn() -> String| {
                assert_eq!(actual, expected, "{}", what());
                by_bs[usize::from(actual)] += 1;
                checked += 1;
            };

            // The 4 segments of the macroblock edge, as 16 lanes and one
            // at a time.
            if !p_mb.is_intra() && !q_mb.is_intra() {
                let (p, q) = (&records[0], &records[1]);
                let lanes = segments(q, p, vertical_edge);
                for b in 0..4 {
                    let expected = reference_get_bs(
                        q_mb,
                        p_mb,
                        q_l0,
                        q_l1,
                        p_l0,
                        p_l1,
                        0,
                        b,
                        vertical_edge,
                    );
                    let actual = lanes[segment(0, b, vertical_edge)];
                    check(actual, expected, &|| format!("MB edge {b}: {p_mb:?} | {q_mb:?}"));
                    let (p_blk, q_blk) = edge_blocks(0, b, vertical_edge);
                    let actual = segment_bs(&p.blocks, p_blk, &q.blocks, q_blk, q.is(L1_EMPTY));
                    check(actual, expected, &|| format!("MB edge {b}: {p_mb:?} | {q_mb:?}"));
                }
            }

            // The 24 segments of each macroblock's internal edges.
            for (mb_addr, mb) in [(0, p_mb), (1, q_mb)] {
                if mb.is_intra() {
                    continue;
                }
                let (l0, l1) = pocs(mb_addr);
                let record = &records[mb_addr];
                for vertical in [true, false] {
                    let lanes = segments(record, record, vertical);
                    for edge in 1..4 {
                        for b in 0..4 {
                            let expected =
                                reference_get_bs(mb, mb, l0, l1, l0, l1, edge, b, vertical);
                            let actual = lanes[segment(edge, b, vertical)];
                            check(actual, expected, &|| format!("edge {edge}, {b}: {mb:?}"));
                            let (p_blk, q_blk) = edge_blocks(edge, b, vertical);
                            let blocks = &record.blocks;
                            let p_rules = record.is(L1_EMPTY);
                            let actual = segment_bs(blocks, p_blk, blocks, q_blk, p_rules);
                            check(actual, expected, &|| format!("edge {edge}, {b}: {mb:?}"));
                        }
                    }
                }
            }

            // Whole-macroblock arrays, including the intra and other fast
            // paths.
            let (bs_vert, bs_horz) = check_bs_arrays(&input, &records);
            for bs in bs_vert.as_flattened().iter().chain(bs_horz.as_flattened()) {
                by_bs[usize::from(*bs)] += 1;
            }
        }
    }
    // Every outcome is exercised, each many times.
    assert!(by_bs.iter().all(|&n| n > checked / 100), "bS histogram {by_bs:?}");
}

fn inter_mb(residual: Option<Box<Residual>>) -> Macroblock {
    Macroblock::P(PMb { residual, ..PMb::default() })
}

/// The record of `mb` as a macroblock of slice `slice_id` of a picture
/// whose slices have the reference lists `slice_ref_pocs`, the slices
/// before it decoded first.
fn record(mb: &Macroblock, slice_ref_pocs: &[(Vec<i32>, Vec<i32>)], slice_id: u16) -> MbDeblockInfo {
    let mut records = DeblockRecords::default();
    records.start_picture(1, &PicParameterSet::default());
    for (id, (l0, l1)) in (0..=slice_id).zip(slice_ref_pocs) {
        records.start_slice(id, l0, l1);
    }
    records.record(0, mb);
    records.records()[0]
}

#[test]
fn record_nz_is_raster_ordered_per_residual_layout() {
    let no_refs = [(vec![], vec![])];
    // 4x4 transform: one bit per 4x4 block with coefficients. Z-scan
    // block 6 is row 1, column 2; block 9 is row 2, column 1.
    let mut nc = [0u8; 16];
    nc[6] = 3;
    nc[9] = 1;
    let residual = Residual {
        luma: LumaResidual::Block4x4 { levels: [[0; 16]; 16], nc },
        ..Residual::default()
    };
    let mb = inter_mb(Some(Box::new(residual)));
    assert_eq!(record(&mb, &no_refs, 0).blocks.nz, 1 << (4 + 2) | 1 << (8 + 1));

    // 8x8 transform: coded_block_pattern bits cover whole quadrants.
    let residual = Residual {
        coded_block_pattern: CodedBlockPattern::new(0, 0b0110),
        luma: LumaResidual::Block8x8 { levels: [LumaLevel8x8::default(); 4], nc: [0; 16] },
        ..Residual::default()
    };
    let mb = inter_mb(Some(Box::new(residual)));
    assert_eq!(
        record(&mb, &no_refs, 0).blocks.nz,
        0b0000_0000_1100_1100 | 0b0011_0011_0000_0000
    );

    // No luma coefficients, or no residual at all.
    assert_eq!(record(&inter_mb(Some(Box::default())), &no_refs, 0).blocks.nz, 0);
    assert_eq!(record(&inter_mb(None), &no_refs, 0).blocks.nz, 0);

    // Intra macroblocks don't need `nz`: their bS doesn't depend on it.
    let residual = Residual {
        luma: LumaResidual::Intra16x16 { dc: [1; 16], ac: [[0; 15]; 16], ac_nc: [1; 16] },
        ..Residual::default()
    };
    let mb = Macroblock::I(IMb { residual: Some(Box::new(residual)), ..IMb::default() });
    let info = record(&mb, &no_refs, 0);
    assert_eq!(info.blocks, BlockInfo::default());
    assert!(info.is(INTRA));
}

#[test]
fn record_resolves_reference_indices_to_picture_ids() {
    let slice_ref_pocs = [(vec![7, 3], vec![3, 9]), (vec![9, 7, 7], vec![])];
    // One id per POC, whichever slice and list it appears in.
    let mut records = DeblockRecords::default();
    records.start_picture(1, &PicParameterSet::default());
    records.start_slice(0, &slice_ref_pocs[0].0, &slice_ref_pocs[0].1);
    assert_eq!(
        (&records.slice_ref_ids().l0[..3], &records.slice_ref_ids().l1[..3]),
        (&[1, 2, 0][..], &[2, 3, 0][..])
    );
    records.start_slice(1, &slice_ref_pocs[1].0, &slice_ref_pocs[1].1);
    assert_eq!(
        (&records.slice_ref_ids().l0[..4], &records.slice_ref_ids().l1[..1]),
        (&[3, 1, 1, 0][..], &[0][..])
    );

    let mut motion = MbMotion::default();
    let parts = motion.partitions.as_flattened_mut();
    parts[0].ref_idx_l0 = 1;
    parts[0].ref_idx_l1 = 0;
    parts[5].ref_idx_l0 = u8::MAX;
    parts[5].ref_idx_l1 = 1;
    parts[5].mv_l1 = MotionVector { x: -3, y: 7 };
    parts[15].ref_idx_l0 = 2;
    parts[15].ref_idx_l1 = u8::MAX;
    let mb = Macroblock::B(BMb { motion, ..BMb::default() });

    let info = record(&mb, &slice_ref_pocs, 0);
    let blocks = &info.blocks;
    assert!(!info.is(L1_EMPTY));
    assert_eq!((blocks.ref_l0[0], blocks.ref_l1[0]), (2, 2));
    // u8::MAX marks an unused list; index 2 is past the end of list 0.
    assert_eq!((blocks.ref_l0[5], blocks.ref_l1[5]), (0, 3));
    assert_eq!((blocks.ref_l0[15], blocks.ref_l1[15]), (0, 0));
    assert_eq!(blocks.mv_l1[5], [-3, 7]);

    // Against slice 1's lists: list 1 is empty, so no index resolves.
    let info = record(&mb, &slice_ref_pocs, 1);
    let blocks = &info.blocks;
    assert!(info.is(L1_EMPTY));
    assert_eq!((blocks.ref_l0[0], blocks.ref_l1[0]), (1, 0));
    assert_eq!((blocks.ref_l0[15], blocks.ref_l1[15]), (1, 0));
}

#[test]
fn slice_ref_ids_clear_the_previous_slice() {
    let mut ids = RefPictureIds::default();
    let mut tables = SliceRefIds::default();
    tables.load(&mut ids, 0, &[7, 3, 9], &[5]);
    assert_eq!((&tables.l0[..4], &tables.l1[..2]), (&[1, 2, 3, 0][..], &[4, 0][..]));
    assert!(!tables.l1_empty);
    tables.load(&mut ids, 1, &[9], &[]);
    assert_eq!((&tables.l0[..4], &tables.l1[..2]), (&[3, 0, 0, 0][..], &[0, 0][..]));
    assert!(tables.l1_empty);
    assert!(tables.l0.iter().chain(&tables.l1).skip(1).all(|&id| id == 0));
    assert_eq!(tables.l0[usize::from(u8::MAX)], 0);
}

#[test]
fn record_qp_and_flags() {
    let pps = PicParameterSet {
        chroma_qp_index_offset: -4,
        second_chroma_qp_index_offset: 7,
        ..PicParameterSet::default()
    };
    let mbs = [
        Some(Macroblock::P(PMb {
            mb_type: PMbType::P_L0_16x16,
            qp: 40,
            transform_size_8x8_flag: true,
            ..PMb::default()
        })),
        Some(Macroblock::B(BMb { mb_type: BMbType::B_Skip, qp: 3, ..BMb::default() })),
        Some(Macroblock::PCM(PcmMb::default())),
        Some(Macroblock::I(IMb { qp: 51, ..IMb::default() })),
    ];
    let input = TestPicture {
        pps: &pps,
        macroblocks: &mbs,
        mb_slice_id: &[0, 0, 1, 1],
        slice_deblock: &[deblock(DeblockingFilterIdc::On), deblock(DeblockingFilterIdc::On)],
        slice_ref_pocs: &[(vec![0], vec![]), (vec![], vec![])],
        pic_width_in_mbs: 2,
        pic_height_in_mbs: 2,
    };
    let records = build_records(&input);
    for (info, mb) in records.iter().zip(&mbs) {
        let qp = lib::deblocking::get_qp(mb.as_ref().expect("decoded"));
        assert_eq!(info.qp, qp);
        assert_eq!(info.qp_c, [get_chroma_qp(i32::from(qp), -4, 0), get_chroma_qp(i32::from(qp), 7, 0)]);
    }
    assert_eq!(records[0].qp_c, [34, 38]);
    assert_eq!(
        records.iter().map(|info| (info.flags, info.slice_id)).collect::<Vec<_>>(),
        [
            (TRANSFORM_8X8 | NO_INTERNAL_EDGES | L1_EMPTY, 0),
            // B_Skip has no macroblock partition, so it takes the full path.
            (L1_EMPTY, 0),
            (INTRA | L1_EMPTY, 1),
            (INTRA | L1_EMPTY, 1),
        ]
    );
}

#[test]
fn deblock_records_are_reused_without_leftovers() {
    let pps = PicParameterSet::default();
    let mut rng = Rng(0x5C4A_7C11_0000_0003);
    let pictures = [
        (
            (0..8).map(|_| Some(random_mb(&mut rng))).collect::<Vec<_>>(),
            vec![0u16, 0, 0, 1, 1, 1, 2, 2],
            vec![(vec![3, 9, 1], vec![7, 3]), (vec![1], vec![]), (vec![5, 3], vec![3])],
        ),
        (
            (0..2).map(|_| Some(random_mb(&mut rng))).collect(),
            vec![0, 0],
            vec![(vec![2], vec![11])],
        ),
    ];
    let slice_deblock = [DeblockingFilterIdc::On; 3].map(deblock);
    let inputs: Vec<_> = pictures
        .iter()
        .map(|(macroblocks, mb_slice_id, slice_ref_pocs)| TestPicture {
            pps: &pps,
            macroblocks,
            mb_slice_id,
            slice_deblock: &slice_deblock,
            slice_ref_pocs,
            pic_width_in_mbs: macroblocks.len() / 2,
            pic_height_in_mbs: 2,
        })
        .collect();

    let mut records = DeblockRecords::default();
    for input in [&inputs[0], &inputs[1], &inputs[0]] {
        assert_eq!(gather(input, &mut records), build_records(input));
    }
}

/// The sample filters leave a line alone unless the step across the edge
/// is below alpha and each side is flat below beta.
#[test]
fn luma_line_needs_a_small_step_and_flat_sides() {
    let th = lib::deblocking::FilterThresholds::from_qp(40, 40, 0, 0);
    assert_eq!((th.alpha, th.beta, th.index_a), (80, 13, 52));
    let flat = [60, 60, 60, 60, 70, 70, 70, 70];
    let strong = lib::deblocking::filter_luma_samples(flat, true, 0, &th);
    assert_ne!(strong, flat);
    // Equations 8-477 to 8-479 and 8-484 to 8-486 on the step of 10.
    assert_eq!(strong, [60, 61, 63, 64, 66, 68, 69, 70]);
    let weak = lib::deblocking::filter_luma_samples(flat, false, 2, &th);
    // tC = tC0 + 2 = 4; delta = (4 * 10 - 10 + 4) >> 3 = 4; p1 moves by
    // (60 + 65 - 120) >> 1 = 2, q1 by (70 + 65 - 140) >> 1 = -3, clipped to -2.
    assert_eq!(weak, [60, 60, 62, 64, 66, 68, 70, 70]);
    let big_step = [0, 0, 0, 0, 200, 200, 200, 200];
    assert_eq!(lib::deblocking::filter_luma_samples(big_step, true, 0, &th), big_step);
    let rough = [60, 90, 60, 60, 70, 70, 70, 70];
    let out = lib::deblocking::filter_luma_samples(rough, true, 0, &th);
    // p side falls back to Equation 8-480: p0' = (2 * p1 + p0 + q1 + 2) >> 2.
    assert_eq!(out[..4], [60, 90, 60, (2 * 60 + 60 + 70 + 2) / 4]);
}

#[test]
fn chroma_line_filters_only_the_nearest_samples() {
    let th = lib::deblocking::FilterThresholds::from_qp(40, 40, 0, 0);
    let line = [60, 60, 70, 70];
    // (2 * p1 + p0 + q1 + 2) >> 2 and (2 * q1 + q0 + p1 + 2) >> 2.
    assert_eq!(lib::deblocking::filter_chroma_samples(line, true, 0, &th), [60, 63, 68, 70]);
    // delta = (4 * 10 - 10 + 4) >> 3 = 4, clipped to tC = 3.
    assert_eq!(lib::deblocking::filter_chroma_samples(line, false, 3, &th), [60, 63, 67, 70]);
    assert_eq!(lib::deblocking::filter_chroma_samples(line, false, 1, &th), [60, 61, 69, 70]);
}

#[test]
fn thresholds_follow_tables_8_16_and_8_17() {
    let th = lib::deblocking::FilterThresholds::from_qp(15, 16, 0, 0);
    // indexA 16: alpha' and beta' are 0 below 16.
    assert_eq!((th.alpha, th.beta), (4, 2));
    let th = lib::deblocking::FilterThresholds::from_qp(51, 51, 12, 12);
    assert_eq!((th.alpha, th.beta, th.index_a), (255, 18, 75));
    let th = lib::deblocking::FilterThresholds::from_qp(0, 0, -12, -12);
    assert_eq!((th.alpha, th.beta, th.index_a), (0, 0, 0));
    assert_eq!(lib::deblocking::tc0_lookup(3, 63), 25);
    assert_eq!(lib::deblocking::tc0_lookup(1, 12 + 23), 1);
    assert_eq!(lib::deblocking::tc0_lookup(2, 12 + 51), 17);
}

#[test]
fn intra_macroblocks_get_strong_edges_and_intra_internal_edges() {
    let mut q = MbDeblockInfo { flags: INTRA, ..MbDeblockInfo::default() };
    let p = MbDeblockInfo::default();
    let (v, h) = compute_bs_arrays(&q, Some(&p), None);
    assert_eq!(v, [[BS_STRONG; 4], [BS_INTRA; 4], [BS_INTRA; 4], [BS_INTRA; 4]]);
    assert_eq!(h, [[BS_NONE; 4], [BS_INTRA; 4], [BS_INTRA; 4], [BS_INTRA; 4]]);
    q.flags |= TRANSFORM_8X8;
    let (v, _) = compute_bs_arrays(&q, None, None);
    assert_eq!(v, [[BS_NONE; 4], [BS_NONE; 4], [BS_INTRA; 4], [BS_NONE; 4]]);
    // An inter macroblock next to an intra one: bS 4 on the shared edge.
    let inter = MbDeblockInfo { flags: NO_INTERNAL_EDGES, ..MbDeblockInfo::default() };
    let intra = MbDeblockInfo { flags: INTRA, ..MbDeblockInfo::default() };
    let (v, h) = compute_bs_arrays(&inter, Some(&intra), Some(&inter));
    assert_eq!(v[0], [BS_STRONG; 4]);
    assert_eq!(h, [[BS_NONE; 4]; 4]);
    let mut coded = inter;
    coded.blocks.nz = 1;
    let (_, h) = compute_bs_arrays(&coded, None, Some(&inter));
    assert_eq!(h[0], [BS_CODED, BS_NONE, BS_NONE, BS_NONE]);
    let mut moved = inter;
    moved.blocks.mv_l0[2] = [4, 0];
    let (_, h) = compute_bs_arrays(&moved, None, Some(&inter));
    assert_eq!(h[0], [BS_NONE, BS_NONE, BS_MOTION, BS_NONE]);
}

fn plane_buf(frame: &BorderedFrame, plane: ColorPlane) -> &PlaneBuf {
    match plane {
        ColorPlane::Y => &frame.luma,
        ColorPlane::Cb => &frame.chroma_cb,
        ColorPlane::Cr => &frame.chroma_cr,
    }
}

fn plane_buf_mut(frame: &mut BorderedFrame, plane: ColorPlane) -> &mut PlaneBuf {
    match plane {
        ColorPlane::Y => &mut frame.luma,
        ColorPlane::Cb => &mut frame.chroma_cb,
        ColorPlane::Cr => &mut frame.chroma_cr,
    }
}

/// The visible samples of the three planes of `frame`, row by row.
fn visible_samples(frame: &BorderedFrame) -> Vec<u8> {
    let mut samples = Vec::new();
    for plane in [ColorPlane::Y, ColorPlane::Cb, ColorPlane::Cr] {
        let plane = plane_buf(frame, plane);
        let (width, height, stride) = (plane.cfg.width, plane.cfg.height, plane.cfg.stride);
        let origin = plane.cfg.yorigin * stride + plane.cfg.xorigin;
        for row in plane.data[origin..].chunks(stride).take(height) {
            samples.extend_from_slice(&row[..width]);
        }
    }
    samples
}

#[test]
fn filter_off_in_every_slice_leaves_the_picture_alone() {
    let pps = PicParameterSet::default();
    // 2x2 intra macroblocks, the top row in slice 0 and the bottom row
    // in slice 1, with a step of 10 between the left and right columns
    // of macroblocks: every edge between them has bS 4.
    let mbs: Vec<_> =
        (0..4).map(|_| Some(Macroblock::I(IMb { qp: 40, ..IMb::default() }))).collect();
    let deblocked = |idc: [DeblockingFilterIdc; 2]| {
        let mut frame = BorderedFrame::alloc_4_2_0(32, 32).expect("alloc");
        for plane in [ColorPlane::Y, ColorPlane::Cb, ColorPlane::Cr] {
            let plane = plane_buf_mut(&mut frame, plane);
            let (width, stride) = (plane.cfg.width, plane.cfg.stride);
            let origin = plane.cfg.yorigin * stride + plane.cfg.xorigin;
            for row in plane.data[origin..].chunks_mut(stride) {
                for (x, sample) in row.iter_mut().take(width).enumerate() {
                    *sample = if x < width / 2 { 60 } else { 70 };
                }
            }
        }
        let before = visible_samples(&frame);
        let slice_deblock = idc.map(deblock);
        let picture = TestPicture {
            pps: &pps,
            macroblocks: &mbs,
            mb_slice_id: &[0, 0, 1, 1],
            slice_deblock: &slice_deblock,
            slice_ref_pocs: &[(vec![], vec![]), (vec![], vec![])],
            pic_width_in_mbs: 2,
            pic_height_in_mbs: 2,
        };
        let mut records = DeblockRecords::default();
        gather(&picture, &mut records);
        let input = PictureDeblockInput {
            slice_deblock: picture.slice_deblock,
            pic_width_in_mbs: picture.pic_width_in_mbs,
            pic_height_in_mbs: picture.pic_height_in_mbs,
        };
        filter_picture(&input, &records, &mut frame);
        (before, visible_samples(&frame))
    };

    let (before, after) = deblocked([DeblockingFilterIdc::Off, DeblockingFilterIdc::Off]);
    assert_eq!(after, before);
    let (before, after) = deblocked([DeblockingFilterIdc::Off, DeblockingFilterIdc::On]);
    assert_ne!(after, before);
    // Only the edges of slice 1, the bottom row of macroblocks, are
    // filtered; across its top edge that reaches 3 rows up (p2).
    assert_eq!(after[..32 * 13], before[..32 * 13]);
    assert_ne!(after[..32 * 16], before[..32 * 16]);
}

/// An intra picture with a step between its macroblock columns: the
/// vertical macroblock edge is smoothed by the bS 4 filter, rows alike.
#[test]
fn filter_picture_smooths_a_step_across_intra_macroblocks() {
    let pps = PicParameterSet::default();
    let mbs: Vec<_> =
        (0..2).map(|_| Some(Macroblock::I(IMb { qp: 40, ..IMb::default() }))).collect();
    let mut frame = BorderedFrame::alloc_4_2_0(32, 16).expect("alloc");
    for plane in [ColorPlane::Y, ColorPlane::Cb, ColorPlane::Cr] {
        let plane = plane_buf_mut(&mut frame, plane);
        let (width, stride) = (plane.cfg.width, plane.cfg.stride);
        let origin = plane.cfg.yorigin * stride + plane.cfg.xorigin;
        for row in plane.data[origin..].chunks_mut(stride).take(plane.cfg.height) {
            for (x, sample) in row.iter_mut().take(width).enumerate() {
                *sample = if x < width / 2 { 60 } else { 70 };
            }
        }
    }
    let slice_deblock = [deblock(DeblockingFilterIdc::On)];
    let picture = TestPicture {
        pps: &pps,
        macroblocks: &mbs,
        mb_slice_id: &[0, 0],
        slice_deblock: &slice_deblock,
        slice_ref_pocs: &[(vec![], vec![])],
        pic_width_in_mbs: 2,
        pic_height_in_mbs: 1,
    };
    let mut records = DeblockRecords::default();
    gather(&picture, &mut records);
    let input = PictureDeblockInput { slice_deblock: &slice_deblock, pic_width_in_mbs: 2, pic_height_in_mbs: 1 };
    filter_picture(&input, &records, &mut frame);
    let samples = visible_samples(&frame);
    // Luma row 0 around column 16: p3..q3 become 60, 61, 63, 64, 66, 68, 69, 70.
    assert_eq!(samples[12..20], [60, 61, 63, 64, 66, 68, 69, 70]);
    for row in 1..16 {
        assert_eq!(samples[32 * row + 12..32 * row + 20], samples[12..20]);
    }
}

#[test]
fn bordered_frames_have_padded_planes() {
    let f = BorderedFrame::alloc_4_2_0(320, 240).expect("alloc");
    assert_eq!((f.luma.cfg.width, f.luma.cfg.height), (320, 240));
    assert!(f.luma.cfg.stride >= 320 + 2 * BORDER_PX);
    assert_eq!(f.luma.cfg.stride % BORDER_PX, 0);
    assert_eq!((f.chroma_cb.cfg.width, f.chroma_cb.cfg.height), (160, 120));
    assert_eq!(f.luma.data.len(), f.luma.cfg.stride * (240 + 2 * BORDER_PX));
    assert_eq!(round_up(33, 16), 48);
    assert_eq!(round_up(32, 16), 32);
    let view = f.plane(ColorPlane::Cb);
    assert_eq!(view.cfg.width, 160);
    assert!(BorderedFrame::alloc_4_2_0(usize::MAX - 8, 16).is_none());
}

//! Out-of-band H.264 parameter-set delivery.
//!
//! Two shapes of `extradata` are recognised:
//!
//! - **avcC** (ISO/IEC 14496-15 AVCDecoderConfigurationRecord): a structured
//!   record starting with `configurationVersion = 1`, carrying SPS NALs, PPS
//!   NALs and `lengthSizeMinusOne`, the byte width of the length prefix of
//!   each sample's NALs.
//! - **Annex-B SPS+PPS**: SPS and PPS NAL units separated by start codes
//!   (`0x000001` or `0x00000001`).
//!
//! [`parse_extradata`] tells them apart by the first byte (avcC iff it is 1).
use vstd::prelude::*;

use crate::error::DecoderError;

verus! {

/// `nal_unit_type` of a sequence parameter set (Table 7-1).
pub const NAL_TYPE_SPS: u8 = 7;

/// `nal_unit_type` of a picture parameter set (Table 7-1).
pub const NAL_TYPE_PPS: u8 = 8;

/// `nal` is non-empty and the low five bits of its header byte
/// (`nal_unit_type`) equal `t`.
pub open spec fn has_nal_type(nal: Seq<u8>, t: int) -> bool {
    nal.len() > 0 && nal[0] % 32 == t
}

/// The unsigned big-endian integer that the bytes of `s` write.
pub open spec fn be_value(s: Seq<u8>) -> nat
    decreases s.len(),
{
    if s.len() == 0 {
        0
    } else {
        be_value(s.drop_last()) * 256 + s.last() as nat
    }
}

/// A `length_size`-byte big-endian length at `off` followed by that many
/// payload bytes: the payload and the offset just past it, or `None` when the
/// prefix or the payload runs past the end of `bytes`.
pub open spec fn spec_read_nal(bytes: Seq<u8>, off: int, length_size: int) -> Option<(Seq<u8>, int)> {
    if off + length_size > bytes.len() {
        None
    } else {
        let start = off + length_size;
        let len = be_value(bytes.subrange(off, start));
        if start + len > bytes.len() {
            None
        } else {
            Some((bytes.subrange(start, start + len), start + len))
        }
    }
}

/// `count` consecutive NALs with 2-byte length prefixes from `off`, each of
/// NAL type `t`: the NALs in order and the offset after the last one.
pub open spec fn spec_read_nal_list(bytes: Seq<u8>, off: int, count: nat, t: int) -> Option<
    (Seq<Seq<u8>>, int),
>
    decreases count,
{
    if count == 0 {
        Some((Seq::empty(), off))
    } else {
        match spec_read_nal_list(bytes, off, (count - 1) as nat, t) {
            None => None,
            Some((nals, next)) => match spec_read_nal(bytes, next, 2) {
                None => None,
                Some((nal, after)) => if has_nal_type(nal, t) {
                    Some((nals.push(nal), after))
                } else {
                    None
                },
            },
        }
    }
}

/// The avcC record in `bytes`, as (length-prefix size, SPS NALs, PPS NALs),
/// or `None` when `bytes` is not a well-formed record. Trailing bytes after
/// the PPS list are ignored.
pub open spec fn spec_parse_avcc(bytes: Seq<u8>) -> Option<(nat, Seq<Seq<u8>>, Seq<Seq<u8>>)> {
    if bytes.len() < 7 || bytes[0] != 1 || bytes[4] % 4 == 2 {
        None
    } else {
        match spec_read_nal_list(bytes, 6, (bytes[5] % 32) as nat, NAL_TYPE_SPS as int) {
            None => None,
            Some((sps, off)) => if off >= bytes.len() {
                None
            } else {
                match spec_read_nal_list(bytes, off + 1, bytes[off] as nat, NAL_TYPE_PPS as int) {
                    None => None,
                    Some((pps, _)) => Some(((bytes[4] % 4 + 1) as nat, sps, pps)),
                }
            },
        }
    }
}

/// A three-byte start code prefix `00 00 01` begins at `i`.
pub open spec fn is_start_code_at(s: Seq<u8>, i: int) -> bool {
    0 <= i && i + 3 <= s.len() && s[i] == 0 && s[i + 1] == 0 && s[i + 2] == 1
}

/// The first position at or after `i` where a start code prefix begins, or
/// `s.len()` when there is none.
pub open spec fn next_start_code(s: Seq<u8>, i: int) -> int
    decreases s.len() - i,
{
    if i < 0 || i + 3 > s.len() {
        s.len() as int
    } else if is_start_code_at(s, i) {
        i
    } else {
        next_start_code(s, i + 1)
    }
}

/// `s` without its trailing zero bytes (the `trailing_zero_8bits` before a
/// four-byte start code belong to the start code, not to the NAL).
pub open spec fn strip_trailing_zeros(s: Seq<u8>) -> Seq<u8>
    decreases s.len(),
{
    if s.len() > 0 && s.last() == 0 {
        strip_trailing_zeros(s.drop_last())
    } else {
        s
    }
}

/// The non-empty NALs of an Annex-B byte stream whose current NAL payload
/// starts at `i` (just after a start code prefix).
pub open spec fn annexb_nals_from(s: Seq<u8>, i: int) -> Seq<Seq<u8>>
    decreases s.len() - i,
{
    if i < 0 || i > s.len() {
        Seq::empty()
    } else {
        let j = next_start_code(s, i);
        let nal = strip_trailing_zeros(s.subrange(i, j));
        let head = if nal.len() > 0 {
            seq![nal]
        } else {
            Seq::empty()
        };
        if j + 3 <= s.len() {
            proof {
                lemma_next_start_code_bounds(s, i);
            }
            head + annexb_nals_from(s, j + 3)
        } else {
            head
        }
    }
}

/// The non-empty NALs of the Annex-B byte stream `s`, in order. Bytes before
/// the first start code belong to no NAL.
pub open spec fn annexb_split(s: Seq<u8>) -> Seq<Seq<u8>> {
    let j = next_start_code(s, 0);
    if j + 3 <= s.len() {
        annexb_nals_from(s, j + 3)
    } else {
        Seq::empty()
    }
}

/// The byte sequences held by a list of byte vectors.
pub open spec fn byte_seqs(v: Seq<Vec<u8>>) -> Seq<Seq<u8>> {
    v.map_values(|x: Vec<u8>| x@)
}

/// The result of [`parse_extradata`] on `bytes`: the NALs to feed through the
/// NAL pipeline and, for avcC, the length-prefix size; `None` where
/// [`parse_extradata`] fails.
pub open spec fn spec_parse_extradata(bytes: Seq<u8>) -> Option<(Seq<Seq<u8>>, Option<nat>)> {
    if bytes.len() == 0 {
        Some((Seq::empty(), None))
    } else if bytes[0] == 1 {
        match spec_parse_avcc(bytes) {
            None => None,
            Some((ls, sps, pps)) => Some((sps + pps, Some(ls))),
        }
    } else {
        Some((annexb_split(bytes), None))
    }
}

/// The two big-endian bytes of a 16-bit value.
pub open spec fn u16_be(v: int) -> Seq<u8> {
    seq![(v / 256) as u8, (v % 256) as u8]
}

/// Each NAL of `list` in turn, preceded by its length (modulo 2^16) as a
/// 2-byte big-endian prefix.
pub open spec fn spec_prefixed_list(list: Seq<Seq<u8>>) -> Seq<u8>
    decreases list.len(),
{
    if list.len() == 0 {
        Seq::empty()
    } else {
        spec_prefixed_list(list.drop_last()) + u16_be((list.last().len() % 0x10000) as int) + list.last()
    }
}

/// The avcC record that [`build_avcc`] writes.
pub open spec fn spec_build_avcc(sps: Seq<Seq<u8>>, pps: Seq<Seq<u8>>, length_size: u8) -> Seq<u8> {
    let has_ids = sps.len() > 0 && sps[0].len() >= 4;
    let profile: u8 = if has_ids { sps[0][1] } else { 0 };
    let compat: u8 = if has_ids { sps[0][2] } else { 0 };
    let level: u8 = if has_ids { sps[0][3] } else { 0 };
    seq![1u8, profile, compat, level, (0xFC + (length_size - 1) % 4) as u8, (0xE0 + sps.len() % 32) as u8]
        + spec_prefixed_list(sps) + seq![(pps.len() % 256) as u8] + spec_prefixed_list(pps)
}

/// Parsed contents of an ISO/IEC 14496-15 AVCDecoderConfigurationRecord.
#[derive(Debug, Clone, PartialEq, Eq)]
pub struct Avcc {
    /// NAL length-prefix size in bytes (1, 2, or 4).
    pub length_size: usize,
    /// SPS NAL byte arrays, in record order.
    pub sps_nals: Vec<Vec<u8>>,
    /// PPS NAL byte arrays, in record order.
    pub pps_nals: Vec<Vec<u8>>,
}

impl View for Avcc {
    type V = (nat, Seq<Seq<u8>>, Seq<Seq<u8>>);

    open spec fn view(&self) -> (nat, Seq<Seq<u8>>, Seq<Seq<u8>>) {
        (self.length_size as nat, byte_seqs(self.sps_nals@), byte_seqs(self.pps_nals@))
    }
}

/// Outcome of sniffing an extradata blob.
#[derive(Debug, Clone, PartialEq, Eq)]
pub struct ParsedExtradata {
    /// SPS+PPS NALs to feed through the regular NAL pipeline, in order.
    pub nals: Vec<Vec<u8>>,
    /// `Some(size)` when avcC's `lengthSizeMinusOne` is authoritative;
    /// `None` for Annex-B-form extradata.
    pub length_size: Option<usize>,
}

impl View for ParsedExtradata {
    type V = (Seq<Seq<u8>>, Option<nat>);

    open spec fn view(&self) -> (Seq<Seq<u8>>, Option<nat>) {
        (
            byte_seqs(self.nals@),
            match self.length_size {
                Some(n) => Some(n as nat),
                None => None,
            },
        )
    }
}

/// A start code search from `i` stops within `i..=s.len()`, with room for the
/// three start code bytes when it finds one.
pub proof fn lemma_next_start_code_bounds(s: Seq<u8>, i: int)
    requires
        0 <= i <= s.len(),
    ensures
        i <= next_start_code(s, i) <= s.len(),
        next_start_code(s, i) < s.len() ==> next_start_code(s, i) + 3 <= s.len(),
    decreases s.len() - i,
{
    if i + 3 <= s.len() && !is_start_code_at(s, i) {
        lemma_next_start_code_bounds(s, i + 1);
    }
}

proof fn lemma_read_nal_list_none_grows(bytes: Seq<u8>, off: int, c1: nat, c2: nat, t: int)
    requires
        c1 <= c2,
        spec_read_nal_list(bytes, off, c1, t) is None,
    ensures
        spec_read_nal_list(bytes, off, c2, t) is None,
    decreases c2,
{
    if c2 > c1 {
        lemma_read_nal_list_none_grows(bytes, off, c1, (c2 - 1) as nat, t);
    }
}

/// Reads a `length_size`-byte big-endian length prefix at `*off`, then that
/// many bytes of NAL payload, and advances `*off` past both.
fn read_length_prefixed_nal(bytes: &[u8], off: &mut usize, length_size: usize) -> (r: Result<
    Vec<u8>,
    DecoderError,
>)
    requires
        *old(off) <= bytes.len(),
        length_size <= 4,
    ensures
        *final(off) <= bytes.len(),
        match spec_read_nal(bytes@, *old(off) as int, length_size as int) {
            Some((nal, next)) => r matches Ok(v) && v@ == nal && *final(off) == next,
            None => r matches Err(DecoderError::MisformedData(_)),
        },
        r is Err ==> *final(off) == (if bytes@.len() - *old(off) < length_size {
            *old(off) as int
        } else {
            *old(off) + length_size
        }),
{
    if bytes.len() - *off < length_size {
        return Err(DecoderError::MisformedData("truncated NAL length prefix".to_owned()));
    }
    let start = *off;
    let mut len: usize = 0;
    let mut i: usize = 0;
    while i < length_size
        invariant
            i <= length_size <= 4,
            start + length_size <= bytes.len(),
            len == be_value(bytes@.subrange(start as int, start + i)),
            i == 0 ==> len == 0,
            i == 1 ==> len < 0x100,
            i == 2 ==> len < 0x1_0000,
            i == 3 ==> len < 0x100_0000,
            i == 4 ==> len < 0x1_0000_0000,
        decreases length_size - i,
    {
        let b = bytes[start + i];
        proof {
            let s = bytes@.subrange(start as int, start + i + 1);
            assert(s.drop_last() =~= bytes@.subrange(start as int, start + i));
        }
        len = len * 256 + b as usize;
        i = i + 1;
    }
    *off = start + length_size;
    if bytes.len() - *off < len {
        return Err(DecoderError::MisformedData("NAL payload runs past the buffer".to_owned()));
    }
    let nal = vstd::slice::slice_to_vec(vstd::slice::slice_subrange(bytes, *off, *off + len));
    *off = *off + len;
    Ok(nal)
}

/// Checks that `nal` is non-empty and of NAL unit type `expected`.
fn validate_nal_type(nal: &[u8], expected: u8) -> (r: Result<(), DecoderError>)
    ensures
        r is Ok <==> has_nal_type(nal@, expected as int),
        r is Err ==> r matches Err(DecoderError::MisformedData(_)),
{
    if nal.len() == 0 {
        return Err(DecoderError::MisformedData("empty NAL".to_owned()));
    }
    let first = nal[0];
    let nal_type = first & 0x1F;
    assert(first & 0x1F == first % 32) by (bit_vector);
    if nal_type != expected {
        return Err(DecoderError::MisformedData("unexpected NAL unit type".to_owned()));
    }
    Ok(())
}

/// Reads `count` length-prefixed NALs of type `nal_type` from `*off`,
/// advancing `*off` past them.
fn read_nal_list(bytes: &[u8], off: &mut usize, count: usize, nal_type: u8) -> (r: Result<
    Vec<Vec<u8>>,
    DecoderError,
>)
    requires
        *old(off) <= bytes.len(),
    ensures
        *final(off) <= bytes.len(),
        match spec_read_nal_list(bytes@, *old(off) as int, count as nat, nal_type as int) {
            Some((nals, next)) => r matches Ok(v) && byte_seqs(v@) == nals && *final(off) == next,
            None => r matches Err(DecoderError::MisformedData(_)),
        },
{
    let ghost start = *off as int;
    let mut nals: Vec<Vec<u8>> = Vec::new();
    let mut i: usize = 0;
    while i < count
        invariant
            i <= count,
            *off <= bytes.len(),
            start == *old(off) as int,
            spec_read_nal_list(bytes@, start, i as nat, nal_type as int) == Some(
                (byte_seqs(nals@), *off as int),
            ),
        decreases count - i,
    {
        let ghost before = byte_seqs(nals@);
        let ghost off_before = *off as int;
        let nal = match read_length_prefixed_nal(bytes, off, 2) {
            Ok(nal) => nal,
            Err(e) => {
                proof {
                    assert(spec_read_nal(bytes@, off_before, 2) is None);
                    assert(spec_read_nal_list(bytes@, start, (i + 1) as nat, nal_type as int) is None);
                    lemma_read_nal_list_none_grows(
                        bytes@,
                        start,
                        (i + 1) as nat,
                        count as nat,
                        nal_type as int,
                    );
                    assert(spec_read_nal_list(bytes@, start, count as nat, nal_type as int) is None);
                    assert(e matches DecoderError::MisformedData(_));
                }
                return Err(e);
            },
        };
        match validate_nal_type(nal.as_slice(), nal_type) {
            Ok(()) => {},
            Err(e) => {
                proof {
                    assert(spec_read_nal(bytes@, off_before, 2) == Some((nal@, *off as int)));
                    assert(spec_read_nal_list(bytes@, start, (i + 1) as nat, nal_type as int) is None);
                    lemma_read_nal_list_none_grows(
                        bytes@,
                        start,
                        (i + 1) as nat,
                        count as nat,
                        nal_type as int,
                    );
                    assert(spec_read_nal_list(bytes@, start, count as nat, nal_type as int) is None);
                    assert(e matches DecoderError::MisformedData(_));
                }
                return Err(e);
            },
        }
        nals.push(nal);
        proof {
            assert(byte_seqs(nals@) =~= before.push(nal@));
        }
        i = i + 1;
    }
    Ok(nals)
}

/// Parses an avcC blob: the constituent NAL byte arrays and the NAL
/// length-prefix size implied by `lengthSizeMinusOne`. Trailing bytes after
/// the PPS list (the High-profile extension) are ignored.
pub fn parse_avcc(bytes: &[u8]) -> (r: Result<Avcc, DecoderError>)
    ensures
        match spec_parse_avcc(bytes@) {
            Some(v) => r matches Ok(a) && a@ == v,
            None => r matches Err(DecoderError::MisformedData(_)),
        },
{
    if bytes.len() < 7 {
        return Err(DecoderError::MisformedData("avcC: truncated header".to_owned()));
    }
    if bytes[0] != 1 {
        return Err(DecoderError::MisformedData("avcC: unsupported configurationVersion".to_owned()));
    }
    let b4 = bytes[4];
    let length_size_minus_one = b4 & 0x03;
    assert(b4 & 0x03 == b4 % 4) by (bit_vector);
    if length_size_minus_one == 2 {
        return Err(
            DecoderError::MisformedData("avcC: reserved lengthSizeMinusOne value 2".to_owned()),
        );
    }
    let length_size = (length_size_minus_one as usize) + 1;
    let b5 = bytes[5];
    assert(b5 & 0x1F == b5 % 32) by (bit_vector);
    let num_of_sps = (b5 & 0x1F) as usize;
    let mut off: usize = 6;
    let sps_nals = read_nal_list(bytes, &mut off, num_of_sps, NAL_TYPE_SPS)?;
    if off >= bytes.len() {
        return Err(DecoderError::MisformedData("avcC: truncated before PPS count".to_owned()));
    }
    let num_of_pps = bytes[off] as usize;
    off = off + 1;
    let pps_nals = read_nal_list(bytes, &mut off, num_of_pps, NAL_TYPE_PPS)?;
    Ok(Avcc { length_size, sps_nals, pps_nals })
}

/// The first start code prefix at or after `from`, or `bytes.len()`.
fn find_start_code(bytes: &[u8], from: usize) -> (j: usize)
    requires
        from <= bytes.len(),
    ensures
        j == next_start_code(bytes@, from as int),
{
    let mut i = from;
    while bytes.len() - i >= 3
        invariant
            from <= i <= bytes.len(),
            next_start_code(bytes@, from as int) == next_start_code(bytes@, i as int),
        decreases bytes.len() - i,
    {
        if bytes[i] == 0 && bytes[i + 1] == 0 && bytes[i + 2] == 1 {
            return i;
        }
        i = i + 1;
    }
    bytes.len()
}

/// The end of `bytes[start..end]` once its trailing zero bytes are removed.
fn stripped_end(bytes: &[u8], start: usize, end: usize) -> (e: usize)
    requires
        start <= end <= bytes.len(),
    ensures
        start <= e <= end,
        bytes@.subrange(start as int, e as int) == strip_trailing_zeros(
            bytes@.subrange(start as int, end as int),
        ),
{
    let mut e = end;
    while e > start && bytes[e - 1] == 0
        invariant
            start <= e <= end <= bytes.len(),
            strip_trailing_zeros(bytes@.subrange(start as int, e as int)) == strip_trailing_zeros(
                bytes@.subrange(start as int, end as int),
            ),
        decreases e,
    {
        proof {
            assert(bytes@.subrange(start as int, e as int).drop_last() =~= bytes@.subrange(
                start as int,
                e - 1,
            ));
        }
        e = e - 1;
    }
    e
}

/// Splits an Annex-B byte stream into its non-empty NALs (start codes and
/// trailing zero bytes removed).
pub fn split_annexb(bytes: &[u8]) -> (nals: Vec<Vec<u8>>)
    ensures
        byte_seqs(nals@) == annexb_split(bytes@),
{
    let mut nals: Vec<Vec<u8>> = Vec::new();
    let first = find_start_code(bytes, 0);
    proof {
        lemma_next_start_code_bounds(bytes@, 0);
    }
    if bytes.len() - first < 3 {
        return nals;
    }
    let mut i = first + 3;
    loop
        invariant_except_break
            i <= bytes.len(),
            byte_seqs(nals@) + annexb_nals_from(bytes@, i as int) == annexb_split(bytes@),
        ensures
            byte_seqs(nals@) == annexb_split(bytes@),
        decreases bytes.len() - i,
    {
        let j = find_start_code(bytes, i);
        proof {
            lemma_next_start_code_bounds(bytes@, i as int);
        }
        let e = stripped_end(bytes, i, j);
        let ghost before = byte_seqs(nals@);
        let ghost nal = strip_trailing_zeros(bytes@.subrange(i as int, j as int));
        if e > i {
            let v = vstd::slice::slice_to_vec(vstd::slice::slice_subrange(bytes, i, e));
            nals.push(v);
            proof {
                assert(byte_seqs(nals@) =~= before + seq![nal]);
            }
        } else {
            assert(nal.len() == 0);
        }
        if bytes.len() - j >= 3 {
            proof {
                assert(byte_seqs(nals@) + annexb_nals_from(bytes@, j + 3) =~= before
                    + annexb_nals_from(bytes@, i as int));
            }
            i = j + 3;
        } else {
            proof {
                assert(byte_seqs(nals@) =~= before + annexb_nals_from(bytes@, i as int));
            }
            break;
        }
    }
    nals
}

/// Sniffs and parses an extradata blob: avcC when the first byte is 1,
/// otherwise Annex-B-framed SPS+PPS NALs. An empty input yields no NALs and
/// is not an error.
pub fn parse_extradata(bytes: &[u8]) -> (r: Result<ParsedExtradata, DecoderError>)
    ensures
        match spec_parse_extradata(bytes@) {
            Some(v) => r matches Ok(p) && p@ == v,
            None => r matches Err(DecoderError::MisformedData(_)),
        },
{
    if bytes.len() == 0 {
        let nals: Vec<Vec<u8>> = Vec::new();
        let p = ParsedExtradata { nals, length_size: None };
        assert(byte_seqs(p.nals@) =~= Seq::<Seq<u8>>::empty());
        return Ok(p);
    }
    if bytes[0] == 1 {
        let avcc = parse_avcc(bytes)?;
        let Avcc { length_size, sps_nals, pps_nals } = avcc;
        let ghost sps = byte_seqs(sps_nals@);
        let ghost pps = byte_seqs(pps_nals@);
        let mut nals = sps_nals;
        let mut rest = pps_nals;
        nals.append(&mut rest);
        assert(byte_seqs(nals@) =~= sps + pps);
        return Ok(ParsedExtradata { nals, length_size: Some(length_size) });
    }
    let nals = split_annexb(bytes);
    Ok(ParsedExtradata { nals, length_size: None })
}

/// Appends the bytes of `src` to `out`.
pub(crate) fn append_bytes(out: &mut Vec<u8>, src: &[u8])
    ensures
        final(out)@ == old(out)@ + src@,
{
    let ghost start = out@;
    let mut i: usize = 0;
    while i < src.len()
        invariant
            i <= src.len(),
            out@ == start + src@.subrange(0, i as int),
        decreases src.len() - i,
    {
        out.push(src[i]);
        proof {
            assert(src@.subrange(0, i + 1) =~= src@.subrange(0, i as int).push(src@[i as int]));
        }
        i = i + 1;
    }
    assert(src@.subrange(0, src.len() as int) =~= src@);
}

/// Appends `v` as two big-endian bytes.
fn push_u16_be(out: &mut Vec<u8>, v: u16)
    ensures
        final(out)@ == old(out)@ + u16_be(v as int),
{
    assert(v >> 8 == v / 256) by (bit_vector);
    assert(v & 0xFF == v % 256) by (bit_vector);
    out.push((v >> 8) as u8);
    out.push((v & 0xFF) as u8);
    assert(out@ =~= old(out)@ + u16_be(v as int));
}

/// Appends each NAL of `list`, preceded by its 2-byte big-endian length.
fn push_prefixed_list(out: &mut Vec<u8>, list: &[Vec<u8>])
    ensures
        final(out)@ == old(out)@ + spec_prefixed_list(byte_seqs(list@)),
{
    let ghost start = out@;
    let mut i: usize = 0;
    while i < list.len()
        invariant
            i <= list.len(),
            out@ == start + spec_prefixed_list(byte_seqs(list@.subrange(0, i as int))),
        decreases list.len() - i,
    {
        let nal = &list[i];
        push_u16_be(out, (nal.len() % 0x10000) as u16);
        append_bytes(out, nal.as_slice());
        proof {
            let prefix = byte_seqs(list@.subrange(0, i + 1));
            assert(prefix.drop_last() =~= byte_seqs(list@.subrange(0, i as int)));
            assert(prefix.last() == nal@);
            assert(out@ =~= start + spec_prefixed_list(prefix));
        }
        i = i + 1;
    }
    assert(list@.subrange(0, list.len() as int) =~= list@);
}

/// Builds an avcC blob (ISO/IEC 14496-15 AVCDecoderConfigurationRecord) from
/// SPS and PPS NAL byte arrays, with the NAL length-prefix size in bytes
/// (1, 2, or 4; 3 is reserved by the standard). The first SPS, when it has
/// at least 4 bytes, supplies the profile / compatibility / level bytes of
/// the header; otherwise they are zero.
pub fn build_avcc(sps_list: &[Vec<u8>], pps_list: &[Vec<u8>], length_size: u8) -> (out: Vec<u8>)
    requires
        length_size == 1 || length_size == 2 || length_size == 4,
        sps_list.len() < 32,
        pps_list.len() <= 255,
    ensures
        out@ == spec_build_avcc(byte_seqs(sps_list@), byte_seqs(pps_list@), length_size),
{
    let mut profile: u8 = 0;
    let mut compat: u8 = 0;
    let mut level: u8 = 0;
    if sps_list.len() > 0 && sps_list[0].len() >= 4 {
        profile = sps_list[0][1];
        compat = sps_list[0][2];
        level = sps_list[0][3];
    }
    let lm1 = length_size - 1;
    let ls_bits = lm1 & 0x03;
    let n_sps = sps_list.len() as u8;
    assert(0xFC | ls_bits == 0xFC + ls_bits && ls_bits == lm1 % 4) by (bit_vector)
        requires
            ls_bits == lm1 & 0x03,
    ;
    assert(0xE0 | (n_sps & 0x1F) == 0xE0 + n_sps % 32) by (bit_vector)
        requires
            n_sps < 32,
    ;
    let mut out: Vec<u8> = Vec::new();
    out.push(0x01);
    out.push(profile);
    out.push(compat);
    out.push(level);
    out.push(0xFC | ls_bits);
    out.push(0xE0 | (n_sps & 0x1F));
    let ghost header = out@;
    push_prefixed_list(&mut out, sps_list);
    out.push(pps_list.len() as u8);
    push_prefixed_list(&mut out, pps_list);
    proof {
        let sps = byte_seqs(sps_list@);
        let pps = byte_seqs(pps_list@);
        if sps.len() > 0 {
            assert(sps[0] == sps_list@[0]@);
        }
        assert(header =~= seq![
            1u8,
            profile,
            compat,
            level,
            (0xFC + (length_size - 1) % 4) as u8,
            (0xE0 + sps.len() % 32) as u8,
        ]);
        assert(out@ =~= spec_build_avcc(sps, pps, length_size));
    }
    out
}

proof fn lemma_be_value_u16(v: int)
    requires
        0 <= v <= 0xFFFF,
    ensures
        be_value(u16_be(v)) == v,
{
    let s = u16_be(v);
    let hi = seq![(v / 256) as u8];
    assert(s.drop_last() =~= hi);
    assert(hi.drop_last() =~= Seq::<u8>::empty());
    assert(be_value(hi) == be_value(hi.drop_last()) * 256 + hi.last() as nat);
    assert(be_value(hi) == v / 256);
    assert(be_value(s) == be_value(hi) * 256 + s.last() as nat);
}

/// The NALs that `spec_prefixed_list` writes read back, in order, as a list
/// of length-prefixed NALs, when each fits a 2-byte length and has type `t`.
proof fn lemma_read_prefixed_list(bytes: Seq<u8>, off: int, list: Seq<Seq<u8>>, t: int)
    requires
        0 <= off,
        off + spec_prefixed_list(list).len() <= bytes.len(),
        bytes.subrange(off, off + spec_prefixed_list(list).len()) == spec_prefixed_list(list),
        forall|i: int| 0 <= i < list.len() ==> has_nal_type(#[trigger] list[i], t),
        forall|i: int| 0 <= i < list.len() ==> (#[trigger] list[i]).len() <= 0xFFFF,
    ensures
        spec_read_nal_list(bytes, off, list.len(), t) == Some(
            (list, off + spec_prefixed_list(list).len()),
        ),
    decreases list.len(),
{
    if list.len() > 0 {
        let init = list.drop_last();
        let x = list.last();
        let p = spec_prefixed_list(init);
        let whole = spec_prefixed_list(list);
        let u = u16_be((x.len() % 0x10000) as int);
        assert(whole == p + u + x);
        assert(bytes.subrange(off, off + p.len()) =~= p) by {
            assert forall|k: int| 0 <= k < p.len() implies bytes.subrange(off, off + p.len())[k]
                == p[k] by {
                assert(bytes.subrange(off, off + whole.len())[k] == whole[k]);
            }
        }
        assert forall|i: int| 0 <= i < init.len() implies has_nal_type(#[trigger] init[i], t)
            && init[i].len() <= 0xFFFF by {
            assert(init[i] == list[i]);
        }
        lemma_read_prefixed_list(bytes, off, init, t);
        let o = off + p.len();
        assert(bytes.subrange(o, o + 2) =~= u) by {
            assert forall|k: int| 0 <= k < 2 implies bytes.subrange(o, o + 2)[k] == u[k] by {
                assert(bytes.subrange(off, off + whole.len())[p.len() + k] == whole[p.len() + k]);
            }
        }
        assert(x.len() % 0x10000 == x.len());
        lemma_be_value_u16(x.len() as int);
        assert(bytes.subrange(o + 2, o + 2 + x.len()) =~= x) by {
            assert forall|k: int| 0 <= k < x.len() implies bytes.subrange(o + 2, o + 2 + x.len())[k]
                == x[k] by {
                assert(bytes.subrange(off, off + whole.len())[p.len() + 2 + k] == whole[p.len()
                    + 2 + k]);
            }
        }
        assert(has_nal_type(list[list.len() - 1], t));
        assert(init.push(x) =~= list);
    }
}

/// What [`build_avcc`] writes, [`parse_avcc`] reads back: the same length
/// size, SPS NALs and PPS NALs, provided each NAL has the type of its list
/// and fits the record's 2-byte length field. [`parse_extradata`] then hands
/// out the SPS NALs followed by the PPS NALs.
pub proof fn lemma_build_then_parse_avcc(sps: Seq<Seq<u8>>, pps: Seq<Seq<u8>>, length_size: u8)
    requires
        length_size == 1 || length_size == 2 || length_size == 4,
        sps.len() < 32,
        pps.len() <= 255,
        forall|i: int| 0 <= i < sps.len() ==> has_nal_type(#[trigger] sps[i], NAL_TYPE_SPS as int),
        forall|i: int| 0 <= i < sps.len() ==> (#[trigger] sps[i]).len() <= 0xFFFF,
        forall|i: int| 0 <= i < pps.len() ==> has_nal_type(#[trigger] pps[i], NAL_TYPE_PPS as int),
        forall|i: int| 0 <= i < pps.len() ==> (#[trigger] pps[i]).len() <= 0xFFFF,
    ensures
        spec_parse_avcc(spec_build_avcc(sps, pps, length_size)) == Some(
            (length_size as nat, sps, pps),
        ),
        spec_parse_extradata(spec_build_avcc(sps, pps, length_size)) == Some(
            (sps + pps, Some(length_size as nat)),
        ),
{
    let b = spec_build_avcc(sps, pps, length_size);
    let ps = spec_prefixed_list(sps);
    let pp = spec_prefixed_list(pps);
    let has_ids = sps.len() > 0 && sps[0].len() >= 4;
    let profile: u8 = if has_ids { sps[0][1] } else { 0 };
    let compat: u8 = if has_ids { sps[0][2] } else { 0 };
    let level: u8 = if has_ids { sps[0][3] } else { 0 };
    let header = seq![
        1u8,
        profile,
        compat,
        level,
        (0xFC + (length_size - 1) % 4) as u8,
        (0xE0 + sps.len() % 32) as u8,
    ];
    let n = seq![(pps.len() % 256) as u8];
    assert(b == header + ps + n + pp);
    assert(b.subrange(6, 6 + ps.len() as int) =~= ps);
    lemma_read_prefixed_list(b, 6, sps, NAL_TYPE_SPS as int);
    let off: int = 6 + ps.len() as int;
    assert(b[off] == pps.len());
    assert(b.subrange(off + 1, off + 1 + pp.len()) =~= pp);
    lemma_read_prefixed_list(b, off + 1, pps, NAL_TYPE_PPS as int);
    assert(b[4] % 4 + 1 == length_size);
    assert(b[5] % 32 == sps.len());
}

/// The `n`-byte big-endian encoding of `v` (`avc_framed`'s prefix) reads
/// back as `v` when `v` fits.
pub proof fn lemma_be_bytes_value(v: nat, n: nat)
    requires
        v < vstd::arithmetic::power2::pow2(8 * n),
    ensures
        be_value(Seq::new(n, |i: int| crate::packets::be_byte(v, n, i as nat))) == v,
    decreases n,
{
    let s = Seq::new(n, |i: int| crate::packets::be_byte(v, n, i as nat));
    vstd::arithmetic::power2::lemma2_to64();
    if n == 0 {
        assert(v == 0);
    } else {
        let w = v / 256;
        let t = Seq::new((n - 1) as nat, |i: int| crate::packets::be_byte(w, (n - 1) as nat, i as nat));
        vstd::arithmetic::power2::lemma_pow2_adds(8, (8 * (n - 1)) as nat);
        assert(vstd::arithmetic::power2::pow2(8 * n) == 256 * vstd::arithmetic::power2::pow2((8 * (n - 1)) as nat));
        let p = vstd::arithmetic::power2::pow2((8 * (n - 1)) as nat);
        vstd::arithmetic::power2::lemma_pow2_pos((8 * (n - 1)) as nat);
        assert(w < p) by (nonlinear_arith)
            requires
                v < 256 * p,
                w == v / 256,
                p > 0,
        ;
        lemma_be_bytes_value(w, (n - 1) as nat);
        assert forall|i: int| 0 <= i < n - 1 implies #[trigger] s.drop_last()[i] == t[i] by {
            let k = (8 * (n - 1 - 1 - i)) as nat;
            vstd::arithmetic::power2::lemma_pow2_adds(8, k);
            vstd::arithmetic::power2::lemma_pow2_pos(k);
            assert((8 * (n - 1 - i)) as nat == 8 + k);
            vstd::arithmetic::div_mod::lemma_div_denominator(v as int, 256, vstd::arithmetic::power2::pow2(k) as int);
        }
        assert(s.drop_last() =~= t);
        assert(s.last() == (v % 256) as u8) by {
            assert((8 * (n - 1 - (n - 1))) as nat == 0);
        }
        vstd::arithmetic::div_mod::lemma_fundamental_div_mod(v as int, 256);
    }
}

/// A NAL unit framed by `avc_packet_with_length_size` between any bytes
/// reads back whole from the start of its frame, ending just past it; cut
/// anywhere inside the frame it does not read (the prefix or the payload
/// runs past the end).
pub proof fn lemma_framed_nal_round_trip(head: Seq<u8>, nal: Seq<u8>, tail: Seq<u8>, ls: nat, k: int)
    requires
        1 <= ls <= 4,
        nal.len() < vstd::arithmetic::power2::pow2(8 * ls),
        0 <= k < ls + nal.len(),
    ensures
        spec_read_nal(head + crate::packets::avc_framed(nal, ls) + tail, head.len() as int, ls as int) == Some(
            (nal, (head.len() + ls + nal.len()) as int),
        ),
        spec_read_nal(head + crate::packets::avc_framed(nal, ls).take(k), head.len() as int, ls as int) is None,
{
    let f = crate::packets::avc_framed(nal, ls);
    let prefix = Seq::new(ls, |i: int| crate::packets::be_byte(nal.len(), ls, i as nat));
    lemma_be_bytes_value(nal.len(), ls);
    let b = head + f + tail;
    let h = head.len() as int;
    assert(b.subrange(h, h + ls) =~= prefix);
    assert(b.subrange(h + ls, h + ls + nal.len()) =~= nal);
    let c = head + f.take(k);
    if k >= ls {
        assert(c.subrange(h, h + ls) =~= prefix);
    }
}

} // verus!

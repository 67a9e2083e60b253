//! Packaging NAL units into packets: Annex-B start codes (Annex B) or
//! big-endian length prefixes (ISO/IEC 14496-15), and sorting a stream's
//! NAL units into parameter sets and the rest.
use vstd::arithmetic::power2::pow2;
use vstd::prelude::*;

use crate::extradata::append_bytes;

verus! {

/// The 4-byte Annex-B start code.
pub open spec fn start_code() -> Seq<u8> {
    seq![0u8, 0u8, 0u8, 1u8]
}

/// The NAL units of `nals`, each behind a 4-byte start code, one after the
/// other.
pub open spec fn annexb_join(nals: Seq<Seq<u8>>) -> Seq<u8>
    decreases nals.len(),
{
    if nals.len() == 0 {
        Seq::empty()
    } else {
        annexb_join(nals.drop_last()) + start_code() + nals.last()
    }
}

/// Byte `i` of the `n`-byte big-endian encoding of `v` (the low `8 * n`
/// bits of `v`).
pub open spec fn be_byte(v: nat, n: nat, i: nat) -> u8 {
    ((v / pow2((8 * (n - 1 - i)) as nat)) % 256) as u8
}

/// The bytes of an AVC sample: the `n`-byte big-endian length of `nal`
/// followed by `nal`.
pub open spec fn avc_framed(nal: Seq<u8>, n: nat) -> Seq<u8> {
    Seq::new(n, |i: int| be_byte(nal.len(), n, i as nat)) + nal
}

/// Wraps a single NAL unit in a 4-byte Annex-B start code.
pub fn annexb_packet(nal: &[u8]) -> (buf: Vec<u8>)
    ensures
        buf@ == start_code() + nal@,
{
    let mut buf: Vec<u8> = Vec::new();
    buf.push(0);
    buf.push(0);
    buf.push(0);
    buf.push(1);
    append_bytes(&mut buf, nal);
    buf
}

/// Wraps NAL units into one Annex-B packet, each behind a 4-byte start
/// code.
pub fn annexb_packet_multi(nals: &[&[u8]]) -> (buf: Vec<u8>)
    ensures
        buf@ == annexb_join(nals@.map_values(|n: &[u8]| n@)),
{
    let ghost all = nals@.map_values(|n: &[u8]| n@);
    let mut buf: Vec<u8> = Vec::new();
    let mut i: usize = 0;
    while i < nals.len()
        invariant
            i <= nals@.len(),
            all == nals@.map_values(|n: &[u8]| n@),
            buf@ == annexb_join(all.subrange(0, i as int)),
        decreases nals@.len() - i,
    {
        proof {
            assert(all.subrange(0, i + 1).drop_last() =~= all.subrange(0, i as int));
        }
        buf.push(0);
        buf.push(0);
        buf.push(0);
        buf.push(1);
        append_bytes(&mut buf, nals[i]);
        assert(buf@ =~= annexb_join(all.subrange(0, i + 1)));
        i = i + 1;
    }
    assert(all.subrange(0, nals@.len() as int) =~= all);
    buf
}

/// Wraps a NAL unit with a `length_size`-byte big-endian length prefix.
pub fn avc_packet_with_length_size(nal: &[u8], length_size: usize) -> (buf: Vec<u8>)
    requires
        length_size <= 8,
    ensures
        buf@ == avc_framed(nal@, length_size as nat),
{
    let mut buf: Vec<u8> = Vec::new();
    let len = nal.len() as u64;
    let mut i: usize = 0;
    while i < length_size
        invariant
            i <= length_size <= 8,
            len == nal@.len(),
            buf@ == Seq::new(i as nat, |k: int| be_byte(nal@.len(), length_size as nat, k as nat)),
        decreases length_size - i,
    {
        let shift = (8 * (length_size - 1 - i)) as u64;
        proof {
            vstd::bits::lemma_u64_shr_is_div(len, shift);
        }
        let v = len >> shift;
        assert(v & 0xff == v % 256) by (bit_vector);
        buf.push((v & 0xff) as u8);
        assert(buf@ =~= Seq::new((i + 1) as nat, |k: int| be_byte(nal@.len(), length_size as nat, k as nat)));
        i = i + 1;
    }
    append_bytes(&mut buf, nal);
    buf
}

/// Each NAL unit of `nals` wrapped in its own Annex-B packet.
pub fn annexb_packets_from_nals(nals: &[Vec<u8>]) -> (packets: Vec<Vec<u8>>)
    ensures
        packets@.len() == nals@.len(),
        forall|i: int| 0 <= i < nals@.len() ==> #[trigger] packets@[i]@ == start_code() + nals@[i]@,
{
    let mut packets: Vec<Vec<u8>> = Vec::new();
    let mut i: usize = 0;
    while i < nals.len()
        invariant
            i <= nals@.len(),
            packets@.len() == i,
            forall|k: int| 0 <= k < i ==> #[trigger] packets@[k]@ == start_code() + nals@[k]@,
        decreases nals@.len() - i,
    {
        packets.push(annexb_packet(nals[i].as_slice()));
        i = i + 1;
    }
    packets
}

/// Each NAL unit of `nals` as its own AVC packet with a `length_size`-byte
/// length prefix.
pub fn avc_packets_from_nals(nals: &[Vec<u8>], length_size: usize) -> (packets: Vec<Vec<u8>>)
    requires
        length_size <= 8,
    ensures
        packets@.len() == nals@.len(),
        forall|i: int|
            0 <= i < nals@.len() ==> #[trigger] packets@[i]@ == avc_framed(nals@[i]@, length_size as nat),
{
    let mut packets: Vec<Vec<u8>> = Vec::new();
    let mut i: usize = 0;
    while i < nals.len()
        invariant
            i <= nals@.len(),
            length_size <= 8,
            packets@.len() == i,
            forall|k: int|
                0 <= k < i ==> #[trigger] packets@[k]@ == avc_framed(nals@[k]@, length_size as nat),
        decreases nals@.len() - i,
    {
        packets.push(avc_packet_with_length_size(nals[i].as_slice(), length_size));
        i = i + 1;
    }
    packets
}

/// `nal_unit_type` of a non-empty NAL unit.
pub open spec fn nal_kind(nal: Seq<u8>) -> u8 {
    nal[0] & 0x1f
}

/// The NAL units of a class: sequence parameter sets (`k == 7`), picture
/// parameter sets (`k == 8`), or any other type (`k == 0`). Empty units
/// belong to none.
pub open spec fn in_bucket(nal: Seq<u8>, k: u8) -> bool {
    nal.len() > 0 && if k == 7 || k == 8 {
        nal_kind(nal) == k
    } else {
        nal_kind(nal) != 7 && nal_kind(nal) != 8
    }
}

/// The NAL units of `nals` of class `k`, in order.
pub open spec fn bucket(nals: Seq<Seq<u8>>, k: u8) -> Seq<Seq<u8>>
    decreases nals.len(),
{
    if nals.len() == 0 {
        Seq::empty()
    } else if in_bucket(nals.last(), k) {
        bucket(nals.drop_last(), k).push(nals.last())
    } else {
        bucket(nals.drop_last(), k)
    }
}

/// Sorts a stream's NAL units into (sequence parameter sets, picture
/// parameter sets, the rest), keeping their order and dropping empty
/// units.
pub fn bucket_fixture_nals(nals: Vec<Vec<u8>>) -> (r: (Vec<Vec<u8>>, Vec<Vec<u8>>, Vec<Vec<u8>>))
    ensures
        r.0@.map_values(|n: Vec<u8>| n@) == bucket(nals@.map_values(|n: Vec<u8>| n@), 7),
        r.1@.map_values(|n: Vec<u8>| n@) == bucket(nals@.map_values(|n: Vec<u8>| n@), 8),
        r.2@.map_values(|n: Vec<u8>| n@) == bucket(nals@.map_values(|n: Vec<u8>| n@), 0),
{
    let ghost all = nals@.map_values(|n: Vec<u8>| n@);
    let mut sps: Vec<Vec<u8>> = Vec::new();
    let mut pps: Vec<Vec<u8>> = Vec::new();
    let mut samples: Vec<Vec<u8>> = Vec::new();
    let mut i: usize = 0;
    while i < nals.len()
        invariant
            i <= nals@.len(),
            all == nals@.map_values(|n: Vec<u8>| n@),
            sps@.map_values(|n: Vec<u8>| n@) == bucket(all.subrange(0, i as int), 7),
            pps@.map_values(|n: Vec<u8>| n@) == bucket(all.subrange(0, i as int), 8),
            samples@.map_values(|n: Vec<u8>| n@) == bucket(all.subrange(0, i as int), 0),
        decreases nals@.len() - i,
    {
        let ghost prefix = all.subrange(0, i + 1);
        proof {
            assert(prefix.drop_last() =~= all.subrange(0, i as int));
            assert(prefix.last() == nals@[i as int]@);
        }
        let nal = nals[i].clone();
        assert(nal@ == nals@[i as int]@);
        if nal.len() > 0 {
            let nal_type = nal[0] & 0x1F;
            if nal_type == 7 {
                sps.push(nal);
            } else if nal_type == 8 {
                pps.push(nal);
            } else {
                samples.push(nal);
            }
        }
        assert(sps@.map_values(|n: Vec<u8>| n@) =~= bucket(prefix, 7));
        assert(pps@.map_values(|n: Vec<u8>| n@) =~= bucket(prefix, 8));
        assert(samples@.map_values(|n: Vec<u8>| n@) =~= bucket(prefix, 0));
        i = i + 1;
    }
    assert(all.subrange(0, nals@.len() as int) =~= all);
    (sps, pps, samples)
}

/// A view of one decoded plane: `height` rows of `width` samples, rows
/// `stride` bytes apart.
pub struct PlaneView<'a> {
    pub data: &'a [u8],
    pub width: usize,
    pub height: usize,
    pub stride: usize,
}

/// Every sample of the view lies in its data: an empty view has no data,
/// and otherwise the last sample `(height - 1) * stride + width - 1` is a
/// valid index.
pub fn plane_data_is_addressable(view: &PlaneView) -> (b: bool)
    requires
        view.height == 0 || view.width == 0 || (view.height - 1) * view.stride + view.width
            <= usize::MAX,
    ensures
        b == if view.height == 0 || view.width == 0 {
            view.data@.len() == 0
        } else {
            view.data@.len() >= (view.height - 1) * view.stride + view.width
        },
{
    if view.height == 0 || view.width == 0 {
        return view.data.len() == 0;
    }
    view.data.len() >= (view.height - 1) * view.stride + view.width
}

} // verus!

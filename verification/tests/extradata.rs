use lib::packets::avc_packet_with_length_size;
use lib::error::DecoderError;
use lib::extradata::{build_avcc, parse_avcc, parse_extradata, split_annexb};

const SPS_NAL: &[u8] = &[0x67, 0x42, 0x00, 0x1E, 0xAB, 0xCD];
const SPS_NAL_2: &[u8] = &[0x67, 0x4D, 0x40, 0x29, 0x11, 0x22];
const PPS_NAL: &[u8] = &[0x68, 0xEE, 0x12];
const PPS_NAL_2: &[u8] = &[0x68, 0xFA, 0x34, 0x56];

fn sample_avcc(sps_list: &[&[u8]], pps_list: &[&[u8]], length_size: u8) -> Vec<u8> {
    let sps_vec: Vec<Vec<u8>> = sps_list.iter().map(|s| s.to_vec()).collect();
    let pps_vec: Vec<Vec<u8>> = pps_list.iter().map(|p| p.to_vec()).collect();
    build_avcc(&sps_vec, &pps_vec, length_size)
}

#[test]
fn parses_well_formed_avcc_one_sps_one_pps() {
    let bytes = sample_avcc(&[SPS_NAL], &[PPS_NAL], 4);
    let avcc = parse_avcc(&bytes).expect("parse");
    assert_eq!(avcc.length_size, 4);
    assert_eq!(avcc.sps_nals, vec![SPS_NAL.to_vec()]);
    assert_eq!(avcc.pps_nals, vec![PPS_NAL.to_vec()]);
}

#[test]
fn parses_multiple_sps_and_pps() {
    let bytes = sample_avcc(&[SPS_NAL, SPS_NAL_2], &[PPS_NAL, PPS_NAL_2], 4);
    let avcc = parse_avcc(&bytes).expect("parse");
    assert_eq!(avcc.sps_nals.len(), 2);
    assert_eq!(avcc.pps_nals.len(), 2);
    assert_eq!(avcc.sps_nals[1], SPS_NAL_2);
    assert_eq!(avcc.pps_nals[1], PPS_NAL_2);
}

#[test]
fn honors_length_size_one_byte() {
    let bytes = sample_avcc(&[SPS_NAL], &[PPS_NAL], 1);
    let avcc = parse_avcc(&bytes).expect("parse");
    assert_eq!(avcc.length_size, 1);
}

#[test]
fn honors_length_size_two_byte() {
    let bytes = sample_avcc(&[SPS_NAL], &[PPS_NAL], 2);
    let avcc = parse_avcc(&bytes).expect("parse");
    assert_eq!(avcc.length_size, 2);
}

#[test]
fn rejects_reserved_length_size_minus_one_equal_two() {
    // Hand-craft an avcC with lengthSizeMinusOne=2.
    let mut bytes = sample_avcc(&[SPS_NAL], &[PPS_NAL], 4);
    bytes[4] = 0xFE; // 0b1111_1110 -> lengthSizeMinusOne=2
    let err = parse_avcc(&bytes).unwrap_err();
    assert!(matches!(err, DecoderError::MisformedData(_)));
}

#[test]
fn rejects_non_one_configuration_version() {
    let mut bytes = sample_avcc(&[SPS_NAL], &[PPS_NAL], 4);
    bytes[0] = 0x02;
    let err = parse_avcc(&bytes).unwrap_err();
    assert!(matches!(err, DecoderError::MisformedData(_)));
}

#[test]
fn rejects_input_shorter_than_header() {
    let bytes = vec![0x01, 0x42, 0x00, 0x1E];
    let err = parse_avcc(&bytes).unwrap_err();
    assert!(matches!(err, DecoderError::MisformedData(_)));
}

#[test]
fn rejects_truncated_sps_length_prefix() {
    let mut bytes = sample_avcc(&[SPS_NAL], &[PPS_NAL], 4);
    bytes.truncate(7); // header (6) + 1 of the 2-byte SPS length
    let err = parse_avcc(&bytes).unwrap_err();
    assert!(matches!(err, DecoderError::MisformedData(_)));
}

#[test]
fn rejects_truncated_sps_payload() {
    let mut bytes = sample_avcc(&[SPS_NAL], &[PPS_NAL], 4);
    // header (6) + SPS length prefix (2) + half of the SPS bytes
    bytes.truncate(6 + 2 + SPS_NAL.len() / 2);
    let err = parse_avcc(&bytes).unwrap_err();
    assert!(matches!(err, DecoderError::MisformedData(_)));
}

#[test]
fn rejects_truncated_before_pps_count() {
    let mut bytes = sample_avcc(&[SPS_NAL], &[PPS_NAL], 4);
    // Cut right after the SPS payload (before numOfPPS).
    bytes.truncate(6 + 2 + SPS_NAL.len());
    let err = parse_avcc(&bytes).unwrap_err();
    assert!(matches!(err, DecoderError::MisformedData(_)));
}

#[test]
fn rejects_truncated_pps_length_prefix() {
    let mut bytes = sample_avcc(&[SPS_NAL], &[PPS_NAL], 4);
    // Cut after numOfPPS but before the PPS length is complete.
    bytes.truncate(6 + 2 + SPS_NAL.len() + 1 + 1);
    let err = parse_avcc(&bytes).unwrap_err();
    assert!(matches!(err, DecoderError::MisformedData(_)));
}

#[test]
fn rejects_truncated_pps_payload() {
    let mut bytes = sample_avcc(&[SPS_NAL], &[PPS_NAL], 4);
    bytes.truncate(6 + 2 + SPS_NAL.len() + 1 + 2 + PPS_NAL.len() / 2);
    let err = parse_avcc(&bytes).unwrap_err();
    assert!(matches!(err, DecoderError::MisformedData(_)));
}

#[test]
fn rejects_non_sps_in_sps_slot() {
    let pps_in_sps_slot: &[u8] = PPS_NAL; // NAL type 8 in SPS slot
    let bytes = sample_avcc(&[pps_in_sps_slot], &[PPS_NAL], 4);
    let err = parse_avcc(&bytes).unwrap_err();
    assert!(matches!(err, DecoderError::MisformedData(_)));
}

#[test]
fn rejects_non_pps_in_pps_slot() {
    let sps_in_pps_slot: &[u8] = SPS_NAL; // NAL type 7 in PPS slot
    let bytes = sample_avcc(&[SPS_NAL], &[sps_in_pps_slot], 4);
    let err = parse_avcc(&bytes).unwrap_err();
    assert!(matches!(err, DecoderError::MisformedData(_)));
}

#[test]
fn accepts_trailing_bytes_after_pps_list() {
    // High-profile avcC has additional fields (sps_ext etc.) after
    // the PPS list. The parser must ignore them.
    let mut bytes = sample_avcc(&[SPS_NAL], &[PPS_NAL], 4);
    bytes.extend_from_slice(&[0xFC, 0x01, 0xFE, 0x00]); // chroma_format_idc etc.
    let avcc = parse_avcc(&bytes).expect("parse");
    assert_eq!(avcc.length_size, 4);
    assert_eq!(avcc.sps_nals.len(), 1);
    assert_eq!(avcc.pps_nals.len(), 1);
}

#[test]
fn parse_extradata_empty_input_yields_no_nals() {
    let parsed = parse_extradata(&[]).expect("parse");
    assert!(parsed.nals.is_empty());
    assert_eq!(parsed.length_size, None);
}

#[test]
fn parse_extradata_dispatches_avcc_on_first_byte_one() {
    let bytes = sample_avcc(&[SPS_NAL], &[PPS_NAL], 4);
    let parsed = parse_extradata(&bytes).expect("parse");
    assert_eq!(parsed.length_size, Some(4));
    assert_eq!(parsed.nals.len(), 2);
    assert_eq!(parsed.nals[0], SPS_NAL);
    assert_eq!(parsed.nals[1], PPS_NAL);
}

#[test]
fn parse_extradata_annexb_form_with_long_start_codes() {
    let mut bytes = Vec::new();
    bytes.extend_from_slice(&[0, 0, 0, 1]);
    bytes.extend_from_slice(SPS_NAL);
    bytes.extend_from_slice(&[0, 0, 0, 1]);
    bytes.extend_from_slice(PPS_NAL);
    let parsed = parse_extradata(&bytes).expect("parse");
    assert_eq!(parsed.length_size, None);
    assert_eq!(parsed.nals, vec![SPS_NAL.to_vec(), PPS_NAL.to_vec()]);
}

#[test]
fn parse_extradata_annexb_form_with_short_start_codes() {
    let mut bytes = Vec::new();
    bytes.extend_from_slice(&[0, 0, 1]);
    bytes.extend_from_slice(SPS_NAL);
    bytes.extend_from_slice(&[0, 0, 1]);
    bytes.extend_from_slice(PPS_NAL);
    let parsed = parse_extradata(&bytes).expect("parse");
    assert_eq!(parsed.length_size, None);
    assert_eq!(parsed.nals, vec![SPS_NAL.to_vec(), PPS_NAL.to_vec()]);
}

#[test]
fn build_avcc_emits_expected_header_bytes() {
    let bytes = build_avcc(&[SPS_NAL.to_vec()], &[PPS_NAL.to_vec()], 4);
    assert_eq!(bytes[0], 0x01);            // configurationVersion
    assert_eq!(bytes[1], SPS_NAL[1]);      // profile
    assert_eq!(bytes[2], SPS_NAL[2]);      // compat
    assert_eq!(bytes[3], SPS_NAL[3]);      // level
    assert_eq!(bytes[4], 0xFF);            // lengthSize=4 -> minusOne=3
    assert_eq!(bytes[5], 0xE1);            // numOfSPS=1
}

#[test]
fn build_avcc_round_trips_through_parse_avcc() {
    let sps = vec![SPS_NAL.to_vec(), SPS_NAL_2.to_vec()];
    let pps = vec![PPS_NAL.to_vec(), PPS_NAL_2.to_vec()];
    let bytes = build_avcc(&sps, &pps, 2);
    let parsed = parse_avcc(&bytes).expect("parse");
    assert_eq!(parsed.length_size, 2);
    assert_eq!(parsed.sps_nals, sps);
    assert_eq!(parsed.pps_nals, pps);
}

#[test]
fn build_avcc_with_empty_sps_list_still_parses() {
    let bytes = build_avcc(&[], &[PPS_NAL.to_vec()], 4);
    let parsed = parse_avcc(&bytes).expect("parse");
    assert!(parsed.sps_nals.is_empty());
    assert_eq!(parsed.pps_nals.len(), 1);
}


/// avcC blob from data/bear.mp4. High profile, 320x180, 30fps.
const BEAR_AVCC: &[u8] = &[
    0x01,                   // configurationVersion
    0x64, 0x00, 0x0d,       // profile=High(100), compat=0, level=13 (1.3)
    0xff,                   // reserved(6) | lengthSizeMinusOne=3 (4-byte)
    0xe1,                   // reserved(3) | numOfSPS=1
    0x00, 0x18,             // SPS length = 24
    0x67, 0x64, 0x00, 0x0d, 0xac, 0x34, 0xe5, 0x05,
    0x06, 0x7e, 0x78, 0x40, 0x00, 0x00, 0x19, 0x00,
    0x00, 0x05, 0xda, 0xa3, 0xc5, 0x0a, 0x45, 0x80,
    0x01,                   // numOfPPS=1
    0x00, 0x05,             // PPS length = 5
    0x68, 0xee, 0xb2, 0xc8, 0xb0,
];

#[test]
fn bear_avcc_parses_through_extradata_pipeline() {
    let parsed = parse_extradata(BEAR_AVCC).expect("parse BEAR_AVCC");
    assert_eq!(parsed.length_size, Some(4));
    assert_eq!(parsed.nals.len(), 2, "one SPS + one PPS expected");
    assert_eq!(parsed.nals[0][0] & 0x1F, 7, "first NAL must be SPS");
    assert_eq!(parsed.nals[1][0] & 0x1F, 8, "second NAL must be PPS");
}

#[test]
fn split_annexb_drops_leading_bytes_and_empty_nals() {
    // Bytes before the first start code, two start codes in a row, and a
    // NAL made only of zero bytes all yield nothing.
    let bytes = [0x09, 0x00, 0x00, 0x01, 0x00, 0x00, 0x01, 0x67, 0x42, 0x00, 0x00, 0x00, 0x01,
        0x00, 0x00, 0x00, 0x00, 0x01, 0x68, 0xEE];
    assert_eq!(split_annexb(&bytes), vec![vec![0x67, 0x42], vec![0x68, 0xEE]]);
    assert!(split_annexb(&[0x67, 0x42, 0x00]).is_empty());
    assert!(split_annexb(&[0, 0, 1]).is_empty());
}

#[test]
fn parse_extradata_rejects_malformed_avcc() {
    // First byte 1 selects avcC; a truncated record is an error.
    let err = parse_extradata(&[0x01, 0x42, 0x00]).unwrap_err();
    assert!(matches!(err, DecoderError::MisformedData(_)));
}

#[test]
fn build_then_parse_round_trips_with_one_byte_lengths() {
    // The law of the record on one set of values: what build_avcc writes,
    // parse_extradata hands back as SPS NALs then PPS NALs.
    let sps = vec![SPS_NAL.to_vec()];
    let pps = vec![PPS_NAL.to_vec(), PPS_NAL_2.to_vec()];
    let bytes = build_avcc(&sps, &pps, 1);
    assert_eq!(bytes[4], 0xFC);
    let parsed = parse_extradata(&bytes).expect("parse");
    assert_eq!(parsed.length_size, Some(1));
    assert_eq!(parsed.nals, vec![SPS_NAL.to_vec(), PPS_NAL.to_vec(), PPS_NAL_2.to_vec()]);
}

#[test]
fn nals_framed_with_two_byte_lengths_read_back_from_an_avcc_record() {
    let mut record = vec![1u8, 0x42, 0x00, 0x1E, 0xFF, 0xE1];
    record.extend(avc_packet_with_length_size(SPS_NAL, 2));
    record.push(1);
    record.extend(avc_packet_with_length_size(PPS_NAL, 2));
    let avcc = parse_avcc(&record).expect("record parses");
    assert_eq!(avcc.length_size, 4);
    assert_eq!(avcc.sps_nals, vec![SPS_NAL.to_vec()]);
    assert_eq!(avcc.pps_nals, vec![PPS_NAL.to_vec()]);
    // Cut inside the last frame: the record no longer parses.
    record.pop();
    assert!(matches!(parse_avcc(&record), Err(DecoderError::MisformedData(_))));
}

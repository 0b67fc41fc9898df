use rtcm3::bits::{parse_bits, BitError};
use rtcm3::crc::crc24q_new;
use rtcm3::frame::{scan, Frame};
use rtcm3::message::{classify, decode, extract_msm7, kind_of_number, MessageInformation, MessageType};

const MSM7_PAYLOAD: [u8; 7] = [67, 80, 5, 0, 7, 137, 0];
const MSM7_FRAME: [u8; 13] = [211, 0, 7, 67, 80, 5, 0, 7, 137, 0, 54, 164, 43];
const UNKNOWN_FRAME: [u8; 8] = [211, 0, 2, 250, 7, 11, 183, 238];

/// Wraps `payload` in a header and a trailer whose checksum makes the frame valid.
fn encode_frame(payload: &[u8]) -> Vec<u8> {
    let len = payload.len();
    let mut out = vec![0xD3, (len >> 8) as u8, (len & 0xFF) as u8];
    out.extend_from_slice(payload);
    let c = crc24q_new(&out);
    out.push((c >> 16) as u8);
    out.push((c >> 8) as u8);
    out.push(c as u8);
    out
}

fn payloads(frames: &[Frame]) -> Vec<Vec<u8>> {
    frames.iter().map(|f| f.payload().to_vec()).collect()
}

#[test]
fn checksum_of_empty_input_is_zero() {
    assert_eq!(crc24q_new(&[]), 0);
}

#[test]
fn checksum_matches_standard_check_value() {
    assert_eq!(crc24q_new(b"123456789"), 0xCDE703);
}

#[test]
fn checksum_of_valid_frame_is_zero() {
    assert_eq!(crc24q_new(&MSM7_FRAME), 0);
    assert_eq!(crc24q_new(&UNKNOWN_FRAME), 0);
    assert_eq!(crc24q_new(&encode_frame(&[])), 0);
}

#[test]
fn checksum_detects_every_single_bit_flip() {
    for i in 0..MSM7_FRAME.len() {
        for k in 0..8 {
            let mut f = MSM7_FRAME;
            f[i] ^= 1 << k;
            assert_ne!(crc24q_new(&f), 0, "byte {} bit {}", i, k);
        }
    }
}

#[test]
fn read_bits_examples() {
    let buf = [0b10110100u8, 0b11000000u8];
    assert_eq!(parse_bits(&buf, 0, 4), Ok(11));
    assert_eq!(parse_bits(&buf, 4, 8), Ok(76));
    assert_eq!(parse_bits(&buf, 0, 16), Ok(0b1011_0100_1100_0000));
    assert_eq!(parse_bits(&buf, 7, 0), Ok(0));
}

#[test]
fn read_bits_past_end_is_out_of_range() {
    let buf = [0b10110100u8, 0b11000000u8];
    assert_eq!(parse_bits(&buf, 10, 7), Err(BitError::OutOfRange));
    assert_eq!(parse_bits(&buf, 0, 17), Err(BitError::OutOfRange));
    assert_eq!(parse_bits(&buf, 16, 1), Err(BitError::OutOfRange));
    assert_eq!(parse_bits(&[], 0, 1), Err(BitError::OutOfRange));
    assert_eq!(parse_bits(&buf, usize::MAX, 2), Err(BitError::OutOfRange));
    assert_eq!(parse_bits(&buf, 16, 0), Ok(0));
}

#[test]
fn read_bits_full_width_across_bytes() {
    let buf = [0x12u8, 0x34, 0x56, 0x78, 0x9A];
    assert_eq!(parse_bits(&buf, 0, 32), Ok(0x1234_5678));
    assert_eq!(parse_bits(&buf, 4, 32), Ok(0x2345_6789));
    assert_eq!(parse_bits(&buf, 3, 13), Ok(0x1234 & 0x1FFF));
}

#[test]
fn read_bits_wider_than_32_keeps_low_bits() {
    let buf = [0x12u8, 0x34, 0x56, 0x78, 0x9A];
    assert_eq!(parse_bits(&buf, 0, 40), Ok(0x3456_789A));
}

#[test]
fn classify_gps_msm7() {
    assert_eq!(classify(&MSM7_PAYLOAD), Ok(MessageType::GPSMSM7));
    assert_eq!(classify(&[0x43, 0x50]), Ok(MessageType::GPSMSM7));
}

#[test]
fn classify_unknown_codes() {
    assert_eq!(kind_of_number(9999), MessageType::Unknown { val: 9999 });
    assert_eq!(classify(&[250, 7]), Ok(MessageType::Unknown { val: 4000 }));
    assert_eq!(classify(&[0, 0]), Ok(MessageType::Unknown { val: 0 }));
}

#[test]
fn classify_catalog_entries() {
    assert_eq!(kind_of_number(1230), MessageType::GLONASSL1AndL2CodePhaseBiases);
    assert_eq!(kind_of_number(1127), MessageType::BeiDouMSM7);
    assert_eq!(kind_of_number(1013), MessageType::SystemParameters);
    assert_eq!(kind_of_number(1044), MessageType::QZSSEphemerides);
}

#[test]
fn classify_short_payload_is_out_of_range() {
    assert_eq!(classify(&[0x43]), Err(BitError::OutOfRange));
    assert_eq!(classify(&[]), Err(BitError::OutOfRange));
}

#[test]
fn decode_msm7_header_fields() {
    let expected = MessageInformation::MSM7 { message_number: 1077, reference_station_id: 5, epoch_time: 123456 };
    assert_eq!(extract_msm7(&MSM7_PAYLOAD), Ok(expected));
    assert_eq!(decode(MessageType::GPSMSM7, &MSM7_PAYLOAD), Ok(expected));
    assert_eq!(decode(MessageType::BeiDouMSM7, &MSM7_PAYLOAD), Ok(expected));
}

#[test]
fn decode_kind_without_decoder_is_unparsed() {
    assert_eq!(decode(MessageType::GPSEphemerides, &MSM7_PAYLOAD), Ok(MessageInformation::Unparsed));
    assert_eq!(decode(MessageType::Unknown { val: 4000 }, &[]), Ok(MessageInformation::Unparsed));
}

#[test]
fn decode_short_msm7_payload_is_out_of_range() {
    assert_eq!(extract_msm7(&MSM7_PAYLOAD[..6]), Err(BitError::OutOfRange));
    assert_eq!(decode(MessageType::GPSMSM7, &MSM7_PAYLOAD[..6]), Err(BitError::OutOfRange));
}

#[test]
fn scan_without_preamble_yields_nothing() {
    assert!(scan(&[]).is_empty());
    assert!(scan(&[0x00, 0x01, 0xFF, 0x12, 0x34, 0x56, 0x78]).is_empty());
}

#[test]
fn scan_single_frame_round_trip() {
    let frames = scan(&MSM7_FRAME);
    assert_eq!(frames.len(), 1);
    assert_eq!(frames[0].payload(), &MSM7_PAYLOAD[..]);
    assert_eq!(frames[0].payload_length(), 7);

    let big: Vec<u8> = (0..1023u32).map(|i| (i * 7 + 3) as u8).collect();
    let frames = scan(&encode_frame(&big));
    assert_eq!(frames.len(), 1);
    assert_eq!(frames[0].payload(), &big[..]);
    assert_eq!(frames[0].payload_length(), 1023);

    let frames = scan(&encode_frame(&[]));
    assert_eq!(frames.len(), 1);
    assert_eq!(frames[0].payload_length(), 0);
}

#[test]
fn scan_finds_frame_after_noise() {
    let mut buf = vec![0x00, 0xD3, 0x00, 0xD3, 0x55];
    buf.extend_from_slice(&MSM7_FRAME);
    buf.extend_from_slice(&[0xD3, 0x00]);
    assert_eq!(payloads(&scan(&buf)), vec![MSM7_PAYLOAD.to_vec()]);
}

#[test]
fn scan_skips_truncated_frame() {
    assert!(scan(&MSM7_FRAME[..12]).is_empty());
    assert!(scan(&[0xD3]).is_empty());
    assert!(scan(&[0xD3, 0x00]).is_empty());
}

#[test]
fn scan_masks_reserved_length_bits() {
    let mut f = MSM7_FRAME;
    f[1] |= 0xFC;
    let c = crc24q_new(&f[..10]);
    f[10] = (c >> 16) as u8;
    f[11] = (c >> 8) as u8;
    f[12] = c as u8;
    let frames = scan(&f);
    assert_eq!(frames.len(), 1);
    assert_eq!(frames[0].payload_length(), 7);
    assert_eq!(frames[0].payload(), &MSM7_PAYLOAD[..]);
}

#[test]
fn scan_resyncs_after_corrupted_frame() {
    let mut buf = MSM7_FRAME.to_vec();
    buf[5] ^= 0xFF;
    buf.extend_from_slice(&UNKNOWN_FRAME);
    assert_eq!(payloads(&scan(&buf)), vec![vec![250u8, 7]]);
}

#[test]
fn scan_finds_adjacent_frames() {
    let empty = [0xD3u8, 0x00, 0x00, 0x47, 0xEA, 0x4B];
    let mut buf = empty.to_vec();
    buf.extend_from_slice(&empty);
    assert_eq!(payloads(&scan(&buf)), vec![Vec::<u8>::new(), Vec::new()]);

    let mut buf = UNKNOWN_FRAME.to_vec();
    buf.extend_from_slice(&MSM7_FRAME);
    buf.extend_from_slice(&UNKNOWN_FRAME);
    assert_eq!(payloads(&scan(&buf)), vec![vec![250u8, 7], MSM7_PAYLOAD.to_vec(), vec![250u8, 7]]);
}

#[test]
fn end_to_end_two_frames() {
    let mut buf = UNKNOWN_FRAME.to_vec();
    buf.extend_from_slice(&MSM7_FRAME);
    let frames = scan(&buf);
    let results: Vec<(MessageType, MessageInformation)> = frames
        .iter()
        .map(|f| {
            let kind = classify(f.payload()).unwrap();
            (kind, decode(kind, f.payload()).unwrap())
        })
        .collect();
    assert_eq!(
        results,
        vec![
            (MessageType::Unknown { val: 4000 }, MessageInformation::Unparsed),
            (
                MessageType::GPSMSM7,
                MessageInformation::MSM7 { message_number: 1077, reference_station_id: 5, epoch_time: 123456 }
            ),
        ]
    );
    assert_eq!(frames[1].get_type(), Ok(MessageType::GPSMSM7));
    assert_eq!(frames[0].get_information(), Ok(MessageInformation::Unparsed));
}

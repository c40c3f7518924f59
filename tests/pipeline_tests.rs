use hlscaptionfinder::caption::CaptionDetector;
use hlscaptionfinder::libcaption_compat::LibcaptionTsParser;
use hlscaptionfinder::mpeg_ts::{MpegTsParser, PesPacket, TsParseResult, TsParser};
use hlscaptionfinder::optimized_ts_parser::OptimizedTsParser;
use hlscaptionfinder::pipeline::{caption_from_payload, extract_captions};

const PMT_PID: u16 = 0x1000;
const VIDEO_PID: u16 = 0x0100;

/// A 188-byte packet; the payload is padded with adaptation-field stuffing.
fn ts_packet(pid: u16, pusi: bool, payload: &[u8]) -> Vec<u8> {
    assert!(payload.len() <= 184);
    let mut p = vec![0x47, ((pid >> 8) as u8 & 0x1F) | if pusi { 0x40 } else { 0 }, pid as u8];
    let stuffing = 184 - payload.len();
    if stuffing == 0 {
        p.push(0x10);
    } else {
        p.push(0x30);
        p.push((stuffing - 1) as u8);
        if stuffing > 1 {
            p.push(0x00);
            p.extend(std::iter::repeat(0xFF).take(stuffing - 2));
        }
    }
    p.extend_from_slice(payload);
    assert_eq!(p.len(), 188);
    p
}

/// A packet whose payload is one PSI section, padded with 0xFF.
fn psi_packet(pid: u16, section: &[u8]) -> Vec<u8> {
    let mut payload = vec![0x00];
    payload.extend_from_slice(section);
    payload.resize(184, 0xFF);
    ts_packet(pid, true, &payload)
}

fn pat() -> Vec<u8> {
    let section = [
        0x00, 0xB0, 0x0D, 0x00, 0x01, 0xC1, 0x00, 0x00, 0x00, 0x01,
        0xE0 | (PMT_PID >> 8) as u8, PMT_PID as u8, 0, 0, 0, 0,
    ];
    psi_packet(0, &section)
}

fn pmt(entries: &[(u8, u16)]) -> Vec<u8> {
    let section_length = 9 + 5 * entries.len() + 4;
    let mut section = vec![
        0x02, 0xB0, section_length as u8, 0x00, 0x01, 0xC1, 0x00, 0x00, 0xE1, 0x00, 0xF0, 0x00,
    ];
    for (stream_type, pid) in entries {
        section.extend_from_slice(&[*stream_type, 0xE0 | (pid >> 8) as u8, *pid as u8, 0xF0, 0x00]);
    }
    section.extend_from_slice(&[0, 0, 0, 0]);
    psi_packet(PMT_PID, &section)
}

fn timestamp_bytes(prefix: u8, t: u64) -> [u8; 5] {
    [
        prefix | (((t >> 29) as u8) & 0x0E) | 1,
        (t >> 22) as u8,
        ((t >> 14) as u8 & 0xFE) | 1,
        (t >> 7) as u8,
        ((t << 1) as u8 & 0xFE) | 1,
    ]
}

/// A PES header with a PTS, followed by `es`.
fn pes(pts: u64, es: &[u8]) -> Vec<u8> {
    let mut v = vec![0x00, 0x00, 0x01, 0xE0, 0x00, 0x00, 0x80, 0x80, 0x05];
    v.extend_from_slice(&timestamp_bytes(0x20, pts));
    v.extend_from_slice(es);
    v
}

/// Sets the parity bit so that the byte has odd parity.
fn odd(b: u8) -> u8 {
    if b.count_ones() % 2 == 0 {
        b | 0x80
    } else {
        b
    }
}

/// A GA94 user-data payload with the given `cc_data` triplets.
fn ga94(identifier: &[u8; 4], triplets: &[(u8, u8, u8)]) -> Vec<u8> {
    let mut v = vec![0xB5, 0x00, 0x31];
    v.extend_from_slice(identifier);
    v.push(0x03);
    v.push(0x40 | triplets.len() as u8);
    v.push(0xFF);
    for (head, d1, d2) in triplets {
        v.extend_from_slice(&[*head, *d1, *d2]);
    }
    v
}

fn text_triplet(a: u8, b: u8) -> (u8, u8, u8) {
    (0xFC, odd(a), odd(b))
}

/// An H.264 SEI NAL unit, start code included, holding one message.
fn sei_nal(payload_type: u8, payload: &[u8]) -> Vec<u8> {
    let mut v = vec![0x00, 0x00, 0x00, 0x01, 0x06, payload_type, payload.len() as u8];
    v.extend_from_slice(payload);
    v.push(0x80);
    v
}

fn segment(es: &[u8]) -> Vec<u8> {
    let mut data = pat();
    data.extend(pmt(&[(0x1B, VIDEO_PID)]));
    data.extend(ts_packet(VIDEO_PID, true, &pes(90000, es)));
    data
}

fn hello_payload(identifier: &[u8; 4]) -> Vec<u8> {
    ga94(
        identifier,
        &[text_triplet(b'H', b'E'), text_triplet(b'L', b'L'), text_triplet(b'O', 0x00)],
    )
}

#[test]
fn vod_segment_hello() {
    let data = segment(&sei_nal(4, &hello_payload(b"GA94")));
    assert_eq!(extract_captions(&data), vec!["HELLO".to_string()]);
    let mut libcaption = LibcaptionTsParser::new();
    assert_eq!(libcaption.parse_ts_file(&data), vec!["HELLO".to_string()]);
    assert_eq!(libcaption.stream_type(), Some(0x1B));
    let mut optimized = OptimizedTsParser::new();
    assert_eq!(optimized.parse_ts_file(&data), vec!["HELLO".to_string()]);
}

#[test]
fn envelope_rejection_yields_nothing() {
    let data = segment(&sei_nal(4, &hello_payload(b"BADX")));
    assert!(extract_captions(&data).is_empty());
}

#[test]
fn no_pat_no_captions() {
    let mut data = pmt(&[(0x1B, VIDEO_PID)]);
    data.extend(ts_packet(VIDEO_PID, true, &pes(0, &sei_nal(4, &hello_payload(b"GA94")))));
    assert!(extract_captions(&data).is_empty());
    let mut parser = LibcaptionTsParser::new();
    assert!(parser.parse_ts_file(&data).is_empty());
    assert_eq!(parser.stream_type(), None);
}

#[test]
fn non_video_stream_type_no_captions() {
    let mut data = pat();
    data.extend(pmt(&[(0x0F, VIDEO_PID)]));
    data.extend(ts_packet(VIDEO_PID, true, &pes(0, &sei_nal(4, &hello_payload(b"GA94")))));
    assert!(extract_captions(&data).is_empty());
}

#[test]
fn bad_sync_byte_packet_is_skipped() {
    let mut data = pat();
    let mut broken = pmt(&[(0x1B, VIDEO_PID)]);
    broken[0] = 0x00;
    data.extend(broken);
    data.extend(pmt(&[(0x1B, VIDEO_PID)]));
    data.extend(ts_packet(VIDEO_PID, true, &pes(0, &sei_nal(4, &hello_payload(b"GA94")))));
    assert_eq!(extract_captions(&data), vec!["HELLO".to_string()]);
}

#[test]
fn caption_split_across_packets() {
    let es = sei_nal(4, &hello_payload(b"GA94"));
    let (first, second) = es.split_at(10);
    let mut data = pat();
    data.extend(pmt(&[(0x1B, VIDEO_PID)]));
    data.extend(ts_packet(VIDEO_PID, true, &pes(0, first)));
    data.extend(ts_packet(VIDEO_PID, false, second));
    assert_eq!(extract_captions(&data), vec!["HELLO".to_string()]);
}

#[test]
fn captions_bounded_by_valid_envelopes() {
    let mut es = sei_nal(4, &hello_payload(b"GA94"));
    es.extend(sei_nal(4, &hello_payload(b"BADX")));
    es.extend(sei_nal(5, &hello_payload(b"GA94")));
    es.extend(sei_nal(4, &ga94(b"GA94", &[text_triplet(b'O', b'K')])));
    let captions = extract_captions(&segment(&es));
    assert_eq!(captions, vec!["HELLO".to_string(), "OK".to_string()]);
}

#[test]
fn control_code_suppressed_following_text_kept() {
    let payload = ga94(b"GA94", &[(0xFC, 0x94, 0x20), text_triplet(b'A', b'B')]);
    assert_eq!(caption_from_payload(&payload), Some("AB".to_string()));
    let only_control = ga94(b"GA94", &[(0xFC, 0x14, 0x20)]);
    assert_eq!(caption_from_payload(&only_control), None);
}

#[test]
fn caption_is_trimmed() {
    let payload = ga94(b"GA94", &[text_triplet(b' ', b'H'), text_triplet(b'I', b' ')]);
    assert_eq!(caption_from_payload(&payload), Some("HI".to_string()));
}

#[test]
fn field_three_and_invalid_triplets_ignored() {
    let payload = ga94(
        b"GA94",
        &[(0xFE, odd(b'X'), odd(b'Y')), (0xF8, odd(b'Z'), odd(b'Z')), text_triplet(b'O', b'K')],
    );
    assert_eq!(caption_from_payload(&payload), Some("OK".to_string()));
}

#[test]
fn process_cc_data_flag_clear_yields_nothing() {
    let mut payload = hello_payload(b"GA94");
    payload[8] &= !0x40;
    assert_eq!(caption_from_payload(&payload), None);
}

#[test]
fn pes_timestamps_in_ticks() {
    let mut parser = TsParser::new();
    assert!(matches!(parser.parse_packet(&pat()), TsParseResult::NoPayload));
    assert!(matches!(parser.parse_packet(&pmt(&[(0x1B, VIDEO_PID)])), TsParseResult::NoPayload));
    assert_eq!(parser.stream_type(), Some(0x1B));
    let mut header = vec![0x00, 0x00, 0x01, 0xE0, 0x00, 0x00, 0x80, 0xC0, 0x0A];
    header.extend_from_slice(&timestamp_bytes(0x30, 183_000));
    header.extend_from_slice(&timestamp_bytes(0x10, 180_000));
    header.extend_from_slice(&[0xAA, 0xBB]);
    match parser.parse_packet(&ts_packet(VIDEO_PID, true, &header)) {
        TsParseResult::Ready { data, dts, cts } => {
            assert_eq!(data, vec![0xAA, 0xBB]);
            assert_eq!(dts, 180_000);
            assert_eq!(cts, 3_000);
        }
        TsParseResult::NoPayload => panic!("expected a payload"),
    }
    assert_eq!(parser.pts(), Some(183_000));
    assert_eq!(parser.dts(), Some(180_000));
}

#[test]
fn dts_defaults_to_pts() {
    let mut parser = TsParser::new();
    parser.parse_packet(&pat());
    parser.parse_packet(&pmt(&[(0x24, VIDEO_PID)]));
    assert_eq!(parser.stream_type(), Some(0x24));
    match parser.parse_packet(&ts_packet(VIDEO_PID, true, &pes(90_000, &[0x01]))) {
        TsParseResult::Ready { data, dts, cts } => {
            assert_eq!(data, vec![0x01]);
            assert_eq!(dts, 90_000);
            assert_eq!(cts, 0);
        }
        TsParseResult::NoPayload => panic!("expected a payload"),
    }
}

#[test]
fn parse_timestamp_33_bits() {
    let parser = TsParser::new();
    let bytes = timestamp_bytes(0x20, 0x1_2345_6789);
    assert_eq!(parser.parse_timestamp(&bytes), 0x1_2345_6789);
    assert_eq!(parser.parse_timestamp(&bytes[..4]), 0);
}

#[test]
fn video_pid_learnt_once() {
    let mut parser = TsParser::new();
    parser.parse_packet(&pat());
    parser.parse_packet(&pmt(&[(0x1B, VIDEO_PID), (0x24, 0x0200)]));
    assert_eq!(parser.video_pid(), Some(VIDEO_PID));
    parser.parse_packet(&pmt(&[(0x24, 0x0300)]));
    assert_eq!(parser.video_pid(), Some(VIDEO_PID));
    assert_eq!(parser.stream_type(), Some(0x1B));
}

#[test]
fn short_packet_ignored() {
    let mut parser = TsParser::new();
    let packet = pat();
    assert!(matches!(parser.parse_packet(&packet[..100]), TsParseResult::NoPayload));
    assert_eq!(parser.pmt_pid(), None);
}

#[test]
fn extract_pes_packets_in_order() {
    let mut data = pat();
    data.extend(pmt(&[(0x1B, VIDEO_PID)]));
    data.extend(ts_packet(VIDEO_PID, true, &pes(0, &[1, 2, 3])));
    data.extend(ts_packet(0x0101, false, &[9, 9]));
    data.extend(ts_packet(VIDEO_PID, false, &[4, 5]));
    data.extend_from_slice(&[0x47, 0x01]);
    let packets = MpegTsParser::new().extract_pes_packets(&data);
    let payloads: Vec<Vec<u8>> = packets.into_iter().map(|p| p.data).collect();
    assert_eq!(payloads, vec![vec![1, 2, 3], vec![4, 5]]);
}

#[test]
fn detector_over_split_payloads() {
    let es = sei_nal(4, &hello_payload(b"GA94"));
    let (a, b) = es.split_at(7);
    let packets = vec![PesPacket { data: a.to_vec() }, PesPacket { data: b.to_vec() }];
    let detector = CaptionDetector::new();
    assert_eq!(detector.detect_captions(&packets), vec!["HELLO".to_string()]);
    assert!(detector.detect_captions(&[]).is_empty());
}

#[test]
fn caption_ignores_cc_data_parity() {
    let plain = ga94(b"GA94", &[(0xFC, b'H', b'I'), (0xFC, 0x40, 0x41)]);
    let mut flipped = plain.clone();
    for i in [11usize, 12, 14, 15] {
        flipped[i] ^= 0x80;
    }
    assert_eq!(caption_from_payload(&plain), Some("HI@A".to_string()));
    assert_eq!(caption_from_payload(&flipped), caption_from_payload(&plain));
}

use hlscaptionfinder::cea608::{decode_pair, Cea608Decoder};
use hlscaptionfinder::cea708::{CaptionData, Cea708Parser};
use hlscaptionfinder::mpeg_bitstream::{
    parse_sei, remove_emulation_prevention_bytes, MpegBitstream, MAX_NALU_SIZE,
};
use hlscaptionfinder::pipeline::caption_from_payload;

#[test]
fn special_character_music_note() {
    let decoder = Cea608Decoder::new();
    assert_eq!(decoder.decode_cea608_pair(0x11, 0xB7), Some("♪".to_string()));
    assert_eq!(decoder.decode_cea608_pair(0x11, 0x30), Some("®".to_string()));
    assert_eq!(decoder.decode_special_character(0x3F), Some('û'));
    assert_eq!(decoder.decode_special_character(0x40), None);
}

#[test]
fn extended_characters() {
    let decoder = Cea608Decoder::new();
    assert_eq!(decoder.decode_cea608_pair(0x12, 0x20), Some("Á".to_string()));
    assert_eq!(decoder.decode_cea608_pair(0x13, 0x3F), Some("┘".to_string()));
    assert_eq!(decoder.decode_cea608_pair(0x92, 0xA9), Some("'".to_string()));
    assert_eq!(decoder.decode_extended_character(0x13, 0x2B), Some('\\'));
    assert_eq!(decoder.decode_extended_character(0x14, 0x2B), None);
}

#[test]
fn control_code_pair_decodes_to_nothing() {
    let decoder = Cea608Decoder::new();
    assert_eq!(decoder.decode_cea608_pair(0x14, 0x20), None);
    assert_eq!(decoder.decode_cea608_pair(0x94, 0x2C), None);
    assert_eq!(decoder.decode_cea608_pair(0x80, 0x80), None);
}

#[test]
fn ascii_pairs() {
    let decoder = Cea608Decoder::new();
    assert_eq!(decoder.decode_cea608_pair(0xC8, 0x45), Some("HE".to_string()));
    assert_eq!(decoder.decode_cea608_pair(0x4F, 0x80), Some("O".to_string()));
    assert_eq!(decoder.decode_cea608_pair(0x05, 0x41), Some("A".to_string()));
}

#[test]
fn noise_pairs_dropped() {
    let decoder = Cea608Decoder::new();
    assert_eq!(decoder.decode_cea608_pair(0x40, 0x20), None);
    assert_eq!(decoder.decode_cea608_pair(0x2C, 0x00), None);
    assert_eq!(decoder.decode_cea608_pair(0x20, 0x2F), None);
    assert_eq!(decoder.decode_cea608_pair(0x20, 0x20), None);
    assert_eq!(decoder.decode_cea608_pair(0x11, 0x39), None);
    assert_eq!(decoder.decode_cea608_pair(0x40, 0x41), Some("@A".to_string()));
}

#[test]
fn decode_ignores_parity_bits() {
    for b1 in 0u8..=0x7F {
        for b2 in [0x00u8, 0x20, 0x37, 0x41, 0x7F] {
            assert_eq!(decode_pair(b1, b2), decode_pair(b1 | 0x80, b2 | 0x80));
        }
    }
}

#[test]
fn decode_caption_data_one_caption_per_message() {
    let decoder = Cea608Decoder::new();
    let data = vec![
        CaptionData { cc_valid: true, cc_type: 0, cc_data: [0xC8, 0x45] },
        CaptionData { cc_valid: false, cc_type: 0, cc_data: [0x41, 0x41] },
        CaptionData { cc_valid: true, cc_type: 2, cc_data: [0x41, 0x41] },
        CaptionData { cc_valid: true, cc_type: 1, cc_data: [0x14, 0x20] },
        CaptionData { cc_valid: true, cc_type: 1, cc_data: [0x11, 0x37] },
    ];
    assert_eq!(decoder.decode_caption_data(&data), vec!["HE♪".to_string()]);
    let twice = vec![
        CaptionData { cc_valid: true, cc_type: 0, cc_data: [0x20, 0x20] },
        CaptionData { cc_valid: true, cc_type: 0, cc_data: [0xC8, 0x45] },
        CaptionData { cc_valid: true, cc_type: 0, cc_data: [0xC8, 0x45] },
        CaptionData { cc_valid: true, cc_type: 0, cc_data: [0xA0, 0x41] },
    ];
    assert_eq!(decoder.decode_caption_data(&twice), vec!["HEHE A".to_string()]);
    let nothing = vec![CaptionData { cc_valid: true, cc_type: 0, cc_data: [0x14, 0x2C] }];
    assert!(decoder.decode_caption_data(&nothing).is_empty());
    assert!(decoder.decode_caption_data(&[]).is_empty());
}

#[test]
fn user_data_valid_triplets_only() {
    let payload = vec![
        0xB5, 0x00, 0x31, b'G', b'A', b'9', b'4', 0x03, 0x43, 0xFF, 0xFC, 0x41, 0x42, 0xF8, 0x43,
        0x44, 0xFD, 0x45, 0x46,
    ];
    let triplets = Cea708Parser::new().parse_user_data(&payload);
    assert_eq!(triplets.len(), 2);
    assert_eq!(triplets[0].cc_data, [0x41, 0x42]);
    assert_eq!(triplets[1].cc_type, 1);
    assert_eq!(triplets[1].cc_data, [0x45, 0x46]);
}

#[test]
fn user_data_rejections() {
    let parser = Cea708Parser::new();
    let good = vec![0xB5, 0x00, 0x31, b'G', b'A', b'9', b'4', 0x03, 0x41, 0xFF, 0xFC, 0x41, 0x42];
    assert_eq!(parser.parse_user_data(&good).len(), 1);
    let mut country = good.clone();
    country[0] = 0xB4;
    assert!(parser.parse_user_data(&country).is_empty());
    let mut type_code = good.clone();
    type_code[7] = 0x02;
    assert!(parser.parse_user_data(&type_code).is_empty());
    let mut flag = good.clone();
    flag[8] = 0x01;
    assert!(parser.parse_user_data(&flag).is_empty());
    assert!(parser.parse_user_data(&good[..7]).is_empty());
    assert!(parser.parse_user_data(&good[..12]).is_empty());
}

#[test]
fn emulation_prevention_removed() {
    assert_eq!(
        remove_emulation_prevention_bytes(&[0x11, 0x00, 0x00, 0x03, 0x01, 0x22]),
        vec![0x11, 0x00, 0x00, 0x01, 0x22]
    );
    assert_eq!(
        remove_emulation_prevention_bytes(&[0x00, 0x00, 0x03, 0x00, 0x00, 0x03]),
        vec![0x00, 0x00, 0x00, 0x00]
    );
}

#[test]
fn emulation_prevention_idempotent_without_pattern() {
    let data = vec![0x00, 0x00, 0x01, 0x03, 0x00, 0x03, 0x00, 0x00, 0x04];
    let once = remove_emulation_prevention_bytes(&data);
    assert_eq!(once, data);
    assert_eq!(remove_emulation_prevention_bytes(&once), once);
}

#[test]
fn emulation_prevention_inside_sei() {
    // The payload carries a triplet with data 00 00 followed by an invalid
    // triplet starting with 01; on the wire an 03 guards the 00 00 01, and
    // the declared size counts it.
    let rbsp_payload = vec![
        0xB5, 0x00, 0x31, b'G', b'A', b'9', b'4', 0x03, 0x43, 0xFF, 0xFC, 0x00, 0x00, 0x01, 0x55,
        0x55, 0xFC, 0x4F, 0x4B,
    ];
    let mut nal = vec![0x00, 0x00, 0x00, 0x01, 0x06, 0x04, (rbsp_payload.len() + 1) as u8];
    nal.extend_from_slice(&rbsp_payload[..13]);
    nal.push(0x03);
    nal.extend_from_slice(&rbsp_payload[13..]);
    nal.push(0x80);
    let mut scanner = MpegBitstream::new();
    scanner.set_stream_type(0x1B);
    assert!(scanner.parse(&nal).is_empty());
    let messages = scanner.flush();
    assert_eq!(messages.len(), 1);
    assert!(messages[0].is_user_data_registered());
    assert_eq!(messages[0].data, rbsp_payload);
    assert_eq!(caption_from_payload(&messages[0].data), Some("OK".to_string()));
}

#[test]
fn sei_escaped_type_and_size() {
    let messages = parse_sei(&[0xFF, 0x05, 0x01, 0xAA, 0x04, 0x00, 0x80]);
    assert_eq!(messages.len(), 1);
    assert_eq!(messages[0].payload_type, 260);
    assert_eq!(messages[0].data, vec![0xAA]);
}

#[test]
fn sei_zero_size_message_contributes_nothing() {
    let messages = parse_sei(&[0x05, 0x00, 0x04, 0x01, 0xAA]);
    assert_eq!(messages.len(), 1);
    assert_eq!(messages[0].payload_type, 4);
    assert_eq!(messages[0].data, vec![0xAA]);
}

#[test]
fn sei_payload_cleaned_after_framing() {
    let messages = parse_sei(&[0x04, 0x04, 0x00, 0x00, 0x03, 0x01]);
    assert_eq!(messages.len(), 1);
    assert_eq!(messages[0].payload_type, 4);
    assert_eq!(messages[0].data, vec![0x00, 0x00, 0x01]);
}

#[test]
fn sei_truncated_payload_stops() {
    let messages = parse_sei(&[0x04, 0x02, 0xAA, 0x05, 0x09, 0x01]);
    assert_eq!(messages.len(), 1);
    assert_eq!(messages[0].data, vec![0xAA, 0x05]);
    assert!(parse_sei(&[0xFF, 0xFF]).is_empty());
    assert!(parse_sei(&[0x04]).is_empty());
}

#[test]
fn start_code_straddles_chunks() {
    let mut scanner = MpegBitstream::new();
    scanner.push(&[0x00, 0x00, 0x00, 0x01, 0x09, 0xF0, 0x00]);
    assert!(scanner.drain().is_empty());
    scanner.push(&[0x00, 0x01, 0x06, 0x05]);
    let units = scanner.drain();
    assert_eq!(units, vec![vec![0x09, 0xF0]]);
    assert_eq!(scanner.flush_units(), vec![vec![0x06, 0x05]]);
    assert_eq!(scanner.buffered_len(), 0);
}

#[test]
fn three_and_four_byte_start_codes() {
    let mut scanner = MpegBitstream::new();
    scanner.push(&[0xAA, 0x00, 0x00, 0x01, 0x41, 0x42, 0x00, 0x00, 0x00, 0x01, 0x43, 0x00, 0x00,
        0x01, 0x44]);
    assert_eq!(scanner.drain(), vec![vec![0x41, 0x42], vec![0x43]]);
    assert_eq!(scanner.flush_units(), vec![vec![0x44]]);
}

fn units_of_chunks(data: &[u8], sizes: &[usize]) -> Vec<Vec<u8>> {
    let mut scanner = MpegBitstream::new();
    let mut units = Vec::new();
    let mut at = 0;
    for size in sizes.iter().cycle() {
        if at >= data.len() {
            break;
        }
        let end = (at + size).min(data.len());
        scanner.push(&data[at..end]);
        units.extend(scanner.drain());
        at = end;
    }
    units.extend(scanner.flush_units());
    units
}

#[test]
fn streaming_equivalence_any_split() {
    let data = vec![
        0x00, 0x00, 0x01, 0x06, 0x04, 0x00, 0x00, 0x00, 0x01, 0x09, 0x10, 0x00, 0x00, 0x01, 0x65,
        0x88, 0x00, 0x00, 0x03, 0x01, 0x00, 0x00, 0x00, 0x01, 0x06, 0x05, 0x00, 0x00, 0x01,
    ];
    let whole = units_of_chunks(&data, &[data.len()]);
    assert_eq!(whole.len(), 5);
    for sizes in [vec![1], vec![2], vec![3], vec![5, 1], vec![4, 7, 2]] {
        assert_eq!(units_of_chunks(&data, &sizes), whole);
    }
}

#[test]
fn oversize_input_capped() {
    let mut scanner = MpegBitstream::new();
    scanner.set_stream_type(0x1B);
    let chunk = vec![0xABu8; 64 * 1024];
    for _ in 0..160 {
        assert!(scanner.parse(&chunk).is_empty());
        assert!(scanner.buffered_len() <= MAX_NALU_SIZE);
    }
    let big = vec![0xABu8; 10 * 1024 * 1024];
    assert!(scanner.parse(&big).is_empty());
    assert_eq!(scanner.buffered_len(), MAX_NALU_SIZE);
    assert!(scanner.flush().is_empty());
}

#[test]
fn h265_sei_units() {
    let payload = vec![
        0xB5, 0x00, 0x31, b'G', b'A', b'9', b'4', 0x03, 0x41, 0xFF, 0xFC, 0x48, 0x49,
    ];
    let mut nal = vec![0x4E, 0x01, 0x04, payload.len() as u8];
    nal.extend_from_slice(&payload);
    nal.push(0x80);
    let mut scanner = MpegBitstream::new();
    scanner.set_stream_type(0x24);
    let messages = scanner.process_nalu(&nal);
    assert_eq!(messages.len(), 1);
    assert_eq!(caption_from_payload(&messages[0].data), Some("HI".to_string()));
    scanner.set_stream_type(0x1B);
    assert!(scanner.process_nalu(&nal).is_empty());
    let plain = MpegBitstream::new();
    assert!(plain.process_nalu(&[0x06, 0x04, 0x00, 0x80]).is_empty());
}

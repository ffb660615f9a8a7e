use baseline_eto_data::header::Header;
use baseline_eto_data::EtoError;

fn sample_header() -> Header {
    Header {
        version: 1,
        width: 43200,
        height: 16800,
        bit_depth: 8,
        minimum_eto_bits: (0.1f32).to_bits(),
        scaling_factor_bits: (1.5f32).to_bits(),
    }
}

#[test]
fn encode_is_exactly_32_bytes() {
    let bytes = sample_header().encode();
    assert_eq!(bytes.len(), 32);
}

#[test]
fn encode_layout_is_big_endian_fixed_width() {
    let h = sample_header();
    let bytes = h.encode();
    assert_eq!(bytes[0], 1);
    // width 43200 == 0x0000A8C0, big-endian
    assert_eq!(&bytes[1..5], &[0x00, 0x00, 0xA8, 0xC0]);
    // height 16800 == 0x000041A0
    assert_eq!(&bytes[5..9], &[0x00, 0x00, 0x41, 0xA0]);
    assert_eq!(bytes[9], 8);
    assert_eq!(&bytes[10..14], &(0.1f32).to_bits().to_be_bytes());
    assert_eq!(&bytes[14..18], &(1.5f32).to_bits().to_be_bytes());
    // reserved padding is zero-filled to the end
    assert!(bytes[18..32].iter().all(|&b| b == 0));
}

#[test]
fn decode_inverts_encode() {
    let h = sample_header();
    let bytes = h.encode();
    let back = Header::decode(&bytes).unwrap();
    assert_eq!(back, h);
}

#[test]
fn decode_round_trips_extreme_fields() {
    let h = Header {
        version: 1,
        width: u32::MAX,
        height: 0,
        bit_depth: 255,
        minimum_eto_bits: u32::MAX,
        scaling_factor_bits: 0,
    };
    let bytes = h.encode();
    assert_eq!(Header::decode(&bytes).unwrap(), h);
}

#[test]
fn decode_rejects_short_input() {
    let bytes = vec![1u8; 31];
    assert_eq!(Header::decode(&bytes), Err(EtoError::FormatError));
}

#[test]
fn decode_rejects_long_input() {
    let bytes = vec![1u8; 33];
    assert_eq!(Header::decode(&bytes), Err(EtoError::FormatError));
}

#[test]
fn decode_rejects_unknown_version() {
    let mut bytes = sample_header().encode();
    bytes[0] = 2;
    assert_eq!(Header::decode(&bytes), Err(EtoError::FormatError));
}

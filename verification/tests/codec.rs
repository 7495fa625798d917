use deskremote::codec::DecodeError;
use deskremote::codec::Packet;

#[test]
fn round_trip_mouse_move() {
    let p = Packet::MouseMove { x_bits: (1.5f64).to_bits(), y_bits: (-2.25f64).to_bits() };
    let bytes = p.to_bytes();
    assert_eq!(Packet::from_bytes(&bytes), Ok(p));
}

#[test]
fn round_trip_key_down() {
    let p = Packet::KeyDown { code: 5 };
    let bytes = p.to_bytes();
    assert_eq!(bytes, vec![1u8, 5u8]);
    assert_eq!(Packet::from_bytes(&bytes), Ok(p));
}

#[test]
fn round_trip_key_up() {
    let p = Packet::KeyUp { code: 255 };
    let bytes = p.to_bytes();
    assert_eq!(bytes, vec![2u8, 255u8]);
    assert_eq!(Packet::from_bytes(&bytes), Ok(p));
}

#[test]
fn round_trip_extreme_coordinates() {
    for x in [0.0f64, -0.0, f64::MAX, f64::MIN_POSITIVE, f64::INFINITY, f64::NAN] {
        let p = Packet::MouseMove { x_bits: x.to_bits(), y_bits: (0.0f64).to_bits() };
        let bytes = p.to_bytes();
        assert_eq!(Packet::from_bytes(&bytes), Ok(p));
    }
}

#[test]
fn mouse_move_layout() {
    // Tag byte, then x as 8 little-endian bytes, then y likewise.
    let p = Packet::MouseMove { x_bits: 0x0102030405060708, y_bits: 0xff00000000000000 };
    let bytes = p.to_bytes();
    assert_eq!(bytes.len(), 17);
    assert_eq!(bytes[0], 0);
    assert_eq!(&bytes[1..9], &[0x08, 0x07, 0x06, 0x05, 0x04, 0x03, 0x02, 0x01]);
    assert_eq!(&bytes[9..17], &[0, 0, 0, 0, 0, 0, 0, 0xff]);
}

#[test]
fn decode_empty_is_truncated() {
    assert_eq!(Packet::from_bytes(&[]), Err(DecodeError::Truncated));
}

#[test]
fn decode_short_mouse_move_is_truncated() {
    // Every length below the 17 bytes the tag implies is rejected.
    let full = Packet::MouseMove { x_bits: 7, y_bits: 9 }.to_bytes();
    for n in 0..full.len() {
        assert_eq!(Packet::from_bytes(&full[..n]), Err(DecodeError::Truncated));
    }
}

#[test]
fn decode_short_key_is_truncated() {
    assert_eq!(Packet::from_bytes(&[1u8]), Err(DecodeError::Truncated));
    assert_eq!(Packet::from_bytes(&[2u8]), Err(DecodeError::Truncated));
}

#[test]
fn decode_unknown_tag_is_rejected() {
    for tag in 3..=255u8 {
        assert_eq!(Packet::from_bytes(&[tag, 0, 0]), Err(DecodeError::UnknownTag));
    }
}

#[test]
fn decode_ignores_trailing_bytes() {
    let mut bytes = Packet::KeyDown { code: 9 }.to_bytes();
    bytes.push(42);
    assert_eq!(Packet::from_bytes(&bytes), Ok(Packet::KeyDown { code: 9 }));
}

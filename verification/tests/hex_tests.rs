use bubble_bridge::hex::{encode_hex, udid_from_bytes, generate_udid};

#[test]
fn encode_hex_two_digits_per_byte() {
    assert_eq!(encode_hex(&[0x00, 0xab, 0xff, 0x10]), "00abff10");
    assert_eq!(encode_hex(&[]), "");
}

#[test]
fn udid_is_upper_hex() {
    assert_eq!(udid_from_bytes(&[0xde, 0xad, 0x01]), "DEAD01");
}

#[test]
fn generated_udid_shape() {
    let a = generate_udid();
    let b = generate_udid();
    assert_eq!(a.len(), 64);
    assert!(a.chars().all(|c| c.is_ascii_digit() || ('A'..='F').contains(&c)));
    assert_ne!(a, b);
}

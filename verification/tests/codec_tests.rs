use mspview::msp::{crc8_dvb_s2, encode_msp, encode_msp2, encode_msp_vers};

fn crc8_fold(seed: u8, data: &[u8]) -> u8 {
    let mut c = seed;
    for b in data {
        c = crc8_dvb_s2(c, *b);
    }
    c
}

#[test]
fn crc8_zero_vector() {
    assert_eq!(crc8_dvb_s2(0, 0x00), 0x00);
}

#[test]
fn crc8_single_byte_vectors() {
    assert_eq!(crc8_dvb_s2(0, 0x01), 0xd5);
    assert_eq!(crc8_dvb_s2(0, 0x55), 0xe4);
    assert_eq!(crc8_dvb_s2(0, 0xff), 0xf9);
}

#[test]
fn crc8_check_value() {
    // The standard CRC-8/DVB-S2 check value over the digits one to nine.
    assert_eq!(crc8_fold(0, b"123456789"), 0xbc);
}

#[test]
fn crc8_is_order_sensitive() {
    // Folding the same bytes in a different order gives a different
    // checksum: the field order of a frame matters.
    let ab = crc8_fold(0, &[1, 2]);
    let ba = crc8_fold(0, &[2, 1]);
    assert_eq!(ab, 0x74);
    assert_eq!(ba, 0xc3);
    assert_ne!(ab, ba);
}

#[test]
fn encode_v1_empty_payload() {
    let v = encode_msp(100, &[]);
    assert_eq!(v, vec![b'$', b'M', b'<', 0, 100, 100]);
}

#[test]
fn encode_v1_with_payload() {
    let v = encode_msp(1, &[0x01, 0x02]);
    // checksum = len ^ cmd ^ payload bytes = 2 ^ 1 ^ 1 ^ 2 = 0
    assert_eq!(v, vec![b'$', b'M', b'<', 2, 1, 1, 2, 0]);
}

#[test]
fn encode_v1_truncates_command_to_low_byte() {
    let v = encode_msp(0x2002, &[]);
    assert_eq!(v[4], 0x02);
}

#[test]
fn encode_v2_empty_payload() {
    let v = encode_msp2(0x2000, &[]);
    assert_eq!(v, vec![b'$', b'X', b'<', 0, 0x00, 0x20, 0, 0, 0x32]);
}

#[test]
fn encode_v2_with_payload() {
    let v = encode_msp2(0x203a, &[5, 6, 7]);
    assert_eq!(
        v,
        vec![b'$', b'X', b'<', 0, 0x3a, 0x20, 3, 0, 5, 6, 7, 0xdb]
    );
}

#[test]
fn encode_v2_checksum_matches_fold() {
    let payload = [9u8, 8, 7, 6, 5];
    let v = encode_msp2(0x1234, &payload);
    let n = v.len();
    assert_eq!(v[n - 1], crc8_fold(0, &v[3..n - 1]));
}

#[test]
fn encode_version_dispatch() {
    assert_eq!(encode_msp_vers(100, &[], 1), encode_msp(100, &[]));
    assert_eq!(encode_msp_vers(100, &[], 2), encode_msp2(100, &[]));
}

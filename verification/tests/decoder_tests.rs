use mspview::decoder::Decoder;
use mspview::msp::{encode_msp, encode_msp2, MSPMsg, MSPRes};

/// An encoded request, with its direction byte turned into a reply.
fn as_reply(mut frame: Vec<u8>) -> Vec<u8> {
    frame[2] = b'>';
    frame
}

/// An encoded request, with its direction byte turned into an error
/// reply.
fn as_error_reply(mut frame: Vec<u8>) -> Vec<u8> {
    frame[2] = b'!';
    frame
}

#[test]
fn round_trip_v1() {
    let bytes = as_reply(encode_msp(100, &[7, 8, 9]));
    let mut d = Decoder::new();
    let msgs = d.feed_bytes(&bytes);
    assert_eq!(msgs.len(), 1);
    assert!(matches!(msgs[0].ok, MSPRes::Okay));
    assert_eq!(msgs[0].cmd, 100);
    assert_eq!(msgs[0].len, 3);
    assert_eq!(msgs[0].data, vec![7, 8, 9]);
}

#[test]
fn round_trip_v1_empty_payload() {
    let bytes = as_reply(encode_msp(1, &[]));
    let mut d = Decoder::new();
    let msgs = d.feed_bytes(&bytes);
    assert_eq!(msgs.len(), 1);
    assert!(matches!(msgs[0].ok, MSPRes::Okay));
    assert_eq!(msgs[0].cmd, 1);
    assert_eq!(msgs[0].len, 0);
    assert!(msgs[0].data.is_empty());
}

#[test]
fn round_trip_v2() {
    let bytes = as_reply(encode_msp2(0x203a, &[1, 2, 3, 4]));
    let mut d = Decoder::new();
    let msgs = d.feed_bytes(&bytes);
    assert_eq!(msgs.len(), 1);
    assert!(matches!(msgs[0].ok, MSPRes::Okay));
    assert_eq!(msgs[0].cmd, 0x203a);
    assert_eq!(msgs[0].len, 4);
    assert_eq!(msgs[0].data, vec![1, 2, 3, 4]);
}

#[test]
fn round_trip_v2_empty_payload() {
    let bytes = as_reply(encode_msp2(0x2000, &[]));
    let mut d = Decoder::new();
    let msgs = d.feed_bytes(&bytes);
    assert_eq!(msgs.len(), 1);
    assert!(matches!(msgs[0].ok, MSPRes::Okay));
    assert_eq!(msgs[0].cmd, 0x2000);
    assert_eq!(msgs[0].len, 0);
    assert!(msgs[0].data.is_empty());
}

#[test]
fn error_direction_is_classified_dirn() {
    let bytes = as_error_reply(encode_msp(100, &[1]));
    let mut d = Decoder::new();
    let msgs = d.feed_bytes(&bytes);
    assert_eq!(msgs.len(), 1);
    assert!(matches!(msgs[0].ok, MSPRes::Dirn));
    assert_eq!(msgs[0].cmd, 100);
}

fn collect_one_at_a_time(bytes: &[u8]) -> Vec<MSPMsg> {
    let mut d = Decoder::new();
    let mut out = Vec::new();
    for b in bytes {
        if let Some(m) = d.feed(*b) {
            out.push(m);
        }
    }
    out
}

#[test]
fn byte_at_a_time_equals_block() {
    let mut stream = Vec::new();
    stream.extend_from_slice(&as_reply(encode_msp(100, &[7, 8, 9])));
    stream.extend_from_slice(&as_reply(encode_msp2(0x2002, &[0xaa, 0xbb])));
    stream.extend_from_slice(&as_error_reply(encode_msp(10, &[])));

    let mut d = Decoder::new();
    let block = d.feed_bytes(&stream);
    let single = collect_one_at_a_time(&stream);

    assert_eq!(block.len(), single.len());
    for (a, b) in block.iter().zip(single.iter()) {
        assert_eq!(a.cmd, b.cmd);
        assert_eq!(a.len, b.len);
        assert_eq!(a.data, b.data);
        assert!(matches!(
            (&a.ok, &b.ok),
            (MSPRes::Okay, MSPRes::Okay)
                | (MSPRes::Crc, MSPRes::Crc)
                | (MSPRes::Dirn, MSPRes::Dirn)
                | (MSPRes::Fail, MSPRes::Fail)
        ));
    }
}

#[test]
fn garbage_between_frames_is_lossless() {
    let f1 = as_reply(encode_msp(100, &[1, 2]));
    let f2 = as_reply(encode_msp2(0x2000, &[3]));

    let mut clean = Vec::new();
    clean.extend_from_slice(&f1);
    clean.extend_from_slice(&f2);

    let mut noisy = Vec::new();
    noisy.extend_from_slice(&[0x00, 0x55, 0xff, b'M', b'>']);
    noisy.extend_from_slice(&f1);
    noisy.extend_from_slice(&[b'X', 0x7f, 0x01]);
    noisy.extend_from_slice(&f2);

    let mut d1 = Decoder::new();
    let got_clean = d1.feed_bytes(&clean);
    let mut d2 = Decoder::new();
    let got_noisy = d2.feed_bytes(&noisy);

    assert_eq!(got_clean.len(), 2);
    assert_eq!(got_noisy.len(), 2);
    for (a, b) in got_clean.iter().zip(got_noisy.iter()) {
        assert_eq!(a.cmd, b.cmd);
        assert_eq!(a.len, b.len);
        assert_eq!(a.data, b.data);
        assert!(matches!(b.ok, MSPRes::Okay));
    }
}

#[test]
fn corrupt_payload_byte_gives_checksum_mismatch() {
    let mut bytes = as_reply(encode_msp(100, &[7, 8, 9]));
    bytes[6] ^= 0x01; // second payload byte
    let mut d = Decoder::new();
    let msgs = d.feed_bytes(&bytes);
    assert_eq!(msgs.len(), 1);
    assert!(matches!(msgs[0].ok, MSPRes::Crc));
}

#[test]
fn corrupt_checksum_byte_gives_checksum_mismatch() {
    let mut bytes = as_reply(encode_msp2(0x203a, &[5, 6, 7]));
    let n = bytes.len();
    bytes[n - 1] ^= 0xff;
    let mut d = Decoder::new();
    let msgs = d.feed_bytes(&bytes);
    assert_eq!(msgs.len(), 1);
    assert!(matches!(msgs[0].ok, MSPRes::Crc));
}

#[test]
fn corrupt_command_byte_gives_checksum_mismatch() {
    let mut bytes = as_reply(encode_msp(100, &[1, 2, 3]));
    bytes[4] ^= 0x10; // command byte
    let mut d = Decoder::new();
    let msgs = d.feed_bytes(&bytes);
    assert_eq!(msgs.len(), 1);
    assert!(matches!(msgs[0].ok, MSPRes::Crc));
}

#[test]
fn decoder_recovers_after_corrupt_frame() {
    let mut bad = as_reply(encode_msp(100, &[1, 2, 3]));
    bad[5] ^= 0x40;
    let good = as_reply(encode_msp(10, &[4]));

    let mut stream = bad;
    stream.extend_from_slice(&good);

    let mut d = Decoder::new();
    let msgs = d.feed_bytes(&stream);
    assert_eq!(msgs.len(), 2);
    assert!(matches!(msgs[0].ok, MSPRes::Crc));
    assert!(matches!(msgs[1].ok, MSPRes::Okay));
    assert_eq!(msgs[1].cmd, 10);
    assert_eq!(msgs[1].data, vec![4]);
}

#[test]
fn zero_length_frame_has_empty_payload_even_after_a_long_one() {
    let mut stream = Vec::new();
    stream.extend_from_slice(&as_reply(encode_msp(100, &[9, 9, 9, 9])));
    stream.extend_from_slice(&as_reply(encode_msp(1, &[])));
    let mut d = Decoder::new();
    let msgs = d.feed_bytes(&stream);
    assert_eq!(msgs.len(), 2);
    assert_eq!(msgs[1].len, 0);
    assert!(msgs[1].data.is_empty());
}

#[test]
fn arbitrary_bytes_never_wedge_the_decoder() {
    // A pseudo-random byte soup, then a valid frame: the frame still
    // comes out. The soup may contain sync bytes and so may produce
    // extra (mismatched) frames, but the decoder must end up in sync.
    let mut d = Decoder::new();
    let mut x: u32 = 0x12345678;
    let mut soup = Vec::new();
    for _ in 0..4096 {
        x = x.wrapping_mul(1664525).wrapping_add(1013904223);
        soup.push((x >> 24) as u8);
    }
    let _ = d.feed_bytes(&soup);
    // Flush any partial frame the soup left behind: a fresh sync byte
    // can at worst complete nothing, so clear with garbage that cannot
    // start a frame, preceded by enough zero bytes to finish any
    // pending payload.
    let _ = d.feed_bytes(&[0u8; 70000]);
    let msgs = d.feed_bytes(&as_reply(encode_msp(100, &[5])));
    let last = msgs.last().expect("the valid frame must decode");
    assert!(matches!(last.ok, MSPRes::Okay));
    assert_eq!(last.cmd, 100);
    assert_eq!(last.data, vec![5]);
}

//! MSP wire types, checksums and the frame encoders.
//!
//! V1 frames carry a one-byte length and command and an XOR checksum;
//! V2 frames carry a flag byte, little-endian 16-bit command and length,
//! and a CRC-8/DVB-S2 checksum.

use vstd::prelude::*;

verus! {

pub const MSG_IDENT: u16 = 100;
pub const MSG_NAME: u16 = 10;
pub const MSG_API_VERSION: u16 = 1;
pub const MSG_FC_VARIANT: u16 = 2;
pub const MSG_FC_VERSION: u16 = 3;
pub const MSG_BOARD_INFO: u16 = 4;
pub const MSG_BUILD_INFO: u16 = 5;
pub const MSG_WP_GETINFO: u16 = 20;
pub const MSG_RAW_GPS: u16 = 106;
pub const MSG_ANALOG: u16 = 110;
pub const MSG_DEBUGMSG: u16 = 253;
pub const MSG_STATUS_EX: u16 = 150;
pub const MSG_ANALOG2: u16 = 0x2002;
pub const MSG_INAV_STATUS: u16 = 0x2000;
pub const MSG_MISC2: u16 = 0x203a;

/// The sync byte `$` that opens every frame.
pub const SYNC_BYTE: u8 = 36;

/// The format selector `M` of a V1 frame.
pub const V1_BYTE: u8 = 77;

/// The format selector `X` of a V2 frame.
pub const V2_BYTE: u8 = 88;

/// The direction byte `<` of a request.
pub const REQUEST_BYTE: u8 = 60;

/// The direction byte `>` of a normal reply.
pub const REPLY_BYTE: u8 = 62;

/// The direction byte `!` of an error reply.
pub const ERROR_BYTE: u8 = 33;

/// How a decoded frame was classified: checksum valid with the reply
/// direction byte (`Okay`), checksum mismatch (`Crc`), well-formed but an
/// error/echo reply (`Dirn`), or stream failure (`Fail`).
#[derive(Debug, Clone, Copy, PartialEq, Eq, Structural)]
pub enum MSPRes {
    Okay,
    Crc,
    Dirn,
    Fail,
}

impl Default for MSPRes {
    fn default() -> (r: Self)
        ensures
            r == MSPRes::Fail,
    {
        MSPRes::Fail
    }
}

/// One decoded frame: the length field, the command, the classification
/// and the payload bytes.
#[derive(Debug, Clone)]
pub struct MSPMsg {
    pub len: u16,
    pub cmd: u16,
    pub ok: MSPRes,
    pub data: Vec<u8>,
}

/// Mathematical image of an `MSPMsg`: the payload as a sequence.
#[verifier::ext_equal]
pub struct FrameModel {
    pub len: u16,
    pub cmd: u16,
    pub ok: MSPRes,
    pub data: Seq<u8>,
}

impl View for MSPMsg {
    type V = FrameModel;

    open spec fn view(&self) -> FrameModel {
        FrameModel { len: self.len, cmd: self.cmd, ok: self.ok, data: self.data@ }
    }
}

impl Default for MSPMsg {
    fn default() -> (r: Self)
        ensures
            r.len == 0,
            r.cmd == 0,
            r.ok == MSPRes::Fail,
            r.data@ == Seq::<u8>::empty(),
    {
        MSPMsg { len: 0, cmd: 0, ok: MSPRes::Fail, data: Vec::new() }
    }
}

/// One round of the CRC-8/DVB-S2 shift: multiply by x modulo the
/// polynomial 0xD5.
pub open spec fn spec_crc8_shift(c: u8) -> u8 {
    if c & 0x80 != 0 {
        (c << 1) ^ 0xd5
    } else {
        c << 1
    }
}

/// `n` rounds of the CRC-8/DVB-S2 shift.
pub open spec fn spec_crc8_iter(c: u8, n: nat) -> u8
    decreases n,
{
    if n == 0 {
        c
    } else {
        spec_crc8_shift(spec_crc8_iter(c, (n - 1) as nat))
    }
}

/// Folding one byte into a CRC-8/DVB-S2 accumulator: XOR the byte in,
/// then shift eight times.
pub open spec fn spec_crc8(c: u8, a: u8) -> u8 {
    spec_crc8_iter(c ^ a, 8)
}

/// CRC-8/DVB-S2 over a byte sequence, folded left to right from `seed`.
pub open spec fn spec_crc8_fold(seed: u8, s: Seq<u8>) -> u8
    decreases s.len(),
{
    if s.len() == 0 {
        seed
    } else {
        spec_crc8_fold(spec_crc8(seed, s[0]), s.drop_first())
    }
}

/// XOR of a byte sequence, folded left to right from `seed`.
pub open spec fn spec_xor_fold(seed: u8, s: Seq<u8>) -> u8
    decreases s.len(),
{
    if s.len() == 0 {
        seed
    } else {
        spec_xor_fold(seed ^ s[0], s.drop_first())
    }
}

/// XOR with zero on either side is the identity.
pub proof fn lemma_xor_zero(x: u8)
    by (bit_vector)
    ensures
        0u8 ^ x == x,
        x ^ 0u8 == x,
{
}

/// Appending a byte to an XOR fold XORs it into the folded value.
pub proof fn lemma_xor_fold_snoc(seed: u8, s: Seq<u8>, b: u8)
    ensures
        spec_xor_fold(seed, s.push(b)) == spec_xor_fold(seed, s) ^ b,
    decreases s.len(),
{
    if s.len() == 0 {
        assert(s.push(b)[0] == b);
        assert(s.push(b).drop_first() =~= Seq::<u8>::empty());
        assert(spec_xor_fold(seed ^ b, Seq::<u8>::empty()) == seed ^ b);
        assert(spec_xor_fold(seed, s.push(b)) == spec_xor_fold(seed ^ b, s.push(b).drop_first()));
    } else {
        assert(s.push(b)[0] == s[0]);
        assert(s.push(b).drop_first() =~= s.drop_first().push(b));
        lemma_xor_fold_snoc(seed ^ s[0], s.drop_first(), b);
        assert(spec_xor_fold(seed, s.push(b)) == spec_xor_fold(
            seed ^ s[0],
            s.drop_first().push(b),
        ));
        assert(spec_xor_fold(seed, s) == spec_xor_fold(seed ^ s[0], s.drop_first()));
    }
}

/// Appending a byte to a CRC fold folds it into the accumulated value.
pub proof fn lemma_crc8_fold_snoc(seed: u8, s: Seq<u8>, b: u8)
    ensures
        spec_crc8_fold(seed, s.push(b)) == spec_crc8(spec_crc8_fold(seed, s), b),
    decreases s.len(),
{
    if s.len() == 0 {
        assert(s.push(b)[0] == b);
        assert(s.push(b).drop_first() =~= Seq::<u8>::empty());
        assert(spec_crc8_fold(spec_crc8(seed, b), Seq::<u8>::empty()) == spec_crc8(seed, b));
        assert(spec_crc8_fold(seed, s.push(b)) == spec_crc8_fold(
            spec_crc8(seed, b),
            s.push(b).drop_first(),
        ));
    } else {
        assert(s.push(b)[0] == s[0]);
        assert(s.push(b).drop_first() =~= s.drop_first().push(b));
        lemma_crc8_fold_snoc(spec_crc8(seed, s[0]), s.drop_first(), b);
        assert(spec_crc8_fold(seed, s.push(b)) == spec_crc8_fold(
            spec_crc8(seed, s[0]),
            s.drop_first().push(b),
        ));
        assert(spec_crc8_fold(seed, s) == spec_crc8_fold(spec_crc8(seed, s[0]), s.drop_first()));
    }
}

/// An XOR fold over the concatenation of two sequences folds them in turn.
pub proof fn lemma_xor_fold_append(seed: u8, s1: Seq<u8>, s2: Seq<u8>)
    ensures
        spec_xor_fold(seed, s1 + s2) == spec_xor_fold(spec_xor_fold(seed, s1), s2),
    decreases s1.len(),
{
    if s1.len() == 0 {
        assert(s1 + s2 =~= s2);
    } else {
        assert((s1 + s2)[0] == s1[0]);
        assert((s1 + s2).drop_first() =~= s1.drop_first() + s2);
        lemma_xor_fold_append(seed ^ s1[0], s1.drop_first(), s2);
    }
}

/// A CRC fold over the concatenation of two sequences folds them in turn.
pub proof fn lemma_crc8_fold_append(seed: u8, s1: Seq<u8>, s2: Seq<u8>)
    ensures
        spec_crc8_fold(seed, s1 + s2) == spec_crc8_fold(spec_crc8_fold(seed, s1), s2),
    decreases s1.len(),
{
    if s1.len() == 0 {
        assert(s1 + s2 =~= s2);
    } else {
        assert((s1 + s2)[0] == s1[0]);
        assert((s1 + s2).drop_first() =~= s1.drop_first() + s2);
        lemma_crc8_fold_append(spec_crc8(seed, s1[0]), s1.drop_first(), s2);
    }
}

/// Fold one byte into a CRC-8/DVB-S2 accumulator.
pub fn crc8_dvb_s2(c: u8, a: u8) -> (r: u8)
    ensures
        r == spec_crc8(c, a),
{
    let mut acc: u8 = c ^ a;
    let mut i: usize = 0;
    while i < 8
        invariant
            i <= 8,
            acc == spec_crc8_iter(c ^ a, i as nat),
        decreases 8 - i,
    {
        if (acc & 0x80) != 0 {
            acc = (acc << 1u8) ^ 0xd5;
        } else {
            acc = acc << 1u8;
        }
        i = i + 1;
    }
    acc
}

/// XOR checksum of a V1 frame: folded over the length byte, the command
/// byte and the payload, in that order.
pub open spec fn spec_v1_check(cmd: u16, payload: Seq<u8>) -> u8 {
    spec_xor_fold(0, seq![payload.len() as u8, cmd as u8] + payload)
}

/// A complete V1 frame with the given direction byte. The length and
/// command fields are single bytes, so both are truncated to their low
/// byte here, exactly as the encoder emits them.
pub open spec fn spec_frame_v1(dirn: u8, cmd: u16, payload: Seq<u8>) -> Seq<u8> {
    seq![SYNC_BYTE, V1_BYTE, dirn, payload.len() as u8, cmd as u8] + payload + seq![
        spec_v1_check(cmd, payload),
    ]
}

/// The five checksummed V2 header bytes: flag byte (always zero on
/// encode), command and length, both 16-bit little-endian.
pub open spec fn spec_v2_hdr(cmd: u16, payload: Seq<u8>) -> Seq<u8> {
    seq![
        0u8,
        (cmd & 0xff) as u8,
        (cmd >> 8) as u8,
        ((payload.len() as u16) & 0xff) as u8,
        ((payload.len() as u16) >> 8) as u8,
    ]
}

/// CRC-8/DVB-S2 checksum of a V2 frame: folded over the header bytes and
/// the payload, in that order.
pub open spec fn spec_v2_check(cmd: u16, payload: Seq<u8>) -> u8 {
    spec_crc8_fold(0, spec_v2_hdr(cmd, payload) + payload)
}

/// A complete V2 frame with the given direction byte.
pub open spec fn spec_frame_v2(dirn: u8, cmd: u16, payload: Seq<u8>) -> Seq<u8> {
    seq![SYNC_BYTE, V2_BYTE, dirn] + spec_v2_hdr(cmd, payload) + payload + seq![
        spec_v2_check(cmd, payload),
    ]
}

/// Encode a V1 request frame. The payload must fit the one-byte length
/// field; commands above 255 lose their high byte, which V1 cannot carry.
pub fn encode_msp(cmd: u16, payload: &[u8]) -> (v: Vec<u8>)
    requires
        payload@.len() <= 255,
    ensures
        v@ == spec_frame_v1(REQUEST_BYTE, cmd, payload@),
{
    let paylen: usize = payload.len();
    let lenb: u8 = paylen as u8;
    let cmdb: u8 = #[verifier::truncate] (cmd as u8);
    let mut v: Vec<u8> = Vec::new();
    v.push(SYNC_BYTE);
    v.push(V1_BYTE);
    v.push(REQUEST_BYTE);
    v.push(lenb);
    v.push(cmdb);
    let mut crc: u8 = lenb ^ cmdb;
    proof {
        lemma_xor_zero(lenb);
        assert(seq![lenb, cmdb].drop_first() =~= seq![cmdb]);
        assert(seq![cmdb].drop_first() =~= Seq::<u8>::empty());
        assert(spec_xor_fold(lenb ^ cmdb, Seq::<u8>::empty()) == lenb ^ cmdb);
        assert(spec_xor_fold(lenb, seq![cmdb]) == spec_xor_fold(lenb ^ cmdb, Seq::<u8>::empty()));
        assert(spec_xor_fold(0, seq![lenb, cmdb]) == spec_xor_fold(0 ^ lenb, seq![cmdb]));
        assert(seq![lenb, cmdb] + payload@.take(0) =~= seq![lenb, cmdb]);
        assert(crc == spec_xor_fold(0, seq![lenb, cmdb] + payload@.take(0)));
    }
    let mut i: usize = 0;
    while i < paylen
        invariant
            i <= paylen,
            paylen == payload@.len(),
            v@ == seq![SYNC_BYTE, V1_BYTE, REQUEST_BYTE, lenb, cmdb] + payload@.take(i as int),
            crc == spec_xor_fold(0, seq![lenb, cmdb] + payload@.take(i as int)),
        decreases paylen - i,
    {
        proof {
            lemma_xor_fold_snoc(0, seq![lenb, cmdb] + payload@.take(i as int), payload@[i as int]);
            assert((seq![lenb, cmdb] + payload@.take(i as int)).push(payload@[i as int]) =~= seq![
                lenb,
                cmdb,
            ] + payload@.take(i as int + 1));
            assert(payload@.take(i as int).push(payload@[i as int]) =~= payload@.take(i as int + 1));
        }
        crc = crc ^ payload[i];
        v.push(payload[i]);
        i = i + 1;
    }
    proof {
        assert(payload@.take(paylen as int) =~= payload@);
    }
    v.push(crc);
    proof {
        assert(v@ =~= spec_frame_v1(REQUEST_BYTE, cmd, payload@));
    }
    v
}

/// Encode a V2 request frame. The payload must fit the two-byte length
/// field.
pub fn encode_msp2(cmd: u16, payload: &[u8]) -> (v: Vec<u8>)
    requires
        payload@.len() <= 65535,
    ensures
        v@ == spec_frame_v2(REQUEST_BYTE, cmd, payload@),
{
    let paylen: usize = payload.len();
    let cmdlo: u8 = #[verifier::truncate] ((cmd & 0xff) as u8);
    let cmdhi: u8 = #[verifier::truncate] ((cmd >> 8u16) as u8);
    let lenw: u16 = paylen as u16;
    let lenlo: u8 = #[verifier::truncate] ((lenw & 0xff) as u8);
    let lenhi: u8 = #[verifier::truncate] ((lenw >> 8u16) as u8);
    let ghost hdr: Seq<u8> = spec_v2_hdr(cmd, payload@);
    let mut v: Vec<u8> = Vec::new();
    v.push(SYNC_BYTE);
    v.push(V2_BYTE);
    v.push(REQUEST_BYTE);
    v.push(0);
    v.push(cmdlo);
    v.push(cmdhi);
    v.push(lenlo);
    v.push(lenhi);
    let mut crc: u8 = 0;
    crc = crc8_dvb_s2(crc, 0);
    crc = crc8_dvb_s2(crc, cmdlo);
    crc = crc8_dvb_s2(crc, cmdhi);
    crc = crc8_dvb_s2(crc, lenlo);
    crc = crc8_dvb_s2(crc, lenhi);
    proof {
        let c0 = spec_crc8(0, 0);
        let c1 = spec_crc8(c0, cmdlo);
        let c2 = spec_crc8(c1, cmdhi);
        let c3 = spec_crc8(c2, lenlo);
        let c4 = spec_crc8(c3, lenhi);
        assert(hdr.drop_first() =~= seq![cmdlo, cmdhi, lenlo, lenhi]);
        assert(seq![cmdlo, cmdhi, lenlo, lenhi].drop_first() =~= seq![cmdhi, lenlo, lenhi]);
        assert(seq![cmdhi, lenlo, lenhi].drop_first() =~= seq![lenlo, lenhi]);
        assert(seq![lenlo, lenhi].drop_first() =~= seq![lenhi]);
        assert(seq![lenhi].drop_first() =~= Seq::<u8>::empty());
        assert(hdr[0] == 0u8);
        assert(spec_crc8_fold(0, hdr) == spec_crc8_fold(c0, seq![cmdlo, cmdhi, lenlo, lenhi]));
        assert(spec_crc8_fold(c0, seq![cmdlo, cmdhi, lenlo, lenhi]) == spec_crc8_fold(
            c1,
            seq![cmdhi, lenlo, lenhi],
        ));
        assert(spec_crc8_fold(c1, seq![cmdhi, lenlo, lenhi]) == spec_crc8_fold(
            c2,
            seq![lenlo, lenhi],
        ));
        assert(spec_crc8_fold(c2, seq![lenlo, lenhi]) == spec_crc8_fold(c3, seq![lenhi]));
        assert(spec_crc8_fold(c3, seq![lenhi]) == spec_crc8_fold(c4, Seq::<u8>::empty()));
        assert(crc == spec_crc8_fold(0, hdr));
        assert(hdr + payload@.take(0) =~= hdr);
        assert(crc == spec_crc8_fold(0, hdr + payload@.take(0)));
    }
    let mut i: usize = 0;
    while i < paylen
        invariant
            i <= paylen,
            paylen == payload@.len(),
            hdr == spec_v2_hdr(cmd, payload@),
            v@ == seq![SYNC_BYTE, V2_BYTE, REQUEST_BYTE] + hdr + payload@.take(i as int),
            crc == spec_crc8_fold(0, hdr + payload@.take(i as int)),
        decreases paylen - i,
    {
        proof {
            lemma_crc8_fold_snoc(0, hdr + payload@.take(i as int), payload@[i as int]);
            assert((hdr + payload@.take(i as int)).push(payload@[i as int]) =~= hdr + payload@.take(
                i as int + 1,
            ));
            assert(payload@.take(i as int).push(payload@[i as int]) =~= payload@.take(i as int + 1));
        }
        crc = crc8_dvb_s2(crc, payload[i]);
        v.push(payload[i]);
        i = i + 1;
    }
    proof {
        assert(payload@.take(paylen as int) =~= payload@);
    }
    v.push(crc);
    proof {
        assert(v@ =~= spec_frame_v2(REQUEST_BYTE, cmd, payload@));
    }
    v
}

/// Encode a request in the wire format selected by `vers`, as the session
/// controller does: version 1 uses the V1 format, anything else V2.
pub fn encode_msp_vers(cmd: u16, payload: &[u8], vers: u8) -> (v: Vec<u8>)
    requires
        payload@.len() <= 255,
    ensures
        v@ == if vers == 1 {
            spec_frame_v1(REQUEST_BYTE, cmd, payload@)
        } else {
            spec_frame_v2(REQUEST_BYTE, cmd, payload@)
        },
{
    if vers == 1 {
        encode_msp(cmd, payload)
    } else {
        encode_msp2(cmd, payload)
    }
}

} // verus!

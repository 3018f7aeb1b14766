//! The decoder's global laws: block-versus-byte equivalence, lossless
//! resynchronization past garbage, the encode/decode round trip, and the
//! checksum's rejection of corrupted frames.

use vstd::prelude::*;

use crate::decoder::{spec_feed_all, spec_outcome, spec_step, DecModel, States};
use crate::msp::{
    lemma_crc8_fold_append, lemma_xor_fold_append, lemma_xor_zero, spec_crc8, spec_crc8_fold,
    spec_crc8_iter, spec_crc8_shift, spec_frame_v1, spec_frame_v2, spec_v1_check, spec_v2_check,
    spec_v2_hdr, spec_xor_fold, FrameModel, MSPRes, ERROR_BYTE, REPLY_BYTE, SYNC_BYTE, V1_BYTE,
    V2_BYTE,
};

verus! {

/// One byte of input either extends the frame in progress or emits one
/// finished frame; feeding a non-empty sequence is one step, then the
/// rest.
pub proof fn lemma_feed_step(m: DecModel, bytes: Seq<u8>)
    requires
        bytes.len() > 0,
    ensures
        spec_feed_all(m, bytes).0 == spec_feed_all(spec_step(m, bytes[0]).0, bytes.drop_first()).0,
        spec_feed_all(m, bytes).1 == (match spec_step(m, bytes[0]).1 {
            Option::None => Seq::<FrameModel>::empty(),
            Option::Some(f) => seq![f],
        }) + spec_feed_all(spec_step(m, bytes[0]).0, bytes.drop_first()).1,
{
    let (m1, f) = spec_step(m, bytes[0]);
    let fs = spec_feed_all(m1, bytes.drop_first()).1;
    match f {
        Option::None => {
            assert(Seq::<FrameModel>::empty() + fs =~= fs);
        },
        Option::Some(fr) => {
        },
    }
}

/// Feeding `s1 + s2` is feeding `s1`, then `s2`, with the emitted frames
/// concatenated: the decoder behaves identically however its input is
/// split into blocks.
pub proof fn lemma_feed_all_append(m: DecModel, s1: Seq<u8>, s2: Seq<u8>)
    ensures
        spec_feed_all(m, s1 + s2).0 == spec_feed_all(spec_feed_all(m, s1).0, s2).0,
        spec_feed_all(m, s1 + s2).1 == spec_feed_all(m, s1).1 + spec_feed_all(
            spec_feed_all(m, s1).0,
            s2,
        ).1,
    decreases s1.len(),
{
    if s1.len() == 0 {
        assert(s1 + s2 =~= s2);
        assert(spec_feed_all(m, s1).0 == m);
        assert(spec_feed_all(m, s1).1 =~= Seq::<FrameModel>::empty());
        assert(Seq::<FrameModel>::empty() + spec_feed_all(m, s2).1 =~= spec_feed_all(m, s2).1);
    } else {
        assert((s1 + s2)[0] == s1[0]);
        assert((s1 + s2).drop_first() =~= s1.drop_first() + s2);
        let (m1, f) = spec_step(m, s1[0]);
        lemma_feed_all_append(m1, s1.drop_first(), s2);
        let mid = spec_feed_all(m1, s1.drop_first()).0;
        let fs1 = spec_feed_all(m1, s1.drop_first()).1;
        let fs2 = spec_feed_all(mid, s2).1;
        match f {
            Option::None => {
            },
            Option::Some(fr) => {
                assert(seq![fr] + (fs1 + fs2) =~= (seq![fr] + fs1) + fs2);
            },
        }
    }
}

/// While the decoder is seeking sync, bytes other than `$` change nothing
/// and emit nothing.
pub proof fn lemma_garbage_ignored(m: DecModel, g: Seq<u8>)
    requires
        m.state is Init,
        forall|i: int| 0 <= i < g.len() ==> g[i] != SYNC_BYTE,
    ensures
        spec_feed_all(m, g).0 == m,
        spec_feed_all(m, g).1 == Seq::<FrameModel>::empty(),
    decreases g.len(),
{
    if g.len() > 0 {
        assert(g[0] != SYNC_BYTE);
        assert(spec_step(m, g[0]).0 == m);
        lemma_garbage_ignored(m, g.drop_first());
    }
}

/// Resynchronization is lossless: garbage bytes in front of the remaining
/// input are skipped without affecting a single frame decoded after them.
pub proof fn lemma_resync_lossless(m: DecModel, g: Seq<u8>, rest: Seq<u8>)
    requires
        m.state is Init,
        forall|i: int| 0 <= i < g.len() ==> g[i] != SYNC_BYTE,
    ensures
        spec_feed_all(m, g + rest).0 == spec_feed_all(m, rest).0,
        spec_feed_all(m, g + rest).1 == spec_feed_all(m, rest).1,
{
    lemma_feed_all_append(m, g, rest);
    lemma_garbage_ignored(m, g);
    assert(Seq::<FrameModel>::empty() + spec_feed_all(m, rest).1 =~= spec_feed_all(m, rest).1);
}

/// A two-byte prefix of an XOR fold collapses to its XOR.
proof fn lemma_xor_fold2(b0: u8, b1: u8, s: Seq<u8>)
    ensures
        spec_xor_fold(0, seq![b0, b1] + s) == spec_xor_fold(b0 ^ b1, s),
{
    lemma_xor_zero(b0);
    let whole = seq![b0, b1] + s;
    assert(whole[0] == b0);
    assert(whole.drop_first() =~= seq![b1] + s);
    assert((seq![b1] + s)[0] == b1);
    assert((seq![b1] + s).drop_first() =~= s);
    assert(spec_xor_fold(0, whole) == spec_xor_fold(0 ^ b0, seq![b1] + s));
    assert(spec_xor_fold(b0, seq![b1] + s) == spec_xor_fold(b0 ^ b1, s));
}

/// In the V1 payload state, feeding exactly the missing payload bytes
/// XORs them into the accumulator and lands on the checksum state without
/// emitting anything.
proof fn lemma_feed_data_v1(m: DecModel, rest: Seq<u8>)
    requires
        m.state is Data,
        m.data.len() < m.len,
        m.data.len() + rest.len() == m.len,
    ensures
        spec_feed_all(m, rest).0 == (DecModel {
            state: States::Crc,
            len: m.len,
            cmd: m.cmd,
            data: m.data + rest,
            crc: spec_xor_fold(m.crc, rest),
            dirnok: m.dirnok,
        }),
        spec_feed_all(m, rest).1 == Seq::<FrameModel>::empty(),
    decreases rest.len(),
{
    let (m1, f) = spec_step(m, rest[0]);
    lemma_feed_step(m, rest);
    assert(spec_xor_fold(m.crc, rest) == spec_xor_fold(m.crc ^ rest[0], rest.drop_first()));
    if m.data.len() + 1 == m.len {
        assert(rest.len() == 1);
        assert(rest.drop_first() =~= Seq::<u8>::empty());
        assert(m1.state is Crc);
        assert(m.data.push(rest[0]) =~= m.data + rest);
        assert(spec_feed_all(m1, rest.drop_first()).0 == m1);
        assert(spec_feed_all(m, rest).0 =~= (DecModel {
            state: States::Crc,
            len: m.len,
            cmd: m.cmd,
            data: m.data + rest,
            crc: spec_xor_fold(m.crc, rest),
            dirnok: m.dirnok,
        }));
    } else {
        assert(m1.state is Data);
        lemma_feed_data_v1(m1, rest.drop_first());
        assert(m.data.push(rest[0]) + rest.drop_first() =~= m.data + rest);
        assert(spec_feed_all(m, rest).0 =~= (DecModel {
            state: States::Crc,
            len: m.len,
            cmd: m.cmd,
            data: m.data + rest,
            crc: spec_xor_fold(m.crc, rest),
            dirnok: m.dirnok,
        }));
    }
}

/// Walk one whole V1 frame, with arbitrary command, payload and checksum
/// bytes, from the sync-seeking state: exactly one frame comes out,
/// classified by comparing the XOR accumulator with the checksum byte.
proof fn lemma_walk_v1(m: DecModel, dirn: u8, cmdb: u8, payload: Seq<u8>, ck: u8)
    requires
        m.state is Init,
        dirn == REPLY_BYTE || dirn == ERROR_BYTE,
        payload.len() <= 255,
    ensures
        ({
            let lenb = payload.len() as u8;
            let bytes = seq![SYNC_BYTE, V1_BYTE, dirn, lenb, cmdb] + payload + seq![ck];
            let acc = spec_xor_fold(0, seq![lenb, cmdb] + payload);
            &&& spec_feed_all(m, bytes).0.state is Init
            &&& spec_feed_all(m, bytes).0.data == Seq::<u8>::empty()
            &&& spec_feed_all(m, bytes).1 == seq![
                FrameModel {
                    len: payload.len() as u16,
                    cmd: cmdb as u16,
                    ok: spec_outcome(acc, ck, dirn == REPLY_BYTE),
                    data: payload,
                },
            ]
        }),
{
    let lenb = payload.len() as u8;
    let bytes = seq![SYNC_BYTE, V1_BYTE, dirn, lenb, cmdb] + payload + seq![ck];
    let tail = payload + seq![ck];
    let acc = spec_xor_fold(0, seq![lenb, cmdb] + payload);
    lemma_xor_fold2(lenb, cmdb, payload);

    let m1 = spec_step(m, SYNC_BYTE).0;
    let m2 = spec_step(m1, V1_BYTE).0;
    let m3 = spec_step(m2, dirn).0;
    let m4 = spec_step(m3, lenb).0;
    let m5 = spec_step(m4, cmdb).0;

    let s0 = bytes;
    let s1 = seq![V1_BYTE, dirn, lenb, cmdb] + tail;
    let s2 = seq![dirn, lenb, cmdb] + tail;
    let s3 = seq![lenb, cmdb] + tail;
    let s4 = seq![cmdb] + tail;

    assert(s0[0] == SYNC_BYTE);
    assert(s0.drop_first() =~= s1);
    lemma_feed_step(m, s0);
    assert(s1[0] == V1_BYTE);
    assert(s1.drop_first() =~= s2);
    lemma_feed_step(m1, s1);
    assert(s2[0] == dirn);
    assert(s2.drop_first() =~= s3);
    lemma_feed_step(m2, s2);
    assert(s3[0] == lenb);
    assert(s3.drop_first() =~= s4);
    lemma_feed_step(m3, s3);
    assert(s4[0] == cmdb);
    assert(s4.drop_first() =~= tail);
    lemma_feed_step(m4, s4);

    assert(m3.dirnok == (dirn == REPLY_BYTE));
    assert(m5.len == lenb as u16);
    assert(m5.cmd == cmdb as u16);
    assert(m5.crc == (lenb ^ cmdb));
    assert(m5.data =~= Seq::<u8>::empty());
    assert(lenb as u16 == payload.len() as u16);

    let fr = FrameModel {
        len: payload.len() as u16,
        cmd: cmdb as u16,
        ok: spec_outcome(acc, ck, dirn == REPLY_BYTE),
        data: payload,
    };
    if payload.len() == 0 {
        assert(m5.len == 0);
        assert(m5.state is Crc);
        assert(tail =~= seq![ck]);
        assert(tail[0] == ck);
        assert(tail.drop_first() =~= Seq::<u8>::empty());
        lemma_feed_step(m5, tail);
        assert(acc == (lenb ^ cmdb)) by {
            assert(payload =~= Seq::<u8>::empty());
        }
        assert(spec_step(m5, ck).1 =~= Option::Some(fr)) by {
            assert(m5.data =~= payload);
        }
        assert(spec_feed_all(m, bytes).1 =~= seq![fr]);
    } else {
        assert(m5.len > 0);
        assert(m5.state is Data);
        lemma_feed_all_append(m5, payload, seq![ck]);
        lemma_feed_data_v1(m5, payload);
        let m6 = spec_feed_all(m5, payload).0;
        assert(m6.data =~= payload);
        assert(m6.crc == spec_xor_fold(lenb ^ cmdb, payload));
        assert(m6.state is Crc);
        assert(seq![ck][0] == ck);
        assert(seq![ck].drop_first() =~= Seq::<u8>::empty());
        lemma_feed_step(m6, seq![ck]);
        assert(spec_step(m6, ck).1 =~= Option::Some(fr));
        assert(spec_feed_all(m, bytes).1 =~= seq![fr]);
        assert(spec_feed_all(m, bytes).0.data =~= Seq::<u8>::empty());
    }
}

/// The two little-endian bytes of a 16-bit word reassemble to the word.
proof fn lemma_u16_bytes(w: u16)
    by (bit_vector)
    ensures
        ((((w & 0xff) as u8) as u16) | ((((w >> 8) as u8) as u16) << 8)) == w,
        (((w & 0xff) as u8) as u16) == (w & 0xff),
{
}

/// A five-byte prefix of a CRC fold collapses to the chained CRC of the
/// five bytes.
proof fn lemma_crc8_fold5(b0: u8, b1: u8, b2: u8, b3: u8, b4: u8, s: Seq<u8>)
    ensures
        spec_crc8_fold(0, seq![b0, b1, b2, b3, b4] + s) == spec_crc8_fold(
            spec_crc8(spec_crc8(spec_crc8(spec_crc8(spec_crc8(0, b0), b1), b2), b3), b4),
            s,
        ),
{
    let c0 = spec_crc8(0, b0);
    let c1 = spec_crc8(c0, b1);
    let c2 = spec_crc8(c1, b2);
    let c3 = spec_crc8(c2, b3);
    let whole = seq![b0, b1, b2, b3, b4] + s;
    assert(whole[0] == b0);
    assert(whole.drop_first() =~= seq![b1, b2, b3, b4] + s);
    assert((seq![b1, b2, b3, b4] + s)[0] == b1);
    assert((seq![b1, b2, b3, b4] + s).drop_first() =~= seq![b2, b3, b4] + s);
    assert((seq![b2, b3, b4] + s)[0] == b2);
    assert((seq![b2, b3, b4] + s).drop_first() =~= seq![b3, b4] + s);
    assert((seq![b3, b4] + s)[0] == b3);
    assert((seq![b3, b4] + s).drop_first() =~= seq![b4] + s);
    assert((seq![b4] + s)[0] == b4);
    assert((seq![b4] + s).drop_first() =~= s);
    assert(spec_crc8_fold(0, whole) == spec_crc8_fold(c0, seq![b1, b2, b3, b4] + s));
    assert(spec_crc8_fold(c0, seq![b1, b2, b3, b4] + s) == spec_crc8_fold(
        c1,
        seq![b2, b3, b4] + s,
    ));
    assert(spec_crc8_fold(c1, seq![b2, b3, b4] + s) == spec_crc8_fold(c2, seq![b3, b4] + s));
    assert(spec_crc8_fold(c2, seq![b3, b4] + s) == spec_crc8_fold(c3, seq![b4] + s));
    assert(spec_crc8_fold(c3, seq![b4] + s) == spec_crc8_fold(spec_crc8(c3, b4), s));
}

/// In the V2 payload state, feeding exactly the missing payload bytes
/// folds them into the CRC accumulator and lands on the checksum state
/// without emitting anything.
proof fn lemma_feed_data_v2(m: DecModel, rest: Seq<u8>)
    requires
        m.state is XData,
        m.data.len() < m.len,
        m.data.len() + rest.len() == m.len,
    ensures
        spec_feed_all(m, rest).0 == (DecModel {
            state: States::XChecksum,
            len: m.len,
            cmd: m.cmd,
            data: m.data + rest,
            crc: spec_crc8_fold(m.crc, rest),
            dirnok: m.dirnok,
        }),
        spec_feed_all(m, rest).1 == Seq::<FrameModel>::empty(),
    decreases rest.len(),
{
    let (m1, f) = spec_step(m, rest[0]);
    lemma_feed_step(m, rest);
    assert(spec_crc8_fold(m.crc, rest) == spec_crc8_fold(
        spec_crc8(m.crc, rest[0]),
        rest.drop_first(),
    ));
    if m.data.len() + 1 == m.len {
        assert(rest.len() == 1);
        assert(rest.drop_first() =~= Seq::<u8>::empty());
        assert(m1.state is XChecksum);
        assert(m.data.push(rest[0]) =~= m.data + rest);
        assert(spec_feed_all(m1, rest.drop_first()).0 == m1);
        assert(spec_feed_all(m, rest).0 =~= (DecModel {
            state: States::XChecksum,
            len: m.len,
            cmd: m.cmd,
            data: m.data + rest,
            crc: spec_crc8_fold(m.crc, rest),
            dirnok: m.dirnok,
        }));
    } else {
        assert(m1.state is XData);
        lemma_feed_data_v2(m1, rest.drop_first());
        assert(m.data.push(rest[0]) + rest.drop_first() =~= m.data + rest);
        assert(spec_feed_all(m, rest).0 =~= (DecModel {
            state: States::XChecksum,
            len: m.len,
            cmd: m.cmd,
            data: m.data + rest,
            crc: spec_crc8_fold(m.crc, rest),
            dirnok: m.dirnok,
        }));
    }
}

/// Walk one whole V2 frame, with arbitrary flag, command, payload and
/// checksum bytes, from the sync-seeking state: exactly one frame comes
/// out, classified by comparing the CRC accumulator with the checksum
/// byte.
proof fn lemma_walk_v2(
    m: DecModel,
    dirn: u8,
    flag: u8,
    cmdlo: u8,
    cmdhi: u8,
    payload: Seq<u8>,
    ck: u8,
)
    requires
        m.state is Init,
        dirn == REPLY_BYTE || dirn == ERROR_BYTE,
        payload.len() <= 65535,
    ensures
        ({
            let lenlo = (((payload.len() as u16) & 0xff) as u8);
            let lenhi = (((payload.len() as u16) >> 8) as u8);
            let bytes = seq![SYNC_BYTE, V2_BYTE, dirn, flag, cmdlo, cmdhi, lenlo, lenhi] + payload
                + seq![ck];
            let acc = spec_crc8_fold(0, seq![flag, cmdlo, cmdhi, lenlo, lenhi] + payload);
            &&& spec_feed_all(m, bytes).0.state is Init
            &&& spec_feed_all(m, bytes).0.data == Seq::<u8>::empty()
            &&& spec_feed_all(m, bytes).1 == seq![
                FrameModel {
                    len: payload.len() as u16,
                    cmd: ((cmdlo as u16) | ((cmdhi as u16) << 8)),
                    ok: spec_outcome(acc, ck, dirn == REPLY_BYTE),
                    data: payload,
                },
            ]
        }),
{
    let lenw = payload.len() as u16;
    let lenlo = ((lenw & 0xff) as u8);
    let lenhi = ((lenw >> 8) as u8);
    let bytes = seq![SYNC_BYTE, V2_BYTE, dirn, flag, cmdlo, cmdhi, lenlo, lenhi] + payload + seq![
        ck,
    ];
    let tail = payload + seq![ck];
    let acc = spec_crc8_fold(0, seq![flag, cmdlo, cmdhi, lenlo, lenhi] + payload);
    lemma_crc8_fold5(flag, cmdlo, cmdhi, lenlo, lenhi, payload);
    lemma_u16_bytes(lenw);

    let m1 = spec_step(m, SYNC_BYTE).0;
    let m2 = spec_step(m1, V2_BYTE).0;
    let m3 = spec_step(m2, dirn).0;
    let m4 = spec_step(m3, flag).0;
    let m5 = spec_step(m4, cmdlo).0;
    let m6 = spec_step(m5, cmdhi).0;
    let m7 = spec_step(m6, lenlo).0;
    let m8 = spec_step(m7, lenhi).0;

    let s0 = bytes;
    let s1 = seq![V2_BYTE, dirn, flag, cmdlo, cmdhi, lenlo, lenhi] + tail;
    let s2 = seq![dirn, flag, cmdlo, cmdhi, lenlo, lenhi] + tail;
    let s3 = seq![flag, cmdlo, cmdhi, lenlo, lenhi] + tail;
    let s4 = seq![cmdlo, cmdhi, lenlo, lenhi] + tail;
    let s5 = seq![cmdhi, lenlo, lenhi] + tail;
    let s6 = seq![lenlo, lenhi] + tail;
    let s7 = seq![lenhi] + tail;

    assert(s0[0] == SYNC_BYTE);
    assert(s0.drop_first() =~= s1);
    lemma_feed_step(m, s0);
    assert(s1[0] == V2_BYTE);
    assert(s1.drop_first() =~= s2);
    lemma_feed_step(m1, s1);
    assert(s2[0] == dirn);
    assert(s2.drop_first() =~= s3);
    lemma_feed_step(m2, s2);
    assert(s3[0] == flag);
    assert(s3.drop_first() =~= s4);
    lemma_feed_step(m3, s3);
    assert(s4[0] == cmdlo);
    assert(s4.drop_first() =~= s5);
    lemma_feed_step(m4, s4);
    assert(s5[0] == cmdhi);
    assert(s5.drop_first() =~= s6);
    lemma_feed_step(m5, s5);
    assert(s6[0] == lenlo);
    assert(s6.drop_first() =~= s7);
    lemma_feed_step(m6, s6);
    assert(s7[0] == lenhi);
    assert(s7.drop_first() =~= tail);
    lemma_feed_step(m7, s7);

    assert(m3.dirnok == (dirn == REPLY_BYTE));
    assert(m8.len == lenw);
    assert(m8.cmd == ((cmdlo as u16) | ((cmdhi as u16) << 8)));
    assert(m8.crc == spec_crc8(spec_crc8(spec_crc8(spec_crc8(spec_crc8(0, flag), cmdlo), cmdhi), lenlo), lenhi));
    assert(m8.data =~= Seq::<u8>::empty());

    let fr = FrameModel {
        len: payload.len() as u16,
        cmd: ((cmdlo as u16) | ((cmdhi as u16) << 8)),
        ok: spec_outcome(acc, ck, dirn == REPLY_BYTE),
        data: payload,
    };
    if payload.len() == 0 {
        assert(m8.len == 0);
        assert(m8.state is XChecksum);
        assert(tail =~= seq![ck]);
        assert(tail[0] == ck);
        assert(tail.drop_first() =~= Seq::<u8>::empty());
        lemma_feed_step(m8, tail);
        assert(acc == m8.crc) by {
            assert(payload =~= Seq::<u8>::empty());
        }
        assert(spec_step(m8, ck).1 =~= Option::Some(fr)) by {
            assert(m8.data =~= payload);
        }
        assert(spec_feed_all(m, bytes).1 =~= seq![fr]);
    } else {
        assert(m8.len > 0);
        assert(m8.state is XData);
        lemma_feed_all_append(m8, payload, seq![ck]);
        lemma_feed_data_v2(m8, payload);
        let m9 = spec_feed_all(m8, payload).0;
        assert(m9.data =~= payload);
        assert(m9.crc == acc);
        assert(m9.state is XChecksum);
        assert(seq![ck][0] == ck);
        assert(seq![ck].drop_first() =~= Seq::<u8>::empty());
        lemma_feed_step(m9, seq![ck]);
        assert(spec_step(m9, ck).1 =~= Option::Some(fr));
        assert(spec_feed_all(m, bytes).1 =~= seq![fr]);
        assert(spec_feed_all(m, bytes).0.data =~= Seq::<u8>::empty());
    }
}

/// Decoding a well-formed V2 reply frame from the sync-seeking state
/// yields exactly one frame carrying the original command and payload:
/// `Okay` for the reply direction byte, `Dirn` for the error direction
/// byte. The decoder ends back at sync-seeking with an empty buffer.
pub proof fn lemma_round_trip_v2(m: DecModel, dirn: u8, cmd: u16, payload: Seq<u8>)
    requires
        m.state is Init,
        payload.len() <= 65535,
        dirn == REPLY_BYTE || dirn == ERROR_BYTE,
    ensures
        spec_feed_all(m, spec_frame_v2(dirn, cmd, payload)).0.state is Init,
        spec_feed_all(m, spec_frame_v2(dirn, cmd, payload)).0.data == Seq::<u8>::empty(),
        spec_feed_all(m, spec_frame_v2(dirn, cmd, payload)).1 == seq![
            FrameModel {
                len: payload.len() as u16,
                cmd: cmd,
                ok: if dirn == REPLY_BYTE {
                    MSPRes::Okay
                } else {
                    MSPRes::Dirn
                },
                data: payload,
            },
        ],
{
    let cmdlo = ((cmd & 0xff) as u8);
    let cmdhi = ((cmd >> 8) as u8);
    let lenw = payload.len() as u16;
    let lenlo = ((lenw & 0xff) as u8);
    let lenhi = ((lenw >> 8) as u8);
    let ck = spec_v2_check(cmd, payload);
    lemma_walk_v2(m, dirn, 0, cmdlo, cmdhi, payload, ck);
    lemma_u16_bytes(cmd);
    assert(spec_frame_v2(dirn, cmd, payload) =~= seq![
        SYNC_BYTE,
        V2_BYTE,
        dirn,
        0u8,
        cmdlo,
        cmdhi,
        lenlo,
        lenhi,
    ] + payload + seq![ck]);
    assert(seq![0u8, cmdlo, cmdhi, lenlo, lenhi] + payload =~= spec_v2_hdr(cmd, payload) + payload);
    let acc = spec_crc8_fold(0, seq![0u8, cmdlo, cmdhi, lenlo, lenhi] + payload);
    assert(acc == ck);
    assert(((cmdlo as u16) | ((cmdhi as u16) << 8)) == cmd);
}

/// Decoding a well-formed V1 reply frame from the sync-seeking state
/// yields exactly one frame carrying the original command and payload:
/// `Okay` for the reply direction byte, `Dirn` for the error direction
/// byte. The decoder ends back at sync-seeking with an empty buffer.
pub proof fn lemma_round_trip_v1(m: DecModel, dirn: u8, cmd: u16, payload: Seq<u8>)
    requires
        m.state is Init,
        cmd <= 255,
        payload.len() <= 255,
        dirn == REPLY_BYTE || dirn == ERROR_BYTE,
    ensures
        spec_feed_all(m, spec_frame_v1(dirn, cmd, payload)).0.state is Init,
        spec_feed_all(m, spec_frame_v1(dirn, cmd, payload)).0.data == Seq::<u8>::empty(),
        spec_feed_all(m, spec_frame_v1(dirn, cmd, payload)).1 == seq![
            FrameModel {
                len: payload.len() as u16,
                cmd: cmd,
                ok: if dirn == REPLY_BYTE {
                    MSPRes::Okay
                } else {
                    MSPRes::Dirn
                },
                data: payload,
            },
        ],
{
    let lenb = payload.len() as u8;
    let cmdb = cmd as u8;
    let ck = spec_v1_check(cmd, payload);
    lemma_walk_v1(m, dirn, cmdb, payload, ck);
    assert(spec_frame_v1(dirn, cmd, payload) =~= seq![SYNC_BYTE, V1_BYTE, dirn, lenb, cmdb]
        + payload + seq![ck]);
    assert(seq![lenb, cmdb] + payload =~= seq![payload.len() as u8, cmd as u8] + payload);
    let acc = spec_xor_fold(0, seq![lenb, cmdb] + payload);
    assert(acc == ck);
    assert(spec_outcome(acc, ck, dirn == REPLY_BYTE) == if dirn == REPLY_BYTE {
        MSPRes::Okay
    } else {
        MSPRes::Dirn
    });
    assert(cmdb as u16 == cmd);
}

/// Requests and replies share the V1 framing: only the direction byte
/// differs, and it is not checksummed. An encoded request becomes the
/// corresponding reply frame by replacing that one byte.
pub proof fn lemma_frame_direction_v1(d1: u8, d2: u8, cmd: u16, payload: Seq<u8>)
    ensures
        spec_frame_v1(d2, cmd, payload) == spec_frame_v1(d1, cmd, payload).update(2, d2),
{
    assert(spec_frame_v1(d2, cmd, payload) =~= spec_frame_v1(d1, cmd, payload).update(2, d2));
}

/// Requests and replies share the V2 framing: only the direction byte
/// differs, and it is not checksummed. An encoded request becomes the
/// corresponding reply frame by replacing that one byte.
pub proof fn lemma_frame_direction_v2(d1: u8, d2: u8, cmd: u16, payload: Seq<u8>)
    ensures
        spec_frame_v2(d2, cmd, payload) == spec_frame_v2(d1, cmd, payload).update(2, d2),
{
    assert(spec_frame_v2(d2, cmd, payload) =~= spec_frame_v2(d1, cmd, payload).update(2, d2));
}

/// XOR by a fixed byte on either side is injective.
proof fn lemma_xor_inj(x: u8, a: u8, b: u8)
    by (bit_vector)
    ensures
        a != b ==> x ^ a != x ^ b,
        a != b ==> a ^ x != b ^ x,
{
}

/// One CRC shift round is injective: the low seven bits of the input
/// survive the shift, and the parity of the output recovers its high bit.
proof fn lemma_crc8_shift_inj(c1: u8, c2: u8)
    ensures
        c1 != c2 ==> spec_crc8_shift(c1) != spec_crc8_shift(c2),
{
    assert(c1 != c2 ==> (if c1 & 0x80 != 0 {
        (c1 << 1) ^ 0xd5
    } else {
        c1 << 1
    }) != (if c2 & 0x80 != 0 {
        (c2 << 1) ^ 0xd5
    } else {
        c2 << 1
    })) by (bit_vector);
}

/// Any number of CRC shift rounds is injective.
proof fn lemma_crc8_iter_inj(c1: u8, c2: u8, n: nat)
    ensures
        c1 != c2 ==> spec_crc8_iter(c1, n) != spec_crc8_iter(c2, n),
    decreases n,
{
    if n > 0 {
        lemma_crc8_iter_inj(c1, c2, (n - 1) as nat);
        lemma_crc8_shift_inj(spec_crc8_iter(c1, (n - 1) as nat), spec_crc8_iter(c2, (n - 1) as nat));
    }
}

/// Folding the same byte into different CRC accumulators keeps them
/// different.
proof fn lemma_crc8_seed_inj(c1: u8, c2: u8, a: u8)
    ensures
        c1 != c2 ==> spec_crc8(c1, a) != spec_crc8(c2, a),
{
    lemma_xor_inj(a, c1, c2);
    lemma_crc8_iter_inj(c1 ^ a, c2 ^ a, 8);
}

/// Folding different bytes into the same CRC accumulator makes them
/// different.
proof fn lemma_crc8_data_inj(c: u8, a: u8, b: u8)
    ensures
        a != b ==> spec_crc8(c, a) != spec_crc8(c, b),
{
    lemma_xor_inj(c, a, b);
    lemma_crc8_iter_inj(c ^ a, c ^ b, 8);
}

/// A CRC fold over a fixed sequence is injective in its seed.
proof fn lemma_crc8_fold_seed_inj(c1: u8, c2: u8, s: Seq<u8>)
    ensures
        c1 != c2 ==> spec_crc8_fold(c1, s) != spec_crc8_fold(c2, s),
    decreases s.len(),
{
    if s.len() > 0 {
        lemma_crc8_seed_inj(c1, c2, s[0]);
        lemma_crc8_fold_seed_inj(spec_crc8(c1, s[0]), spec_crc8(c2, s[0]), s.drop_first());
    }
}

/// An XOR fold over a fixed sequence is injective in its seed.
proof fn lemma_xor_fold_seed_inj(c1: u8, c2: u8, s: Seq<u8>)
    ensures
        c1 != c2 ==> spec_xor_fold(c1, s) != spec_xor_fold(c2, s),
    decreases s.len(),
{
    if s.len() > 0 {
        lemma_xor_inj(s[0], c1, c2);
        assert(c1 != c2 ==> c1 ^ s[0] != c2 ^ s[0]);
        lemma_xor_fold_seed_inj(c1 ^ s[0], c2 ^ s[0], s.drop_first());
    }
}

/// Changing one byte of the folded sequence changes an XOR fold.
proof fn lemma_xor_fold_update(seed: u8, s: Seq<u8>, j: int, b: u8)
    requires
        0 <= j < s.len(),
        b != s[j],
    ensures
        spec_xor_fold(seed, s.update(j, b)) != spec_xor_fold(seed, s),
{
    let pre = s.take(j);
    let post = s.skip(j + 1);
    assert(s =~= pre + (seq![s[j]] + post));
    assert(s.update(j, b) =~= pre + (seq![b] + post));
    lemma_xor_fold_append(seed, pre, seq![s[j]] + post);
    lemma_xor_fold_append(seed, pre, seq![b] + post);
    let c = spec_xor_fold(seed, pre);
    assert((seq![s[j]] + post)[0] == s[j]);
    assert((seq![s[j]] + post).drop_first() =~= post);
    assert((seq![b] + post)[0] == b);
    assert((seq![b] + post).drop_first() =~= post);
    assert(spec_xor_fold(c, seq![s[j]] + post) == spec_xor_fold(c ^ s[j], post));
    assert(spec_xor_fold(c, seq![b] + post) == spec_xor_fold(c ^ b, post));
    lemma_xor_inj(c, s[j], b);
    lemma_xor_fold_seed_inj(c ^ s[j], c ^ b, post);
}

/// Changing one byte of the folded sequence changes a CRC fold.
proof fn lemma_crc8_fold_update(seed: u8, s: Seq<u8>, j: int, b: u8)
    requires
        0 <= j < s.len(),
        b != s[j],
    ensures
        spec_crc8_fold(seed, s.update(j, b)) != spec_crc8_fold(seed, s),
{
    let pre = s.take(j);
    let post = s.skip(j + 1);
    assert(s =~= pre + (seq![s[j]] + post));
    assert(s.update(j, b) =~= pre + (seq![b] + post));
    lemma_crc8_fold_append(seed, pre, seq![s[j]] + post);
    lemma_crc8_fold_append(seed, pre, seq![b] + post);
    let c = spec_crc8_fold(seed, pre);
    assert((seq![s[j]] + post)[0] == s[j]);
    assert((seq![s[j]] + post).drop_first() =~= post);
    assert((seq![b] + post)[0] == b);
    assert((seq![b] + post).drop_first() =~= post);
    assert(spec_crc8_fold(c, seq![s[j]] + post) == spec_crc8_fold(spec_crc8(c, s[j]), post));
    assert(spec_crc8_fold(c, seq![b] + post) == spec_crc8_fold(spec_crc8(c, b), post));
    lemma_crc8_data_inj(c, s[j], b);
    lemma_crc8_fold_seed_inj(spec_crc8(c, s[j]), spec_crc8(c, b), post);
}

/// Corrupting any single checksummed, structure-preserving byte of a
/// valid V1 frame — the command byte, a payload byte or the checksum
/// byte — still yields exactly one frame, now classified `Crc`, and the
/// decoder ends back at sync-seeking. (Corrupting the sync, format or
/// direction byte silently drops the frame instead, and corrupting the
/// length byte changes where the frame ends; neither is covered here.)
pub proof fn lemma_corrupt_v1(m: DecModel, dirn: u8, cmd: u16, payload: Seq<u8>, i: int, b: u8)
    requires
        m.state is Init,
        cmd <= 255,
        payload.len() <= 255,
        dirn == REPLY_BYTE || dirn == ERROR_BYTE,
        4 <= i <= 5 + payload.len(),
        b != spec_frame_v1(dirn, cmd, payload)[i],
    ensures
        spec_feed_all(m, spec_frame_v1(dirn, cmd, payload).update(i, b)).0.state is Init,
        spec_feed_all(m, spec_frame_v1(dirn, cmd, payload).update(i, b)).0.data == Seq::<
            u8,
        >::empty(),
        spec_feed_all(m, spec_frame_v1(dirn, cmd, payload).update(i, b)).1.len() == 1,
        spec_feed_all(m, spec_frame_v1(dirn, cmd, payload).update(i, b)).1[0].ok == MSPRes::Crc,
{
    let lenb = payload.len() as u8;
    let cmdb = cmd as u8;
    let ck = spec_v1_check(cmd, payload);
    let frame = spec_frame_v1(dirn, cmd, payload);
    let corrupted = frame.update(i, b);
    let region = seq![lenb, cmdb] + payload;
    assert(seq![payload.len() as u8, cmd as u8] + payload =~= region);
    assert(ck == spec_xor_fold(0, region));
    if i == 4 {
        assert(frame[4] == cmdb);
        assert(corrupted =~= seq![SYNC_BYTE, V1_BYTE, dirn, lenb, b] + payload + seq![ck]);
        lemma_walk_v1(m, dirn, b, payload, ck);
        assert(seq![lenb, b] + payload =~= region.update(1, b));
        lemma_xor_fold_update(0, region, 1, b);
        assert(spec_xor_fold(0, seq![lenb, b] + payload) != ck);
    } else if i < 5 + payload.len() {
        let j = i - 5;
        assert(frame[i] == payload[j]);
        let payload2 = payload.update(j, b);
        assert(corrupted =~= seq![SYNC_BYTE, V1_BYTE, dirn, lenb, cmdb] + payload2 + seq![ck]);
        lemma_walk_v1(m, dirn, cmdb, payload2, ck);
        assert(seq![lenb, cmdb] + payload2 =~= region.update(2 + j, b));
        lemma_xor_fold_update(0, region, 2 + j, b);
        assert(spec_xor_fold(0, seq![lenb, cmdb] + payload2) != ck);
    } else {
        assert(frame[i] == ck);
        assert(corrupted =~= seq![SYNC_BYTE, V1_BYTE, dirn, lenb, cmdb] + payload + seq![b]);
        lemma_walk_v1(m, dirn, cmdb, payload, b);
        assert(spec_xor_fold(0, region) != b);
    }
}

/// Corrupting any single checksummed, structure-preserving byte of a
/// valid V2 frame — the flag byte, either command byte, a payload byte
/// or the checksum byte — still yields exactly one frame, now classified
/// `Crc`, and the decoder ends back at sync-seeking. (Corrupting the
/// sync, format or direction byte silently drops the frame instead, and
/// corrupting a length byte changes where the frame ends; neither is
/// covered here.)
pub proof fn lemma_corrupt_v2(m: DecModel, dirn: u8, cmd: u16, payload: Seq<u8>, i: int, b: u8)
    requires
        m.state is Init,
        payload.len() <= 65535,
        dirn == REPLY_BYTE || dirn == ERROR_BYTE,
        3 <= i <= 5 || 8 <= i <= 8 + payload.len(),
        b != spec_frame_v2(dirn, cmd, payload)[i],
    ensures
        spec_feed_all(m, spec_frame_v2(dirn, cmd, payload).update(i, b)).0.state is Init,
        spec_feed_all(m, spec_frame_v2(dirn, cmd, payload).update(i, b)).0.data == Seq::<
            u8,
        >::empty(),
        spec_feed_all(m, spec_frame_v2(dirn, cmd, payload).update(i, b)).1.len() == 1,
        spec_feed_all(m, spec_frame_v2(dirn, cmd, payload).update(i, b)).1[0].ok == MSPRes::Crc,
{
    let cmdlo = ((cmd & 0xff) as u8);
    let cmdhi = ((cmd >> 8) as u8);
    let lenw = payload.len() as u16;
    let lenlo = ((lenw & 0xff) as u8);
    let lenhi = ((lenw >> 8) as u8);
    let ck = spec_v2_check(cmd, payload);
    let frame = spec_frame_v2(dirn, cmd, payload);
    let corrupted = frame.update(i, b);
    let region = seq![0u8, cmdlo, cmdhi, lenlo, lenhi] + payload;
    assert(spec_v2_hdr(cmd, payload) + payload =~= region);
    assert(ck == spec_crc8_fold(0, region));
    if i == 3 {
        assert(frame[3] == 0u8);
        assert(corrupted =~= seq![SYNC_BYTE, V2_BYTE, dirn, b, cmdlo, cmdhi, lenlo, lenhi]
            + payload + seq![ck]);
        lemma_walk_v2(m, dirn, b, cmdlo, cmdhi, payload, ck);
        assert(seq![b, cmdlo, cmdhi, lenlo, lenhi] + payload =~= region.update(0, b));
        lemma_crc8_fold_update(0, region, 0, b);
        assert(spec_crc8_fold(0, seq![b, cmdlo, cmdhi, lenlo, lenhi] + payload) != ck);
    } else if i == 4 {
        assert(frame[4] == cmdlo);
        assert(corrupted =~= seq![SYNC_BYTE, V2_BYTE, dirn, 0u8, b, cmdhi, lenlo, lenhi] + payload
            + seq![ck]);
        lemma_walk_v2(m, dirn, 0, b, cmdhi, payload, ck);
        assert(seq![0u8, b, cmdhi, lenlo, lenhi] + payload =~= region.update(1, b));
        lemma_crc8_fold_update(0, region, 1, b);
        assert(spec_crc8_fold(0, seq![0u8, b, cmdhi, lenlo, lenhi] + payload) != ck);
    } else if i == 5 {
        assert(frame[5] == cmdhi);
        assert(corrupted =~= seq![SYNC_BYTE, V2_BYTE, dirn, 0u8, cmdlo, b, lenlo, lenhi] + payload
            + seq![ck]);
        lemma_walk_v2(m, dirn, 0, cmdlo, b, payload, ck);
        assert(seq![0u8, cmdlo, b, lenlo, lenhi] + payload =~= region.update(2, b));
        lemma_crc8_fold_update(0, region, 2, b);
        assert(spec_crc8_fold(0, seq![0u8, cmdlo, b, lenlo, lenhi] + payload) != ck);
    } else if i < 8 + payload.len() {
        let j = i - 8;
        assert(frame[i] == payload[j]);
        let payload2 = payload.update(j, b);
        assert(corrupted =~= seq![SYNC_BYTE, V2_BYTE, dirn, 0u8, cmdlo, cmdhi, lenlo, lenhi]
            + payload2 + seq![ck]);
        lemma_walk_v2(m, dirn, 0, cmdlo, cmdhi, payload2, ck);
        assert(seq![0u8, cmdlo, cmdhi, lenlo, lenhi] + payload2 =~= region.update(5 + j, b));
        lemma_crc8_fold_update(0, region, 5 + j, b);
        assert(spec_crc8_fold(0, seq![0u8, cmdlo, cmdhi, lenlo, lenhi] + payload2) != ck);
    } else {
        assert(frame[i] == ck);
        assert(corrupted =~= seq![SYNC_BYTE, V2_BYTE, dirn, 0u8, cmdlo, cmdhi, lenlo, lenhi]
            + payload + seq![b]);
        lemma_walk_v2(m, dirn, 0, cmdlo, cmdhi, payload, b);
        assert(spec_crc8_fold(0, region) != b);
    }
}

} // verus!


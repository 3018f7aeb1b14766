//! Incremental MSP frame decoder.
//!
//! The decoder consumes a raw byte stream one byte at a time, in whatever
//! chunks the transport delivers, and emits one classified `MSPMsg` per
//! completed frame. Unexpected bytes silently resynchronize the machine
//! to the sync-seeking state; no input can make it panic or get stuck.

use vstd::prelude::*;

use crate::msp::{
    crc8_dvb_s2, spec_crc8, spec_crc8_fold, spec_xor_fold, FrameModel, MSPMsg, MSPRes, ERROR_BYTE,
    REPLY_BYTE, SYNC_BYTE, V1_BYTE, V2_BYTE,
};

verus! {

/// The decoder's position within one frame. `Init` scans for the sync
/// byte; the `X`-prefixed states are the V2 sub-machine.
#[derive(Debug, Clone, Copy, PartialEq, Eq, Structural)]
pub enum States {
    Init,
    M,
    Dirn,
    Len,
    Cmd,
    Data,
    Crc,
    XHeader2,
    XFlags,
    XId1,
    XId2,
    XLen1,
    XLen2,
    XData,
    XChecksum,
}

/// Mathematical image of a `Decoder`: the same fields with the payload
/// buffer as a sequence.
#[verifier::ext_equal]
pub struct DecModel {
    pub state: States,
    pub len: u16,
    pub cmd: u16,
    pub data: Seq<u8>,
    pub crc: u8,
    pub dirnok: bool,
}

/// The incremental frame decoder. All fields are plain data; `feed`
/// advances the machine by exactly one byte.
pub struct Decoder {
    state: States,
    len: u16,
    cmd: u16,
    data: Vec<u8>,
    crc: u8,
    dirnok: bool,
}

impl View for Decoder {
    type V = DecModel;

    closed spec fn view(&self) -> DecModel {
        DecModel {
            state: self.state,
            len: self.len,
            cmd: self.cmd,
            data: self.data@,
            crc: self.crc,
            dirnok: self.dirnok,
        }
    }
}

/// The model a fresh decoder starts from, and the one every completed or
/// abandoned frame returns to: seeking sync with an empty payload buffer.
pub open spec fn spec_init() -> DecModel {
    DecModel { state: States::Init, len: 0, cmd: 0, data: Seq::empty(), crc: 0, dirnok: false }
}

/// Structural well-formedness of a decoder model: the payload buffer is
/// empty until the header is through, strictly shorter than the length
/// field while payload bytes are pending, and exactly as long as the
/// length field when the checksum byte is awaited.
pub open spec fn wf(m: DecModel) -> bool {
    &&& (m.state is Data || m.state is XData) ==> m.data.len() < m.len
    &&& (m.state is Crc || m.state is XChecksum) ==> m.data.len() == m.len
    &&& (m.state is M || m.state is Dirn || m.state is Len || m.state is Cmd
        || m.state is XHeader2 || m.state is XFlags || m.state is XId1 || m.state is XId2
        || m.state is XLen1 || m.state is XLen2) ==> m.data.len() == 0
}

/// The classification a frame receives when its checksum byte arrives.
pub open spec fn spec_outcome(acc: u8, b: u8, dirnok: bool) -> MSPRes {
    if acc != b {
        MSPRes::Crc
    } else if dirnok {
        MSPRes::Okay
    } else {
        MSPRes::Dirn
    }
}

/// The decoder's transition function: one byte in, the successor model
/// and at most one completed frame out.
pub open spec fn spec_step(m: DecModel, b: u8) -> (DecModel, Option<FrameModel>) {
    match m.state {
        States::Init => {
            if b == SYNC_BYTE {
                (
                    DecModel {
                        state: States::M,
                        len: 0,
                        cmd: 0,
                        data: Seq::empty(),
                        crc: 0,
                        dirnok: false,
                    },
                    None,
                )
            } else {
                (m, None)
            }
        },
        States::M => {
            if b == V1_BYTE {
                (DecModel { state: States::Dirn, ..m }, None)
            } else if b == V2_BYTE {
                (DecModel { state: States::XHeader2, ..m }, None)
            } else {
                (DecModel { state: States::Init, ..m }, None)
            }
        },
        States::Dirn => {
            if b == ERROR_BYTE {
                (DecModel { state: States::Len, ..m }, None)
            } else if b == REPLY_BYTE {
                (DecModel { state: States::Len, dirnok: true, ..m }, None)
            } else {
                (DecModel { state: States::Init, ..m }, None)
            }
        },
        States::Len => (DecModel { state: States::Cmd, len: b as u16, crc: b, ..m }, None),
        States::Cmd => {
            let nxt = if m.len == 0 {
                States::Crc
            } else {
                States::Data
            };
            (DecModel { state: nxt, cmd: b as u16, crc: m.crc ^ b, ..m }, None)
        },
        States::Data => {
            let d = m.data.push(b);
            let nxt = if d.len() == m.len {
                States::Crc
            } else {
                States::Data
            };
            (DecModel { state: nxt, data: d, crc: m.crc ^ b, ..m }, None)
        },
        States::Crc => (
            DecModel { state: States::Init, data: Seq::empty(), ..m },
            Some(
                FrameModel {
                    len: m.len,
                    cmd: m.cmd,
                    ok: spec_outcome(m.crc, b, m.dirnok),
                    data: m.data,
                },
            ),
        ),
        States::XHeader2 => {
            if b == ERROR_BYTE {
                (DecModel { state: States::XFlags, ..m }, None)
            } else if b == REPLY_BYTE {
                (DecModel { state: States::XFlags, dirnok: true, ..m }, None)
            } else {
                (DecModel { state: States::Init, ..m }, None)
            }
        },
        States::XFlags => (DecModel { state: States::XId1, crc: spec_crc8(0, b), ..m }, None),
        States::XId1 => (
            DecModel { state: States::XId2, cmd: b as u16, crc: spec_crc8(m.crc, b), ..m },
            None,
        ),
        States::XId2 => (
            DecModel {
                state: States::XLen1,
                cmd: m.cmd | ((b as u16) << 8),
                crc: spec_crc8(m.crc, b),
                ..m
            },
            None,
        ),
        States::XLen1 => (
            DecModel { state: States::XLen2, len: b as u16, crc: spec_crc8(m.crc, b), ..m },
            None,
        ),
        States::XLen2 => {
            let l = m.len | ((b as u16) << 8);
            let nxt = if l > 0 {
                States::XData
            } else {
                States::XChecksum
            };
            (DecModel { state: nxt, len: l, crc: spec_crc8(m.crc, b), ..m }, None)
        },
        States::XData => {
            let d = m.data.push(b);
            let nxt = if d.len() == m.len {
                States::XChecksum
            } else {
                States::XData
            };
            (DecModel { state: nxt, data: d, crc: spec_crc8(m.crc, b), ..m }, None)
        },
        States::XChecksum => (
            DecModel { state: States::Init, data: Seq::empty(), ..m },
            Some(
                FrameModel {
                    len: m.len,
                    cmd: m.cmd,
                    ok: spec_outcome(m.crc, b, m.dirnok),
                    data: m.data,
                },
            ),
        ),
    }
}

/// Feeding a whole byte sequence: the final model and the frames emitted,
/// in order.
pub open spec fn spec_feed_all(m: DecModel, bytes: Seq<u8>) -> (DecModel, Seq<FrameModel>)
    decreases bytes.len(),
{
    if bytes.len() == 0 {
        (m, Seq::empty())
    } else {
        let (m1, f) = spec_step(m, bytes[0]);
        let (m2, fs) = spec_feed_all(m1, bytes.drop_first());
        (
            m2,
            match f {
                Option::None => fs,
                Option::Some(fr) => seq![fr] + fs,
            },
        )
    }
}

/// One step preserves well-formedness, and an emitted frame's payload is
/// exactly as long as its length field says.
pub proof fn lemma_step_wf(m: DecModel, b: u8)
    requires
        wf(m),
    ensures
        wf(spec_step(m, b).0),
        spec_step(m, b).1 matches Some(f) ==> f.data.len() == f.len,
{
}

/// Feeding any byte sequence preserves well-formedness.
pub proof fn lemma_feed_all_wf(m: DecModel, bytes: Seq<u8>)
    requires
        wf(m),
    ensures
        wf(spec_feed_all(m, bytes).0),
    decreases bytes.len(),
{
    if bytes.len() > 0 {
        lemma_step_wf(m, bytes[0]);
        lemma_feed_all_wf(spec_step(m, bytes[0]).0, bytes.drop_first());
    }
}

impl Decoder {
    /// A fresh decoder, scanning for the first sync byte.
    pub fn new() -> (d: Decoder)
        ensures
            d@ == spec_init(),
            wf(d@),
    {
        let d = Decoder {
            state: States::Init,
            len: 0,
            cmd: 0,
            data: Vec::new(),
            crc: 0,
            dirnok: false,
        };
        proof {
            assert(d@ =~= spec_init());
        }
        d
    }

    /// Advance the machine by one byte; returns the completed frame when
    /// `b` was a checksum byte, and `None` otherwise.
    pub fn feed(&mut self, b: u8) -> (r: Option<MSPMsg>)
        requires
            wf(old(self)@),
        ensures
            wf(final(self)@),
            final(self)@ == spec_step(old(self)@, b).0,
            match spec_step(old(self)@, b).1 {
                Option::Some(f) => r matches Some(msg) && msg@ == f,
                Option::None => r is None,
            },
    {
        match self.state {
            States::Init => {
                if b == SYNC_BYTE {
                    self.state = States::M;
                    self.len = 0;
                    self.cmd = 0;
                    self.data = Vec::new();
                    self.crc = 0;
                    self.dirnok = false;
                }
                None
            },
            States::M => {
                self.state = if b == V1_BYTE {
                    States::Dirn
                } else if b == V2_BYTE {
                    States::XHeader2
                } else {
                    States::Init
                };
                None
            },
            States::Dirn => {
                if b == ERROR_BYTE {
                    self.state = States::Len;
                } else if b == REPLY_BYTE {
                    self.state = States::Len;
                    self.dirnok = true;
                } else {
                    self.state = States::Init;
                }
                None
            },
            States::Len => {
                self.len = b as u16;
                self.crc = b;
                self.state = States::Cmd;
                None
            },
            States::Cmd => {
                self.cmd = b as u16;
                self.crc = self.crc ^ b;
                self.state = if self.len == 0 {
                    States::Crc
                } else {
                    States::Data
                };
                None
            },
            States::Data => {
                self.data.push(b);
                self.crc = self.crc ^ b;
                if self.data.len() == self.len as usize {
                    self.state = States::Crc;
                }
                None
            },
            States::Crc => {
                let ok = if self.crc != b {
                    MSPRes::Crc
                } else if self.dirnok {
                    MSPRes::Okay
                } else {
                    MSPRes::Dirn
                };
                let mut d: Vec<u8> = Vec::new();
                core::mem::swap(&mut d, &mut self.data);
                self.state = States::Init;
                Some(MSPMsg { len: self.len, cmd: self.cmd, ok, data: d })
            },
            States::XHeader2 => {
                if b == ERROR_BYTE {
                    self.state = States::XFlags;
                } else if b == REPLY_BYTE {
                    self.state = States::XFlags;
                    self.dirnok = true;
                } else {
                    self.state = States::Init;
                }
                None
            },
            States::XFlags => {
                self.crc = crc8_dvb_s2(0, b);
                self.state = States::XId1;
                None
            },
            States::XId1 => {
                self.crc = crc8_dvb_s2(self.crc, b);
                self.cmd = b as u16;
                self.state = States::XId2;
                None
            },
            States::XId2 => {
                self.crc = crc8_dvb_s2(self.crc, b);
                self.cmd = self.cmd | ((b as u16) << 8u16);
                self.state = States::XLen1;
                None
            },
            States::XLen1 => {
                self.crc = crc8_dvb_s2(self.crc, b);
                self.len = b as u16;
                self.state = States::XLen2;
                None
            },
            States::XLen2 => {
                self.crc = crc8_dvb_s2(self.crc, b);
                self.len = self.len | ((b as u16) << 8u16);
                self.state = if self.len > 0 {
                    States::XData
                } else {
                    States::XChecksum
                };
                None
            },
            States::XData => {
                self.crc = crc8_dvb_s2(self.crc, b);
                self.data.push(b);
                if self.data.len() == self.len as usize {
                    self.state = States::XChecksum;
                }
                None
            },
            States::XChecksum => {
                let ok = if self.crc != b {
                    MSPRes::Crc
                } else if self.dirnok {
                    MSPRes::Okay
                } else {
                    MSPRes::Dirn
                };
                let mut d: Vec<u8> = Vec::new();
                core::mem::swap(&mut d, &mut self.data);
                self.state = States::Init;
                Some(MSPMsg { len: self.len, cmd: self.cmd, ok, data: d })
            },
        }
    }

    /// Feed a whole buffer, collecting every frame completed along the
    /// way, exactly as if the bytes had arrived one at a time.
    pub fn feed_bytes(&mut self, buf: &[u8]) -> (msgs: Vec<MSPMsg>)
        requires
            wf(old(self)@),
        ensures
            wf(final(self)@),
            final(self)@ == spec_feed_all(old(self)@, buf@).0,
            msgs@.map_values(|m: MSPMsg| m@) == spec_feed_all(old(self)@, buf@).1,
    {
        let mut msgs: Vec<MSPMsg> = Vec::new();
        let n: usize = buf.len();
        let mut i: usize = 0;
        proof {
            assert(buf@.take(0) =~= Seq::<u8>::empty());
            assert(msgs@.map_values(|m: MSPMsg| m@) =~= Seq::<FrameModel>::empty());
        }
        while i < n
            invariant
                i <= n,
                n == buf@.len(),
                wf(self@),
                self@ == spec_feed_all(old(self)@, buf@.take(i as int)).0,
                msgs@.map_values(|m: MSPMsg| m@) == spec_feed_all(old(self)@, buf@.take(i as int)).1,
            decreases n - i,
        {
            proof {
                lemma_feed_all_snoc(old(self)@, buf@.take(i as int), buf@[i as int]);
                assert(buf@.take(i as int).push(buf@[i as int]) =~= buf@.take(i as int + 1));
            }
            let r = self.feed(buf[i]);
            match r {
                Option::Some(msg) => {
                    msgs.push(msg);
                    proof {
                        assert(msgs@.map_values(|m: MSPMsg| m@) =~= spec_feed_all(
                            old(self)@,
                            buf@.take(i as int + 1),
                        ).1);
                    }
                },
                Option::None => {
                    proof {
                        assert(msgs@.map_values(|m: MSPMsg| m@) =~= spec_feed_all(
                            old(self)@,
                            buf@.take(i as int + 1),
                        ).1);
                    }
                },
            }
            i = i + 1;
        }
        proof {
            assert(buf@.take(n as int) =~= buf@);
        }
        msgs
    }
}

/// Feeding `s.push(b)` is feeding `s`, then `b`: the block-versus-byte
/// equivalence, one byte at a time.
pub proof fn lemma_feed_all_snoc(m: DecModel, s: Seq<u8>, b: u8)
    ensures
        spec_feed_all(m, s.push(b)).0 == spec_step(spec_feed_all(m, s).0, b).0,
        spec_feed_all(m, s.push(b)).1 == spec_feed_all(m, s).1 + (match spec_step(
            spec_feed_all(m, s).0,
            b,
        ).1 {
            Option::None => Seq::<FrameModel>::empty(),
            Option::Some(f) => seq![f],
        }),
    decreases s.len(),
{
    if s.len() == 0 {
        assert(s.push(b)[0] == b);
        assert(s.push(b).drop_first() =~= Seq::<u8>::empty());
        let (m1, f) = spec_step(m, b);
        assert(spec_feed_all(m1, Seq::<u8>::empty()).1 =~= Seq::<FrameModel>::empty());
        assert(spec_feed_all(m, s).0 == m);
        match f {
            Option::None => {
                assert(spec_feed_all(m, s.push(b)).1 =~= Seq::<FrameModel>::empty());
                assert(spec_feed_all(m, s).1 + Seq::<FrameModel>::empty()
                    =~= Seq::<FrameModel>::empty());
            },
            Option::Some(fr) => {
                assert(spec_feed_all(m, s.push(b)).1 =~= seq![fr]);
                assert(spec_feed_all(m, s).1 + seq![fr] =~= seq![fr]);
            },
        }
    } else {
        assert(s.push(b)[0] == s[0]);
        assert(s.push(b).drop_first() =~= s.drop_first().push(b));
        let (m1, f) = spec_step(m, s[0]);
        lemma_feed_all_snoc(m1, s.drop_first(), b);
        let tail_frames = spec_feed_all(m1, s.drop_first()).1;
        let last = match spec_step(spec_feed_all(m1, s.drop_first()).0, b).1 {
            Option::None => Seq::<FrameModel>::empty(),
            Option::Some(fr) => seq![fr],
        };
        match f {
            Option::None => {
                assert(spec_feed_all(m, s.push(b)).1 =~= spec_feed_all(m, s).1 + last);
            },
            Option::Some(fr) => {
                assert(seq![fr] + (tail_frames + last) =~= (seq![fr] + tail_frames) + last);
                assert(spec_feed_all(m, s.push(b)).1 =~= spec_feed_all(m, s).1 + last);
            },
        }
    }
}

} // verus!

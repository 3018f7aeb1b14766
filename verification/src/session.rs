//! The session controller: a single-threaded state machine that walks
//! the fixed telemetry request graph, one outstanding request at a time.
//!
//! It consumes decoded frames and periodic timer ticks, negotiates the
//! protocol version (pessimistically starting at V1, upgrading when an
//! API-version reply shows V2 support, downgrading on any corruption or
//! resync), steps past unsupported commands via a direction-aware
//! fallback table, and recovers from silence by re-issuing the identity
//! query.

use vstd::prelude::*;

use crate::msp::{
    FrameModel, MSPMsg, MSPRes, MSG_ANALOG, MSG_ANALOG2, MSG_API_VERSION, MSG_BOARD_INFO,
    MSG_BUILD_INFO, MSG_DEBUGMSG, MSG_FC_VARIANT, MSG_FC_VERSION, MSG_IDENT, MSG_INAV_STATUS,
    MSG_MISC2, MSG_NAME, MSG_RAW_GPS, MSG_STATUS_EX, MSG_WP_GETINFO,
};

verus! {

/// Silence longer than this many milliseconds counts as a timeout.
pub const TIMEOUT_MS: u64 = 5000;

/// What the controller asks its caller to do after consuming an event:
/// write the encoded request for a command, write nothing, end a
/// single-shot run, or tear the transport down and reconnect.
#[derive(Debug, Clone, Copy, PartialEq, Eq, Structural)]
pub enum Action {
    Send(u16),
    Idle,
    Done,
    StreamDown,
}

/// The controller's whole state: protocol version (1 or 2), whether the
/// run stops after one full cycle, the time of the last received frame,
/// and the rolling statistics counters.
#[derive(Debug, Clone, Copy, PartialEq, Eq, Structural)]
pub struct Session {
    pub vers: u8,
    pub once: bool,
    pub last_activity: u64,
    pub msg_count: u64,
    pub e_crc: u64,
    pub e_bad: u64,
    pub n_timeout: u64,
}

/// The successor of `cmd` in the telemetry cycle after a good reply.
/// `None` ends a single-shot run; zero means consume without sending
/// (debug messages are unsolicited); an unknown command restarts the
/// cycle at the identity query.
pub open spec fn spec_success_next(cmd: u16, vers: u8, once: bool) -> Option<u16> {
    if cmd == MSG_IDENT {
        Some(MSG_NAME)
    } else if cmd == MSG_NAME {
        Some(MSG_API_VERSION)
    } else if cmd == MSG_API_VERSION {
        Some(MSG_FC_VARIANT)
    } else if cmd == MSG_FC_VARIANT {
        Some(MSG_FC_VERSION)
    } else if cmd == MSG_FC_VERSION {
        Some(MSG_BUILD_INFO)
    } else if cmd == MSG_BUILD_INFO {
        Some(MSG_BOARD_INFO)
    } else if cmd == MSG_BOARD_INFO {
        Some(MSG_WP_GETINFO)
    } else if cmd == MSG_WP_GETINFO {
        if vers == 2 {
            Some(MSG_MISC2)
        } else {
            Some(MSG_ANALOG)
        }
    } else if cmd == MSG_MISC2 {
        Some(MSG_ANALOG2)
    } else if cmd == MSG_ANALOG {
        Some(MSG_STATUS_EX)
    } else if cmd == MSG_ANALOG2 {
        Some(MSG_INAV_STATUS)
    } else if cmd == MSG_INAV_STATUS {
        Some(MSG_RAW_GPS)
    } else if cmd == MSG_STATUS_EX {
        Some(MSG_RAW_GPS)
    } else if cmd == MSG_RAW_GPS {
        if once {
            None
        } else if vers == 2 {
            Some(MSG_MISC2)
        } else {
            Some(MSG_ANALOG)
        }
    } else if cmd == MSG_DEBUGMSG {
        Some(0)
    } else {
        Some(MSG_IDENT)
    }
}

/// The successor of `cmd` when the firmware declined or echoed the
/// request: the walk continues past the unsupported command without a
/// usable payload, falling back to the identity query where no entry
/// exists.
pub open spec fn spec_dirn_next(cmd: u16) -> u16 {
    if cmd == MSG_IDENT {
        MSG_NAME
    } else if cmd == MSG_NAME {
        MSG_API_VERSION
    } else if cmd == MSG_API_VERSION {
        MSG_FC_VARIANT
    } else if cmd == MSG_FC_VARIANT {
        MSG_FC_VERSION
    } else if cmd == MSG_FC_VERSION {
        MSG_BUILD_INFO
    } else if cmd == MSG_BUILD_INFO {
        MSG_BOARD_INFO
    } else if cmd == MSG_BOARD_INFO {
        MSG_WP_GETINFO
    } else if cmd == MSG_WP_GETINFO {
        MSG_ANALOG
    } else if cmd == MSG_MISC2 {
        MSG_ANALOG
    } else if cmd == MSG_INAV_STATUS {
        MSG_STATUS_EX
    } else if cmd == MSG_STATUS_EX {
        MSG_RAW_GPS
    } else {
        MSG_IDENT
    }
}

/// Version negotiation: an API-version reply whose payload shows an API
/// level above 1.0 upgrades a V1 session to V2; nothing else changes the
/// version here.
pub open spec fn spec_vers_after(vers: u8, frame: FrameModel) -> u8 {
    if frame.cmd == MSG_API_VERSION && frame.data.len() > 2 && frame.data[1] > 1 && frame.data[2]
        > 0 && vers == 1 {
        2
    } else {
        vers
    }
}

/// The controller's reaction to one decoded frame: the successor state
/// and the action handed back to the caller.
///
/// A checksum mismatch abandons the cycle, downgrades to V1 and restarts
/// at the identity query; a wrong-direction reply counts an error and
/// advances through the fallback table; a stream failure is terminal for
/// the transport; a good reply advances through the success table, with
/// the statistics reset when a fresh cycle begins counting.
pub open spec fn spec_on_frame(s: Session, frame: FrameModel, now: u64) -> (Session, Action) {
    match frame.ok {
        MSPRes::Fail => (Session { last_activity: now, ..s }, Action::StreamDown),
        MSPRes::Crc => (
            Session {
                vers: 1,
                msg_count: 0,
                e_crc: (s.e_crc + 1) as u64,
                last_activity: now,
                ..s
            },
            Action::Send(MSG_IDENT),
        ),
        MSPRes::Dirn => {
            let nxt = spec_dirn_next(frame.cmd);
            if nxt == MSG_IDENT {
                (
                    Session {
                        vers: 1,
                        msg_count: 0,
                        e_bad: (s.e_bad + 1) as u64,
                        last_activity: now,
                        ..s
                    },
                    Action::Send(MSG_IDENT),
                )
            } else {
                (
                    Session { e_bad: (s.e_bad + 1) as u64, last_activity: now, ..s },
                    Action::Send(nxt),
                )
            }
        },
        MSPRes::Okay => {
            let v2 = spec_vers_after(s.vers, frame);
            match spec_success_next(frame.cmd, v2, s.once) {
                None => (Session { vers: v2, last_activity: now, ..s }, Action::Done),
                Some(nxt) => {
                    if nxt == 0 {
                        (Session { vers: v2, last_activity: now, ..s }, Action::Idle)
                    } else {
                        let crc2 = if s.msg_count == 0 {
                            0u64
                        } else {
                            s.e_crc
                        };
                        let bad2 = if s.msg_count == 0 {
                            0u64
                        } else {
                            s.e_bad
                        };
                        if nxt == MSG_IDENT {
                            (
                                Session {
                                    vers: 1,
                                    msg_count: 0,
                                    e_crc: crc2,
                                    e_bad: bad2,
                                    last_activity: now,
                                    ..s
                                },
                                Action::Send(MSG_IDENT),
                            )
                        } else {
                            (
                                Session {
                                    vers: v2,
                                    msg_count: (s.msg_count + 1) as u64,
                                    e_crc: crc2,
                                    e_bad: bad2,
                                    last_activity: now,
                                    ..s
                                },
                                Action::Send(nxt),
                            )
                        }
                    }
                },
            }
        },
    }
}

/// The success-table successor, as executable code.
pub fn success_next(cmd: u16, vers: u8, once: bool) -> (r: Option<u16>)
    ensures
        r == spec_success_next(cmd, vers, once),
{
    if cmd == MSG_IDENT {
        Some(MSG_NAME)
    } else if cmd == MSG_NAME {
        Some(MSG_API_VERSION)
    } else if cmd == MSG_API_VERSION {
        Some(MSG_FC_VARIANT)
    } else if cmd == MSG_FC_VARIANT {
        Some(MSG_FC_VERSION)
    } else if cmd == MSG_FC_VERSION {
        Some(MSG_BUILD_INFO)
    } else if cmd == MSG_BUILD_INFO {
        Some(MSG_BOARD_INFO)
    } else if cmd == MSG_BOARD_INFO {
        Some(MSG_WP_GETINFO)
    } else if cmd == MSG_WP_GETINFO {
        if vers == 2 {
            Some(MSG_MISC2)
        } else {
            Some(MSG_ANALOG)
        }
    } else if cmd == MSG_MISC2 {
        Some(MSG_ANALOG2)
    } else if cmd == MSG_ANALOG {
        Some(MSG_STATUS_EX)
    } else if cmd == MSG_ANALOG2 {
        Some(MSG_INAV_STATUS)
    } else if cmd == MSG_INAV_STATUS {
        Some(MSG_RAW_GPS)
    } else if cmd == MSG_STATUS_EX {
        Some(MSG_RAW_GPS)
    } else if cmd == MSG_RAW_GPS {
        if once {
            None
        } else if vers == 2 {
            Some(MSG_MISC2)
        } else {
            Some(MSG_ANALOG)
        }
    } else if cmd == MSG_DEBUGMSG {
        Some(0)
    } else {
        Some(MSG_IDENT)
    }
}

/// The direction-fallback successor, as executable code.
pub fn dirn_next(cmd: u16) -> (r: u16)
    ensures
        r == spec_dirn_next(cmd),
{
    if cmd == MSG_IDENT {
        MSG_NAME
    } else if cmd == MSG_NAME {
        MSG_API_VERSION
    } else if cmd == MSG_API_VERSION {
        MSG_FC_VARIANT
    } else if cmd == MSG_FC_VARIANT {
        MSG_FC_VERSION
    } else if cmd == MSG_FC_VERSION {
        MSG_BUILD_INFO
    } else if cmd == MSG_BUILD_INFO {
        MSG_BOARD_INFO
    } else if cmd == MSG_BOARD_INFO {
        MSG_WP_GETINFO
    } else if cmd == MSG_WP_GETINFO {
        MSG_ANALOG
    } else if cmd == MSG_MISC2 {
        MSG_ANALOG
    } else if cmd == MSG_INAV_STATUS {
        MSG_STATUS_EX
    } else if cmd == MSG_STATUS_EX {
        MSG_RAW_GPS
    } else {
        MSG_IDENT
    }
}

impl Session {
    /// A fresh session: version 1, counters cleared, the clock started
    /// at `now`.
    pub fn new(once: bool, now: u64) -> (s: Session)
        ensures
            s == (Session {
                vers: 1,
                once: once,
                last_activity: now,
                msg_count: 0,
                e_crc: 0,
                e_bad: 0,
                n_timeout: 0,
            }),
    {
        Session {
            vers: 1,
            once,
            last_activity: now,
            msg_count: 0,
            e_crc: 0,
            e_bad: 0,
            n_timeout: 0,
        }
    }

    /// Consume one decoded frame at time `now` and decide what to do
    /// next. The counters are far below their limits in any real run;
    /// the bounds only rule out wraparound.
    pub fn on_frame(&mut self, msg: &MSPMsg, now: u64) -> (a: Action)
        requires
            old(self).e_crc < u64::MAX,
            old(self).e_bad < u64::MAX,
            old(self).msg_count < u64::MAX,
        ensures
            *final(self) == spec_on_frame(*old(self), msg@, now).0,
            a == spec_on_frame(*old(self), msg@, now).1,
    {
        self.last_activity = now;
        match msg.ok {
            MSPRes::Fail => Action::StreamDown,
            MSPRes::Crc => {
                self.e_crc = self.e_crc + 1;
                self.vers = 1;
                self.msg_count = 0;
                Action::Send(MSG_IDENT)
            },
            MSPRes::Dirn => {
                self.e_bad = self.e_bad + 1;
                let nxt = dirn_next(msg.cmd);
                if nxt == MSG_IDENT {
                    self.vers = 1;
                    self.msg_count = 0;
                }
                Action::Send(nxt)
            },
            MSPRes::Okay => {
                if msg.cmd == MSG_API_VERSION && msg.data.len() > 2 {
                    if msg.data[1] > 1 && msg.data[2] > 0 && self.vers == 1 {
                        self.vers = 2;
                    }
                }
                match success_next(msg.cmd, self.vers, self.once) {
                    None => Action::Done,
                    Some(nxt) => {
                        if nxt == 0 {
                            Action::Idle
                        } else {
                            if self.msg_count == 0 {
                                self.e_crc = 0;
                                self.e_bad = 0;
                            }
                            self.msg_count = self.msg_count + 1;
                            if nxt == MSG_IDENT {
                                self.vers = 1;
                                self.msg_count = 0;
                            }
                            Action::Send(nxt)
                        }
                    },
                }
            },
        }
    }

    /// Consume one timer tick at time `now`. When the silence since the
    /// last frame exceeds the threshold, the session downgrades to V1,
    /// counts exactly one timeout, restarts its clock — so the next
    /// timeout needs a whole further threshold of silence — and asks the
    /// caller to re-send the identity query.
    pub fn on_tick(&mut self, now: u64) -> (resend: bool)
        requires
            old(self).n_timeout < u64::MAX,
            now >= old(self).last_activity,
        ensures
            resend == (now - old(self).last_activity > TIMEOUT_MS),
            resend ==> *final(self) == (Session {
                vers: 1,
                once: old(self).once,
                last_activity: now,
                msg_count: old(self).msg_count,
                e_crc: old(self).e_crc,
                e_bad: old(self).e_bad,
                n_timeout: (old(self).n_timeout + 1) as u64,
            }),
            !resend ==> *final(self) == *old(self),
    {
        if now - self.last_activity > TIMEOUT_MS {
            self.vers = 1;
            self.n_timeout = self.n_timeout + 1;
            self.last_activity = now;
            true
        } else {
            false
        }
    }
}

} // verus!

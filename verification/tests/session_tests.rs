use mspview::msp::{
    MSPMsg, MSPRes, MSG_ANALOG, MSG_API_VERSION, MSG_DEBUGMSG, MSG_FC_VARIANT, MSG_IDENT,
    MSG_MISC2, MSG_NAME, MSG_RAW_GPS, MSG_WP_GETINFO,
};
use mspview::session::{Action, Session};

fn frame(cmd: u16, ok: MSPRes, data: Vec<u8>) -> MSPMsg {
    MSPMsg {
        len: data.len() as u16,
        cmd,
        ok,
        data,
    }
}

#[test]
fn advances_past_unsupported_command() {
    // A scripted firmware answers the identity query, then declines the
    // name query: the controller must go on to the API-version request
    // rather than stall.
    let mut s = Session::new(false, 0);
    let a1 = s.on_frame(&frame(MSG_IDENT, MSPRes::Okay, vec![231]), 10);
    assert_eq!(a1, Action::Send(MSG_NAME));
    let a2 = s.on_frame(&frame(MSG_NAME, MSPRes::Dirn, vec![]), 20);
    assert_eq!(a2, Action::Send(MSG_API_VERSION));
    assert_eq!(s.e_bad, 1);
    assert_eq!(s.last_activity, 20);
}

#[test]
fn timeout_counts_once_per_threshold_interval() {
    let mut s = Session::new(false, 0);
    assert!(!s.on_tick(3000));
    assert_eq!(s.n_timeout, 0);
    assert!(!s.on_tick(5000)); // exactly at the threshold: not yet
    assert!(s.on_tick(5001));
    assert_eq!(s.n_timeout, 1);
    assert_eq!(s.vers, 1);
    assert_eq!(s.last_activity, 5001);
    // The clock restarted: the very next ticks stay quiet until a whole
    // further threshold of silence has passed.
    assert!(!s.on_tick(5002));
    assert!(!s.on_tick(10001));
    assert!(s.on_tick(10002));
    assert_eq!(s.n_timeout, 2);
}

#[test]
fn timeout_downgrades_version() {
    let mut s = Session::new(false, 0);
    let _ = s.on_frame(
        &frame(MSG_API_VERSION, MSPRes::Okay, vec![0, 2, 1]),
        100,
    );
    assert_eq!(s.vers, 2);
    assert!(s.on_tick(100 + 5001));
    assert_eq!(s.vers, 1);
}

#[test]
fn api_version_reply_upgrades_to_v2() {
    let mut s = Session::new(false, 0);
    let a = s.on_frame(&frame(MSG_API_VERSION, MSPRes::Okay, vec![0, 2, 1]), 5);
    assert_eq!(s.vers, 2);
    assert_eq!(a, Action::Send(MSG_FC_VARIANT));
    // With V2 active, the post-waypoint step routes to the V2-only
    // extended command.
    let a = s.on_frame(&frame(MSG_WP_GETINFO, MSPRes::Okay, vec![0, 4, 1, 0]), 6);
    assert_eq!(a, Action::Send(MSG_MISC2));
}

#[test]
fn api_version_reply_too_short_is_ignored() {
    let mut s = Session::new(false, 0);
    let a = s.on_frame(&frame(MSG_API_VERSION, MSPRes::Okay, vec![0, 2]), 5);
    assert_eq!(s.vers, 1);
    assert_eq!(a, Action::Send(MSG_FC_VARIANT));
}

#[test]
fn old_api_version_stays_v1() {
    let mut s = Session::new(false, 0);
    let _ = s.on_frame(&frame(MSG_API_VERSION, MSPRes::Okay, vec![0, 1, 0]), 5);
    assert_eq!(s.vers, 1);
    let a = s.on_frame(&frame(MSG_WP_GETINFO, MSPRes::Okay, vec![0, 4, 1, 0]), 6);
    assert_eq!(a, Action::Send(MSG_ANALOG));
}

#[test]
fn checksum_error_downgrades_and_restarts() {
    let mut s = Session::new(false, 0);
    let _ = s.on_frame(&frame(MSG_API_VERSION, MSPRes::Okay, vec![0, 2, 1]), 5);
    assert_eq!(s.vers, 2);
    let a = s.on_frame(&frame(MSG_ANALOG, MSPRes::Crc, vec![]), 6);
    assert_eq!(a, Action::Send(MSG_IDENT));
    assert_eq!(s.vers, 1);
    assert_eq!(s.e_crc, 1);
    assert_eq!(s.msg_count, 0);
}

#[test]
fn stream_failure_reports_stream_down() {
    let mut s = Session::new(false, 0);
    let a = s.on_frame(&frame(0, MSPRes::Fail, vec![]), 7);
    assert_eq!(a, Action::StreamDown);
}

#[test]
fn single_shot_run_ends_after_gps() {
    let mut s = Session::new(true, 0);
    let a = s.on_frame(&frame(MSG_RAW_GPS, MSPRes::Okay, vec![0; 18]), 8);
    assert_eq!(a, Action::Done);
}

#[test]
fn continuous_run_cycles_after_gps() {
    let mut s = Session::new(false, 0);
    let a = s.on_frame(&frame(MSG_RAW_GPS, MSPRes::Okay, vec![0; 18]), 8);
    assert_eq!(a, Action::Send(MSG_ANALOG));
}

#[test]
fn debug_message_consumed_without_request() {
    let mut s = Session::new(false, 0);
    let a = s.on_frame(&frame(MSG_DEBUGMSG, MSPRes::Okay, vec![b'h', b'i']), 9);
    assert_eq!(a, Action::Idle);
}

#[test]
fn unknown_command_restarts_cycle() {
    let mut s = Session::new(false, 0);
    let _ = s.on_frame(&frame(MSG_IDENT, MSPRes::Okay, vec![231]), 1);
    assert_eq!(s.msg_count, 1);
    let a = s.on_frame(&frame(0x7777, MSPRes::Okay, vec![]), 2);
    assert_eq!(a, Action::Send(MSG_IDENT));
    assert_eq!(s.vers, 1);
    assert_eq!(s.msg_count, 0);
}

#[test]
fn statistics_reset_when_counting_restarts() {
    let mut s = Session::new(false, 0);
    let _ = s.on_frame(&frame(MSG_NAME, MSPRes::Dirn, vec![]), 1);
    let _ = s.on_frame(&frame(MSG_ANALOG, MSPRes::Crc, vec![]), 2);
    assert_eq!(s.e_bad, 1);
    assert_eq!(s.e_crc, 1);
    assert_eq!(s.msg_count, 0);
    // The first good reply of a fresh cycle clears the rolling error
    // statistics before counting itself.
    let _ = s.on_frame(&frame(MSG_IDENT, MSPRes::Okay, vec![231]), 3);
    assert_eq!(s.e_bad, 0);
    assert_eq!(s.e_crc, 0);
    assert_eq!(s.msg_count, 1);
}

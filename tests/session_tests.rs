use relp_rs::common::{RelpCommand, RelpError};
use relp_rs::frame::RelpFrame;
use relp_rs::session::{Receive, RelpSessionCore};

const GREETING_REPLY: &str =
    "1 rsp 71 200 OK\nrelp_version=0\nrelp_software=relp_for_rust_0.1.0\ncommands=syslog\n";

#[test]
fn new_session_is_open_and_not_ready() {
    let s = RelpSessionCore::new();
    assert!(s.is_open());
    assert!(!s.is_ready());
    assert!(s.buffered().is_empty());
}

#[test]
fn short_buffer_asks_for_data_first() {
    let mut s = RelpSessionCore::new();
    let mut f = RelpFrame::default();
    assert_eq!(s.receive_start(&mut f), Ok(Receive::NeedData));
}

#[test]
fn zero_byte_read_closes_without_error() {
    let mut s = RelpSessionCore::new();
    let mut f = RelpFrame::default();
    assert_eq!(s.receive_data(&mut f, b"1 op"), Ok(Receive::NeedData));
    assert_eq!(s.receive_data(&mut f, b""), Ok(Receive::Closed));
    assert!(!s.is_open());
    assert_eq!(s.receive_start(&mut f), Ok(Receive::Closed));
    assert_eq!(s.receive_data(&mut f, b"en 0\n"), Ok(Receive::Closed));
    assert_eq!(f, RelpFrame::default());
}

#[test]
fn frames_arrive_in_chunks() {
    let mut s = RelpSessionCore::new();
    let mut f = RelpFrame::default();
    assert_eq!(s.receive_data(&mut f, b"1 syslog 5 he"), Ok(Receive::NeedData));
    assert_eq!(s.receive_data(&mut f, b"llo\n2 close 0\n"), Ok(Receive::Frame));
    assert_eq!(f, RelpFrame::new(1, RelpCommand::SYSLOG, 5, "hello".to_string()));
    assert_eq!(s.buffered(), &b"2 close 0\n".to_vec());
    let mut g = RelpFrame::default();
    assert_eq!(s.receive_start(&mut g), Ok(Receive::Frame));
    assert_eq!(g, RelpFrame::new(2, RelpCommand::CLOSE, 0, String::new()));
    assert!(s.buffered().is_empty());
}

#[test]
fn malformed_frame_is_reported_and_kept() {
    let mut s = RelpSessionCore::new();
    let mut f = RelpFrame::default();
    assert_eq!(s.receive_data(&mut f, b"1 bogus 0\n"), Err(RelpError::InvalidCommand));
    assert_eq!(s.buffered(), &b"1 bogus 0\n".to_vec());
}

#[test]
fn handshake_accepts_open() {
    let mut s = RelpSessionCore::new();
    assert_eq!(s.open_begin(), Ok(()));
    let mut f = RelpFrame::default();
    assert_eq!(s.receive_data(&mut f, b"1 open 0\n"), Ok(Receive::Frame));
    let r = s.open_finish(Ok(true), &f);
    assert_eq!(r.reply, GREETING_REPLY);
    assert_eq!(r.result, Ok(true));
    assert!(!s.is_ready());
    assert_eq!(s.open_complete(&r, true), Ok(true));
    assert!(s.is_ready());
    assert_eq!(s.open_begin(), Err(RelpError::AlreadyOpened));
}

#[test]
fn unsent_greeting_leaves_session_unready() {
    let mut s = RelpSessionCore::new();
    let mut f = RelpFrame::default();
    assert_eq!(s.receive_data(&mut f, b"1 open 0\n"), Ok(Receive::Frame));
    let r = s.open_finish(Ok(true), &f);
    assert_eq!(s.open_complete(&r, false), Err(RelpError::UnknownError));
    assert!(!s.is_ready());
    assert_eq!(s.open_begin(), Ok(()));
}

#[test]
fn unsent_refusal_is_unknown_error() {
    let mut s = RelpSessionCore::new();
    let mut f = RelpFrame::default();
    assert_eq!(s.receive_data(&mut f, b"3 syslog 0\n"), Ok(Receive::Frame));
    let r = s.open_finish(Ok(true), &f);
    assert_eq!(s.open_complete(&r, false), Err(RelpError::UnknownError));
    assert!(!s.is_ready());
}

#[test]
fn handshake_refuses_other_command() {
    let mut s = RelpSessionCore::new();
    let mut f = RelpFrame::default();
    assert_eq!(s.receive_data(&mut f, b"3 syslog 0\n"), Ok(Receive::Frame));
    let r = s.open_finish(Ok(true), &f);
    assert_eq!(r.reply, "3 rsp 7 500 ERR\n");
    assert_eq!(r.result, Err(RelpError::InvalidCommand));
    assert_eq!(s.open_complete(&r, true), Err(RelpError::InvalidCommand));
    assert!(!s.is_ready());
}

#[test]
fn handshake_after_failed_receive() {
    let mut s = RelpSessionCore::new();
    let f = RelpFrame::default();
    let r = s.open_finish(Err(RelpError::TxnrParseError), &f);
    assert_eq!(r.reply, "0 rsp 7 500 ERR\n");
    assert_eq!(r.result, Err(RelpError::TxnrParseError));
    assert_eq!(s.open_complete(&r, true), Err(RelpError::TxnrParseError));
    assert_eq!(s.open_complete(&r, false), Err(RelpError::UnknownError));
    assert!(!s.is_ready());
}

#[test]
fn handshake_on_closed_stream() {
    let mut s = RelpSessionCore::new();
    let mut f = RelpFrame::default();
    assert_eq!(s.receive_data(&mut f, b""), Ok(Receive::Closed));
    let r = s.open_finish(Ok(false), &f);
    assert_eq!(r.result, Err(RelpError::InvalidCommand));
    assert_eq!(s.open_complete(&r, true), Err(RelpError::InvalidCommand));
    assert!(!s.is_ready());
}

#[test]
fn session_replies() {
    let f = RelpFrame::new(12, RelpCommand::SYSLOG, 0, String::new());
    assert_eq!(RelpSessionCore::ack_reply(&f), "12 rsp 6 200 OK\n");
    assert_eq!(RelpSessionCore::nack_reply(&f), "12 rsp 7 500 ERR\n");
    assert_eq!(
        RelpSessionCore::greeting(),
        "OK\nrelp_version=0\nrelp_software=relp_for_rust_0.1.0\ncommands=syslog"
    );
}

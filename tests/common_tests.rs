use relp_rs::common::{RelpCommand, RelpError, RelpStatus};
use relp_rs::frame::RelpFrame;

#[test]
fn test_from_str() {
    assert_eq!(RelpCommand::from_str("open").unwrap(), RelpCommand::OPEN);
    assert_eq!(RelpCommand::from_str("close").unwrap(), RelpCommand::CLOSE);
    assert_eq!(RelpCommand::from_str("abort").unwrap(), RelpCommand::ABORT);
    assert_eq!(RelpCommand::from_str("rsp").unwrap(), RelpCommand::RSP);
    assert_eq!(RelpCommand::from_str("starttls").unwrap(), RelpCommand::STARTTLS);
    assert_eq!(RelpCommand::from_str("syslog").unwrap(), RelpCommand::SYSLOG);
    match RelpCommand::from_str("unknown") {
        Ok(_n) => assert!(false),
        Err(_) => assert!(true),
    }
}

#[test]
fn test_to_string() {
    assert_eq!(RelpCommand::OPEN.to_string(), "open");
    assert_eq!(RelpCommand::CLOSE.to_string(), "close");
    assert_eq!(RelpCommand::ABORT.to_string(), "abort");
    assert_eq!(RelpCommand::RSP.to_string(), "rsp");
    assert_eq!(RelpCommand::STARTTLS.to_string(), "starttls");
    assert_eq!(RelpCommand::SYSLOG.to_string(), "syslog");
    assert_eq!(RelpCommand::UNKNOWN.to_string(), "unknown");
}

#[test]
fn test_ack() {
    let ok = RelpFrame::new(1, RelpCommand::OPEN, 0, "".to_string());
    assert_eq!(ok.ack(&"".to_string()), "1 rsp 3 200\n");
    let ok2 = RelpFrame::new(1, RelpCommand::OPEN, 0, "".to_string());
    assert_eq!(ok2.ack(&"OK".to_string()), "1 rsp 6 200 OK\n")
}

#[test]
fn test_nack() {
    let ok = RelpFrame::new(1, RelpCommand::OPEN, 0, "".to_string());
    assert_eq!(ok.nack(&"".to_string()), "1 rsp 3 500\n");
    let ok2 = RelpFrame::new(1, RelpCommand::OPEN, 0, "".to_string());
    assert_eq!(ok2.nack(&"ERR".to_string()), "1 rsp 7 500 ERR\n");
}

#[test]
fn command_from_str_is_case_sensitive() {
    assert!(RelpCommand::from_str("OPEN").is_err());
    assert!(RelpCommand::from_str("").is_err());
    assert!(RelpCommand::from_str("open ").is_err());
}

#[test]
fn command_default_is_placeholder() {
    assert_eq!(RelpCommand::default(), RelpCommand::UNKNOWN);
}

#[test]
fn status_codes() {
    assert_eq!(RelpStatus::OK.to_string(), "200");
    assert_eq!(RelpStatus::ERR.to_string(), "500");
    assert_eq!(RelpStatus::from_str("200"), Ok(RelpStatus::OK));
    assert_eq!(RelpStatus::from_str("500"), Ok(RelpStatus::ERR));
    assert_eq!(RelpStatus::from_str("404"), Err(RelpError::InvalidData));
}

#[test]
fn response_length_counts_bytes() {
    let f = RelpFrame::new(42, RelpCommand::SYSLOG, 0, String::new());
    assert_eq!(f.ack(&"héllo".to_string()), "42 rsp 10 200 héllo\n");
    assert_eq!(f.nack(&"a b".to_string()), "42 rsp 7 500 a b\n");
}

#[test]
fn response_keeps_large_transaction_number() {
    let f = RelpFrame::new(999999999, RelpCommand::SYSLOG, 0, String::new());
    assert_eq!(f.ack(&"".to_string()), "999999999 rsp 3 200\n");
    let g = RelpFrame::new(0, RelpCommand::SYSLOG, 0, String::new());
    assert_eq!(g.ack(&"".to_string()), "0 rsp 3 200\n");
}

#[test]
fn frame_accessors_and_overwrite() {
    let mut f = RelpFrame::default();
    assert_eq!(f.txnr(), 0);
    assert_eq!(f.cmd(), RelpCommand::UNKNOWN);
    assert_eq!(f.datalen(), 0);
    assert_eq!(RelpFrame::new(1, RelpCommand::OPEN, 2, "é".to_string()).data, vec![0xc3u8, 0xa9]);
    f.from(5, RelpCommand::CLOSE, 3, b"abc".to_vec());
    assert_eq!(f, RelpFrame::new(5, RelpCommand::CLOSE, 3, "abc".to_string()));
    assert_ne!(f, RelpFrame::new(6, RelpCommand::CLOSE, 3, "abc".to_string()));
}

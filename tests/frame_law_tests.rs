use relp_rs::common::{RelpCommand, RelpError};
use relp_rs::frame::RelpFrame;
use relp_rs::parser::get_frame;

fn parse(bytes: &[u8]) -> (Result<Option<usize>, RelpError>, RelpFrame) {
    let mut frame = RelpFrame::default();
    let r = get_frame(&bytes.to_vec(), &mut frame);
    (r, frame)
}

#[test]
fn encoded_frame_decodes_to_itself() {
    let (r, f) = parse(b"7 syslog 5 hello\n");
    assert_eq!(r, Ok(Some(17)));
    assert_eq!(f, RelpFrame::new(7, RelpCommand::SYSLOG, 5, "hello".to_string()));
    let (r, f) = parse(b"123456789 starttls 0\n");
    assert_eq!(r, Ok(Some(21)));
    assert_eq!(f, RelpFrame::new(123456789, RelpCommand::STARTTLS, 0, String::new()));
}

#[test]
fn payload_with_spaces_and_newlines_is_sliced_by_length() {
    let (r, f) = parse(b"3 syslog 10 a b\nc d\n e\nrest");
    assert_eq!(r, Ok(Some(23)));
    assert_eq!(f.data, b"a b\nc d\n e".to_vec());
}

#[test]
fn multibyte_payload_counts_bytes() {
    let (r, f) = parse("4 syslog 6 héllo\n".as_bytes());
    assert_eq!(r, Ok(Some(18)));
    assert_eq!(f, RelpFrame::new(4, RelpCommand::SYSLOG, 6, "héllo".to_string()));
}

#[test]
fn back_to_back_frames_decode_in_order() {
    let mut buf = b"1 syslog 3 abc\n2 syslog 4 de f\n".to_vec();
    let mut first = RelpFrame::default();
    let n = get_frame(&buf, &mut first).unwrap().unwrap();
    assert_eq!(n, 15);
    buf.drain(0..n);
    assert_eq!(buf, b"2 syslog 4 de f\n".to_vec());
    let mut second = RelpFrame::default();
    let m = get_frame(&buf, &mut second).unwrap().unwrap();
    assert_eq!(m, buf.len());
    assert_eq!(first, RelpFrame::new(1, RelpCommand::SYSLOG, 3, "abc".to_string()));
    assert_eq!(second, RelpFrame::new(2, RelpCommand::SYSLOG, 4, "de f".to_string()));
}

#[test]
fn partial_frame_then_completion() {
    let mut buf = b"1 open ".to_vec();
    let mut frame = RelpFrame::default();
    assert_eq!(get_frame(&buf, &mut frame), Ok(None));
    assert_eq!(frame, RelpFrame::default());
    buf.extend_from_slice(b"0\n");
    assert_eq!(get_frame(&buf, &mut frame), Ok(Some(9)));
    assert_eq!(frame, RelpFrame::new(1, RelpCommand::OPEN, 0, String::new()));
}

#[test]
fn every_prefix_of_a_frame_is_incomplete() {
    let whole = b"12 syslog 8 ab\ncd\nef\n";
    for k in 0..whole.len() {
        let (r, f) = parse(&whole[..k]);
        assert_eq!(r, Ok(None), "prefix of {} bytes", k);
        assert_eq!(f, RelpFrame::default());
    }
    let (r, _) = parse(whole);
    assert_eq!(r, Ok(Some(whole.len())));
}

#[test]
fn command_of_33_characters_is_too_long() {
    let cmd = "s".repeat(33);
    let (r, _) = parse(format!("1 {} 0\n", cmd).as_bytes());
    assert_eq!(r, Err(RelpError::InvalidCommandLength));
    let padded = format!("syslog{}", "g".repeat(27));
    assert_eq!(padded.len(), 33);
    let (r, _) = parse(format!("1 {} 0\n", padded).as_bytes());
    assert_eq!(r, Err(RelpError::InvalidCommandLength));
    let (r, _) = parse(format!("1 {} 0\n", "s".repeat(32)).as_bytes());
    assert_eq!(r, Err(RelpError::InvalidCommand));
}

#[test]
fn unknown_command_in_complete_frame() {
    let (r, f) = parse(b"1 xyz 3 abc\n");
    assert_eq!(r, Err(RelpError::InvalidCommand));
    assert_eq!(f, RelpFrame::default());
    let (r, _) = parse(b"1 xyz 3 ab");
    assert_eq!(r, Ok(None));
}

#[test]
fn each_header_error() {
    assert_eq!(parse(b"1234567890 open 0\n").0, Err(RelpError::InvalidTxnrLength));
    assert_eq!(parse(b"1 open 1234567890\n").0, Err(RelpError::InvalidDataLenLength));
    assert_eq!(parse(b"+1 open 0\n").0, Err(RelpError::TxnrParseError));
    assert_eq!(parse(b"1 open -0\n").0, Err(RelpError::DataLenParseError));
    assert_eq!(parse(b"12345678\n").0, Err(RelpError::NeedMoreData));
    assert_eq!(parse(b"1234 678\n").0, Err(RelpError::NeedMoreData));
    assert_eq!(parse(b"1 a 0\n").0, Err(RelpError::InvalidData));
    assert_eq!(parse(b"\n1 open 0\n").0, Err(RelpError::InvalidData));
}

#[test]
fn payload_may_hold_any_byte() {
    let (r, f) = parse(b"1 open 1 \xff\n");
    assert_eq!(r, Ok(Some(11)));
    assert_eq!(f.data, vec![0xffu8]);
    let (r, f) = parse(b"2 syslog 4 \x00\xfe\n\xc3\n");
    assert_eq!(r, Ok(Some(16)));
    let mut expected = RelpFrame::default();
    expected.from(2, RelpCommand::SYSLOG, 4, vec![0x00u8, 0xfe, 0x0a, 0xc3]);
    assert_eq!(f, expected);
}

#[test]
fn from_vec_decodes_like_get_frame() {
    let mut frame = RelpFrame::default();
    let r = RelpFrame::from_vec(&b"9 close 0\n".to_vec(), &mut frame);
    assert_eq!(r, Ok(Some(10)));
    assert_eq!(frame, RelpFrame::new(9, RelpCommand::CLOSE, 0, String::new()));
}

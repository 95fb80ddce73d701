//! One protocol message, and the responses that acknowledge it.
use vstd::prelude::*;
use vstd::string::*;
use vstd::utf8::*;
use crate::common::{RelpCommand, RelpStatus, RelpParserResult};
use crate::parser::{decoded_frame, get_frame, parse_outcome};
use crate::text::{decimal, is_ascii_bytes, lemma_ascii_valid_utf8, lemma_decimal, push_decimal, text_of};

verus! {

/// No frame is shorter than this many bytes before its line feed.
pub const MINIMUM_SIZE: usize = 7;

/// What a frame holds, as mathematical values.
pub struct FrameModel {
    pub txnr: u32,
    pub cmd: RelpCommand,
    pub datalen: usize,
    pub data: Seq<u8>,
}

/// One protocol message: transaction number, command, payload length and
/// payload. The payload is raw bytes: it may hold any byte value.
#[derive(Debug)]
pub struct RelpFrame {
    txnr: u32,
    pub cmd: RelpCommand,
    datalen: usize,
    pub data: Vec<u8>,
}

impl View for RelpFrame {
    type V = FrameModel;

    closed spec fn view(&self) -> FrameModel {
        FrameModel { txnr: self.txnr, cmd: self.cmd, datalen: self.datalen, data: self.data@ }
    }
}

/// The body of a response: the status code, then a space and `text` where
/// `text` is not empty.
pub open spec fn response_body(status: RelpStatus, text: Seq<u8>) -> Seq<u8> {
    if text.len() == 0 {
        status.code()
    } else {
        status.code() + seq![32u8] + text
    }
}

/// The wire bytes of the response to transaction `txnr`:
/// `<txnr> rsp <body length> <body>` and a line feed.
pub open spec fn response_bytes(txnr: u32, status: RelpStatus, text: Seq<u8>) -> Seq<u8> {
    let body = response_body(status, text);
    decimal(txnr as nat) + seq![32u8] + RelpCommand::RSP.token() + seq![32u8] + decimal(
        body.len(),
    ) + seq![32u8] + body + seq![10u8]
}

proof fn lemma_response_valid(txnr: u32, status: RelpStatus, text: Seq<char>)
    ensures
        valid_utf8(response_bytes(txnr, status, encode_utf8(text))),
{
    let t = encode_utf8(text);
    let body = response_body(status, t);
    lemma_decimal(txnr as nat);
    lemma_decimal(body.len());
    let head = decimal(txnr as nat) + seq![32u8] + RelpCommand::RSP.token() + seq![32u8] + decimal(
        body.len(),
    ) + seq![32u8] + status.code();
    assert(is_ascii_bytes(head));
    lemma_ascii_valid_utf8(head);
    lemma_ascii_valid_utf8(seq![10u8]);
    encode_utf8_valid_utf8(text);
    if t.len() == 0 {
        valid_utf8_concat(head, seq![10u8]);
        assert(response_bytes(txnr, status, t) =~= head + seq![10u8]);
    } else {
        lemma_ascii_valid_utf8(head + seq![32u8]);
        valid_utf8_concat(head + seq![32u8], t);
        valid_utf8_concat(head + seq![32u8] + t, seq![10u8]);
        assert(response_bytes(txnr, status, t) =~= head + seq![32u8] + t + seq![10u8]);
    }
}

impl RelpFrame {
    /// A frame whose payload is the UTF-8 bytes of `data`.
    pub fn new(txnr: u32, cmd: RelpCommand, datalen: usize, data: String) -> (r: RelpFrame)
        ensures
            r@ == (FrameModel { txnr, cmd, datalen, data: encode_utf8(data@) }),
    {
        let data = data.as_str().as_bytes_vec();
        RelpFrame { txnr, cmd, datalen, data }
    }

    /// Overwrites every field of the frame; the payload is taken as raw bytes.
    pub fn from(&mut self, txnr: u32, cmd: RelpCommand, datalen: usize, data: Vec<u8>)
        ensures
            final(self)@ == (FrameModel { txnr, cmd, datalen, data: data@ }),
    {
        self.txnr = txnr;
        self.cmd = cmd;
        self.datalen = datalen;
        self.data = data;
    }

    /// Decodes one frame from the front of `buf` into `frame`.
    pub fn from_vec(buf: &Vec<u8>, frame: &mut RelpFrame) -> (r: RelpParserResult)
        ensures
            r == parse_outcome(buf@),
            r matches Ok(Some(_)) ==> final(frame)@ == decoded_frame(buf@),
            !(r matches Ok(Some(_))) ==> final(frame)@ == old(frame)@,
    {
        get_frame(buf, frame)
    }

    /// The transaction number.
    pub fn txnr(&self) -> (r: u32)
        ensures
            r == self@.txnr,
    {
        self.txnr
    }

    /// The command.
    pub fn cmd(&self) -> (r: RelpCommand)
        ensures
            r == self@.cmd,
    {
        self.cmd
    }

    /// The declared payload length.
    pub fn datalen(&self) -> (r: usize)
        ensures
            r == self@.datalen,
    {
        self.datalen
    }

    /// The response to this frame with `status`, and `data` after the code.
    fn to_response(&self, status: RelpStatus, data: &String) -> (r: String)
        requires
            encode_utf8(data@).len() + 4 <= usize::MAX,
        ensures
            encode_utf8(r@) == response_bytes(self@.txnr, status, encode_utf8(data@)),
    {
        let tb = data.as_str().as_bytes();
        let mut body = status.code_bytes();
        if tb.len() > 0 {
            body.push(32u8);
            body.extend_from_slice(tb);
        }
        assert(body@ =~= response_body(status, encode_utf8(data@)));
        let mut out: Vec<u8> = Vec::new();
        push_decimal(&mut out, self.txnr as usize);
        out.push(32u8);
        let mut rsp = RelpCommand::RSP.token_bytes();
        out.append(&mut rsp);
        out.push(32u8);
        push_decimal(&mut out, body.len());
        out.push(32u8);
        out.append(&mut body);
        out.push(10u8);
        assert(out@ =~= response_bytes(self@.txnr, status, encode_utf8(data@)));
        proof {
            lemma_response_valid(self@.txnr, status, data@);
            decode_utf8_encode_utf8(out@);
        }
        text_of(out)
    }

    /// The positive acknowledgement of this frame, carrying `data`.
    pub fn ack(&self, data: &String) -> (r: String)
        requires
            encode_utf8(data@).len() + 4 <= usize::MAX,
        ensures
            encode_utf8(r@) == response_bytes(self@.txnr, RelpStatus::OK, encode_utf8(data@)),
    {
        self.to_response(RelpStatus::OK, data)
    }

    /// The negative acknowledgement of this frame, carrying `data`.
    pub fn nack(&self, data: &String) -> (r: String)
        requires
            encode_utf8(data@).len() + 4 <= usize::MAX,
        ensures
            encode_utf8(r@) == response_bytes(self@.txnr, RelpStatus::ERR, encode_utf8(data@)),
    {
        self.to_response(RelpStatus::ERR, data)
    }
}

impl Default for RelpFrame {
    /// The empty frame: transaction 0, the placeholder command, no payload.
    fn default() -> (r: RelpFrame)
        ensures
            r@ == (FrameModel { txnr: 0, cmd: RelpCommand::UNKNOWN, datalen: 0, data: Seq::empty() }),
    {
        RelpFrame { txnr: 0, cmd: RelpCommand::UNKNOWN, datalen: 0, data: Vec::new() }
    }
}

/// Whether two byte vectors hold the same bytes.
fn bytes_eq(a: &Vec<u8>, b: &Vec<u8>) -> (r: bool)
    ensures
        r == (a@ == b@),
{
    if a.len() != b.len() {
        return false;
    }
    let mut i: usize = 0;
    while i < a.len()
        invariant
            i <= a@.len() == b@.len(),
            forall|j: int| 0 <= j < i ==> a@[j] == b@[j],
        decreases a@.len() - i,
    {
        if a[i] != b[i] {
            return false;
        }
        i = i + 1;
    }
    assert(a@ =~= b@);
    true
}

impl PartialEq for RelpFrame {
    fn eq(&self, o: &RelpFrame) -> (r: bool) {
        self.txnr == o.txnr && self.cmd == o.cmd && self.datalen == o.datalen && bytes_eq(
            &self.data,
            &o.data,
        )
    }
}

impl vstd::std_specs::cmp::PartialEqSpecImpl for RelpFrame {
    open spec fn obeys_eq_spec() -> bool {
        true
    }

    open spec fn eq_spec(&self, o: &RelpFrame) -> bool {
        self@ == o@
    }
}

} // verus!

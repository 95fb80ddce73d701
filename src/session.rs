//! The decisions of one connection: handshake, buffering and replies.
//!
//! `RelpSessionCore` holds no transport. Each method takes what the transport
//! delivered and says what to do next: read more, hand out a frame, or write
//! a reply. The owner of the connection performs those actions.
use vstd::prelude::*;
use vstd::string::*;
use vstd::utf8::*;
use crate::common::{RelpCommand, RelpError, RelpStatus, RELP_PROTOCOL_VERSION,
    RELP_SUPPORTED_COMMAND, RELPRS_SOFTWARE_NAME, RELPRS_SOFTWARE_VERSION};
use crate::frame::{response_bytes, FrameModel, RelpFrame, MINIMUM_SIZE};
use crate::parser::{decoded_frame, get_frame, parse_outcome};
use crate::text::{lemma_ascii_valid_utf8, text_of};

verus! {

/// Bytes to ask the transport for in one read.
pub const READ_CHUNK: usize = 1024;

/// What a session holds, as mathematical values.
pub struct SessionModel {
    pub ready: bool,
    pub closed: bool,
    pub buf: Seq<u8>,
}

/// The protocol state of one connection: whether the handshake is done,
/// whether the peer has closed, and the bytes received but not yet decoded.
pub struct RelpSessionCore {
    ready: bool,
    closed: bool,
    buf: Vec<u8>,
}

/// What the owner of a session does after a receive step.
#[derive(Debug, PartialEq, Eq, Structural, Clone, Copy)]
pub enum Receive {
    /// A frame was decoded into the caller's frame.
    Frame,
    /// Read from the transport and pass on what came.
    NeedData,
    /// The peer has closed the stream: no frame will come.
    Closed,
}

/// The reply that ends a handshake, and how the handshake ends once the
/// reply has been written.
pub struct OpenReply {
    /// The response to write to the peer.
    pub reply: String,
    /// The handshake's result where the reply was written.
    pub result: Result<bool, RelpError>,
}

/// Text of a positive session acknowledgement.
pub open spec fn ok_text() -> Seq<u8> {
    seq![79u8, 75] /* OK */
}

/// Text of a negative acknowledgement.
pub open spec fn err_text() -> Seq<u8> {
    seq![69u8, 82, 82] /* ERR */
}

/// The greeting that accepts a handshake.
pub open spec fn greeting_text() -> Seq<char> {
    "OK\nrelp_version="@ + RELP_PROTOCOL_VERSION@ + "\nrelp_software="@ + RELPRS_SOFTWARE_NAME@
        + "_"@ + RELPRS_SOFTWARE_VERSION@ + "\ncommands="@ + RELP_SUPPORTED_COMMAND@
}

/// What one decoding attempt on `b` does to a session that held `pre`: a
/// decoded frame is drained from the front of the buffer; otherwise the
/// buffer is kept whole for the next attempt.
pub open spec fn parse_step(
    pre: SessionModel,
    b: Seq<u8>,
    r: Result<Receive, RelpError>,
    post: SessionModel,
    frame_pre: FrameModel,
    frame_post: FrameModel,
) -> bool {
    &&& post.ready == pre.ready
    &&& post.closed == pre.closed
    &&& match parse_outcome(b) {
        Ok(Some(n)) => r == Ok::<Receive, RelpError>(Receive::Frame) && post.buf == b.subrange(
            n as int,
            b.len() as int,
        ) && frame_post == decoded_frame(b),
        Ok(None) => r == Ok::<Receive, RelpError>(Receive::NeedData) && post.buf == b
            && frame_post == frame_pre,
        Err(e) => r == Err::<Receive, RelpError>(e) && post.buf == b && frame_post == frame_pre,
    }
}

proof fn lemma_utf8_len(chars: Seq<char>)
    ensures
        encode_utf8(chars).len() <= 4 * chars.len(),
    decreases chars.len(),
{
    if chars.len() > 0 {
        lemma_utf8_len(chars.drop_first());
    }
}

/// Builds a string from ASCII bytes.
fn ascii_text(b: Vec<u8>) -> (r: String)
    requires
        forall|i: int| 0 <= i < b@.len() ==> #[trigger] b@[i] < 128,
    ensures
        encode_utf8(r@) == b@,
{
    proof {
        lemma_ascii_valid_utf8(b@);
        decode_utf8_encode_utf8(b@);
    }
    text_of(b)
}

impl View for RelpSessionCore {
    type V = SessionModel;

    closed spec fn view(&self) -> SessionModel {
        SessionModel { ready: self.ready, closed: self.closed, buf: self.buf@ }
    }
}

impl RelpSessionCore {
    /// A session that has neither opened nor closed, with nothing buffered.
    pub fn new() -> (r: RelpSessionCore)
        ensures
            r@ == (SessionModel { ready: false, closed: false, buf: Seq::empty() }),
    {
        RelpSessionCore { ready: false, closed: false, buf: Vec::new() }
    }

    /// Whether the peer has not closed the stream.
    pub fn is_open(&self) -> (r: bool)
        ensures
            r == !self@.closed,
    {
        !self.closed
    }

    /// Whether the handshake has completed.
    pub fn is_ready(&self) -> (r: bool)
        ensures
            r == self@.ready,
    {
        self.ready
    }

    /// The bytes received and not yet decoded.
    pub fn buffered(&self) -> (r: &Vec<u8>)
        ensures
            r@ == self@.buf,
    {
        &self.buf
    }

    /// One decoding attempt on the buffer.
    fn parse_buffered(&mut self, frame: &mut RelpFrame) -> (r: Result<Receive, RelpError>)
        ensures
            parse_step(old(self)@, old(self)@.buf, r, final(self)@, old(frame)@, final(frame)@),
    {
        match get_frame(&self.buf, frame) {
            Ok(Some(n)) => {
                let rest = self.buf.split_off(n);
                self.buf = rest;
                Ok(Receive::Frame)
            },
            Ok(None) => Ok(Receive::NeedData),
            Err(e) => Err(e),
        }
    }

    /// Starts receiving a frame. A closed session has none to give; a buffer
    /// shorter than any frame asks for a read first; otherwise the buffer is
    /// decoded.
    pub fn receive_start(&mut self, frame: &mut RelpFrame) -> (r: Result<Receive, RelpError>)
        ensures
            old(self)@.closed ==> r == Ok::<Receive, RelpError>(Receive::Closed) && final(self)@
                == old(self)@ && final(frame)@ == old(frame)@,
            !old(self)@.closed && old(self)@.buf.len() < MINIMUM_SIZE ==> r == Ok::<
                Receive,
                RelpError,
            >(Receive::NeedData) && final(self)@ == old(self)@ && final(frame)@ == old(frame)@,
            !old(self)@.closed && old(self)@.buf.len() >= MINIMUM_SIZE ==> parse_step(
                old(self)@,
                old(self)@.buf,
                r,
                final(self)@,
                old(frame)@,
                final(frame)@,
            ),
    {
        if self.closed {
            return Ok(Receive::Closed);
        }
        if self.buf.len() < MINIMUM_SIZE {
            return Ok(Receive::NeedData);
        }
        self.parse_buffered(frame)
    }

    /// Continues receiving with the bytes of one transport read. No bytes
    /// means the peer closed the stream: the session closes and reports no
    /// frame, which is no error. Otherwise the bytes are appended to the
    /// buffer and the buffer is decoded.
    pub fn receive_data(&mut self, frame: &mut RelpFrame, data: &[u8]) -> (r: Result<
        Receive,
        RelpError,
    >)
        ensures
            data@.len() == 0 ==> r == Ok::<Receive, RelpError>(Receive::Closed) && final(self)@
                == (SessionModel { closed: true, ..old(self)@ }) && final(frame)@ == old(frame)@,
            data@.len() > 0 && old(self)@.closed ==> r == Ok::<Receive, RelpError>(Receive::Closed)
                && final(self)@ == old(self)@ && final(frame)@ == old(frame)@,
            data@.len() > 0 && !old(self)@.closed ==> parse_step(
                old(self)@,
                old(self)@.buf + data@,
                r,
                final(self)@,
                old(frame)@,
                final(frame)@,
            ),
    {
        if data.len() == 0 {
            self.closed = true;
            return Ok(Receive::Closed);
        }
        if self.closed {
            return Ok(Receive::Closed);
        }
        let ghost pre = self.buf@;
        self.buf.extend_from_slice(data);
        assert(self.buf@ =~= pre + data@);
        self.parse_buffered(frame)
    }

    /// Checks that a handshake may begin: only once per session.
    pub fn open_begin(&self) -> (r: Result<(), RelpError>)
        ensures
            self@.ready ==> r == Err::<(), RelpError>(RelpError::AlreadyOpened),
            !self@.ready ==> r is Ok,
    {
        if self.ready {
            Err(RelpError::AlreadyOpened)
        } else {
            Ok(())
        }
    }

    /// Answers a handshake, given how receiving its first frame went. A
    /// failed receive is answered with a negative acknowledgement and keeps
    /// its error; a frame other than `open` with a negative acknowledgement
    /// and `InvalidCommand`; an `open` frame with the greeting.
    pub fn open_finish(&self, received: Result<bool, RelpError>, frame: &RelpFrame) -> (r:
        OpenReply)
        requires
            !self@.ready,
        ensures
            received matches Err(e) ==> r.result == Err::<bool, RelpError>(e) && encode_utf8(
                r.reply@,
            ) == response_bytes(frame@.txnr, RelpStatus::ERR, err_text()),
            received is Ok && frame@.cmd != RelpCommand::OPEN ==> r.result == Err::<
                bool,
                RelpError,
            >(RelpError::InvalidCommand) && encode_utf8(r.reply@) == response_bytes(
                frame@.txnr,
                RelpStatus::ERR,
                err_text(),
            ),
            received is Ok && frame@.cmd == RelpCommand::OPEN ==> r.result == Ok::<bool, RelpError>(
                true,
            ) && encode_utf8(r.reply@) == response_bytes(
                frame@.txnr,
                RelpStatus::OK,
                encode_utf8(greeting_text()),
            ),
    {
        match received {
            Err(e) => {
                let reply = Self::nack_reply(frame);
                OpenReply { reply, result: Err(e) }
            },
            Ok(_) => {
                if frame.cmd() != RelpCommand::OPEN {
                    let reply = Self::nack_reply(frame);
                    OpenReply { reply, result: Err(RelpError::InvalidCommand) }
                } else {
                    let greeting = Self::greeting();
                    proof {
                        lemma_utf8_len(greeting@);
                    }
                    let reply = frame.ack(&greeting);
                    OpenReply { reply, result: Ok(true) }
                }
            },
        }
    }

    /// Ends a handshake once the attempt to write its reply is over. An
    /// unwritten reply ends it with `UnknownError`; otherwise it ends with the
    /// reply's result, and the session is ready exactly when that result is a
    /// success.
    pub fn open_complete(&mut self, answer: &OpenReply, sent: bool) -> (r: Result<bool, RelpError>)
        requires
            !old(self)@.ready,
        ensures
            final(self)@.closed == old(self)@.closed,
            final(self)@.buf == old(self)@.buf,
            !sent ==> r == Err::<bool, RelpError>(RelpError::UnknownError),
            sent ==> r == answer.result,
            final(self)@.ready == (r is Ok),
    {
        if !sent {
            return Err(RelpError::UnknownError);
        }
        match answer.result {
            Ok(v) => {
                self.ready = true;
                Ok(v)
            },
            Err(e) => Err(e),
        }
    }

    /// The greeting that accepts a handshake.
    pub fn greeting() -> (r: String)
        ensures
            r@ == greeting_text(),
            r@.len() < 1000,
    {
        let mut g = String::from_str("OK\nrelp_version=");
        g.append(RELP_PROTOCOL_VERSION);
        g.append("\nrelp_software=");
        g.append(RELPRS_SOFTWARE_NAME);
        g.append("_");
        g.append(RELPRS_SOFTWARE_VERSION);
        g.append("\ncommands=");
        g.append(RELP_SUPPORTED_COMMAND);
        proof {
            reveal_strlit("OK\nrelp_version=");
            reveal_strlit("0");
            reveal_strlit("\nrelp_software=");
            reveal_strlit("relp_for_rust");
            reveal_strlit("_");
            reveal_strlit("0.1.0");
            reveal_strlit("\ncommands=");
            reveal_strlit("syslog");
        }
        g
    }

    /// The positive acknowledgement of `frame`, with text `OK`.
    pub fn ack_reply(frame: &RelpFrame) -> (r: String)
        ensures
            encode_utf8(r@) == response_bytes(frame@.txnr, RelpStatus::OK, ok_text()),
    {
        let t = ascii_text(vec![79u8, 75]);
        assert(encode_utf8(t@) == ok_text());
        frame.ack(&t)
    }

    /// The negative acknowledgement of `frame`, with text `ERR`.
    pub fn nack_reply(frame: &RelpFrame) -> (r: String)
        ensures
            encode_utf8(r@) == response_bytes(frame@.txnr, RelpStatus::ERR, err_text()),
    {
        let t = ascii_text(vec![69u8, 82, 82]);
        assert(encode_utf8(t@) == err_text());
        frame.nack(&t)
    }
}

} // verus!

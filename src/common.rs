//! The protocol's vocabulary: commands, status codes, identity strings and
//! the error taxonomy.
use vstd::prelude::*;
use vstd::string::*;
use vstd::utf8::*;
use crate::text::{lemma_ascii_valid_utf8, text_of};

verus! {

/// Protocol version announced in the handshake greeting.
pub const RELP_PROTOCOL_VERSION: &'static str = "0";

/// Commands offered to the peer in the handshake greeting.
pub const RELP_SUPPORTED_COMMAND: &'static str = "syslog";

/// Software name announced in the handshake greeting.
pub const RELPRS_SOFTWARE_NAME: &'static str = "relp_for_rust";

/// Software version announced in the handshake greeting.
pub const RELPRS_SOFTWARE_VERSION: &'static str = "0.1.0";

/// Everything that can go wrong while decoding a frame or driving a session.
#[derive(Debug, PartialEq, Eq, Structural, Clone, Copy)]
pub enum RelpError {
    /// The transaction number field is longer than nine characters.
    InvalidTxnrLength,
    /// The command field is longer than thirty-two characters.
    InvalidCommandLength,
    /// The data length field is longer than nine characters.
    InvalidDataLenLength,
    /// The transaction number field is not a decimal numeral.
    TxnrParseError,
    /// The data length field is not a decimal numeral.
    DataLenParseError,
    /// The header line ends before its three fields are all present.
    NeedMoreData,
    /// The header line is shorter than any frame can be.
    InvalidData,
    /// The command field names no command of the protocol.
    InvalidCommand,
    /// The transport failed to deliver bytes.
    StreamReadError,
    /// The handshake was attempted on a session that is already open.
    AlreadyOpened,
    /// The reply to a failed handshake could not be written.
    UnknownError,
}

/// The commands of the protocol. `UNKNOWN` only marks a frame that holds
/// nothing yet: no command token parses to it.
#[derive(Debug, PartialEq, Eq, Structural, Clone, Copy)]
pub enum RelpCommand {
    OPEN,
    SYSLOG,
    CLOSE,
    RSP,
    ABORT,
    STARTTLS,
    UNKNOWN,
}

impl Default for RelpCommand {
    /// The placeholder command of a frame that holds nothing yet.
    fn default() -> (r: RelpCommand)
        ensures
            r == RelpCommand::UNKNOWN,
    {
        RelpCommand::UNKNOWN
    }
}

/// Status codes of a response.
#[derive(Debug, PartialEq, Eq, Structural, Clone, Copy)]
pub enum RelpStatus {
    /// Success, code `200`.
    OK,
    /// Failure, code `500`.
    ERR,
}

impl RelpStatus {
    /// The wire code of the status.
    pub open spec fn code(self) -> Seq<u8> {
        match self {
            RelpStatus::OK => seq![50u8, 48, 48] /* 200 */,
            RelpStatus::ERR => seq![53u8, 48, 48] /* 500 */,
        }
    }

    /// The wire code of the status, as bytes.
    pub fn code_bytes(&self) -> (r: Vec<u8>)
        ensures
            r@ == self.code(),
    {
        let r = match self {
            RelpStatus::OK => vec![50u8, 48, 48],
            RelpStatus::ERR => vec![53u8, 48, 48],
        };
        assert(r@ =~= self.code());
        r
    }

    /// The status whose code is `s`; any other text is `InvalidData`.
    pub fn from_str(s: &str) -> (r: Result<RelpStatus, RelpError>)
        ensures
            s.spec_bytes() == RelpStatus::OK.code() ==> r == Ok::<RelpStatus, RelpError>(RelpStatus::OK),
            s.spec_bytes() == RelpStatus::ERR.code() ==> r == Ok::<RelpStatus, RelpError>(RelpStatus::ERR),
            s.spec_bytes() != RelpStatus::OK.code() && s.spec_bytes() != RelpStatus::ERR.code()
                ==> r == Err::<RelpStatus, RelpError>(RelpError::InvalidData),
    {
        let b = s.as_bytes();
        let ok = vec![50u8, 48, 48];
        let err = vec![53u8, 48, 48];
        assert(ok@ =~= RelpStatus::OK.code());
        assert(err@ =~= RelpStatus::ERR.code());
        assert(b@.subrange(0, b@.len() as int) =~= b@);
        if range_eq(b, 0, b.len(), ok.as_slice()) {
            Ok(RelpStatus::OK)
        } else if range_eq(b, 0, b.len(), err.as_slice()) {
            Ok(RelpStatus::ERR)
        } else {
            Err(RelpError::InvalidData)
        }
    }

    /// The wire code of the status as text.
    pub fn to_string(&self) -> (r: String)
        ensures
            r@ == decode_utf8(self.code()),
    {
        let b = self.code_bytes();
        proof {
            lemma_ascii_valid_utf8(b@);
        }
        text_of(b)
    }
}

/// Result of one attempt to decode a frame: `Ok(Some(n))` when a frame of
/// `n` bytes was decoded, `Ok(None)` when more bytes are needed.
pub type RelpParserResult = Result<Option<usize>, RelpError>;

impl RelpCommand {
    /// The wire token of the command (`unknown` for the placeholder).
    pub open spec fn token(self) -> Seq<u8> {
        match self {
            RelpCommand::OPEN => seq![111u8, 112, 101, 110] /* open */,
            RelpCommand::SYSLOG => seq![115u8, 121, 115, 108, 111, 103] /* syslog */,
            RelpCommand::CLOSE => seq![99u8, 108, 111, 115, 101] /* close */,
            RelpCommand::RSP => seq![114u8, 115, 112] /* rsp */,
            RelpCommand::ABORT => seq![97u8, 98, 111, 114, 116] /* abort */,
            RelpCommand::STARTTLS => seq![115u8, 116, 97, 114, 116, 116, 108, 115] /* starttls */,
            RelpCommand::UNKNOWN => seq![117u8, 110, 107, 110, 111, 119, 110] /* unknown */,
        }
    }
}

/// The command whose wire token is `s`, if any.
pub open spec fn command_of(s: Seq<u8>) -> Option<RelpCommand> {
    if s == RelpCommand::OPEN.token() {
        Some(RelpCommand::OPEN)
    } else if s == RelpCommand::SYSLOG.token() {
        Some(RelpCommand::SYSLOG)
    } else if s == RelpCommand::CLOSE.token() {
        Some(RelpCommand::CLOSE)
    } else if s == RelpCommand::RSP.token() {
        Some(RelpCommand::RSP)
    } else if s == RelpCommand::ABORT.token() {
        Some(RelpCommand::ABORT)
    } else if s == RelpCommand::STARTTLS.token() {
        Some(RelpCommand::STARTTLS)
    } else {
        None
    }
}

/// Every command but the placeholder is recognised by its own token.
pub proof fn lemma_command_of_token(c: RelpCommand)
    ensures
        c != RelpCommand::UNKNOWN ==> command_of(c.token()) == Some(c),
        c == RelpCommand::UNKNOWN ==> command_of(c.token()) is None,
        c.token().len() <= 32,
        c.token().len() >= 3,
        !c.token().contains(32u8),
        !c.token().contains(10u8),
{
    let s = c.token();
    assert forall|i: int| 0 <= i < s.len() implies s[i] != 32 && s[i] != 10 by {}
}

/// Whether `b[lo..hi]` equals `pat`.
fn range_eq(b: &[u8], lo: usize, hi: usize, pat: &[u8]) -> (r: bool)
    requires
        lo <= hi <= b@.len(),
    ensures
        r == (b@.subrange(lo as int, hi as int) == pat@),
{
    if hi - lo != pat.len() {
        return false;
    }
    let mut i: usize = 0;
    while i < pat.len()
        invariant
            i <= pat@.len(),
            hi - lo == pat@.len(),
            lo <= hi <= b@.len(),
            forall|j: int| 0 <= j < i ==> b@[lo + j] == pat@[j],
        decreases pat@.len() - i,
    {
        if b[lo + i] != pat[i] {
            assert(b@.subrange(lo as int, hi as int)[i as int] != pat@[i as int]);
            return false;
        }
        i = i + 1;
    }
    assert(b@.subrange(lo as int, hi as int) =~= pat@);
    true
}

impl RelpCommand {
    /// The wire token of the command, as bytes.
    pub fn token_bytes(&self) -> (r: Vec<u8>)
        ensures
            r@ == self.token(),
    {
        let r = match self {
            RelpCommand::OPEN => vec![111u8, 112, 101, 110],
            RelpCommand::SYSLOG => vec![115u8, 121, 115, 108, 111, 103],
            RelpCommand::CLOSE => vec![99u8, 108, 111, 115, 101],
            RelpCommand::RSP => vec![114u8, 115, 112],
            RelpCommand::ABORT => vec![97u8, 98, 111, 114, 116],
            RelpCommand::STARTTLS => vec![115u8, 116, 97, 114, 116, 116, 108, 115],
            RelpCommand::UNKNOWN => vec![117u8, 110, 107, 110, 111, 119, 110],
        };
        assert(r@ =~= self.token());
        r
    }

    /// The command named by `cmd`; the placeholder's name and any other text
    /// are refused.
    pub fn from_str(cmd: &str) -> (r: Result<RelpCommand, ()>)
        ensures
            r is Ok <==> command_of(cmd.spec_bytes()) is Some,
            r matches Ok(c) ==> command_of(cmd.spec_bytes()) == Some(c),
    {
        let b = cmd.as_bytes();
        assert(b@.subrange(0, b@.len() as int) =~= b@);
        match command_from_range(b, 0, b.len()) {
            Some(c) => Ok(c),
            None => Err(()),
        }
    }

    /// The wire token of the command as text.
    pub fn to_string(&self) -> (r: String)
        ensures
            r@ == decode_utf8(self.token()),
    {
        let b = self.token_bytes();
        proof {
            lemma_ascii_valid_utf8(b@);
        }
        text_of(b)
    }
}

/// The command whose token is `b[lo..hi]`.
pub fn command_from_range(b: &[u8], lo: usize, hi: usize) -> (r: Option<RelpCommand>)
    requires
        lo <= hi <= b@.len(),
    ensures
        r == command_of(b@.subrange(lo as int, hi as int)),
{
    let s = Ghost(b@.subrange(lo as int, hi as int));
    let v = vec![111u8, 112, 101, 110]; // open
    if range_eq(b, lo, hi, v.as_slice()) {
        return Some(RelpCommand::OPEN);
    }
    let v = vec![115u8, 121, 115, 108, 111, 103]; // syslog
    if range_eq(b, lo, hi, v.as_slice()) {
        return Some(RelpCommand::SYSLOG);
    }
    let v = vec![99u8, 108, 111, 115, 101]; // close
    if range_eq(b, lo, hi, v.as_slice()) {
        return Some(RelpCommand::CLOSE);
    }
    let v = vec![114u8, 115, 112]; // rsp
    if range_eq(b, lo, hi, v.as_slice()) {
        return Some(RelpCommand::RSP);
    }
    let v = vec![97u8, 98, 111, 114, 116]; // abort
    if range_eq(b, lo, hi, v.as_slice()) {
        return Some(RelpCommand::ABORT);
    }
    let v = vec![115u8, 116, 97, 114, 116, 116, 108, 115]; // starttls
    if range_eq(b, lo, hi, v.as_slice()) {
        return Some(RelpCommand::STARTTLS);
    }
    None
}

} // verus!

//! Decoding one frame from the front of a byte buffer.
//!
//! The wire form of a frame is
//! `<txnr> SP <command> SP <datalen> [SP <data>] LF`: the header is read up to
//! the first line feed, while the payload is measured by its declared length
//! alone, so it may hold spaces and line feeds of its own.
use vstd::prelude::*;
use crate::common::{command_from_range, command_of, RelpError, RelpParserResult};
use crate::frame::{FrameModel, RelpFrame, MINIMUM_SIZE};
use crate::text::{index_of, is_digit, is_numeral, lemma_index_of_unique,
    numeral_value, pow10};

verus! {

/// Most characters of the transaction number field.
pub const TXNR_MAXLEN: usize = 9;

/// Most characters of the command field.
pub const CMD_MAXLEN: usize = 32;

/// Most characters of the data length field.
pub const DATALEN_MAXLEN: usize = 9;

/// Position of the first line feed (the buffer's length where there is none).
pub open spec fn lf_pos(buf: Seq<u8>) -> int {
    index_of(buf, 10) as int
}

/// End of the transaction number field: the header's first space, or its end.
pub open spec fn txnr_end(buf: Seq<u8>) -> int {
    index_of(buf.subrange(0, lf_pos(buf)), 32) as int
}

/// End of the command field: the next space of the header, or its end.
pub open spec fn cmd_end(buf: Seq<u8>) -> int {
    txnr_end(buf) + 1 + index_of(buf.subrange(txnr_end(buf) + 1, lf_pos(buf)), 32)
}

/// End of the data length field: the next space of the header, or its end.
pub open spec fn datalen_end(buf: Seq<u8>) -> int {
    cmd_end(buf) + 1 + index_of(buf.subrange(cmd_end(buf) + 1, lf_pos(buf)), 32)
}

pub open spec fn txnr_field(buf: Seq<u8>) -> Seq<u8> {
    buf.subrange(0, txnr_end(buf))
}

pub open spec fn cmd_field(buf: Seq<u8>) -> Seq<u8> {
    buf.subrange(txnr_end(buf) + 1, cmd_end(buf))
}

pub open spec fn datalen_field(buf: Seq<u8>) -> Seq<u8> {
    buf.subrange(cmd_end(buf) + 1, datalen_end(buf))
}

/// The declared payload length.
pub open spec fn declared_len(buf: Seq<u8>) -> nat {
    numeral_value(datalen_field(buf))
}

/// Where the payload starts: after the header fields, and after one
/// separating byte where the payload is not empty.
pub open spec fn data_start(buf: Seq<u8>) -> int {
    datalen_end(buf) + if declared_len(buf) > 0 {
        1int
    } else {
        0int
    }
}

/// The whole frame's length, its final delimiter included.
pub open spec fn frame_len(buf: Seq<u8>) -> int {
    data_start(buf) + declared_len(buf) + 1
}

/// The payload bytes.
pub open spec fn payload(buf: Seq<u8>) -> Seq<u8> {
    buf.subrange(data_start(buf), data_start(buf) + declared_len(buf))
}

/// What decoding a frame from the front of `buf` gives: `Ok(Some(n))` for a
/// complete frame of `n` bytes, `Ok(None)` where more bytes are needed, and
/// an error where the bytes cannot begin a frame.
pub open spec fn parse_outcome(buf: Seq<u8>) -> RelpParserResult {
    if lf_pos(buf) == buf.len() {
        Ok(None)
    } else if lf_pos(buf) < MINIMUM_SIZE {
        Err(RelpError::InvalidData)
    } else if txnr_end(buf) == lf_pos(buf) || cmd_end(buf) == lf_pos(buf) {
        Err(RelpError::NeedMoreData)
    } else if txnr_field(buf).len() > TXNR_MAXLEN {
        Err(RelpError::InvalidTxnrLength)
    } else if !is_numeral(txnr_field(buf)) {
        Err(RelpError::TxnrParseError)
    } else if cmd_field(buf).len() > CMD_MAXLEN {
        Err(RelpError::InvalidCommandLength)
    } else if datalen_field(buf).len() > DATALEN_MAXLEN {
        Err(RelpError::InvalidDataLenLength)
    } else if !is_numeral(datalen_field(buf)) {
        Err(RelpError::DataLenParseError)
    } else if frame_len(buf) > buf.len() {
        Ok(None)
    } else if command_of(cmd_field(buf)) is None {
        Err(RelpError::InvalidCommand)
    } else {
        Ok(Some(frame_len(buf) as usize))
    }
}

/// The frame that `buf` begins with, where `parse_outcome` finds one.
pub open spec fn decoded_frame(buf: Seq<u8>) -> FrameModel {
    FrameModel {
        txnr: numeral_value(txnr_field(buf)) as u32,
        cmd: command_of(cmd_field(buf))->Some_0,
        datalen: declared_len(buf) as usize,
        data: payload(buf),
    }
}

/// The first position of `b` in `buf[lo..hi]`, or `hi`.
fn find_byte(buf: &Vec<u8>, lo: usize, hi: usize, b: u8) -> (r: usize)
    requires
        lo <= hi <= buf@.len(),
    ensures
        r == lo + index_of(buf@.subrange(lo as int, hi as int), b),
        lo <= r <= hi,
{
    let ghost s = buf@.subrange(lo as int, hi as int);
    let mut i: usize = lo;
    while i < hi
        invariant
            lo <= i <= hi <= buf@.len(),
            s == buf@.subrange(lo as int, hi as int),
            forall|j: int| lo <= j < i ==> buf@[j] != b,
        decreases hi - i,
    {
        if buf[i] == b {
            proof {
                lemma_index_of_unique(s, b, i - lo);
            }
            return i;
        }
        i = i + 1;
    }
    proof {
        lemma_index_of_unique(s, b, i - lo);
    }
    i
}

/// The value of the decimal numeral `buf[lo..hi]`, if it is one.
fn parse_numeral(buf: &Vec<u8>, lo: usize, hi: usize) -> (r: Option<usize>)
    requires
        lo <= hi <= buf@.len(),
        hi - lo <= 9,
    ensures
        r is Some <==> is_numeral(buf@.subrange(lo as int, hi as int)),
        r matches Some(v) ==> v == numeral_value(buf@.subrange(lo as int, hi as int)) && v
            < 1_000_000_000,
{
    if lo == hi {
        return None;
    }
    let mut v: usize = 0;
    let mut i: usize = lo;
    proof {
        reveal_with_fuel(pow10, 10);
        assert(buf@.subrange(lo as int, lo as int) =~= Seq::<u8>::empty());
    }
    while i < hi
        invariant
            lo <= i <= hi <= buf@.len(),
            hi - lo <= 9,
            forall|j: int| lo <= j < i ==> is_digit(#[trigger] buf@[j]),
            v == numeral_value(buf@.subrange(lo as int, i as int)),
            v < pow10((i - lo) as nat),
            pow10(9) == 1_000_000_000,
        decreases hi - i,
    {
        let c = buf[i];
        if c < 48 || c > 57 {
            assert(buf@.subrange(lo as int, hi as int)[i - lo] == c);
            return None;
        }
        proof {
            assert(pow10((i + 1 - lo) as nat) == 10 * pow10((i - lo) as nat));
            lemma_pow10_le((i + 1 - lo) as nat, 9);
            assert(buf@.subrange(lo as int, i + 1).drop_last() =~= buf@.subrange(lo as int, i as int));
        }
        v = v * 10 + (c - 48) as usize;
        i = i + 1;
    }
    proof {
        lemma_pow10_le((hi - lo) as nat, 9);
        let s = buf@.subrange(lo as int, hi as int);
        assert forall|j: int| 0 <= j < s.len() implies is_digit(#[trigger] s[j]) by {
            assert(s[j] == buf@[lo + j]);
        }
    }
    Some(v)
}

proof fn lemma_pow10_le(a: nat, b: nat)
    requires
        a <= b,
    ensures
        pow10(a) <= pow10(b),
    decreases b,
{
    if a < b {
        lemma_pow10_le(a, (b - 1) as nat);
    }
}

/// Decodes one frame from the front of `buf`. On success `dest` receives the
/// frame and the result is its length in bytes; otherwise `dest` is left as
/// it was.
pub fn get_frame(buf: &Vec<u8>, dest: &mut RelpFrame) -> (r: RelpParserResult)
    ensures
        r == parse_outcome(buf@),
        r matches Ok(Some(_)) ==> final(dest)@ == decoded_frame(buf@),
        !(r matches Ok(Some(_))) ==> final(dest)@ == old(dest)@,
{
    let ghost s = buf@;
    let len = buf.len();
    let lf = find_byte(buf, 0, len, 10);
    assert(buf@.subrange(0, len as int) =~= s);
    if lf == len {
        return Ok(None);
    }
    if lf < MINIMUM_SIZE {
        return Err(RelpError::InvalidData);
    }
    let t_end = find_byte(buf, 0, lf, 32);
    if t_end == lf {
        return Err(RelpError::NeedMoreData);
    }
    let c_end = find_byte(buf, t_end + 1, lf, 32);
    if c_end == lf {
        return Err(RelpError::NeedMoreData);
    }
    let d_end = find_byte(buf, c_end + 1, lf, 32);
    if t_end > TXNR_MAXLEN {
        return Err(RelpError::InvalidTxnrLength);
    }
    let txnr = match parse_numeral(buf, 0, t_end) {
        Some(v) => v,
        None => return Err(RelpError::TxnrParseError),
    };
    if c_end - t_end - 1 > CMD_MAXLEN {
        return Err(RelpError::InvalidCommandLength);
    }
    if d_end - c_end - 1 > DATALEN_MAXLEN {
        return Err(RelpError::InvalidDataLenLength);
    }
    let datalen = match parse_numeral(buf, c_end + 1, d_end) {
        Some(v) => v,
        None => return Err(RelpError::DataLenParseError),
    };
    let start = if datalen > 0 {
        d_end + 1
    } else {
        d_end
    };
    if start >= len || datalen > len - start - 1 {
        return Ok(None);
    }
    let total = start + datalen + 1;
    let cmd = match command_from_range(buf.as_slice(), t_end + 1, c_end) {
        Some(c) => c,
        None => return Err(RelpError::InvalidCommand),
    };
    let mut bytes: Vec<u8> = Vec::new();
    let mut j: usize = start;
    while j < start + datalen
        invariant
            start <= j <= start + datalen <= len,
            len == buf@.len(),
            bytes@ == buf@.subrange(start as int, j as int),
        decreases start + datalen - j,
    {
        bytes.push(buf[j]);
        j = j + 1;
        assert(bytes@ =~= buf@.subrange(start as int, j as int));
    }
    dest.from(txnr as u32, cmd, datalen, bytes);
    Ok(Some(total))
}

} // verus!

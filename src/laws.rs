//! Properties that relate the parser to the wire form of frames.
use vstd::prelude::*;
use crate::common::{command_of, lemma_command_of_token, RelpCommand, RelpError};
use crate::frame::FrameModel;
use crate::parser::{
    cmd_end, cmd_field, datalen_end, datalen_field, declared_len, decoded_frame, frame_len, lf_pos,
    parse_outcome, payload, txnr_end, txnr_field,
};
use crate::text::{
    decimal, is_digit, is_numeral, lemma_decimal, lemma_index_of_bounds, lemma_index_of_unique,
};

verus! {

/// The wire bytes of a frame with transaction number `txnr`, command token
/// `tok` and payload `data`: the three header fields separated by spaces, then
/// a space and the payload where there is one, then a line feed.
pub open spec fn frame_bytes(txnr: nat, tok: Seq<u8>, data: Seq<u8>) -> Seq<u8> {
    decimal(txnr) + seq![32u8] + tok + seq![32u8] + decimal(data.len()) + if data.len() > 0 {
        seq![32u8] + data
    } else {
        Seq::<u8>::empty()
    } + seq![10u8]
}

/// The wire bytes of a frame.
pub open spec fn wire(m: FrameModel) -> Seq<u8> {
    frame_bytes(m.txnr as nat, m.cmd.token(), m.data)
}

/// Whether the wire grammar can carry `m`: numbers of at most nine digits, a
/// real command, and a declared length that is the payload's length in bytes.
pub open spec fn is_wire_frame(m: FrameModel) -> bool {
    &&& m.txnr < 1_000_000_000
    &&& m.cmd != RelpCommand::UNKNOWN
    &&& m.datalen < 1_000_000_000
    &&& m.datalen == m.data.len()
}

/// Whether `tok` can stand as the command field of a header: at least three
/// bytes, none of them a space or a line feed.
pub open spec fn is_token_shaped(tok: Seq<u8>) -> bool {
    &&& tok.len() >= 3
    &&& forall|j: int| 0 <= j < tok.len() ==> tok[j] != 32 && tok[j] != 10
}

proof fn lemma_numeral_no_separator(d: Seq<u8>)
    requires
        is_numeral(d),
    ensures
        forall|j: int| 0 <= j < d.len() ==> d[j] != 32 && d[j] != 10,
{
    assert forall|j: int| 0 <= j < d.len() implies d[j] != 32 && d[j] != 10 by {
        assert(is_digit(d[j]));
    }
}

/// What decoding a header-shaped frame gives, whatever follows it: a command
/// field over thirty-two bytes is refused first, then a token that names no
/// command; otherwise the frame is decoded whole, whatever bytes its payload
/// holds.
pub proof fn lemma_frame_bytes(txnr: nat, tok: Seq<u8>, data: Seq<u8>, rest: Seq<u8>)
    requires
        txnr < 1_000_000_000,
        data.len() < 1_000_000_000,
        is_token_shaped(tok),
    ensures
        parse_outcome(frame_bytes(txnr, tok, data) + rest) == if tok.len() > 32 {
            Err::<Option<usize>, RelpError>(RelpError::InvalidCommandLength)
        } else if command_of(tok) is None {
            Err::<Option<usize>, RelpError>(RelpError::InvalidCommand)
        } else {
            Ok::<Option<usize>, RelpError>(Some(frame_bytes(txnr, tok, data).len() as usize))
        },
        txnr_field(frame_bytes(txnr, tok, data) + rest) == decimal(txnr),
        cmd_field(frame_bytes(txnr, tok, data) + rest) == tok,
        declared_len(frame_bytes(txnr, tok, data) + rest) == data.len(),
        payload(frame_bytes(txnr, tok, data) + rest) == data,
        frame_len(frame_bytes(txnr, tok, data) + rest) == frame_bytes(txnr, tok, data).len(),
{
    let d = decimal(txnr);
    let t = tok;
    let l = decimal(data.len());
    let e = data;
    let n = data.len() as int;
    lemma_decimal(txnr);
    lemma_decimal(data.len());
    lemma_numeral_no_separator(d);
    lemma_numeral_no_separator(l);
    let w = frame_bytes(txnr, tok, data);
    let buf = w + rest;
    let a = d.len() as int;
    let b = a + 1 + t.len();
    let h = b + 1 + l.len();
    let wl = w.len() as int;
    assert(wl == h + (if n > 0 { 1 + n } else { 0 }) + 1);
    assert(buf.subrange(0, a) =~= d);
    assert(buf[a] == 32);
    assert(buf.subrange(a + 1, b) =~= t);
    assert(buf[b] == 32);
    assert(buf.subrange(b + 1, h) =~= l);
    assert(buf[wl - 1] == 10);
    if n > 0 {
        assert(buf[h] == 32);
        assert(buf.subrange(h + 1, h + 1 + n) =~= e);
    } else {
        assert(buf[h] == 10);
    }
    assert forall|j: int| 0 <= j < h implies buf[j] != 10 by {
        if j < a {
            assert(buf[j] == buf.subrange(0, a)[j]);
        } else if a < j < b {
            assert(buf[j] == buf.subrange(a + 1, b)[j - a - 1]);
        } else if b < j {
            assert(buf[j] == buf.subrange(b + 1, h)[j - b - 1]);
        }
    }
    // The header ends at the first line feed.
    let lf = lf_pos(buf);
    lemma_index_of_bounds(buf, 10);
    assert(lf <= wl - 1);
    assert(lf >= h);
    if n == 0 {
        assert(lf == h);
    } else {
        assert(lf > h);
    }
    // The three header fields.
    let s0 = buf.subrange(0, lf);
    assert forall|j: int| 0 <= j < a implies s0[j] != 32 by {
        assert(s0[j] == buf.subrange(0, a)[j]);
    }
    lemma_index_of_unique(s0, 32, a);
    assert(txnr_end(buf) == a);
    let s1 = buf.subrange(a + 1, lf);
    assert forall|j: int| 0 <= j < t.len() implies s1[j] != 32 by {
        assert(s1[j] == buf.subrange(a + 1, b)[j]);
    }
    lemma_index_of_unique(s1, 32, t.len() as int);
    assert(cmd_end(buf) == b);
    let s2 = buf.subrange(b + 1, lf);
    assert forall|j: int| 0 <= j < l.len() implies s2[j] != 32 by {
        assert(s2[j] == buf.subrange(b + 1, h)[j]);
    }
    lemma_index_of_unique(s2, 32, l.len() as int);
    assert(datalen_end(buf) == h);
    assert(txnr_field(buf) == d);
    assert(cmd_field(buf) == t);
    assert(datalen_field(buf) == l);
    assert(declared_len(buf) == n);
    assert(frame_len(buf) == wl);
    assert(payload(buf) =~= e);
}

/// Decoding the wire bytes of a frame, whatever follows them, gives the frame
/// back and consumes exactly its wire bytes.
pub proof fn lemma_round_trip(m: FrameModel, rest: Seq<u8>)
    requires
        is_wire_frame(m),
    ensures
        parse_outcome(wire(m) + rest) == Ok::<Option<usize>, RelpError>(
            Some(wire(m).len() as usize),
        ),
        decoded_frame(wire(m) + rest) == m,
        frame_len(wire(m) + rest) == wire(m).len(),
{
    lemma_command_of_token(m.cmd);
    let t = m.cmd.token();
    assert forall|j: int| 0 <= j < t.len() implies t[j] != 32 && t[j] != 10 by {
        assert(t.contains(t[j]));
    }
    lemma_decimal(m.txnr as nat);
    lemma_frame_bytes(m.txnr as nat, t, m.data, rest);
}

/// Every proper prefix of bytes that decode as one whole frame asks for more
/// bytes.
proof fn lemma_prefix_of_frame(w: Seq<u8>, k: int)
    requires
        parse_outcome(w) matches Ok(Some(_)),
        frame_len(w) == w.len(),
        0 <= k < w.len(),
    ensures
        parse_outcome(w.subrange(0, k)) == Ok::<Option<usize>, RelpError>(None),
{
    let p = w.subrange(0, k);
    let lfw = lf_pos(w);
    lemma_index_of_bounds(w, 10);
    if k <= lfw {
        assert forall|j: int| 0 <= j < k implies p[j] != 10 by {
            assert(p[j] == w[j]);
        }
        lemma_index_of_unique(p, 10, k);
    } else {
        assert forall|j: int| 0 <= j < lfw implies p[j] != 10 by {
            assert(p[j] == w[j]);
        }
        assert(p[lfw] == w[lfw]);
        lemma_index_of_unique(p, 10, lfw);
        assert(lf_pos(p) == lfw);
        assert(p.subrange(0, lfw) =~= w.subrange(0, lfw));
        let te = txnr_end(w);
        assert(txnr_end(p) == te);
        assert(p.subrange(te + 1, lfw) =~= w.subrange(te + 1, lfw));
        let ce = cmd_end(w);
        assert(cmd_end(p) == ce);
        assert(p.subrange(ce + 1, lfw) =~= w.subrange(ce + 1, lfw));
        assert(datalen_end(p) == datalen_end(w));
        lemma_index_of_bounds(w.subrange(ce + 1, lfw), 32);
        assert(txnr_field(p) =~= txnr_field(w));
        assert(cmd_field(p) =~= cmd_field(w));
        assert(datalen_field(p) =~= datalen_field(w));
        assert(frame_len(p) == frame_len(w));
    }
}

/// Every proper prefix of a frame's wire bytes asks for more bytes: a frame
/// that has arrived in part is never refused, and never decoded early.
pub proof fn lemma_prefix_incomplete(m: FrameModel, k: int)
    requires
        is_wire_frame(m),
        0 <= k < wire(m).len(),
    ensures
        parse_outcome(wire(m).subrange(0, k)) == Ok::<Option<usize>, RelpError>(None),
{
    lemma_round_trip(m, Seq::empty());
    assert(wire(m) + Seq::<u8>::empty() =~= wire(m));
    lemma_prefix_of_frame(wire(m), k);
}

/// A command field longer than thirty-two bytes is refused for its length,
/// whatever it spells.
pub proof fn lemma_command_too_long(txnr: nat, tok: Seq<u8>, data: Seq<u8>, rest: Seq<u8>)
    requires
        txnr < 1_000_000_000,
        data.len() < 1_000_000_000,
        is_token_shaped(tok),
        tok.len() > 32,
    ensures
        parse_outcome(frame_bytes(txnr, tok, data) + rest) == Err::<Option<usize>, RelpError>(
            RelpError::InvalidCommandLength,
        ),
{
    lemma_frame_bytes(txnr, tok, data, rest);
}

/// A complete, well-formed frame whose command field names no command is
/// refused as an invalid command.
pub proof fn lemma_unknown_command(txnr: nat, tok: Seq<u8>, data: Seq<u8>, rest: Seq<u8>)
    requires
        txnr < 1_000_000_000,
        data.len() < 1_000_000_000,
        is_token_shaped(tok),
        tok.len() <= 32,
        command_of(tok) is None,
    ensures
        parse_outcome(frame_bytes(txnr, tok, data) + rest) == Err::<Option<usize>, RelpError>(
            RelpError::InvalidCommand,
        ),
{
    lemma_frame_bytes(txnr, tok, data, rest);
}

/// Two frames sent back to back are decoded in order: the first decode
/// consumes exactly the first frame's bytes, and decoding what remains gives
/// the second frame.
pub proof fn lemma_back_to_back(f: FrameModel, g: FrameModel)
    requires
        is_wire_frame(f),
        is_wire_frame(g),
    ensures
        parse_outcome(wire(f) + wire(g)) == Ok::<Option<usize>, RelpError>(
            Some(wire(f).len() as usize),
        ),
        decoded_frame(wire(f) + wire(g)) == f,
        (wire(f) + wire(g)).subrange(wire(f).len() as int, (wire(f) + wire(g)).len() as int)
            == wire(g),
        parse_outcome(wire(g)) == Ok::<Option<usize>, RelpError>(Some(wire(g).len() as usize)),
        decoded_frame(wire(g)) == g,
{
    lemma_round_trip(f, wire(g));
    lemma_round_trip(g, Seq::empty());
    assert(wire(g) + Seq::<u8>::empty() =~= wire(g));
    assert((wire(f) + wire(g)).subrange(wire(f).len() as int, (wire(f) + wire(g)).len() as int)
        =~= wire(g));
}

} // verus!

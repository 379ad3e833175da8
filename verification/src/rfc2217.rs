//! Telnet decoding and RFC 2217 (COM-PORT-OPTION) replies.
//!
//! Telnet control bytes are parsed and escaped here; serial bytes continue
//! through the broker. The listener and its connections run in the host
//! program.

use vstd::prelude::*;

use crate::broker::ControlCommand;
use crate::config::SerialSettings;
use crate::text::owned;

verus! {

pub const IAC: u8 = 255;
pub const DONT: u8 = 254;
pub const DO: u8 = 253;
pub const WONT: u8 = 252;
pub const WILL: u8 = 251;
pub const SB: u8 = 250;
pub const SE: u8 = 240;
pub const COM_PORT_OPTION: u8 = 44;

pub const SIGNATURE: u8 = 0;
pub const SET_BAUDRATE: u8 = 1;
pub const SET_DATASIZE: u8 = 2;
pub const SET_PARITY: u8 = 3;
pub const SET_STOPSIZE: u8 = 4;
pub const SET_CONTROL: u8 = 5;
pub const FLOWCONTROL_SUSPEND: u8 = 8;
pub const FLOWCONTROL_RESUME: u8 = 9;
pub const SET_LINESTATE_MASK: u8 = 10;
pub const SET_MODEMSTATE_MASK: u8 = 11;
pub const PURGE_DATA: u8 = 12;

/// Where the decoder stands between bytes.
#[derive(Debug)]
pub enum DecoderState {
    Data,
    Iac,
    Negotiation(u8),
    Subneg(Vec<u8>),
    SubnegIac(Vec<u8>),
}

/// The decoder's state with subnegotiation bodies as sequences.
pub enum Phase {
    Data,
    Iac,
    Negotiation(u8),
    Subneg(Seq<u8>),
    SubnegIac(Seq<u8>),
}

impl View for DecoderState {
    type V = Phase;

    open spec fn view(&self) -> Phase {
        match self {
            DecoderState::Data => Phase::Data,
            DecoderState::Iac => Phase::Iac,
            DecoderState::Negotiation(c) => Phase::Negotiation(*c),
            DecoderState::Subneg(v) => Phase::Subneg(v@),
            DecoderState::SubnegIac(v) => Phase::SubnegIac(v@),
        }
    }
}

/// What decoding has produced: serial payload, negotiation replies and
/// completed subnegotiation bodies.
pub struct Decoded {
    pub phase: Phase,
    pub payload: Seq<u8>,
    pub replies: Seq<u8>,
    pub subnegotiations: Seq<Seq<u8>>,
}

/// The reply to a Telnet option negotiation: COM-PORT-OPTION is accepted
/// in both directions, every other option refused.
pub open spec fn negotiation_answer(command: u8, option: u8) -> Seq<u8> {
    if command == WILL {
        seq![IAC, if option == COM_PORT_OPTION { DO } else { DONT }, option]
    } else if command == WONT {
        seq![IAC, DONT, option]
    } else if command == DO {
        seq![IAC, if option == COM_PORT_OPTION { WILL } else { WONT }, option]
    } else if command == DONT {
        seq![IAC, WONT, option]
    } else {
        Seq::empty()
    }
}

/// One byte of decoding.
pub open spec fn decode_byte(d: Decoded, byte: u8) -> Decoded {
    match d.phase {
        Phase::Data => if byte == IAC {
            Decoded { phase: Phase::Iac, ..d }
        } else {
            Decoded { phase: Phase::Data, payload: d.payload.push(byte), ..d }
        },
        Phase::Iac => if byte == IAC {
            Decoded { phase: Phase::Data, payload: d.payload.push(IAC), ..d }
        } else if byte == WILL || byte == WONT || byte == DO || byte == DONT {
            Decoded { phase: Phase::Negotiation(byte), ..d }
        } else if byte == SB {
            Decoded { phase: Phase::Subneg(Seq::empty()), ..d }
        } else {
            Decoded { phase: Phase::Data, ..d }
        },
        Phase::Negotiation(command) => Decoded {
            phase: Phase::Data,
            replies: d.replies + negotiation_answer(command, byte),
            ..d
        },
        Phase::Subneg(body) => if byte == IAC {
            Decoded { phase: Phase::SubnegIac(body), ..d }
        } else {
            Decoded { phase: Phase::Subneg(body.push(byte)), ..d }
        },
        Phase::SubnegIac(body) => if byte == IAC {
            Decoded { phase: Phase::Subneg(body.push(IAC)), ..d }
        } else if byte == SE {
            Decoded { phase: Phase::Data, subnegotiations: d.subnegotiations.push(body), ..d }
        } else {
            Decoded { phase: Phase::Data, ..d }
        },
    }
}

/// Decoding a run of bytes, one after the other.
pub open spec fn decode_bytes(d: Decoded, bytes: Seq<u8>) -> Decoded
    decreases bytes.len(),
{
    if bytes.len() == 0 {
        d
    } else {
        decode_byte(decode_bytes(d, bytes.drop_last()), bytes.last())
    }
}

/// Fresh decoder output from a phase.
pub open spec fn start(phase: Phase) -> Decoded {
    Decoded { phase, payload: Seq::empty(), replies: Seq::empty(), subnegotiations: Seq::empty() }
}

/// The reply to a Telnet negotiation.
pub fn negotiation_reply(command: u8, option: u8) -> (r: Vec<u8>)
    ensures
        r@ == negotiation_answer(command, option),
{
    let mut r: Vec<u8> = Vec::new();
    if command == WILL {
        r.push(IAC);
        r.push(if option == COM_PORT_OPTION { DO } else { DONT });
        r.push(option);
    } else if command == WONT {
        r.push(IAC);
        r.push(DONT);
        r.push(option);
    } else if command == DO {
        r.push(IAC);
        r.push(if option == COM_PORT_OPTION { WILL } else { WONT });
        r.push(option);
    } else if command == DONT {
        r.push(IAC);
        r.push(WONT);
        r.push(option);
    }
    assert(r@ =~= negotiation_answer(command, option));
    r
}

/// A Telnet stream decoder that keeps its state across reads.
#[derive(Debug)]
pub struct TelnetDecoder {
    pub state: DecoderState,
}

impl Default for TelnetDecoder {
    /// A decoder at the start of a stream.
    fn default() -> (d: TelnetDecoder)
        ensures
            d.state@ == Phase::Data,
    {
        TelnetDecoder::new()
    }
}

impl TelnetDecoder {
    /// A decoder at the start of a stream.
    pub fn new() -> (d: TelnetDecoder)
        ensures
            d.state@ == Phase::Data,
    {
        TelnetDecoder { state: DecoderState::Data }
    }

    /// Decode `bytes`, appending serial payload, negotiation replies and
    /// completed subnegotiations to the given buffers.
    pub fn feed(&mut self, bytes: &[u8], payload: &mut Vec<u8>, replies: &mut Vec<u8>, subnegotiations: &mut Vec<Vec<u8>>)
        ensures
            ({
                let d = decode_bytes(
                    Decoded {
                        phase: old(self).state@,
                        payload: old(payload)@,
                        replies: old(replies)@,
                        subnegotiations: old(subnegotiations)@.map_values(|v: Vec<u8>| v@),
                    },
                    bytes@,
                );
                &&& final(self).state@ == d.phase
                &&& final(payload)@ == d.payload
                &&& final(replies)@ == d.replies
                &&& final(subnegotiations)@.map_values(|v: Vec<u8>| v@) == d.subnegotiations
            }),
    {
        let ghost init = Decoded {
            phase: self.state@,
            payload: payload@,
            replies: replies@,
            subnegotiations: subnegotiations@.map_values(|v: Vec<u8>| v@),
        };
        let mut i: usize = 0;
        while i < bytes.len()
            invariant
                i <= bytes@.len(),
                ({
                    let d = decode_bytes(init, bytes@.subrange(0, i as int));
                    &&& self.state@ == d.phase
                    &&& payload@ == d.payload
                    &&& replies@ == d.replies
                    &&& subnegotiations@.map_values(|v: Vec<u8>| v@) == d.subnegotiations
                }),
            decreases bytes@.len() - i,
        {
            proof {
                assert(bytes@.subrange(0, i + 1).drop_last() =~= bytes@.subrange(0, i as int));
            }
            let byte = bytes[i];
            let mut state = DecoderState::Data;
            std::mem::swap(&mut state, &mut self.state);
            let ghost before_subs = subnegotiations@;
            self.state = match state {
                DecoderState::Data => {
                    if byte == IAC {
                        DecoderState::Iac
                    } else {
                        payload.push(byte);
                        DecoderState::Data
                    }
                },
                DecoderState::Iac => {
                    if byte == IAC {
                        payload.push(IAC);
                        DecoderState::Data
                    } else if byte == WILL || byte == WONT || byte == DO || byte == DONT {
                        DecoderState::Negotiation(byte)
                    } else if byte == SB {
                        DecoderState::Subneg(Vec::new())
                    } else {
                        DecoderState::Data
                    }
                },
                DecoderState::Negotiation(command) => {
                    let mut reply = negotiation_reply(command, byte);
                    replies.append(&mut reply);
                    DecoderState::Data
                },
                DecoderState::Subneg(mut data) => {
                    if byte == IAC {
                        DecoderState::SubnegIac(data)
                    } else {
                        data.push(byte);
                        DecoderState::Subneg(data)
                    }
                },
                DecoderState::SubnegIac(mut data) => {
                    if byte == IAC {
                        data.push(IAC);
                        DecoderState::Subneg(data)
                    } else if byte == SE {
                        subnegotiations.push(data);
                        DecoderState::Data
                    } else {
                        DecoderState::Data
                    }
                },
            };
            proof {
                assert(subnegotiations@.map_values(|v: Vec<u8>| v@) =~= decode_bytes(init, bytes@.subrange(0, i + 1)).subnegotiations) by {
                    if subnegotiations@.len() != before_subs.len() {
                        assert(subnegotiations@ == before_subs.push(subnegotiations@.last()));
                    }
                }
            }
            i = i + 1;
        }
        proof {
            assert(bytes@.subrange(0, i as int) =~= bytes@);
        }
    }
}

/// Telnet's transparency for serial bytes: every IAC is doubled.
pub open spec fn escaped(bytes: Seq<u8>) -> Seq<u8>
    decreases bytes.len(),
{
    if bytes.len() == 0 {
        Seq::empty()
    } else {
        escaped(bytes.drop_last()) + if bytes.last() == IAC {
            seq![IAC, IAC]
        } else {
            seq![bytes.last()]
        }
    }
}

/// Escape raw serial bytes for a Telnet stream.
pub fn escape_iac(bytes: &[u8]) -> (r: Vec<u8>)
    ensures
        r@ == escaped(bytes@),
{
    let mut out: Vec<u8> = Vec::new();
    let mut i: usize = 0;
    while i < bytes.len()
        invariant
            i <= bytes@.len(),
            out@ == escaped(bytes@.subrange(0, i as int)),
        decreases bytes@.len() - i,
    {
        proof {
            assert(bytes@.subrange(0, i + 1).drop_last() =~= bytes@.subrange(0, i as int));
        }
        let ghost before = out@;
        out.push(bytes[i]);
        if bytes[i] == IAC {
            out.push(IAC);
        }
        proof {
            assert(out@ =~= escaped(bytes@.subrange(0, i + 1)));
        }
        i = i + 1;
    }
    proof {
        assert(bytes@.subrange(0, i as int) =~= bytes@);
    }
    out
}

/// An RFC 2217 server reply: the command offset by 100 (held at 255) and
/// the escaped value, framed as a COM-PORT-OPTION subnegotiation.
pub open spec fn reply_frame(command: u8, value: Seq<u8>) -> Seq<u8> {
    seq![IAC, SB, COM_PORT_OPTION, if command as int + 100 > 255 { 255u8 } else { (command + 100) as u8 }]
        + escaped(value) + seq![IAC, SE]
}

/// Frame an RFC 2217 server reply.
pub fn rfc_reply(command: u8, value: &[u8]) -> (r: Vec<u8>)
    ensures
        r@ == reply_frame(command, value@),
{
    let mut body: Vec<u8> = Vec::new();
    body.push(IAC);
    body.push(SB);
    body.push(COM_PORT_OPTION);
    body.push(command.saturating_add(100));
    let mut escaped_value = escape_iac(value);
    body.append(&mut escaped_value);
    body.push(IAC);
    body.push(SE);
    assert(body@ =~= reply_frame(command, value@));
    body
}

/// The reply to a refused command: its own value echoed back.
pub fn rfc_error_reply(command: u8, value: &[u8]) -> (r: Vec<u8>)
    ensures
        r@ == reply_frame(command, value@),
{
    rfc_reply(command, value)
}

proof fn lemma_escaped_in_subnegotiation(d: Decoded, body: Seq<u8>, x: Seq<u8>)
    requires
        d.phase == Phase::Subneg(body),
    ensures
        decode_bytes(d, escaped(x)) == (Decoded { phase: Phase::Subneg(body + x), ..d }),
    decreases x.len(),
{
    if x.len() == 0 {
        assert(body + x =~= body);
        assert(escaped(x) =~= Seq::<u8>::empty());
    } else {
        let xs = x.drop_last();
        lemma_escaped_in_subnegotiation(d, body, xs);
        let tail = if x.last() == IAC { seq![IAC, IAC] } else { seq![x.last()] };
        law_decoding_ignores_read_boundaries(d, escaped(xs), tail);
        let m = decode_bytes(d, escaped(xs));
        assert(escaped(x) == escaped(xs) + tail);
        let empty = Seq::<u8>::empty();
        assert(decode_bytes(m, empty) == m);
        assert(body + xs + seq![x.last()] =~= body + x);
        if x.last() == IAC {
            let one = seq![IAC];
            assert(one.drop_last() =~= empty);
            assert(decode_bytes(m, one) == decode_byte(m, IAC));
            assert(tail.drop_last() =~= one);
            assert(decode_bytes(m, tail) == decode_byte(decode_bytes(m, one), IAC));
            assert((body + xs).push(IAC) =~= body + x);
        } else {
            assert(tail.drop_last() =~= empty);
            assert(decode_bytes(m, tail) == decode_byte(m, x.last()));
            assert((body + xs).push(x.last()) =~= body + x);
        }
    }
}

proof fn lemma_decode_two(d: Decoded, a: u8, b: u8)
    ensures
        decode_bytes(d, seq![a, b]) == decode_byte(decode_byte(d, a), b),
{
    let s = seq![a, b];
    assert(s.drop_last() =~= seq![a]);
    assert(seq![a].drop_last() =~= Seq::<u8>::empty());
    assert(decode_bytes(d, Seq::<u8>::empty()) == d);
    assert(decode_bytes(d, seq![a]) == decode_byte(d, a));
}

/// What a Telnet client decodes from a server reply is exactly what the
/// server meant to send: for a command below 155, the reply arrives as one
/// COM-PORT-OPTION subnegotiation whose body is 44, the command plus 100,
/// and the value byte for byte (IAC doubling undone), with no payload and
/// no negotiation reply.
pub proof fn law_replies_decode_to_their_command_and_value(d: Decoded, command: u8, value: Seq<u8>)
    requires
        d.phase is Data,
        command < 155,
    ensures
        decode_bytes(d, reply_frame(command, value)) == (Decoded {
            phase: Phase::Data,
            subnegotiations: d.subnegotiations.push(seq![44u8, (command + 100) as u8] + value),
            ..d
        }),
{
    let c = (command + 100) as u8;
    let head = seq![IAC, SB];
    let opt = seq![COM_PORT_OPTION, c];
    let tail = seq![IAC, SE];
    assert(reply_frame(command, value) =~= head + opt + escaped(value) + tail);
    law_decoding_ignores_read_boundaries(d, head + opt + escaped(value), tail);
    law_decoding_ignores_read_boundaries(d, head + opt, escaped(value));
    law_decoding_ignores_read_boundaries(d, head, opt);
    lemma_decode_two(d, IAC, SB);
    let d1 = decode_bytes(d, head);
    assert(d1 == (Decoded { phase: Phase::Subneg(Seq::empty()), ..d }));
    lemma_decode_two(d1, COM_PORT_OPTION, c);
    let d2 = decode_bytes(d1, opt);
    assert(Seq::<u8>::empty().push(COM_PORT_OPTION).push(c) =~= seq![44u8, c]);
    assert(d2 == (Decoded { phase: Phase::Subneg(seq![44u8, c]), ..d }));
    lemma_escaped_in_subnegotiation(d2, seq![44u8, c], value);
    let d3 = decode_bytes(d2, escaped(value));
    lemma_decode_two(d3, IAC, SE);
}

/// SET-PARITY values select line parities the configuration accepts: 1 is
/// odd, 2 is even, 3 and 4 (mark, space) are refused, and any other value
/// means none. SET-CONTROL values 1 to 4 set a line: 1 and 2 DTR, 3 and 4
/// RTS, an odd value raising it and an even one lowering it; other values
/// set no line.
pub proof fn law_line_setting_values(v: u8)
    ensures
        parity_named(v) matches Some(p) ==> (p == "none"@ || p == "odd"@ || p == "even"@),
        parity_named(v) is None <==> (v == 3 || v == 4),
        v == 1 ==> parity_named(v) == Some("odd"@),
        v == 2 ==> parity_named(v) == Some("even"@),
        !(1 <= v <= 4) ==> parity_named(v) == Some("none"@),
        control_named_by(v) is Some <==> 1 <= v <= 4,
        (v == 1 || v == 2) ==> control_named_by(v) == Some(ControlCommand::Dtr(v == 1)),
        (v == 3 || v == 4) ==> control_named_by(v) == Some(ControlCommand::Rts(v == 3)),
{
}

/// Option negotiation accepts COM-PORT-OPTION (44) and nothing else. In
/// wire bytes (IAC 255, WILL 251, WONT 252, DO 253, DONT 254): a DO 44 is
/// answered IAC WILL 44 and a WILL 44 is answered IAC DO 44; for any other
/// option a DO is answered IAC WONT and a WILL is answered IAC DONT; a WONT
/// or DONT is always acknowledged with DONT or WONT; any other command gets
/// no reply. Every reply names the option it answers.
pub proof fn law_only_com_port_option_is_accepted(command: u8, option: u8)
    ensures
        command == 253 ==> negotiation_answer(command, option) == seq![255u8, if option == 44 { 251u8 } else { 252u8 }, option],
        command == 251 ==> negotiation_answer(command, option) == seq![255u8, if option == 44 { 253u8 } else { 254u8 }, option],
        command == 252 ==> negotiation_answer(command, option) == seq![255u8, 254u8, option],
        command == 254 ==> negotiation_answer(command, option) == seq![255u8, 252u8, option],
        command < 251 ==> negotiation_answer(command, option).len() == 0,
        // the server agrees to an option in one direction exactly when it agrees in the other
        (negotiation_answer(253, option)[1] == 251u8) == (negotiation_answer(251, option)[1] == 253u8),
        (negotiation_answer(253, option)[1] == 251u8) == (option == 44),
{
}

/// A client's IAC DO / IAC WILL arriving in the data stream is answered by
/// the decoder with the negotiation reply, after what was already queued:
/// IAC WILL 44 (or IAC DO 44) for COM-PORT-OPTION, a refusal for any other
/// option; no payload byte is produced.
pub proof fn law_decoder_answers_negotiation(d: Decoded, command: u8, option: u8)
    requires
        d.phase is Data,
        command == 253 || command == 251,
    ensures
        decode_bytes(d, seq![255u8, command, option]).replies == d.replies + seq![
            255u8,
            if option == 44 {
                if command == 253 { 251u8 } else { 253u8 }
            } else {
                if command == 253 { 252u8 } else { 254u8 }
            },
            option,
        ],
        decode_bytes(d, seq![255u8, command, option]).payload == d.payload,
        decode_bytes(d, seq![255u8, command, option]).phase is Data,
{
    let b = seq![255u8, command, option];
    assert(b.drop_last().drop_last().drop_last() =~= Seq::<u8>::empty());
    assert(b.drop_last().drop_last() =~= seq![255u8]);
    assert(b.drop_last() =~= seq![255u8, command]);
    assert(seq![255u8].drop_last() =~= Seq::<u8>::empty());
    assert(seq![255u8, command].drop_last() =~= seq![255u8]);
    assert(decode_bytes(d, Seq::<u8>::empty()) == d);
    assert(seq![255u8].last() == 255u8);
    assert(seq![255u8, command].last() == command);
    assert(b.last() == option);
    let d1 = decode_bytes(d, seq![255u8]);
    assert(d1 == decode_byte(d, 255u8));
    let d2 = decode_bytes(d, seq![255u8, command]);
    assert(d2 == decode_byte(d1, command));
    assert(decode_bytes(d, b) == decode_byte(d2, option));
}

/// Decoding is independent of how the stream is split into reads: feeding
/// `a` and then `b` leaves the same state and output as feeding `a + b`.
pub proof fn law_decoding_ignores_read_boundaries(d: Decoded, a: Seq<u8>, b: Seq<u8>)
    ensures
        decode_bytes(d, a + b) == decode_bytes(decode_bytes(d, a), b),
    decreases b.len(),
{
    if b.len() == 0 {
        assert(a + b =~= a);
    } else {
        law_decoding_ignores_read_boundaries(d, a, b.drop_last());
        assert((a + b).drop_last() =~= a + b.drop_last());
        assert((a + b).last() == b.last());
    }
}

/// Escaped serial bytes pass through the decoder unchanged: decoding them
/// from the data phase appends exactly those bytes to the payload, with no
/// replies and no subnegotiations.
pub proof fn law_escaped_bytes_decode_to_themselves(d: Decoded, x: Seq<u8>)
    requires
        d.phase is Data,
    ensures
        decode_bytes(d, escaped(x)).phase is Data,
        decode_bytes(d, escaped(x)).payload == d.payload + x,
        decode_bytes(d, escaped(x)).replies == d.replies,
        decode_bytes(d, escaped(x)).subnegotiations == d.subnegotiations,
    decreases x.len(),
{
    if x.len() == 0 {
        assert(d.payload + x =~= d.payload);
    } else {
        let xs = x.drop_last();
        law_escaped_bytes_decode_to_themselves(d, xs);
        let tail = if x.last() == IAC { seq![IAC, IAC] } else { seq![x.last()] };
        law_decoding_ignores_read_boundaries(d, escaped(xs), tail);
        let m = decode_bytes(d, escaped(xs));
        assert(escaped(x) == escaped(xs) + tail);
        let empty = Seq::<u8>::empty();
        assert(decode_bytes(m, empty) == m);
        if x.last() == IAC {
            let one = seq![IAC];
            assert(one.drop_last() =~= empty);
            assert(decode_bytes(m, one) == decode_byte(m, IAC));
            assert(tail.drop_last() =~= one);
            assert(decode_bytes(m, tail) == decode_byte(decode_bytes(m, one), IAC));
        } else {
            assert(tail.drop_last() =~= empty);
            assert(decode_bytes(m, tail) == decode_byte(m, x.last()));
        }
        assert(m.payload + seq![x.last()] =~= d.payload + x);
        assert(m.payload.push(x.last()) =~= d.payload + x);
    }
}

/// What answering one COM-PORT-OPTION subnegotiation takes.
#[derive(Debug)]
pub enum SubnegPlan {
    /// Send this reply; nothing else happens.
    Reply(Vec<u8>),
    /// Apply these line settings under a fresh lease, then answer with
    /// [`finish_subnegotiation`]; on success they become the connection's.
    Configure { command: u8, settings: SerialSettings, value: Vec<u8> },
    /// Set a control line under a fresh lease, then answer with [`finish_subnegotiation`].
    Control { command: u8, control: ControlCommand, value: Vec<u8> },
}

/// The answer to a command once its outcome is known: the value is echoed
/// on success and dropped on failure.
pub fn finish_subnegotiation(command: u8, value: &[u8], result: &Result<(), String>) -> (r: Vec<u8>)
    ensures
        r@ == reply_frame(command, if result is Ok { value@ } else { Seq::empty() }),
{
    match result {
        Ok(()) => rfc_reply(command, value),
        Err(_) => rfc_reply(command, &[]),
    }
}

/// The big-endian value of four bytes.
pub open spec fn be_u32(v: Seq<u8>) -> u32 {
    (v[0] as int * 0x1000000 + v[1] as int * 0x10000 + v[2] as int * 0x100 + v[3] as int) as u32
}

/// The parity a SET-PARITY value selects, or `None` for mark/space, which are refused.
pub open spec fn parity_named(v: u8) -> Option<Seq<char>> {
    if v == 1 {
        Some("odd"@)
    } else if v == 2 {
        Some("even"@)
    } else if v == 3 || v == 4 {
        None
    } else {
        Some("none"@)
    }
}

/// The control line a SET-CONTROL value sets; 5 and 6 (flow control) set none.
pub open spec fn control_named_by(v: u8) -> Option<ControlCommand> {
    if v == 1 {
        Some(ControlCommand::Dtr(true))
    } else if v == 2 {
        Some(ControlCommand::Dtr(false))
    } else if v == 3 {
        Some(ControlCommand::Rts(true))
    } else if v == 4 {
        Some(ControlCommand::Rts(false))
    } else {
        None
    }
}

/// `next` is `cur` with only the given fields possibly changed.
pub open spec fn settings_changed(cur: SerialSettings, next: SerialSettings, baud: u32, databits: u8, parity: Seq<char>, stopbits: u8) -> bool {
    next.baud == baud && next.databits == databits && next.parity@ == parity && next.stopbits == stopbits
        && next.flow@ == cur.flow@
}

fn copy_settings(s: &SerialSettings) -> (r: SerialSettings)
    ensures
        r == *s,
{
    SerialSettings {
        baud: s.baud,
        databits: s.databits,
        parity: s.parity.clone(),
        stopbits: s.stopbits,
        flow: s.flow.clone(),
    }
}

/// Decide how to answer one subnegotiation body under the connection's
/// current line settings. Signature requests and harmless commands are
/// answered at once; settings and control lines need the serial owner and,
/// for that, the control capability; anything else is refused.
pub fn plan_subnegotiation(frame: &[u8], settings: &SerialSettings, can_control: bool) -> (plan: SubnegPlan)
    requires
        frame@.len() <= usize::MAX,
    ensures
        (frame@.len() < 2 || frame@[0] != COM_PORT_OPTION) ==> (plan matches SubnegPlan::Reply(r) && r@.len() == 0),
        frame@.len() >= 2 && frame@[0] == COM_PORT_OPTION ==> ({
            let command = frame@[1];
            let value = frame@.subrange(2, frame@.len() as int);
            let refused = reply_frame(command, Seq::empty());
            let echoed = reply_frame(command, value);
            if command == SIGNATURE {
                plan matches SubnegPlan::Reply(r) && r@ == reply_frame(command, vstd::utf8::encode_utf8("ohmyserial-rfc2217"@))
            } else if command == SET_BAUDRATE && value.len() == 4 {
                if can_control {
                    plan matches SubnegPlan::Configure { command: c, settings: n, value: v } && c == command && v@ == value
                        && settings_changed(*settings, n, be_u32(value), settings.databits, settings.parity@, settings.stopbits)
                } else {
                    plan matches SubnegPlan::Reply(r) && r@ == refused
                }
            } else if command == SET_DATASIZE && value.len() == 1 {
                if can_control {
                    plan matches SubnegPlan::Configure { command: c, settings: n, value: v } && c == command && v@ == value
                        && settings_changed(*settings, n, settings.baud, value[0], settings.parity@, settings.stopbits)
                } else {
                    plan matches SubnegPlan::Reply(r) && r@ == refused
                }
            } else if command == SET_PARITY && value.len() == 1 {
                match parity_named(value[0]) {
                    None => plan matches SubnegPlan::Reply(r) && r@ == echoed,
                    Some(p) => if can_control {
                        plan matches SubnegPlan::Configure { command: c, settings: n, value: v } && c == command && v@ == value
                            && settings_changed(*settings, n, settings.baud, settings.databits, p, settings.stopbits)
                    } else {
                        plan matches SubnegPlan::Reply(r) && r@ == refused
                    },
                }
            } else if command == SET_STOPSIZE && value.len() == 1 {
                if !(value[0] == 1 || value[0] == 2) {
                    plan matches SubnegPlan::Reply(r) && r@ == echoed
                } else if can_control {
                    plan matches SubnegPlan::Configure { command: c, settings: n, value: v } && c == command && v@ == value
                        && settings_changed(*settings, n, settings.baud, settings.databits, settings.parity@, value[0])
                } else {
                    plan matches SubnegPlan::Reply(r) && r@ == refused
                }
            } else if command == SET_CONTROL && value.len() == 1 {
                if !(1 <= value[0] <= 6) {
                    plan matches SubnegPlan::Reply(r) && r@ == echoed
                } else if value[0] == 5 || value[0] == 6 {
                    plan matches SubnegPlan::Reply(r) && r@ == echoed
                } else if can_control {
                    plan matches SubnegPlan::Control { command: c, control: k, value: v } && c == command && v@ == value
                        && Some(k) == control_named_by(value[0])
                } else {
                    plan matches SubnegPlan::Reply(r) && r@ == refused
                }
            } else if command == FLOWCONTROL_SUSPEND || command == FLOWCONTROL_RESUME || command == SET_LINESTATE_MASK
                || command == SET_MODEMSTATE_MASK || command == PURGE_DATA {
                plan matches SubnegPlan::Reply(r) && r@ == echoed
            } else {
                plan matches SubnegPlan::Reply(r) && r@ == refused
            }
        }),
{
    if frame.len() < 2 || frame[0] != COM_PORT_OPTION {
        return SubnegPlan::Reply(Vec::new());
    }
    let command = frame[1];
    let mut value: Vec<u8> = Vec::new();
    let mut i: usize = 2;
    while i < frame.len()
        invariant
            2 <= i <= frame@.len(),
            value@ == frame@.subrange(2, i as int),
        decreases frame@.len() - i,
    {
        value.push(frame[i]);
        i = i + 1;
    }
    let refused = rfc_reply(command, &[]);
    if command == SIGNATURE {
        let sig = "ohmyserial-rfc2217";
        return SubnegPlan::Reply(rfc_reply(command, sig.as_bytes()));
    }
    if command == SET_BAUDRATE && value.len() == 4 {
        if !can_control {
            return SubnegPlan::Reply(refused);
        }
        let baud: u32 = (value[0] as u32) * 0x1000000 + (value[1] as u32) * 0x10000 + (value[2] as u32) * 0x100
            + value[3] as u32;
        let mut next = copy_settings(settings);
        next.baud = baud;
        return SubnegPlan::Configure { command, settings: next, value };
    }
    if command == SET_DATASIZE && value.len() == 1 {
        if !can_control {
            return SubnegPlan::Reply(refused);
        }
        let mut next = copy_settings(settings);
        next.databits = value[0];
        return SubnegPlan::Configure { command, settings: next, value };
    }
    if command == SET_PARITY && value.len() == 1 {
        let parity = if value[0] == 1 {
            "odd"
        } else if value[0] == 2 {
            "even"
        } else if value[0] == 3 || value[0] == 4 {
            return SubnegPlan::Reply(rfc_error_reply(command, value.as_slice()));
        } else {
            "none"
        };
        if !can_control {
            return SubnegPlan::Reply(refused);
        }
        let mut next = copy_settings(settings);
        next.parity = owned(parity);
        return SubnegPlan::Configure { command, settings: next, value };
    }
    if command == SET_STOPSIZE && value.len() == 1 {
        if value[0] != 1 && value[0] != 2 {
            return SubnegPlan::Reply(rfc_error_reply(command, value.as_slice()));
        }
        if !can_control {
            return SubnegPlan::Reply(refused);
        }
        let mut next = copy_settings(settings);
        next.stopbits = value[0];
        return SubnegPlan::Configure { command, settings: next, value };
    }
    if command == SET_CONTROL && value.len() == 1 {
        let control = if value[0] == 1 {
            ControlCommand::Dtr(true)
        } else if value[0] == 2 {
            ControlCommand::Dtr(false)
        } else if value[0] == 3 {
            ControlCommand::Rts(true)
        } else if value[0] == 4 {
            ControlCommand::Rts(false)
        } else if value[0] == 5 || value[0] == 6 {
            return SubnegPlan::Reply(rfc_reply(command, value.as_slice()));
        } else {
            return SubnegPlan::Reply(rfc_error_reply(command, value.as_slice()));
        };
        if !can_control {
            return SubnegPlan::Reply(refused);
        }
        return SubnegPlan::Control { command, control, value };
    }
    if command == FLOWCONTROL_SUSPEND || command == FLOWCONTROL_RESUME || command == SET_LINESTATE_MASK
        || command == SET_MODEMSTATE_MASK || command == PURGE_DATA {
        return SubnegPlan::Reply(rfc_reply(command, value.as_slice()));
    }
    SubnegPlan::Reply(refused)
}

} // verus!

//! TX admission and framing policy.
//!
//! Times are monotonic milliseconds supplied by the caller, so every admission
//! decision is a pure function of its inputs.

use vstd::prelude::*;

use crate::config::TxConfig;
use crate::text::{concat_strs, decimal, decimal_string, owned, str_eq};

verus! {

#[derive(Debug, Clone, Copy, PartialEq, Eq, Structural)]
pub enum TxMode {
    QueueByLine,
    QueueByFrame,
    Exclusive,
    PrimaryWins,
}

#[derive(Debug, Clone, Copy, PartialEq, Eq, Structural)]
pub enum SlowClientPolicy {
    DropOldest,
    DropNewest,
    DisconnectSlow,
    Block,
}

/// The mode named by `s`, if it names one.
pub open spec fn tx_mode_named(s: Seq<char>) -> Option<TxMode> {
    if s == "queue_by_line"@ {
        Some(TxMode::QueueByLine)
    } else if s == "queue_by_frame"@ {
        Some(TxMode::QueueByFrame)
    } else if s == "exclusive"@ {
        Some(TxMode::Exclusive)
    } else if s == "primary_wins"@ {
        Some(TxMode::PrimaryWins)
    } else {
        None
    }
}

/// The slow-client policy named by `s`, if it names one.
pub open spec fn slow_client_named(s: Seq<char>) -> Option<SlowClientPolicy> {
    if s == "drop_oldest"@ {
        Some(SlowClientPolicy::DropOldest)
    } else if s == "drop_newest"@ {
        Some(SlowClientPolicy::DropNewest)
    } else if s == "disconnect_slow"@ {
        Some(SlowClientPolicy::DisconnectSlow)
    } else if s == "block"@ {
        Some(SlowClientPolicy::Block)
    } else {
        None
    }
}

/// The configuration name of a mode.
pub open spec fn tx_mode_name(m: TxMode) -> Seq<char> {
    match m {
        TxMode::QueueByLine => "queue_by_line"@,
        TxMode::QueueByFrame => "queue_by_frame"@,
        TxMode::Exclusive => "exclusive"@,
        TxMode::PrimaryWins => "primary_wins"@,
    }
}

/// Mode names round-trip: each mode's configuration name parses back to
/// that mode, a name that parses is the name of the mode it gives, and the
/// four names are `queue_by_line`, `queue_by_frame`, `exclusive` and
/// `primary_wins`.
pub proof fn law_tx_mode_names_round_trip(s: Seq<char>, m: TxMode)
    ensures
        tx_mode_named(tx_mode_name(m)) == Some(m),
        tx_mode_named(s) matches Some(k) ==> tx_mode_name(k) == s,
        tx_mode_named(s) is Some <==> (s == "queue_by_line"@ || s == "queue_by_frame"@ || s == "exclusive"@
            || s == "primary_wins"@),
        tx_mode_named("queue_by_frame"@) == Some(TxMode::QueueByFrame),
{
    reveal_strlit("queue_by_line");
    reveal_strlit("queue_by_frame");
    reveal_strlit("exclusive");
    reveal_strlit("primary_wins");
    assert("queue_by_line"@ != "queue_by_frame"@) by {
        if "queue_by_line"@ == "queue_by_frame"@ {
            assert("queue_by_line"@.len() == "queue_by_frame"@.len());
        }
    }
    assert("queue_by_line"@ != "exclusive"@) by {
        if "queue_by_line"@ == "exclusive"@ {
            assert("queue_by_line"@.len() == "exclusive"@.len());
        }
    }
    assert("queue_by_line"@ != "primary_wins"@) by {
        if "queue_by_line"@ == "primary_wins"@ {
            assert("queue_by_line"@[0] == "primary_wins"@[0]);
        }
    }
    assert("queue_by_frame"@ != "exclusive"@) by {
        if "queue_by_frame"@ == "exclusive"@ {
            assert("queue_by_frame"@.len() == "exclusive"@.len());
        }
    }
    assert("queue_by_frame"@ != "primary_wins"@) by {
        if "queue_by_frame"@ == "primary_wins"@ {
            assert("queue_by_frame"@.len() == "primary_wins"@.len());
        }
    }
    assert("exclusive"@ != "primary_wins"@) by {
        if "exclusive"@ == "primary_wins"@ {
            assert("exclusive"@.len() == "primary_wins"@.len());
        }
    }
}

/// The slow-client policy names: `drop_oldest`, `drop_newest`,
/// `disconnect_slow` and `block` name the policy of the same name, and no
/// other text names one.
pub proof fn law_slow_client_names(s: Seq<char>)
    ensures
        slow_client_named(s) is Some <==> (s == "drop_oldest"@ || s == "drop_newest"@ || s == "disconnect_slow"@
            || s == "block"@),
        s == "drop_oldest"@ ==> slow_client_named(s) == Some(SlowClientPolicy::DropOldest),
        s == "drop_newest"@ ==> slow_client_named(s) == Some(SlowClientPolicy::DropNewest),
        s == "disconnect_slow"@ ==> slow_client_named(s) == Some(SlowClientPolicy::DisconnectSlow),
        s == "block"@ ==> slow_client_named(s) == Some(SlowClientPolicy::Block),
{
    reveal_strlit("drop_oldest");
    reveal_strlit("drop_newest");
    reveal_strlit("disconnect_slow");
    reveal_strlit("block");
    assert("drop_oldest"@ != "drop_newest"@) by {
        if "drop_oldest"@ == "drop_newest"@ {
            assert("drop_oldest"@[5] == "drop_newest"@[5]);
        }
    }
    assert("drop_oldest"@ != "disconnect_slow"@ && "drop_newest"@ != "disconnect_slow"@) by {
        if "drop_oldest"@ == "disconnect_slow"@ {
            assert("drop_oldest"@.len() == "disconnect_slow"@.len());
        }
        if "drop_newest"@ == "disconnect_slow"@ {
            assert("drop_newest"@.len() == "disconnect_slow"@.len());
        }
    }
    assert("drop_oldest"@ != "block"@ && "drop_newest"@ != "block"@ && "disconnect_slow"@ != "block"@) by {
        if "drop_oldest"@ == "block"@ {
            assert("drop_oldest"@.len() == "block"@.len());
        }
        if "drop_newest"@ == "block"@ {
            assert("drop_newest"@.len() == "block"@.len());
        }
        if "disconnect_slow"@ == "block"@ {
            assert("disconnect_slow"@.len() == "block"@.len());
        }
    }
}

impl TxMode {
    /// Parse a configured mode name; unknown names are an error naming them.
    pub fn parse(s: &str) -> (r: Result<TxMode, String>)
        ensures
            match tx_mode_named(s@) {
                Some(m) => r == Ok::<TxMode, String>(m),
                None => r matches Err(e) && e@ == "unknown tx mode: "@ + s@,
            },
    {
        if str_eq(s, "queue_by_line") {
            Ok(TxMode::QueueByLine)
        } else if str_eq(s, "queue_by_frame") {
            Ok(TxMode::QueueByFrame)
        } else if str_eq(s, "exclusive") {
            Ok(TxMode::Exclusive)
        } else if str_eq(s, "primary_wins") {
            Ok(TxMode::PrimaryWins)
        } else {
            Err(concat_strs("unknown tx mode: ", s))
        }
    }

    /// The configuration name of this mode.
    pub fn name(&self) -> (s: &'static str)
        ensures
            s@ == tx_mode_name(*self),
    {
        match self {
            TxMode::QueueByLine => "queue_by_line",
            TxMode::QueueByFrame => "queue_by_frame",
            TxMode::Exclusive => "exclusive",
            TxMode::PrimaryWins => "primary_wins",
        }
    }
}

impl SlowClientPolicy {
    /// Parse a configured slow-client policy; unknown names are an error naming them.
    pub fn parse(s: &str) -> (r: Result<SlowClientPolicy, String>)
        ensures
            match slow_client_named(s@) {
                Some(p) => r == Ok::<SlowClientPolicy, String>(p),
                None => r matches Err(e) && e@ == "unknown slow_client policy: "@ + s@,
            },
    {
        if str_eq(s, "drop_oldest") {
            Ok(SlowClientPolicy::DropOldest)
        } else if str_eq(s, "drop_newest") {
            Ok(SlowClientPolicy::DropNewest)
        } else if str_eq(s, "disconnect_slow") {
            Ok(SlowClientPolicy::DisconnectSlow)
        } else if str_eq(s, "block") {
            Ok(SlowClientPolicy::Block)
        } else {
            Err(concat_strs("unknown slow_client policy: ", s))
        }
    }
}

#[derive(Debug, Clone)]
pub struct Policy {
    pub mode: TxMode,
    pub primary: Option<String>,
    pub write_lock_ms: u64,
    pub write_timeout_ms: u64,
    pub max_frame_bytes: usize,
    pub max_write_bytes: usize,
    pub frame_delim: u8,
    pub slow_client: SlowClientPolicy,
    pub client_queue: usize,
    pub slow_block_ms: u64,
}

/// A copy of an optional string.
pub fn clone_opt_string(s: &Option<String>) -> (r: Option<String>)
    ensures
        r == *s,
{
    match s {
        Some(v) => Some(v.clone()),
        None => None,
    }
}

impl Policy {
    /// Build the runtime policy from its configuration; the first unknown
    /// name (mode before slow-client policy) is the error.
    pub fn from_config(cfg: &TxConfig) -> (r: Result<Policy, String>)
        ensures
            match (tx_mode_named(cfg.mode@), slow_client_named(cfg.slow_client@)) {
                (Some(mode), Some(slow)) => r matches Ok(p) && p.mode == mode && p.slow_client
                    == slow && p.primary == cfg.primary && p.write_lock_ms == cfg.write_lock_ms
                    && p.write_timeout_ms == cfg.write_timeout_ms && p.max_frame_bytes
                    == cfg.max_frame_bytes && p.max_write_bytes == cfg.max_write_bytes
                    && p.frame_delim == cfg.frame_delim && p.client_queue == (if cfg.client_queue
                    == 0 {
                    1
                } else {
                    cfg.client_queue
                }) && p.slow_block_ms == cfg.slow_block_ms,
                (None, _) => r matches Err(e) && e@ == "unknown tx mode: "@ + cfg.mode@,
                (Some(_), None) => r matches Err(e) && e@ == "unknown slow_client policy: "@
                    + cfg.slow_client@,
            },
    {
        let mode = match TxMode::parse(cfg.mode.as_str()) {
            Ok(m) => m,
            Err(e) => return Err(e),
        };
        let slow_client = match SlowClientPolicy::parse(cfg.slow_client.as_str()) {
            Ok(p) => p,
            Err(e) => return Err(e),
        };
        Ok(Policy {
            mode,
            primary: clone_opt_string(&cfg.primary),
            write_lock_ms: cfg.write_lock_ms,
            write_timeout_ms: cfg.write_timeout_ms,
            max_frame_bytes: cfg.max_frame_bytes,
            max_write_bytes: cfg.max_write_bytes,
            frame_delim: cfg.frame_delim,
            slow_client,
            client_queue: if cfg.client_queue == 0 {
                1
            } else {
                cfg.client_queue
            },
            slow_block_ms: cfg.slow_block_ms,
        })
    }

    /// Lease time-to-live in milliseconds; never zero.
    pub fn lock_ttl(&self) -> (ms: u64)
        ensures
            ms == if self.write_lock_ms == 0 {
                1
            } else {
                self.write_lock_ms
            },
    {
        if self.write_lock_ms == 0 {
            1
        } else {
            self.write_lock_ms
        }
    }
}

/// State of a frame assembler after consuming some bytes.
pub struct AssemblyState {
    /// The partial frame still being assembled.
    pub buf: Seq<u8>,
    /// Complete frames, each ending with the delimiter, in arrival order.
    pub frames: Seq<Seq<u8>>,
    /// The partial frame outgrew the limit; it and the rest of the input were discarded.
    pub overflowed: bool,
}

/// One byte through the assembler.
pub open spec fn assemble_step(s: AssemblyState, byte: u8, delim: u8, max: nat) -> AssemblyState {
    if s.overflowed {
        s
    } else if s.buf.len() >= max {
        AssemblyState { buf: Seq::empty(), frames: s.frames, overflowed: true }
    } else if byte == delim {
        AssemblyState { buf: Seq::empty(), frames: s.frames.push(s.buf.push(byte)), overflowed: false }
    } else {
        AssemblyState { buf: s.buf.push(byte), frames: s.frames, overflowed: false }
    }
}

/// Feeding `data` to an assembler holding the partial frame `buf`.
pub open spec fn assemble(buf: Seq<u8>, data: Seq<u8>, delim: u8, max: nat) -> AssemblyState
    decreases data.len(),
{
    if data.len() == 0 {
        AssemblyState { buf, frames: Seq::empty(), overflowed: false }
    } else {
        assemble_step(assemble(buf, data.drop_last(), delim, max), data.last(), delim, max)
    }
}

/// The bytes of `frames`, in order.
pub open spec fn concat_frames(frames: Seq<Seq<u8>>) -> Seq<u8>
    decreases frames.len(),
{
    if frames.len() == 0 {
        Seq::empty()
    } else {
        concat_frames(frames.drop_last()) + frames.last()
    }
}

/// `s` does not contain `b`.
pub open spec fn lacks(s: Seq<u8>, b: u8) -> bool {
    forall|i: int| 0 <= i < s.len() ==> s[i] != b
}

/// `f` is one frame: it ends with `delim`, holds no earlier `delim`, and fits in `max` bytes.
pub open spec fn is_frame(f: Seq<u8>, delim: u8, max: nat) -> bool {
    &&& f.len() >= 1
    &&& f.len() <= max
    &&& f.last() == delim
    &&& lacks(f.drop_last(), delim)
}

/// The message of an oversized frame.
pub open spec fn frame_overflow_message(max: nat) -> Seq<char> {
    "frame exceeds tx.max_frame_bytes ("@ + decimal(max)
        + "); partial frame was discarded"@
}

/// Partial-line / partial-frame assembler for a single client writer.
#[derive(Debug, Default)]
pub struct FrameAssembler {
    buf: Vec<u8>,
}

impl View for FrameAssembler {
    type V = Seq<u8>;

    closed spec fn view(&self) -> Seq<u8> {
        self.buf@
    }
}

/// Assembling never loses or invents a byte: the frames and the new partial
/// frame are exactly the old partial frame followed by the input. Every frame
/// ends at the first delimiter, fits the limit, and the partial frame holds no
/// delimiter.
pub proof fn law_assembling_is_lossless(buf: Seq<u8>, data: Seq<u8>, delim: u8, max: nat)
    requires
        lacks(buf, delim),
        buf.len() <= max,
    ensures
        !assemble(buf, data, delim, max).overflowed ==> concat_frames(
            assemble(buf, data, delim, max).frames,
        ) + assemble(buf, data, delim, max).buf == buf + data,
        lacks(assemble(buf, data, delim, max).buf, delim),
        assemble(buf, data, delim, max).buf.len() <= max,
        forall|i: int|
            0 <= i < assemble(buf, data, delim, max).frames.len() ==> is_frame(
                #[trigger] assemble(buf, data, delim, max).frames[i],
                delim,
                max,
            ),
        assemble(buf, data, delim, max).overflowed ==> assemble(buf, data, delim, max).buf.len()
            == 0,
    decreases data.len(),
{
    if data.len() > 0 {
        let prev = assemble(buf, data.drop_last(), delim, max);
        law_assembling_is_lossless(buf, data.drop_last(), delim, max);
        let byte = data.last();
        let next = assemble(buf, data, delim, max);
        assert(next == assemble_step(prev, byte, delim, max));
        assert(data.drop_last().push(byte) =~= data);
        if !prev.overflowed && prev.buf.len() < max {
            if byte == delim {
                let f = prev.buf.push(byte);
                assert(f.drop_last() =~= prev.buf);
                assert(concat_frames(next.frames) == concat_frames(prev.frames) + f) by {
                    assert(next.frames.drop_last() =~= prev.frames);
                }
                assert(concat_frames(next.frames) + next.buf =~= buf + data) by {
                    assert((buf + data.drop_last()).push(byte) =~= buf + data);
                }
                assert forall|i: int| 0 <= i < next.frames.len() implies is_frame(
                    #[trigger] next.frames[i],
                    delim,
                    max,
                ) by {
                    if i < prev.frames.len() {
                        assert(next.frames[i] == prev.frames[i]);
                    } else {
                        assert(next.frames[i] == f);
                    }
                }
            } else {
                assert(concat_frames(next.frames) + next.buf =~= buf + data) by {
                    assert((buf + data.drop_last()).push(byte) =~= buf + data);
                    assert((concat_frames(prev.frames) + prev.buf).push(byte) =~= concat_frames(
                        prev.frames,
                    ) + prev.buf.push(byte));
                }
            }
        }
    }
}

impl FrameAssembler {
    pub fn new() -> (a: FrameAssembler)
        ensures
            a@ == Seq::<u8>::empty(),
    {
        FrameAssembler { buf: Vec::new() }
    }

    /// Feed `data`; return every frame completed by it. A partial frame that
    /// reaches `max_frame_bytes` without a delimiter is discarded together with
    /// the rest of `data`, and the call fails.
    pub fn push(&mut self, data: &[u8], delim: u8, max_frame_bytes: usize) -> (r: Result<
        Vec<Vec<u8>>,
        String,
    >)
        ensures
            ({
                let s = assemble(old(self)@, data@, delim, max_frame_bytes as nat);
                &&& final(self)@ == s.buf
                &&& s.overflowed ==> (r matches Err(e) && e@ == frame_overflow_message(
                    max_frame_bytes as nat,
                ))
                &&& !s.overflowed ==> (r matches Ok(frames) && frames@.len() == s.frames.len()
                    && forall|i: int| 0 <= i < s.frames.len() ==> #[trigger] frames@[i]@ == s.frames[i])
            }),
    {
        let mut out: Vec<Vec<u8>> = Vec::new();
        let mut i: usize = 0;
        while i < data.len()
            invariant
                i <= data@.len(),
                ({
                    let s = assemble(old(self)@, data@.subrange(0, i as int), delim, max_frame_bytes as nat);
                    &&& !s.overflowed
                    &&& self@ == s.buf
                    &&& out@.len() == s.frames.len()
                    &&& forall|k: int| 0 <= k < s.frames.len() ==> #[trigger] out@[k]@ == s.frames[k]
                }),
            decreases data@.len() - i,
        {
            let ghost prefix = data@.subrange(0, i as int);
            let ghost prev = assemble(old(self)@, prefix, delim, max_frame_bytes as nat);
            assert(data@.subrange(0, i + 1).drop_last() =~= prefix);
            let byte = data[i];
            if self.buf.len() >= max_frame_bytes {
                self.buf.clear();
                proof {
                    law_overflow_absorbs_the_rest(old(self)@, data@, (i + 1) as int, delim, max_frame_bytes as nat);
                }
                let m = decimal_string(max_frame_bytes as u64);
                let mut e = concat_strs("frame exceeds tx.max_frame_bytes (", m.as_str());
                e = concat_strs(e.as_str(), "); partial frame was discarded");
                return Err(e);
            }
            self.buf.push(byte);
            if byte == delim {
                let mut frame: Vec<u8> = Vec::new();
                std::mem::swap(&mut frame, &mut self.buf);
                out.push(frame);
            }
            i = i + 1;
        }
        assert(data@.subrange(0, data@.len() as int) =~= data@);
        Ok(out)
    }

    /// Flush remaining bytes (used on disconnect or exclusive raw mode).
    pub fn take_remainder(&mut self) -> (r: Option<Vec<u8>>)
        ensures
            final(self)@ == Seq::<u8>::empty(),
            old(self)@.len() == 0 ==> r is None,
            old(self)@.len() > 0 ==> (r matches Some(v) && v@ == old(self)@),
    {
        if self.buf.len() == 0 {
            None
        } else {
            let mut rest: Vec<u8> = Vec::new();
            std::mem::swap(&mut rest, &mut self.buf);
            Some(rest)
        }
    }
}

/// Once the assembler overflows, the rest of the input cannot change that.
pub proof fn law_overflow_absorbs_the_rest(buf: Seq<u8>, data: Seq<u8>, k: int, delim: u8, max: nat)
    requires
        0 <= k <= data.len(),
        assemble(buf, data.subrange(0, k), delim, max).overflowed,
    ensures
        assemble(buf, data, delim, max).overflowed,
        assemble(buf, data, delim, max).buf.len() == 0,
    decreases data.len() - k,
{
    if k < data.len() {
        let next = data.subrange(0, k + 1);
        assert(next.drop_last() =~= data.subrange(0, k));
        law_overflow_absorbs_the_rest(buf, data, k + 1, delim, max);
    } else {
        assert(data.subrange(0, k) =~= data);
        law_overflow_clears_the_partial_frame(buf, data, delim, max);
    }
}

/// An overflowed assembler holds no partial frame.
pub proof fn law_overflow_clears_the_partial_frame(buf: Seq<u8>, data: Seq<u8>, delim: u8, max: nat)
    ensures
        assemble(buf, data, delim, max).overflowed ==> assemble(buf, data, delim, max).buf.len()
            == 0,
    decreases data.len(),
{
    if data.len() > 0 {
        law_overflow_clears_the_partial_frame(buf, data.drop_last(), delim, max);
    }
}

/// How many bytes just before position `p` of `s` follow its last
/// delimiter (or its start): the length of the frame being assembled there.
pub open spec fn run_before(s: Seq<u8>, p: int, delim: u8) -> nat
    decreases p,
{
    if p <= 0 {
        0
    } else if s[p - 1] == delim {
        0
    } else {
        run_before(s, p - 1, delim) + 1
    }
}

/// The partial frame before input byte `j` when `data` follows `buf`.
pub open spec fn run_at(buf: Seq<u8>, data: Seq<u8>, j: int, delim: u8) -> nat {
    run_before(buf + data, buf.len() + j, delim)
}

/// Some input byte arrives while the partial frame already holds `max`
/// bytes: `max` consecutive bytes without a delimiter (counted from the
/// start of the partial frame or after a delimiter) followed by another.
pub open spec fn overflows(buf: Seq<u8>, data: Seq<u8>, delim: u8, max: nat) -> bool {
    exists|j: int| 0 <= j < data.len() && #[trigger] run_at(buf, data, j, delim) >= max
}

proof fn lemma_run_prefix(s: Seq<u8>, t: Seq<u8>, p: int, delim: u8)
    requires
        p <= s.len() <= t.len(),
        t.subrange(0, s.len() as int) == s,
    ensures
        run_before(s, p, delim) == run_before(t, p, delim),
    decreases p,
{
    if p > 0 {
        assert(t.subrange(0, s.len() as int)[p - 1] == t[p - 1]);
        lemma_run_prefix(s, t, p - 1, delim);
    }
}

proof fn lemma_run_of_partial(buf: Seq<u8>, delim: u8, p: int)
    requires
        lacks(buf, delim),
        0 <= p <= buf.len(),
    ensures
        run_before(buf, p, delim) == p,
    decreases p,
{
    if p > 0 {
        lemma_run_of_partial(buf, delim, p - 1);
    }
}

proof fn lemma_partial_is_run(buf: Seq<u8>, data: Seq<u8>, delim: u8, max: nat)
    requires
        lacks(buf, delim),
    ensures
        !assemble(buf, data, delim, max).overflowed ==> assemble(buf, data, delim, max).buf.len()
            == run_before(buf + data, (buf + data).len() as int, delim),
    decreases data.len(),
{
    if data.len() == 0 {
        assert(buf + data =~= buf);
        lemma_run_of_partial(buf, delim, buf.len() as int);
    } else {
        let d = data.drop_last();
        lemma_partial_is_run(buf, d, delim, max);
        let s = buf + data;
        assert((buf + data).subrange(0, (buf + d).len() as int) =~= buf + d);
        lemma_run_prefix(buf + d, s, (buf + d).len() as int, delim);
        assert(s[s.len() - 1] == data.last());
    }
}

/// Pushing bytes fails exactly when some byte arrives while the partial
/// frame already holds the limit of bytes without a delimiter.
pub proof fn law_push_fails_exactly_on_overflow(buf: Seq<u8>, data: Seq<u8>, delim: u8, max: nat)
    requires
        lacks(buf, delim),
    ensures
        assemble(buf, data, delim, max).overflowed == overflows(buf, data, delim, max),
    decreases data.len(),
{
    if data.len() > 0 {
        let d = data.drop_last();
        law_push_fails_exactly_on_overflow(buf, d, delim, max);
        lemma_partial_is_run(buf, d, delim, max);
        assert((buf + data).subrange(0, (buf + d).len() as int) =~= buf + d);
        assert forall|j: int| 0 <= j < d.len() implies #[trigger] run_at(buf, d, j, delim) == run_at(buf, data, j, delim) by {
            lemma_run_prefix(buf + d, buf + data, buf.len() + j, delim);
        }
        lemma_run_prefix(buf + d, buf + data, (buf + d).len() as int, delim);
        let last = d.len() as int;
        assert(run_at(buf, data, last, delim) == run_before(buf + d, (buf + d).len() as int, delim));
        if overflows(buf, data, delim, max) {
            let j = choose|j: int| 0 <= j < data.len() && #[trigger] run_at(buf, data, j, delim) >= max;
            if j < d.len() {
                assert(run_at(buf, d, j, delim) >= max);
            }
        }
        if overflows(buf, d, delim, max) {
            let j = choose|j: int| 0 <= j < d.len() && #[trigger] run_at(buf, d, j, delim) >= max;
            assert(run_at(buf, data, j, delim) >= max);
        }
    }
}

#[derive(Debug, Clone)]
pub struct WriteLock {
    pub owner: String,
    /// Random bearer credential required for every operation under this lease.
    pub token: String,
    /// Monotonic expiry time in milliseconds.
    pub expires_at: u64,
}

impl WriteLock {
    /// The lease is still running at `now`.
    pub open spec fn is_active(&self, now: u64) -> bool {
        now < self.expires_at
    }

    /// The lease is running and `token` is its credential.
    pub open spec fn grants(&self, token: Option<Seq<char>>, now: u64) -> bool {
        self.is_active(now) && token == Some(self.token@)
    }

    pub fn active(&self, now: u64) -> (r: bool)
        ensures
            r == self.is_active(now),
    {
        now < self.expires_at
    }

    pub fn authorizes(&self, token: Option<&str>, now: u64) -> (r: bool)
        ensures
            r == self.grants(opt_str_view(token), now),
    {
        if !self.active(now) {
            return false;
        }
        match token {
            Some(candidate) => str_eq(candidate, self.token.as_str()),
            None => false,
        }
    }
}

/// The view of an optional string slice.
pub open spec fn opt_str_view(s: Option<&str>) -> Option<Seq<char>> {
    match s {
        Some(v) => Some(v@),
        None => None,
    }
}

/// Decide whether `client` may emit a framed unit right now.
#[derive(Debug, Clone, PartialEq, Eq)]
pub enum AdmitDecision {
    Allow,
    Deny { reason: String },
}

/// All facts needed for one deterministic TX admission decision.
pub struct AdmitContext<'a> {
    pub mode: TxMode,
    pub client: &'a str,
    pub primary: Option<&'a str>,
    /// Granted by the server-side endpoint registration, never by a caller's
    /// self-reported display label.
    pub client_is_primary: bool,
    /// Whether a writable client whose name exactly matches `primary` is connected.
    pub primary_connected: bool,
    pub lock: Option<&'a WriteLock>,
    /// Bearer token supplied with this write, if any.
    pub lease_token: Option<&'a str>,
    /// Monotonic time of the decision in milliseconds.
    pub now: u64,
}

/// The abstract outcome of an admission decision.
pub enum Verdict {
    Allow,
    LeaseHeld,
    ExclusiveNeedsLease,
    PrimaryReserved,
}

/// The lease a context holds, by value.
pub open spec fn lock_of(ctx: AdmitContext) -> Option<WriteLock> {
    match ctx.lock {
        Some(l) => Some(*l),
        None => None,
    }
}

/// Who may write: an active lease admits exactly its token holder; otherwise
/// the mode decides, and `primary_wins` reserves the port for the registered
/// primary while a primary is connected.
pub open spec fn verdict_for(
    mode: TxMode,
    primary: Option<Seq<char>>,
    client_is_primary: bool,
    primary_connected: bool,
    lock: Option<WriteLock>,
    token: Option<Seq<char>>,
    now: u64,
) -> Verdict {
    if lock is Some && lock.unwrap().is_active(now) {
        if lock.unwrap().grants(token, now) {
            Verdict::Allow
        } else {
            Verdict::LeaseHeld
        }
    } else {
        match mode {
            TxMode::QueueByLine | TxMode::QueueByFrame => Verdict::Allow,
            TxMode::Exclusive => Verdict::ExclusiveNeedsLease,
            TxMode::PrimaryWins => if primary is Some && !client_is_primary && primary_connected {
                Verdict::PrimaryReserved
            } else {
                Verdict::Allow
            },
        }
    }
}

/// The reason given for a denial.
pub open spec fn reason_for(
    mode: TxMode,
    primary: Option<Seq<char>>,
    client_is_primary: bool,
    primary_connected: bool,
    lock: Option<WriteLock>,
    token: Option<Seq<char>>,
    now: u64,
) -> Seq<char> {
    match verdict_for(mode, primary, client_is_primary, primary_connected, lock, token, now) {
        Verdict::LeaseHeld => "write lease held by '"@ + lock.unwrap().owner@ + "' for another "@
            + decimal((lock.unwrap().expires_at - now) as nat)
            + "ms; a valid lease token is required"@,
        Verdict::ExclusiveNeedsLease => "exclusive mode: acquire a write lease first (POST /v1/lock)"@,
        Verdict::PrimaryReserved => "primary_wins: writable primary client '"@ + primary.unwrap()
            + "' is connected"@,
        Verdict::Allow => Seq::empty(),
    }
}

/// The decision for a context.
pub open spec fn admit_verdict(ctx: AdmitContext) -> Verdict {
    verdict_for(
        ctx.mode,
        opt_str_view(ctx.primary),
        ctx.client_is_primary,
        ctx.primary_connected,
        lock_of(ctx),
        opt_str_view(ctx.lease_token),
        ctx.now,
    )
}

/// The reason given for a denial of a context.
pub open spec fn deny_reason(ctx: AdmitContext) -> Seq<char> {
    reason_for(
        ctx.mode,
        opt_str_view(ctx.primary),
        ctx.client_is_primary,
        ctx.primary_connected,
        lock_of(ctx),
        opt_str_view(ctx.lease_token),
        ctx.now,
    )
}

pub fn admit_write(ctx: AdmitContext<'_>) -> (d: AdmitDecision)
    ensures
        admit_verdict(ctx) is Allow <==> d is Allow,
        d matches AdmitDecision::Deny { reason } ==> reason@ == deny_reason(ctx),
{
    // An active lease overrides the configured mode, but only possession of its
    // random token grants access. Display names are deliberately not credentials.
    if let Some(lock) = ctx.lock {
        if lock.active(ctx.now) {
            if lock.authorizes(ctx.lease_token, ctx.now) {
                return AdmitDecision::Allow;
            }
            let remaining = decimal_string(lock.expires_at - ctx.now);
            let mut reason = concat_strs("write lease held by '", lock.owner.as_str());
            reason = concat_strs(reason.as_str(), "' for another ");
            reason = concat_strs(reason.as_str(), remaining.as_str());
            reason = concat_strs(reason.as_str(), "ms; a valid lease token is required");
            return AdmitDecision::Deny { reason };
        }
    }
    match ctx.mode {
        TxMode::QueueByLine | TxMode::QueueByFrame => AdmitDecision::Allow,
        TxMode::Exclusive => AdmitDecision::Deny {
            reason: owned("exclusive mode: acquire a write lease first (POST /v1/lock)"),
        },
        TxMode::PrimaryWins => match ctx.primary {
            Some(_) if ctx.client_is_primary => AdmitDecision::Allow,
            Some(primary) if ctx.primary_connected => {
                let mut reason = concat_strs("primary_wins: writable primary client '", primary);
                reason = concat_strs(reason.as_str(), "' is connected");
                AdmitDecision::Deny { reason }
            },
            _ => AdmitDecision::Allow,
        },
    }
}

/// An admission context whose primary capability is granted by an exact
/// match of the client's registered name with the configured primary.
pub fn context<'a>(
    mode: TxMode,
    client: &'a str,
    primary: Option<&'a str>,
    primary_connected: bool,
    lock: Option<&'a WriteLock>,
    lease_token: Option<&'a str>,
    now: u64,
) -> (ctx: AdmitContext<'a>)
    ensures
        ctx.mode == mode,
        ctx.client == client,
        ctx.primary == primary,
        ctx.client_is_primary == (primary is Some && primary.unwrap()@ == client@),
        ctx.primary_connected == primary_connected,
        ctx.lock == lock,
        ctx.lease_token == lease_token,
        ctx.now == now,
{
    let client_is_primary = match primary {
        Some(name) => str_eq(name, client),
        None => false,
    };
    AdmitContext {
        mode,
        client,
        primary,
        client_is_primary,
        primary_connected,
        lock,
        lease_token,
        now,
    }
}

/// Possession of the lease token is the only way through an active lease: a
/// client named like the lease owner but without its token is denied, whatever
/// the mode.
pub proof fn law_lease_requires_its_token(ctx: AdmitContext)
    requires
        ctx.lock is Some,
        ctx.lock.unwrap().is_active(ctx.now),
        opt_str_view(ctx.lease_token) != Some(ctx.lock.unwrap().token@),
    ensures
        !(admit_verdict(ctx) is Allow),
{
}

/// An expired lease never blocks: the decision is the mode's alone.
pub proof fn law_expired_lease_is_ignored(ctx: AdmitContext, other: AdmitContext)
    requires
        ctx.lock is Some,
        !ctx.lock.unwrap().is_active(ctx.now),
        other.lock is None,
        other.mode == ctx.mode,
        other.primary == ctx.primary,
        other.client_is_primary == ctx.client_is_primary,
        other.primary_connected == ctx.primary_connected,
    ensures
        admit_verdict(ctx) == admit_verdict(other),
{
}

/// Without an active lease the mode alone decides, and only two modes ever
/// refuse: in `queue_by_line` and `queue_by_frame` every write is allowed;
/// `exclusive` refuses every write and points at the lease endpoint; and
/// `primary_wins` refuses exactly a client that is not the configured
/// primary while that primary is connected, naming it.
pub proof fn law_without_a_lease_the_mode_decides(ctx: AdmitContext)
    requires
        !(ctx.lock is Some && ctx.lock.unwrap().is_active(ctx.now)),
    ensures
        (ctx.mode == TxMode::QueueByLine || ctx.mode == TxMode::QueueByFrame) ==> admit_verdict(ctx) is Allow,
        ctx.mode == TxMode::Exclusive ==> !(admit_verdict(ctx) is Allow) && deny_reason(ctx)
            == "exclusive mode: acquire a write lease first (POST /v1/lock)"@,
        ctx.mode == TxMode::PrimaryWins ==> ((admit_verdict(ctx) is Allow) <==> !(ctx.primary is Some
            && !ctx.client_is_primary && ctx.primary_connected)),
        ctx.mode == TxMode::PrimaryWins && !(admit_verdict(ctx) is Allow) ==> deny_reason(ctx)
            == "primary_wins: writable primary client '"@ + ctx.primary.unwrap()@ + "' is connected"@,
{
}

/// An active lease admits its token holder in every mode, and nobody else.
pub proof fn law_an_active_lease_admits_its_holder_in_every_mode(ctx: AdmitContext)
    requires
        ctx.lock is Some,
        ctx.lock.unwrap().is_active(ctx.now),
    ensures
        (admit_verdict(ctx) is Allow) <==> opt_str_view(ctx.lease_token) == Some(ctx.lock.unwrap().token@),
{
}

} // verus!

//! Streaming PackBits run-length codec.
//!
//! PackBits encodes a byte stream as a sequence of runs.  Each run starts
//! with a control byte `n` read as a signed 8-bit value: `0..=127` means
//! the next `n + 1` bytes are literal, `-1..=-127` means the next single
//! byte repeats `-n + 1` times, and `-128` is a no-op.
//!
//! Both the encoder and the decoder are push-style state machines: input
//! may arrive in chunks of any size and a run may straddle a chunk
//! boundary.  The specification below models each machine as a step
//! function over single bytes, and the round-trip law is proved over
//! those models.

use vstd::prelude::*;

verus! {

/// Error reported by `Decoder::finalize` when the stream stops mid-run.
#[derive(Debug, Clone, Copy, PartialEq, Eq, Structural)]
pub enum Error {
    /// The stream ended while this many literal bytes were still owed.
    DanglingLiteral(usize),
    /// The stream ended right after a repeat control byte.
    DanglingRepeated,
}

/// Decoder state: between runs, inside a literal run, or awaiting the
/// byte of a repeat run.
#[derive(Debug, Clone, Copy, PartialEq, Eq, Structural)]
pub enum DecState {
    Idle,
    Literal { remaining: usize },
    Repeat { count: usize },
}

/// State reached after the decoder consumes one input byte.
pub open spec fn dec_step_state(s: DecState, b: u8) -> DecState {
    match s {
        DecState::Idle => {
            if b < 128 {
                DecState::Literal { remaining: (b + 1) as usize }
            } else if b == 128 {
                DecState::Idle
            } else {
                DecState::Repeat { count: (257 - b) as usize }
            }
        },
        DecState::Literal { remaining } => {
            if remaining <= 1 {
                DecState::Idle
            } else {
                DecState::Literal { remaining: (remaining - 1) as usize }
            }
        },
        DecState::Repeat { count } => DecState::Idle,
    }
}

/// Bytes the decoder emits when it consumes one input byte.
pub open spec fn dec_step_output(s: DecState, b: u8) -> Seq<u8> {
    match s {
        DecState::Idle => Seq::empty(),
        DecState::Literal { remaining } => seq![b],
        DecState::Repeat { count } => Seq::new(count as nat, |i: int| b),
    }
}

/// State reached after the decoder consumes a whole input chunk.
pub open spec fn dec_run_state(s: DecState, input: Seq<u8>) -> DecState
    decreases input.len(),
{
    if input.len() == 0 {
        s
    } else {
        dec_run_state(dec_step_state(s, input[0]), input.drop_first())
    }
}

/// Bytes the decoder emits while consuming a whole input chunk.
pub open spec fn dec_run_output(s: DecState, input: Seq<u8>) -> Seq<u8>
    decreases input.len(),
{
    if input.len() == 0 {
        Seq::empty()
    } else {
        dec_step_output(s, input[0]) + dec_run_output(dec_step_state(s, input[0]), input.drop_first())
    }
}

/// Streaming PackBits decoder.
pub struct Decoder {
    state: DecState,
}

impl Decoder {
    /// Decoder state, for contracts.
    pub closed spec fn model(&self) -> DecState {
        self.state
    }

    /// A fresh decoder awaits a control byte.
    pub fn new() -> (r: Self)
        ensures
            r.model() == DecState::Idle,
    {
        Decoder { state: DecState::Idle }
    }

    /// Consume `input` and append every decoded byte to `output`.
    pub fn decode_on(&mut self, input: &[u8], output: &mut Vec<u8>)
        ensures
            final(self).model() == dec_run_state(old(self).model(), input@),
            final(output)@ == old(output)@ + dec_run_output(old(self).model(), input@),
    {
        let ghost start_state: DecState = self.model();
        let ghost start_out: Seq<u8> = output@;
        let n: usize = input.len();
        let mut i: usize = 0;
        while i < n
            invariant
                n == input@.len(),
                i <= n,
                self.model() == dec_run_state(start_state, input@.take(i as int)),
                output@ == start_out + dec_run_output(start_state, input@.take(i as int)),
            decreases n - i,
        {
            let b: u8 = input[i];
            proof {
                lemma_dec_run_snoc(start_state, input@.take(i as int), b);
                assert(input@.take(i as int).push(b) =~= input@.take(i + 1));
            }
            match self.state {
                DecState::Idle => {
                    if b < 128 {
                        self.state = DecState::Literal { remaining: (b as usize) + 1 };
                    } else if b == 128 {
                        // no-op control byte
                    } else {
                        self.state = DecState::Repeat { count: 257 - (b as usize) };
                    }
                },
                DecState::Literal { remaining } => {
                    output.push(b);
                    if remaining <= 1 {
                        self.state = DecState::Idle;
                    } else {
                        self.state = DecState::Literal { remaining: remaining - 1 };
                    }
                },
                DecState::Repeat { count } => {
                    let mut k: usize = 0;
                    while k < count
                        invariant
                            k <= count,
                            output@ == start_out + dec_run_output(start_state, input@.take(i as int))
                                + Seq::new(k as nat, |j: int| b),
                        decreases count - k,
                    {
                        output.push(b);
                        proof {
                            assert(
                                (start_out + dec_run_output(start_state, input@.take(i as int))
                                    + Seq::new(k as nat, |j: int| b)).push(b)
                                =~= start_out + dec_run_output(start_state, input@.take(i as int))
                                    + Seq::new((k + 1) as nat, |j: int| b)
                            );
                        }
                        k = k + 1;
                    }
                    self.state = DecState::Idle;
                },
            }
            i = i + 1;
        }
        proof {
            assert(input@.take(n as int) =~= input@);
        }
    }

    /// Consume `input` and return the decoded bytes.
    pub fn decode(&mut self, input: &[u8]) -> (r: Vec<u8>)
        ensures
            final(self).model() == dec_run_state(old(self).model(), input@),
            r@ == dec_run_output(old(self).model(), input@),
    {
        let mut ret: Vec<u8> = Vec::new();
        self.decode_on(input, &mut ret);
        ret
    }

    /// Succeed only when the stream ended between runs; otherwise report
    /// the unterminated run.
    pub fn finalize(&mut self) -> (r: Result<(), Error>)
        ensures
            final(self).model() == old(self).model(),
            match old(self).model() {
                DecState::Idle => r == Result::<(), Error>::Ok(()),
                DecState::Literal { remaining } => r == Result::<(), Error>::Err(
                    Error::DanglingLiteral(remaining),
                ),
                DecState::Repeat { count } => r == Result::<(), Error>::Err(
                    Error::DanglingRepeated,
                ),
            },
    {
        match self.state {
            DecState::Idle => Ok(()),
            DecState::Literal { remaining } => Err(Error::DanglingLiteral(remaining)),
            DecState::Repeat { count } => Err(Error::DanglingRepeated),
        }
    }
}

/// Spec-level encoder state.  The literal buffer is a byte sequence of
/// length 1 to 128; a repeat run holds its byte and a count of 2 to 128.
pub enum EncModel {
    Idle,
    Literal(Seq<u8>),
    Repeat { byte: u8, count: int },
}

/// Well-formedness of an encoder state: buffered runs stay within the
/// bounds a single control byte can express.
pub open spec fn enc_wf(s: EncModel) -> bool {
    match s {
        EncModel::Idle => true,
        EncModel::Literal(buf) => 1 <= buf.len() <= 128,
        EncModel::Repeat { byte, count } => 2 <= count <= 128,
    }
}

/// Length of the run of identical bytes at the end of `s`.
pub open spec fn trailing_run(s: Seq<u8>) -> int
    decreases s.len(),
{
    if s.len() == 0 {
        0
    } else if s.len() == 1 {
        1
    } else if s[s.len() - 2] == s[s.len() - 1] {
        1 + trailing_run(s.drop_last())
    } else {
        1
    }
}

/// Encoded form of a literal run: control byte `len - 1`, then the bytes.
pub open spec fn lit_run_bytes(buf: Seq<u8>) -> Seq<u8> {
    seq![(buf.len() - 1) as u8] + buf
}

/// Encoded form of a repeat run: control byte `-(count - 1)` as a `u8`,
/// then the repeated byte.
pub open spec fn rep_run_bytes(byte: u8, count: int) -> Seq<u8> {
    seq![(257 - count) as u8, byte]
}

/// State reached after the encoder consumes one input byte.
pub open spec fn enc_step_state(s: EncModel, b: u8) -> EncModel {
    match s {
        EncModel::Idle => EncModel::Literal(seq![b]),
        EncModel::Literal(buf) => {
            if buf.len() == 128 {
                EncModel::Literal(seq![b])
            } else if trailing_run(buf.push(b)) == 3 {
                EncModel::Repeat { byte: b, count: 3 }
            } else {
                EncModel::Literal(buf.push(b))
            }
        },
        EncModel::Repeat { byte, count } => {
            if count == 128 {
                EncModel::Literal(seq![b])
            } else if b == byte {
                EncModel::Repeat { byte, count: count + 1 }
            } else {
                EncModel::Literal(seq![b])
            }
        },
    }
}

/// Bytes the encoder emits when it consumes one input byte.
pub open spec fn enc_step_output(s: EncModel, b: u8) -> Seq<u8> {
    match s {
        EncModel::Idle => Seq::empty(),
        EncModel::Literal(buf) => {
            if buf.len() == 128 {
                lit_run_bytes(buf)
            } else if trailing_run(buf.push(b)) == 3 {
                if buf.len() > 2 {
                    lit_run_bytes(buf.push(b).take(buf.len() - 2))
                } else {
                    Seq::empty()
                }
            } else {
                Seq::empty()
            }
        },
        EncModel::Repeat { byte, count } => {
            if count == 128 || b != byte {
                rep_run_bytes(byte, count)
            } else {
                Seq::empty()
            }
        },
    }
}

/// State reached after the encoder consumes a whole input chunk.
pub open spec fn enc_run_state(s: EncModel, input: Seq<u8>) -> EncModel
    decreases input.len(),
{
    if input.len() == 0 {
        s
    } else {
        enc_run_state(enc_step_state(s, input[0]), input.drop_first())
    }
}

/// Bytes the encoder emits while consuming a whole input chunk.
pub open spec fn enc_run_output(s: EncModel, input: Seq<u8>) -> Seq<u8>
    decreases input.len(),
{
    if input.len() == 0 {
        Seq::empty()
    } else {
        enc_step_output(s, input[0]) + enc_run_output(enc_step_state(s, input[0]), input.drop_first())
    }
}

/// Bytes `finalize` emits: the pending run, if any.
pub open spec fn enc_flush_output(s: EncModel) -> Seq<u8> {
    match s {
        EncModel::Idle => Seq::empty(),
        EncModel::Literal(buf) => lit_run_bytes(buf),
        EncModel::Repeat { byte, count } => rep_run_bytes(byte, count),
    }
}

/// The whole encoding of a byte sequence: run the machine from `Idle`
/// over the input, then flush.
pub open spec fn enc_encode_all(input: Seq<u8>) -> Seq<u8> {
    enc_run_output(EncModel::Idle, input) + enc_flush_output(enc_run_state(EncModel::Idle, input))
}

enum EncState {
    Idle,
    Literal(Vec<u8>),
    Repeat { byte: u8, count: usize },
}

/// Streaming PackBits encoder: single-pass, no look-ahead.
pub struct Encoder {
    state: EncState,
}

/// Count of trailing bytes of `buf` equal to its last byte.
fn ends_with_same_byte(buf: &Vec<u8>) -> (r: usize)
    ensures
        r == trailing_run(buf@),
{
    let n: usize = buf.len();
    if n == 0 {
        return 0;
    }
    let last: u8 = buf[n - 1];
    let mut count: usize = 1;
    while count < n && buf[n - 1 - count] == last
        invariant
            1 <= count <= n,
            n == buf@.len(),
            last == buf@[n - 1],
            forall|j: int| n - count <= j < n ==> buf@[j] == last,
        decreases n - count,
    {
        count = count + 1;
    }
    proof {
        lemma_trailing_run_char(buf@, count as int);
    }
    count
}

/// A block of `k` equal bytes at the end, preceded by a different byte
/// (or the start), is exactly the trailing run.
pub proof fn lemma_trailing_run_char(s: Seq<u8>, k: int)
    requires
        s.len() > 0,
        1 <= k <= s.len(),
        forall|j: int| s.len() - k <= j < s.len() ==> #[trigger] s[j] == s[s.len() - 1],
        k < s.len() ==> s[s.len() - k - 1] != s[s.len() - 1],
    ensures
        trailing_run(s) == k,
    decreases s.len(),
{
    if k == 1 {
    } else {
        let t = s.drop_last();
        assert(t[t.len() - 1] == s[s.len() - 1]);
        lemma_trailing_run_char(t, k - 1);
    }
}

/// `trailing_run` is between 1 and the length for a nonempty sequence.
pub proof fn lemma_trailing_run_bound(s: Seq<u8>)
    ensures
        s.len() > 0 ==> 1 <= trailing_run(s) <= s.len(),
        s.len() == 0 ==> trailing_run(s) == 0,
    decreases s.len(),
{
    if s.len() > 1 {
        lemma_trailing_run_bound(s.drop_last());
    }
}

/// Emit a literal run: control byte `len - 1`, then the buffered bytes.
fn output_literal(output: &mut Vec<u8>, buf: &Vec<u8>)
    requires
        1 <= buf@.len() <= 128,
    ensures
        final(output)@ == old(output)@ + lit_run_bytes(buf@),
{
    output.push((buf.len() - 1) as u8);
    output.extend_from_slice(buf.as_slice());
    proof {
        assert(final(output)@ =~= old(output)@ + lit_run_bytes(buf@));
    }
}

/// Emit a repeat run: control byte `-(count - 1)` as a `u8`, then the byte.
fn output_repeating(output: &mut Vec<u8>, value: u8, count: usize)
    requires
        2 <= count <= 128,
    ensures
        final(output)@ == old(output)@ + rep_run_bytes(value, count as int),
{
    output.push((257 - count) as u8);
    output.push(value);
    proof {
        assert(final(output)@ =~= old(output)@ + rep_run_bytes(value, count as int));
    }
}

/// One encoder step keeps the state well formed.
pub proof fn lemma_enc_step_wf(s: EncModel, b: u8)
    requires
        enc_wf(s),
    ensures
        enc_wf(enc_step_state(s, b)),
{
}

/// Running the encoder over a chunk extended by one byte is one more step.
pub proof fn lemma_enc_run_snoc(s: EncModel, input: Seq<u8>, b: u8)
    ensures
        enc_run_state(s, input.push(b)) == enc_step_state(enc_run_state(s, input), b),
        enc_run_output(s, input.push(b)) == enc_run_output(s, input)
            + enc_step_output(enc_run_state(s, input), b),
    decreases input.len(),
{
    if input.len() == 0 {
        let p = input.push(b);
        assert(p[0] == b);
        assert(p.drop_first() =~= Seq::<u8>::empty());
        assert(enc_run_state(s, p) == enc_run_state(enc_step_state(s, b), p.drop_first()));
        assert(enc_run_state(enc_step_state(s, b), p.drop_first()) == enc_step_state(s, b));
        assert(enc_run_output(s, p)
            == enc_step_output(s, b) + enc_run_output(enc_step_state(s, b), p.drop_first()));
        assert(enc_run_output(enc_step_state(s, b), p.drop_first()) =~= Seq::<u8>::empty());
        assert(enc_run_output(s, p) =~= enc_step_output(s, b));
        assert(enc_run_output(s, input) =~= Seq::<u8>::empty());
        assert(enc_run_output(s, input) + enc_step_output(enc_run_state(s, input), b)
            =~= enc_step_output(s, b));
    } else {
        let s2 = enc_step_state(s, input[0]);
        assert(input.push(b).drop_first() =~= input.drop_first().push(b));
        lemma_enc_run_snoc(s2, input.drop_first(), b);
    }
}

impl Encoder {
    /// Encoder state, for contracts.
    pub closed spec fn model(&self) -> EncModel {
        match self.state {
            EncState::Idle => EncModel::Idle,
            EncState::Literal(buf) => EncModel::Literal(buf@),
            EncState::Repeat { byte, count } => EncModel::Repeat { byte, count: count as int },
        }
    }

    /// A fresh encoder holds no pending run.
    pub fn new() -> (r: Self)
        ensures
            r.model() == EncModel::Idle,
    {
        Encoder { state: EncState::Idle }
    }

    /// Consume `input` and append every emitted run to `output`.
    pub fn encode_on(&mut self, input: &[u8], output: &mut Vec<u8>)
        requires
            enc_wf(old(self).model()),
        ensures
            final(self).model() == enc_run_state(old(self).model(), input@),
            final(output)@ == old(output)@ + enc_run_output(old(self).model(), input@),
            enc_wf(final(self).model()),
    {
        let ghost start_state: EncModel = self.model();
        let ghost start_out: Seq<u8> = output@;
        let n: usize = input.len();
        let mut i: usize = 0;
        while i < n
            invariant
                n == input@.len(),
                i <= n,
                self.model() == enc_run_state(start_state, input@.take(i as int)),
                output@ == start_out + enc_run_output(start_state, input@.take(i as int)),
                enc_wf(self.model()),
            decreases n - i,
        {
            let b: u8 = input[i];
            proof {
                lemma_enc_run_snoc(start_state, input@.take(i as int), b);
                assert(input@.take(i as int).push(b) =~= input@.take(i + 1));
                lemma_enc_step_wf(self.model(), b);
            }
            let mut st: EncState = EncState::Idle;
            core::mem::swap(&mut st, &mut self.state);
            match st {
                EncState::Idle => {
                    let mut buf: Vec<u8> = Vec::new();
                    buf.push(b);
                    proof {
                        assert(buf@ =~= seq![b]);
                    }
                    self.state = EncState::Literal(buf);
                },
                EncState::Literal(mut buf) => {
                    if buf.len() == 128 {
                        output_literal(output, &buf);
                        buf.clear();
                        buf.push(b);
                        proof {
                            assert(buf@ =~= seq![b]);
                        }
                        self.state = EncState::Literal(buf);
                    } else {
                        let ghost buf_before: Seq<u8> = buf@;
                        buf.push(b);
                        let run: usize = ends_with_same_byte(&buf);
                        if run == 3 {
                            proof {
                                lemma_trailing_run_bound(buf@);
                            }
                            let lit_len: usize = buf.len() - 3;
                            if lit_len > 0 {
                                buf.truncate(lit_len);
                                proof {
                                    assert(buf@ =~= buf_before.push(b).take(
                                        buf_before.len() - 2));
                                }
                                output_literal(output, &buf);
                            }
                            self.state = EncState::Repeat { byte: b, count: 3 };
                        } else {
                            self.state = EncState::Literal(buf);
                        }
                    }
                },
                EncState::Repeat { byte, count } => {
                    if count == 128 {
                        output_repeating(output, byte, count);
                        let mut buf: Vec<u8> = Vec::new();
                        buf.push(b);
                        proof {
                            assert(buf@ =~= seq![b]);
                        }
                        self.state = EncState::Literal(buf);
                    } else if b == byte {
                        self.state = EncState::Repeat { byte, count: count + 1 };
                    } else {
                        output_repeating(output, byte, count);
                        let mut buf: Vec<u8> = Vec::new();
                        buf.push(b);
                        proof {
                            assert(buf@ =~= seq![b]);
                        }
                        self.state = EncState::Literal(buf);
                    }
                },
            }
            i = i + 1;
        }
        proof {
            assert(input@.take(n as int) =~= input@);
        }
    }

    /// Consume `input` and return the emitted runs.
    pub fn encode(&mut self, input: &[u8]) -> (r: Vec<u8>)
        requires
            enc_wf(old(self).model()),
        ensures
            final(self).model() == enc_run_state(old(self).model(), input@),
            r@ == enc_run_output(old(self).model(), input@),
            enc_wf(final(self).model()),
    {
        let mut ret: Vec<u8> = Vec::new();
        self.encode_on(input, &mut ret);
        ret
    }

    /// Flush the pending run, if any, to `output`; the encoder returns to
    /// its idle state.
    pub fn finalize_on(&mut self, output: &mut Vec<u8>)
        requires
            enc_wf(old(self).model()),
        ensures
            final(self).model() == EncModel::Idle,
            final(output)@ == old(output)@ + enc_flush_output(old(self).model()),
    {
        let mut st: EncState = EncState::Idle;
        core::mem::swap(&mut st, &mut self.state);
        match st {
            EncState::Idle => {
                proof {
                    assert(final(output)@ =~= old(output)@ + enc_flush_output(
                        old(self).model()));
                }
            },
            EncState::Literal(buf) => {
                output_literal(output, &buf);
            },
            EncState::Repeat { byte, count } => {
                output_repeating(output, byte, count);
            },
        }
    }

    /// Flush the pending run, if any, and return it.
    pub fn finalize(&mut self) -> (r: Vec<u8>)
        requires
            enc_wf(old(self).model()),
        ensures
            final(self).model() == EncModel::Idle,
            r@ == enc_flush_output(old(self).model()),
    {
        let mut ret: Vec<u8> = Vec::new();
        self.finalize_on(&mut ret);
        ret
    }
}

/// Running the decoder over a chunk extended by one byte is one more step.
pub proof fn lemma_dec_run_snoc(s: DecState, input: Seq<u8>, b: u8)
    ensures
        dec_run_state(s, input.push(b)) == dec_step_state(dec_run_state(s, input), b),
        dec_run_output(s, input.push(b)) == dec_run_output(s, input)
            + dec_step_output(dec_run_state(s, input), b),
    decreases input.len(),
{
    if input.len() == 0 {
        let p = input.push(b);
        assert(p[0] == b);
        assert(p.drop_first() =~= Seq::<u8>::empty());
        assert(dec_run_state(s, p) == dec_run_state(dec_step_state(s, b), p.drop_first()));
        assert(dec_run_state(dec_step_state(s, b), p.drop_first()) == dec_step_state(s, b));
        assert(dec_run_output(s, p)
            == dec_step_output(s, b) + dec_run_output(dec_step_state(s, b), p.drop_first()));
        assert(dec_run_output(dec_step_state(s, b), p.drop_first()) =~= Seq::<u8>::empty());
        assert(dec_run_output(s, p) =~= dec_step_output(s, b));
        assert(dec_run_output(s, input) =~= Seq::<u8>::empty());
        assert(dec_run_output(s, input) + dec_step_output(dec_run_state(s, input), b)
            =~= dec_step_output(s, b));
    } else {
        let s2 = dec_step_state(s, input[0]);
        assert(input.push(b).drop_first() =~= input.drop_first().push(b));
        lemma_dec_run_snoc(s2, input.drop_first(), b);
    }
}

/// Bytes the encoder still owes for its buffered state.
pub open spec fn enc_pending(s: EncModel) -> Seq<u8> {
    match s {
        EncModel::Idle => Seq::empty(),
        EncModel::Literal(buf) => buf,
        EncModel::Repeat { byte, count } => Seq::new(count as nat, |i: int| byte),
    }
}

/// Decoding distributes over concatenation of the input.
pub proof fn lemma_dec_run_concat(s: DecState, a: Seq<u8>, b: Seq<u8>)
    ensures
        dec_run_state(s, a + b) == dec_run_state(dec_run_state(s, a), b),
        dec_run_output(s, a + b) == dec_run_output(s, a) + dec_run_output(dec_run_state(s, a), b),
    decreases a.len(),
{
    if a.len() == 0 {
        assert(a + b =~= b);
        assert(dec_run_output(s, a) + dec_run_output(dec_run_state(s, a), b)
            =~= dec_run_output(s, b));
    } else {
        let s2 = dec_step_state(s, a[0]);
        assert((a + b).drop_first() =~= a.drop_first() + b);
        assert((a + b)[0] == a[0]);
        lemma_dec_run_concat(s2, a.drop_first(), b);
        assert(dec_run_output(s, a + b)
            == dec_step_output(s, a[0]) + dec_run_output(s2, (a + b).drop_first()));
        assert(dec_run_output(s, a) + dec_run_output(dec_run_state(s, a), b)
            =~= dec_step_output(s, a[0]) + (dec_run_output(s2, a.drop_first())
                + dec_run_output(dec_run_state(s2, a.drop_first()), b)));
    }
}

/// From inside a literal run of `n` owed bytes, consuming exactly `n`
/// bytes copies them out and returns to the idle state.
proof fn lemma_dec_literal_bytes(n: usize, data: Seq<u8>)
    requires
        1 <= n,
        data.len() == n,
    ensures
        dec_run_state(DecState::Literal { remaining: n }, data) == DecState::Idle,
        dec_run_output(DecState::Literal { remaining: n }, data) == data,
    decreases n,
{
    let s = DecState::Literal { remaining: n };
    if n == 1 {
        assert(dec_run_state(s, data)
            == dec_run_state(DecState::Idle, data.drop_first()));
        assert(data.drop_first().len() == 0);
        assert(dec_run_output(s, data)
            =~= seq![data[0]] + dec_run_output(DecState::Idle, data.drop_first()));
        assert(dec_run_output(s, data) =~= data);
    } else {
        let m = (n - 1) as usize;
        lemma_dec_literal_bytes(m, data.drop_first());
        assert(dec_step_state(s, data[0]) == DecState::Literal { remaining: m });
        assert(dec_run_output(s, data)
            =~= seq![data[0]] + dec_run_output(DecState::Literal { remaining: m },
                data.drop_first()));
        assert(seq![data[0]] + data.drop_first() =~= data);
    }
}

/// A literal run encoding decodes, from idle, to exactly its bytes.
proof fn lemma_dec_lit_run(buf: Seq<u8>)
    requires
        1 <= buf.len() <= 128,
    ensures
        dec_run_state(DecState::Idle, lit_run_bytes(buf)) == DecState::Idle,
        dec_run_output(DecState::Idle, lit_run_bytes(buf)) == buf,
{
    let r = lit_run_bytes(buf);
    let c = (buf.len() - 1) as u8;
    assert(r[0] == c);
    assert(c < 128);
    assert(dec_step_state(DecState::Idle, c)
        == DecState::Literal { remaining: (c + 1) as usize });
    assert((c + 1) as usize == buf.len());
    assert(r.drop_first() =~= buf);
    lemma_dec_literal_bytes(buf.len() as usize, buf);
    assert(dec_run_output(DecState::Idle, r)
        =~= Seq::<u8>::empty() + dec_run_output(DecState::Literal {
            remaining: buf.len() as usize }, buf));
    assert(dec_run_output(DecState::Idle, r) =~= buf);
}

/// A repeat run encoding decodes, from idle, to `count` copies of its byte.
proof fn lemma_dec_rep_run(byte: u8, count: int)
    requires
        2 <= count <= 128,
    ensures
        dec_run_state(DecState::Idle, rep_run_bytes(byte, count)) == DecState::Idle,
        dec_run_output(DecState::Idle, rep_run_bytes(byte, count))
            == Seq::new(count as nat, |i: int| byte),
{
    let r = rep_run_bytes(byte, count);
    let c = (257 - count) as u8;
    assert(r[0] == c);
    assert(c > 128);
    assert(dec_step_state(DecState::Idle, c)
        == DecState::Repeat { count: (257 - c) as usize });
    assert((257 - c) as usize == count);
    assert(r.drop_first() =~= seq![byte]);
    let s2 = DecState::Repeat { count: count as usize };
    assert(dec_run_state(s2, seq![byte])
        == dec_run_state(DecState::Idle, seq![byte].drop_first()));
    assert(seq![byte].drop_first().len() == 0);
    assert(dec_run_output(s2, seq![byte])
        =~= Seq::new(count as nat, |i: int| byte)
            + dec_run_output(DecState::Idle, seq![byte].drop_first()));
    assert(dec_run_output(DecState::Idle, r)
        =~= Seq::<u8>::empty() + dec_run_output(s2, seq![byte]));
    assert(dec_run_output(DecState::Idle, r) =~= Seq::new(count as nat, |i: int| byte));
}

/// Flushing a well-formed encoder state emits bytes that decode, from
/// idle, to exactly the pending bytes, ending idle.
proof fn lemma_flush_decodes(s: EncModel)
    requires
        enc_wf(s),
    ensures
        dec_run_state(DecState::Idle, enc_flush_output(s)) == DecState::Idle,
        dec_run_output(DecState::Idle, enc_flush_output(s)) == enc_pending(s),
{
    match s {
        EncModel::Idle => {
        },
        EncModel::Literal(buf) => {
            lemma_dec_lit_run(buf);
        },
        EncModel::Repeat { byte, count } => {
            lemma_dec_rep_run(byte, count);
        },
    }
}

/// The whole trailing run of a sequence consists of its last byte.
pub proof fn lemma_trailing_run_all(s: Seq<u8>)
    requires
        s.len() > 0,
    ensures
        forall|j: int| s.len() - trailing_run(s) <= j < s.len()
            ==> #[trigger] s[j] == s[s.len() - 1],
    decreases s.len(),
{
    lemma_trailing_run_bound(s);
    if s.len() > 1 && s[s.len() - 2] == s[s.len() - 1] {
        lemma_trailing_run_all(s.drop_last());
        lemma_trailing_run_bound(s.drop_last());
        assert forall|j: int| s.len() - trailing_run(s) <= j < s.len()
            implies #[trigger] s[j] == s[s.len() - 1] by {
            if j < s.len() - 1 {
                assert(s.drop_last()[j] == s[j]);
            }
        }
    }
}

/// Invariant of the encoder run: the state stays well formed, everything
/// emitted so far decodes cleanly, and emitted-plus-pending is the input.
proof fn lemma_enc_invariant(d: Seq<u8>)
    ensures
        enc_wf(enc_run_state(EncModel::Idle, d)),
        dec_run_state(DecState::Idle, enc_run_output(EncModel::Idle, d)) == DecState::Idle,
        dec_run_output(DecState::Idle, enc_run_output(EncModel::Idle, d))
            + enc_pending(enc_run_state(EncModel::Idle, d)) == d,
    decreases d.len(),
{
    if d.len() == 0 {
        assert(dec_run_output(DecState::Idle, enc_run_output(EncModel::Idle, d))
            + enc_pending(enc_run_state(EncModel::Idle, d)) =~= d);
    } else {
        let d0 = d.drop_last();
        let b = d[d.len() - 1];
        assert(d0.push(b) =~= d);
        lemma_enc_invariant(d0);
        let st = enc_run_state(EncModel::Idle, d0);
        let out = enc_run_output(EncModel::Idle, d0);
        let dec_out = dec_run_output(DecState::Idle, out);
        lemma_enc_run_snoc(EncModel::Idle, d0, b);
        lemma_enc_step_wf(st, b);
        let stepout = enc_step_output(st, b);
        lemma_dec_run_concat(DecState::Idle, out, stepout);
        match st {
            EncModel::Idle => {
                assert(stepout =~= Seq::<u8>::empty());
                assert(out + stepout =~= out);
                assert(dec_out + enc_pending(enc_step_state(st, b)) =~= d);
            },
            EncModel::Literal(buf) => {
                if buf.len() == 128 {
                    lemma_dec_lit_run(buf);
                    assert(dec_run_output(DecState::Idle, out + stepout) =~= dec_out + buf);
                    assert((dec_out + buf) + seq![b] =~= d);
                    assert(enc_pending(enc_step_state(st, b)) =~= seq![b]);
                } else {
                    let p = buf.push(b);
                    if trailing_run(p) == 3 {
                        lemma_trailing_run_bound(p);
                        lemma_trailing_run_all(p);
                        assert(p[p.len() - 1] == b);
                        assert(p[p.len() - 2] == b);
                        assert(p[p.len() - 3] == b);
                        assert(enc_pending(enc_step_state(st, b))
                            =~= seq![b, b, b]);
                        if buf.len() > 2 {
                            let lit = p.take(buf.len() - 2);
                            assert(1 <= lit.len() <= 128);
                            lemma_dec_lit_run(lit);
                            assert(dec_run_output(DecState::Idle, out + stepout)
                                =~= dec_out + lit);
                            assert(buf[buf.len() - 1] == b && buf[buf.len() - 2] == b);
                            assert(lit + seq![b, b, b] =~= buf.push(b));
                            assert((dec_out + lit) + seq![b, b, b] =~= (dec_out + buf)
                                + seq![b]);
                            assert((dec_out + lit) + seq![b, b, b] =~= d);
                        } else {
                            assert(p.len() == 3);
                            assert(buf.len() == 2);
                            assert(buf[0] == b && buf[1] == b);
                            assert(stepout =~= Seq::<u8>::empty());
                            assert(out + stepout =~= out);
                            assert(dec_out + seq![b, b, b] =~= (dec_out + buf) + seq![b]);
                            assert(dec_out + seq![b, b, b] =~= d);
                        }
                    } else {
                        assert(stepout =~= Seq::<u8>::empty());
                        assert(out + stepout =~= out);
                        assert(dec_out + buf.push(b) =~= (dec_out + buf) + seq![b]);
                        assert(dec_out + buf.push(b) =~= d);
                    }
                }
            },
            EncModel::Repeat { byte, count } => {
                let reps = Seq::new(count as nat, |i: int| byte);
                if count == 128 || b != byte {
                    lemma_dec_rep_run(byte, count);
                    assert(dec_run_output(DecState::Idle, out + stepout) =~= dec_out + reps);
                    assert((dec_out + reps) + seq![b] =~= d);
                    assert(enc_pending(enc_step_state(st, b)) =~= seq![b]);
                } else {
                    assert(stepout =~= Seq::<u8>::empty());
                    assert(out + stepout =~= out);
                    assert(Seq::new((count + 1) as nat, |i: int| byte) =~= reps.push(byte));
                    assert(dec_out + reps.push(byte) =~= (dec_out + reps) + seq![b]);
                    assert(dec_out + reps.push(byte) =~= d);
                }
            },
        }
    }
}

/// Round-trip law: encoding any byte sequence and decoding the result
/// reproduces the sequence exactly, and the decoder ends between runs,
/// so its `finalize` succeeds.
pub proof fn lemma_round_trip(d: Seq<u8>)
    ensures
        dec_run_output(DecState::Idle, enc_encode_all(d)) == d,
        dec_run_state(DecState::Idle, enc_encode_all(d)) == DecState::Idle,
{
    lemma_enc_invariant(d);
    let st = enc_run_state(EncModel::Idle, d);
    let out = enc_run_output(EncModel::Idle, d);
    lemma_dec_run_concat(DecState::Idle, out, enc_flush_output(st));
    lemma_flush_decodes(st);
    assert(dec_run_output(DecState::Idle, enc_encode_all(d))
        =~= dec_run_output(DecState::Idle, out) + enc_pending(st));
}

} // verus!

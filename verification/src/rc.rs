//! Binary arithmetic coder (carry-less range coder, 12-bit probabilities).
//!
//! The encoder and decoder must be driven by exactly the same probability
//! sequence; the model is responsible for that symmetry.

use vstd::prelude::*;

verus! {

/// The weight of the leading byte of a code word.
pub const TOP: u32 = 0x100_0000;

/// The interval of code words that are still possible.
pub struct Interval {
    pub x1: u32,
    pub x2: u32,
}

impl Interval {
    /// Every code word.
    pub open spec fn full() -> Interval {
        Interval { x1: 0, x2: 0xffff_ffff }
    }

    /// More than one code word is left.
    pub open spec fn valid(self) -> bool {
        self.x1 < self.x2
    }

    /// The last code word that stands for a 1 when a 1 has probability
    /// `p / 4096`.
    pub open spec fn split(self, p: u32) -> int {
        self.x1 + (self.x2 - self.x1) * p / 4096
    }

    /// The part of the interval that stands for `bit`.
    pub open spec fn narrow(self, bit: bool, p: u32) -> Interval {
        if bit {
            Interval { x1: self.x1, x2: self.split(p) as u32 }
        } else {
            Interval { x1: (self.split(p) + 1) as u32, x2: self.x2 }
        }
    }

    /// All code words that are left begin with the same byte.
    pub open spec fn settled(self) -> bool {
        self.x1 / TOP == self.x2 / TOP
    }

    /// The interval with its leading byte dropped and one byte of precision
    /// gained.
    pub open spec fn shifted(self) -> Interval {
        Interval {
            x1: ((self.x1 % TOP) * 256) as u32,
            x2: ((self.x2 % TOP) * 256 + 255) as u32,
        }
    }

    /// The bytes that all code words of the interval share, leading byte first.
    pub open spec fn settled_bytes(self) -> Seq<u8>
        decreases 0x1_0000_0000 - (self.x2 - self.x1),
    {
        if self.x1 <= self.x2 && self.settled() {
            proof {
                self.lemma_shift_widens();
            }
            seq![(self.x2 / TOP) as u8] + self.shifted().settled_bytes()
        } else {
            Seq::empty()
        }
    }

    /// The interval once every settled byte has been dropped.
    pub open spec fn unsettled(self) -> Interval
        decreases 0x1_0000_0000 - (self.x2 - self.x1),
    {
        if self.x1 <= self.x2 && self.settled() {
            proof {
                self.lemma_shift_widens();
            }
            self.shifted().unsettled()
        } else {
            self
        }
    }

    pub proof fn lemma_shift_widens(self)
        requires
            self.x1 <= self.x2,
            self.settled(),
        ensures
            self.shifted().x1 as int == (self.x1 % TOP) * 256,
            self.shifted().x2 as int == (self.x2 % TOP) * 256 + 255,
            self.shifted().x1 <= self.shifted().x2,
            self.shifted().x2 - self.shifted().x1 == 256 * (self.x2 - self.x1) + 255,
    {
    }

    /// Splitting always leaves at least one code word on each side.
    pub proof fn lemma_split(self, p: u32)
        requires
            self.valid(),
            p < 4096,
        ensures
            self.x1 <= self.split(p) < self.x2,
    {
        let r = self.x2 - self.x1;
        assert(0 <= r * p / 4096 < r) by (nonlinear_arith)
            requires
                r > 0,
                0 <= p < 4096,
        ;
    }

    /// No more than four bytes can settle at once.
    pub proof fn lemma_settled_len(self)
        requires
            self.x1 <= self.x2,
        ensures
            self.settled_bytes().len() <= 4,
    {
        self.lemma_settled_len_from(0);
    }

    proof fn lemma_settled_len_from(self, k: nat)
        requires
            self.x1 <= self.x2,
            k <= 4,
            self.x2 - self.x1 + 1 >= Self::width_after(k),
        ensures
            self.settled_bytes().len() <= 4 - k,
        decreases 4 - k,
    {
        if self.settled() {
            self.lemma_shift_widens();
            self.shifted().lemma_settled_len_from(k + 1);
        }
    }

    /// The least number of code words in an interval that has been shifted
    /// `k` times.
    spec fn width_after(k: nat) -> int {
        if k == 0 {
            1
        } else if k == 1 {
            0x100
        } else if k == 2 {
            0x1_0000
        } else if k == 3 {
            0x100_0000
        } else {
            0x1_0000_0000
        }
    }

    /// Dropping the settled bytes leaves a valid interval.
    pub proof fn lemma_unsettled_valid(self)
        requires
            self.x1 <= self.x2,
        ensures
            self.unsettled().valid(),
        decreases 0x1_0000_0000 - (self.x2 - self.x1),
    {
        if self.settled() {
            self.lemma_shift_widens();
            self.shifted().lemma_unsettled_valid();
        }
    }
}

/// Four bytes of `x`, leading byte first.
pub open spec fn word_bytes(x: u32) -> Seq<u8> {
    seq![
        (x / TOP) as u8,
        (x / 0x1_0000 % 256) as u8,
        (x / 256 % 256) as u8,
        (x % 256) as u8,
    ]
}

/// State of an encoder: the interval and what has been written.
#[verifier::ext_equal]
pub struct EncoderState {
    pub range: Interval,
    pub out: Seq<u8>,
}

impl EncoderState {
    pub open spec fn fresh() -> EncoderState {
        EncoderState { range: Interval::full(), out: Seq::empty() }
    }

    /// The state after `bit` has been coded with probability `p / 4096` of a 1.
    #[verifier::opaque]
    pub open spec fn encode(self, bit: bool, p: u32) -> EncoderState {
        let narrowed = self.range.narrow(bit, p);
        EncoderState { range: narrowed.unsettled(), out: self.out + narrowed.settled_bytes() }
    }

    /// The finished stream.
    pub open spec fn finish(self) -> Seq<u8> {
        self.out + word_bytes(self.range.x1)
    }
}

/// The last code word of the lower part of `x1..=x2`, for probability
/// `p / 4096`.
fn split(x1: u32, x2: u32, p: u32) -> (xmid: u32)
    requires
        x1 < x2,
        p < 4096,
    ensures
        xmid == (Interval { x1, x2 }).split(p),
        x1 <= xmid < x2,
{
    proof {
        (Interval { x1, x2 }).lemma_split(p);
    }
    let range: u32 = x2 - x1;
    let a: u32 = range / 4096;
    let b: u32 = range % 4096;
    assert(a * p <= 0xf_ffff * 4095 && b * p <= 4095 * 4095) by (nonlinear_arith)
        requires
            a <= 0xf_ffff,
            b <= 4095,
            0 <= p <= 4095,
    ;
    assert(a * p + (b * p) / 4096 == range * p / 4096) by (nonlinear_arith)
        requires
            range == 4096 * a + b,
            0 <= b,
            0 <= p,
    ;
    x1 + (a * p + (b * p) / 4096)
}

/// Encoder over an in-memory output buffer.
pub struct Encoder {
    x1: u32,
    x2: u32,
    pub out: Vec<u8>,
}

impl View for Encoder {
    type V = EncoderState;

    closed spec fn view(&self) -> EncoderState {
        EncoderState { range: Interval { x1: self.x1, x2: self.x2 }, out: self.out@ }
    }
}

impl Encoder {
    /// Room for `capacity` bytes is set aside.
    pub fn new(capacity: usize) -> (e: Self)
        requires
            capacity <= isize::MAX,
        ensures
            e@ == EncoderState::fresh(),
    {
        let e = Encoder { x1: 0, x2: 0xffff_ffff, out: Vec::with_capacity(capacity) };
        assert(e@ =~= EncoderState::fresh());
        e
    }

    /// Encode `bit` given `p` = P(bit == 1) scaled to 12 bits.
    pub fn encode(&mut self, bit: u32, p: u32)
        requires
            old(self)@.range.valid(),
            p < 4096,
        ensures
            final(self)@ == old(self)@.encode(bit != 0, p),
            final(self)@.range.valid(),
    {
        let xmid = split(self.x1, self.x2, p);
        if bit != 0 {
            self.x2 = xmid;
        } else {
            self.x1 = xmid + 1;
        }
        let ghost narrowed = old(self)@.range.narrow(bit != 0, p);
        proof {
            reveal(EncoderState::encode);
            narrowed.lemma_unsettled_valid();
            assert(self.out@ + narrowed.settled_bytes() =~= old(self)@.encode(bit != 0, p).out);
        }
        // Emit bytes whose value is already settled.
        while self.x1 / TOP == self.x2 / TOP
            invariant
                self.x1 <= self.x2,
                self@.range.unsettled() == narrowed.unsettled(),
                self.out@ + self@.range.settled_bytes() == old(self)@.encode(bit != 0, p).out,
            decreases 0x1_0000_0000 - (self.x2 - self.x1),
        {
            let ghost before = self@;
            proof {
                before.range.lemma_shift_widens();
            }
            self.out.push((self.x2 / TOP) as u8);
            self.x1 = (self.x1 % TOP) * 256;
            self.x2 = (self.x2 % TOP) * 256 + 255;
            assert(self@.range == before.range.shifted());
            assert(before.out + before.range.settled_bytes() =~= self.out@
                + self@.range.settled_bytes());
        }
        assert(self@.range.settled_bytes() =~= Seq::empty());
        assert(self.out@ =~= old(self)@.encode(bit != 0, p).out);
        assert(self@ =~= old(self)@.encode(bit != 0, p));
    }

    /// Flush the remaining state.
    pub fn finish(self) -> (out: Vec<u8>)
        ensures
            out@ == self@.finish(),
    {
        let mut out = self.out;
        let x = self.x1;
        out.push((x / TOP) as u8);
        out.push((x / 0x1_0000 % 256) as u8);
        out.push((x / 256 % 256) as u8);
        out.push((x % 256) as u8);
        assert(out@ =~= self@.finish());
        out
    }
}

/// The byte at `i`, with zeros past the end.
pub open spec fn byte_at(input: Seq<u8>, i: int) -> int {
    if 0 <= i < input.len() {
        input[i] as int
    } else {
        0
    }
}

/// The code word that starts at `i`.
pub open spec fn word_at(input: Seq<u8>, i: int) -> int {
    byte_at(input, i) * 0x100_0000 + byte_at(input, i + 1) * 0x1_0000 + byte_at(input, i + 2) * 256
        + byte_at(input, i + 3)
}

/// State of a decoder: the interval, the input, and how many bytes of the
/// input have been settled. The code word is the four bytes from there on.
#[verifier::ext_equal]
pub struct DecoderState {
    pub range: Interval,
    pub input: Seq<u8>,
    pub at: nat,
}

impl DecoderState {
    pub open spec fn fresh(input: Seq<u8>) -> DecoderState {
        DecoderState { range: Interval::full(), input, at: 0 }
    }

    /// The bit that comes next when a 1 has probability `p / 4096`.
    pub open spec fn bit(self, p: u32) -> bool {
        word_at(self.input, self.at as int) <= self.range.split(p)
    }

    /// The state once that bit has been taken.
    #[verifier::opaque]
    pub open spec fn decode(self, p: u32) -> DecoderState {
        let narrowed = self.range.narrow(self.bit(p), p);
        DecoderState {
            range: narrowed.unsettled(),
            input: self.input,
            at: self.at + narrowed.settled_bytes().len(),
        }
    }

    /// Taking a bit moves forward, by four bytes at the most.
    pub proof fn lemma_decode_advances(self, p: u32)
        ensures
            self.decode(p).input == self.input,
            self.at <= self.decode(p).at,
            self.range.valid() && p < 4096 ==> self.decode(p).at <= self.at + 4,
            self.range.valid() && p < 4096 ==> self.decode(p).range.valid(),
    {
        reveal(DecoderState::decode);
        if self.range.valid() && p < 4096 {
            self.range.lemma_split(p);
            self.range.narrow(self.bit(p), p).lemma_settled_len();
            self.range.narrow(self.bit(p), p).lemma_unsettled_valid();
        }
    }

    /// How many bytes have been read past the end of the input.
    pub open spec fn overrun(self) -> nat {
        if self.at + 4 > self.input.len() {
            (self.at + 4 - self.input.len()) as nat
        } else {
            0
        }
    }
}

/// Decoder over an in-memory input buffer.
pub struct Decoder<'a> {
    x1: u32,
    x2: u32,
    x: u32,
    inp: &'a [u8],
    pos: usize,
    overrun: usize,
}

impl<'a> View for Decoder<'a> {
    type V = DecoderState;

    closed spec fn view(&self) -> DecoderState {
        DecoderState {
            range: Interval { x1: self.x1, x2: self.x2 },
            input: self.inp@,
            at: (self.pos + self.overrun - 4) as nat,
        }
    }
}

impl<'a> Decoder<'a> {
    /// The code word and the counters agree with the input.
    pub closed spec fn wf(&self) -> bool {
        &&& self.x1 < self.x2
        &&& self.tracks()
        &&& self.pos + self.overrun >= 4
        &&& self.x == word_at(self.inp@, self.pos + self.overrun - 4)
    }

    /// `pos` stops at the end of the input, from where on `overrun` counts.
    spec fn tracks(&self) -> bool {
        &&& self.pos <= self.inp@.len()
        &&& self.overrun > 0 ==> self.pos == self.inp@.len()
    }

    pub fn new(inp: &'a [u8]) -> (d: Self)
        ensures
            d.wf(),
            d@ == DecoderState::fresh(inp@),
    {
        let mut d = Decoder { x1: 0, x2: 0xffff_ffff, x: 0, inp, pos: 0, overrun: 0 };
        let a = d.next_byte();
        let b = d.next_byte();
        let c = d.next_byte();
        let e = d.next_byte();
        d.x = a as u32 * 0x100_0000 + b as u32 * 0x1_0000 + c as u32 * 256 + e as u32;
        assert(d@ =~= DecoderState::fresh(inp@));
        d
    }

    /// How many bytes have been read past the end of the input. A well-formed
    /// archive never overruns; anything else is truncated or forged, and the
    /// caller should stop rather than decode an endless stream of zeros.
    pub fn overrun(&self) -> (n: usize)
        requires
            self.wf(),
        ensures
            n == self@.overrun(),
    {
        self.overrun
    }

    /// The next byte of the input, or zero past its end.
    fn next_byte(&mut self) -> (b: u8)
        requires
            old(self).tracks(),
            old(self).overrun < usize::MAX,
        ensures
            final(self).tracks(),
            final(self).inp == old(self).inp,
            final(self).x1 == old(self).x1,
            final(self).x2 == old(self).x2,
            final(self).x == old(self).x,
            final(self).pos + final(self).overrun == old(self).pos + old(self).overrun + 1,
            final(self).overrun <= old(self).overrun + 1,
            b as int == byte_at(old(self).inp@, old(self).pos + old(self).overrun),
    {
        if self.pos < self.inp.len() {
            let b = self.inp[self.pos];
            self.pos = self.pos + 1;
            b
        } else {
            self.overrun = self.overrun + 1;
            0
        }
    }

    /// Decode one bit given `p` = P(bit == 1) scaled to 12 bits.
    pub fn decode(&mut self, p: u32) -> (bit: u32)
        requires
            old(self).wf(),
            old(self)@.overrun() + 4 <= usize::MAX,
            p < 4096,
        ensures
            final(self).wf(),
            final(self)@ == old(self)@.decode(p),
            final(self)@.overrun() <= old(self)@.overrun() + 4,
            bit == (if old(self)@.bit(p) { 1u32 } else { 0u32 }),
    {
        let xmid = split(self.x1, self.x2, p);
        let bit: u32 = if self.x <= xmid { 1 } else { 0 };
        if bit != 0 {
            self.x2 = xmid;
        } else {
            self.x1 = xmid + 1;
        }
        let ghost narrowed = old(self)@.range.narrow(old(self)@.bit(p), p);
        proof {
            reveal(DecoderState::decode);
            narrowed.lemma_unsettled_valid();
            narrowed.lemma_settled_len();
        }
        while self.x1 / TOP == self.x2 / TOP
            invariant
                self.x1 <= self.x2,
                self.tracks(),
                self.inp == old(self).inp,
                self.pos + self.overrun >= 4,
                self.x == word_at(self.inp@, self.pos + self.overrun - 4),
                self.overrun + self@.range.settled_bytes().len() <= usize::MAX,
                self@.range.unsettled() == narrowed.unsettled(),
                self@.at + self@.range.settled_bytes().len() == old(self)@.decode(p).at,
            decreases 0x1_0000_0000 - (self.x2 - self.x1),
        {
            let ghost before = self@;
            proof {
                before.range.lemma_shift_widens();
            }
            self.x1 = (self.x1 % TOP) * 256;
            self.x2 = (self.x2 % TOP) * 256 + 255;
            assert(self@.range == before.range.shifted());
            let b = self.next_byte();
            self.x = (self.x % TOP) * 256 + b as u32;
        }
        assert(self@ =~= old(self)@.decode(p));
        bit
    }
}

/// The encoder after the first `k` of `bits`, each coded with its probability
/// in `ps`.
pub open spec fn encoded(bits: Seq<bool>, ps: Seq<u32>, k: nat) -> EncoderState
    decreases k,
{
    if k == 0 {
        EncoderState::fresh()
    } else {
        encoded(bits, ps, (k - 1) as nat).encode(bits[k - 1], ps[k - 1])
    }
}

/// The stream that `bits` are coded to.
pub open spec fn coded_stream(bits: Seq<bool>, ps: Seq<u32>) -> Seq<u8> {
    encoded(bits, ps, bits.len()).finish()
}

/// The decoder in step with `encoded(bits, ps, k)`.
pub open spec fn in_step(bits: Seq<bool>, ps: Seq<u32>, k: nat) -> DecoderState {
    DecoderState {
        range: encoded(bits, ps, k).range,
        input: coded_stream(bits, ps),
        at: encoded(bits, ps, k).out.len(),
    }
}

/// The interval of an encoder never closes.
proof fn lemma_encoded_valid(bits: Seq<bool>, ps: Seq<u32>, k: nat)
    requires
        k <= bits.len() == ps.len(),
        forall|i: int| 0 <= i < ps.len() ==> ps[i] < 4096,
    ensures
        encoded(bits, ps, k).range.valid(),
    decreases k,
{
    reveal(EncoderState::encode);
    if k > 0 {
        lemma_encoded_valid(bits, ps, (k - 1) as nat);
        let e = encoded(bits, ps, (k - 1) as nat);
        e.range.lemma_split(ps[k - 1]);
        e.range.narrow(bits[k - 1], ps[k - 1]).lemma_unsettled_valid();
    }
}

/// What an encoder has written is never taken back.
proof fn lemma_encoded_prefix(bits: Seq<bool>, ps: Seq<u32>, k: nat)
    requires
        k <= bits.len(),
    ensures
        encoded(bits, ps, k).out.len() + 4 <= coded_stream(bits, ps).len(),
        coded_stream(bits, ps).take(encoded(bits, ps, k).out.len() as int) == encoded(
            bits,
            ps,
            k,
        ).out,
    decreases bits.len() - k,
{
    reveal(EncoderState::encode);
    let s = coded_stream(bits, ps);
    let e = encoded(bits, ps, k);
    if k == bits.len() {
        assert(s.take(e.out.len() as int) =~= e.out);
    } else {
        lemma_encoded_prefix(bits, ps, k + 1);
        let f = encoded(bits, ps, k + 1);
        assert(s.take(f.out.len() as int).take(e.out.len() as int) =~= s.take(e.out.len() as int));
        assert(f.out.take(e.out.len() as int) =~= e.out);
    }
}

/// A code word of the shifted interval, with the settled byte in front of it,
/// is a code word of the interval.
proof fn lemma_word_back(r: Interval, s: Seq<u8>, at: int)
    requires
        r.x1 <= r.x2,
        0 <= at,
        at + r.settled_bytes().len() <= s.len(),
        s.subrange(at, at + r.settled_bytes().len()) == r.settled_bytes(),
        r.unsettled().x1 <= word_at(s, at + r.settled_bytes().len()) <= r.unsettled().x2,
    ensures
        r.x1 <= word_at(s, at) <= r.x2,
    decreases 0x1_0000_0000 - (r.x2 - r.x1),
{
    if r.settled() {
        r.lemma_shift_widens();
        let n = r.settled_bytes().len() as int;
        let rest = r.shifted().settled_bytes();
        assert(r.settled_bytes() == seq![(r.x2 / TOP) as u8] + rest);
        assert(s.subrange(at + 1, at + n) =~= rest) by {
            assert(s.subrange(at + 1, at + n) =~= s.subrange(at, at + n).skip(1));
            assert(r.settled_bytes().skip(1) =~= rest);
        }
        lemma_word_back(r.shifted(), s, at + 1);
        assert(s[at] == s.subrange(at, at + n)[0]);
        assert(s[at] == (r.x2 / TOP) as u8);
    }
}

/// At every point the stream continues with a code word of the interval.
proof fn lemma_word_in_range(bits: Seq<bool>, ps: Seq<u32>, k: nat)
    requires
        k <= bits.len() == ps.len(),
        forall|i: int| 0 <= i < ps.len() ==> ps[i] < 4096,
    ensures
        ({
            let e = encoded(bits, ps, k);
            e.range.x1 <= word_at(coded_stream(bits, ps), e.out.len() as int) <= e.range.x2
        }),
        k < bits.len() ==> ({
            let e = encoded(bits, ps, k);
            let n = e.range.narrow(bits[k as int], ps[k as int]);
            n.x1 <= word_at(coded_stream(bits, ps), e.out.len() as int) <= n.x2
        }),
    decreases bits.len() - k,
{
    reveal(EncoderState::encode);
    let s = coded_stream(bits, ps);
    let e = encoded(bits, ps, k);
    lemma_encoded_valid(bits, ps, k);
    if k == bits.len() {
        let n = e.out.len() as int;
        let w = word_bytes(e.range.x1);
        assert(s[n] == w[0] && s[n + 1] == w[1] && s[n + 2] == w[2] && s[n + 3] == w[3]);
        assert(word_at(s, n) == e.range.x1);
    } else {
        let f = encoded(bits, ps, k + 1);
        let n = e.range.narrow(bits[k as int], ps[k as int]);
        lemma_word_in_range(bits, ps, k + 1);
        lemma_encoded_prefix(bits, ps, k + 1);
        e.range.lemma_split(ps[k as int]);
        let at = e.out.len() as int;
        assert(s.subrange(at, at + n.settled_bytes().len()) =~= n.settled_bytes()) by {
            assert(s.subrange(at, at + n.settled_bytes().len()) =~= s.take(
                f.out.len() as int,
            ).skip(at));
            assert(f.out.skip(at) =~= n.settled_bytes());
        }
        lemma_word_back(n, s, at);
    }
}

/// Decoding undoes encoding: a decoder that is given the probabilities the
/// encoder was given reads back the very bits, and stays in step with it.
pub proof fn law_decoder_follows_encoder(bits: Seq<bool>, ps: Seq<u32>, k: nat)
    requires
        k < bits.len() == ps.len(),
        forall|i: int| 0 <= i < ps.len() ==> ps[i] < 4096,
    ensures
        in_step(bits, ps, 0) == DecoderState::fresh(coded_stream(bits, ps)),
        in_step(bits, ps, k).bit(ps[k as int]) == bits[k as int],
        in_step(bits, ps, k).decode(ps[k as int]) == in_step(bits, ps, k + 1),
{
    reveal(EncoderState::encode);
    reveal(DecoderState::decode);
    lemma_encoded_valid(bits, ps, k);
    lemma_word_in_range(bits, ps, k);
    let e = encoded(bits, ps, k);
    e.range.lemma_split(ps[k as int]);
    assert(in_step(bits, ps, k).decode(ps[k as int]) =~= in_step(bits, ps, k + 1));
    assert(in_step(bits, ps, 0) =~= DecoderState::fresh(coded_stream(bits, ps)));
}

/// A decoder never reads past the end of a stream that an encoder finished.
pub proof fn law_finished_stream_never_overruns(bits: Seq<bool>, ps: Seq<u32>, k: nat)
    requires
        k <= bits.len(),
    ensures
        in_step(bits, ps, k).overrun() == 0,
{
    lemma_encoded_prefix(bits, ps, k);
}

/// What it has cost so far to narrow the code words down to `w` of them, in
/// steps of which 4096 halve their number: nothing for all of them, and `32 *
/// 4096` for a single one. Between two powers of two the cost is linear.
pub open spec fn cost(w: int) -> int
    decreases 0x1_0000_0000 - w,
{
    if w < 1 {
        0
    } else if w >= 0x8000_0000 {
        8192 - w / 0x8_0000
    } else {
        cost(2 * w) + 4096
    }
}

proof fn lemma_cost_range(w: int)
    requires
        1 <= w <= 0x1_0000_0000,
    ensures
        0 <= cost(w) <= 0x2_0000,
{
    lemma_cost_ordered(w, 0x1_0000_0000);
    lemma_cost_ordered(1, w);
    assert(cost(1) == 0x2_0000) by {
        reveal_with_fuel(cost, 33);
    }
}

/// The fewer code words are left, the more it has cost.
proof fn lemma_cost_ordered(w: int, more: int)
    requires
        1 <= w <= more <= 0x1_0000_0000,
    ensures
        cost(w) >= cost(more),
    decreases 0x1_0000_0000 - w,
{
    if w < 0x8000_0000 {
        if more < 0x8000_0000 {
            lemma_cost_ordered(2 * w, 2 * more);
        } else {
            lemma_cost_ordered(2 * w, 0x1_0000_0000);
        }
    }
}

/// A doubling gives 4096 steps back.
proof fn lemma_cost_doubled(w: int)
    requires
        1 <= w <= 0x8000_0000,
    ensures
        cost(2 * w) == cost(w) - 4096,
{
}

/// A byte of precision gives eight halvings back.
proof fn lemma_cost_shifted(w: int)
    requires
        1 <= w <= 0x100_0000,
    ensures
        cost(256 * w) == cost(w) - 0x8000,
{
    lemma_cost_doubled(w);
    lemma_cost_doubled(2 * w);
    lemma_cost_doubled(4 * w);
    lemma_cost_doubled(8 * w);
    lemma_cost_doubled(16 * w);
    lemma_cost_doubled(32 * w);
    lemma_cost_doubled(64 * w);
    lemma_cost_doubled(128 * w);
}

/// Losing one code word in 4096, rounded up, costs at least one step.
proof fn lemma_cost_grows(w: int, less: int)
    requires
        1 <= less,
        w <= 0x1_0000_0000,
        less <= w - 1 - (w - 1) / 4096,
    ensures
        cost(less) >= cost(w) + 1,
    decreases 0x1_0000_0000 - w,
{
    if w >= 0x8000_0000 {
        if less < 0x8000_0000 {
            assert(cost(less) == cost(2 * less) + 4096);
            if 2 * less < 0x8000_0000 {
                lemma_cost_range(4 * less);
            }
        }
    } else {
        lemma_cost_grows(2 * w, 2 * less);
    }
}

impl Interval {
    /// How many code words are left.
    pub open spec fn width(self) -> int {
        self.x2 - self.x1 + 1
    }

    /// Coding a bit costs at least one step.
    proof fn lemma_narrow_cost(self, bit: bool, p: u32)
        requires
            self.valid(),
            1 <= p <= 4094,
        ensures
            self.narrow(bit, p).x1 <= self.narrow(bit, p).x2,
            cost(self.narrow(bit, p).width()) >= cost(self.width()) + 1,
    {
        self.lemma_split(p);
        let r = self.x2 - self.x1;
        assert(r / 4096 <= r * p / 4096 <= r - (r + 2047) / 2048) by (nonlinear_arith)
            requires
                r >= 1,
                1 <= p <= 4094,
        ;
        lemma_cost_grows(self.width(), self.narrow(bit, p).width());
    }

    /// Every settled byte gives eight halvings back.
    proof fn lemma_settled_cost(self)
        requires
            self.x1 <= self.x2,
        ensures
            cost(self.unsettled().width()) + 0x8000 * self.settled_bytes().len() == cost(
                self.width(),
            ),
        decreases 0x1_0000_0000 - (self.x2 - self.x1),
    {
        if self.settled() {
            self.lemma_shift_widens();
            lemma_cost_shifted(self.width());
            self.shifted().lemma_settled_cost();
        }
    }
}

/// The bits coded so far are paid for by the bytes written and by the interval.
proof fn lemma_encoded_cost(bits: Seq<bool>, ps: Seq<u32>, k: nat)
    requires
        k <= bits.len() == ps.len(),
        forall|i: int| 0 <= i < ps.len() ==> 1 <= #[trigger] ps[i] <= 4094,
    ensures
        k <= 0x8000 * encoded(bits, ps, k).out.len() + cost(encoded(bits, ps, k).range.width()),
    decreases k,
{
    reveal(EncoderState::encode);
    if k > 0 {
        lemma_encoded_cost(bits, ps, (k - 1) as nat);
        lemma_encoded_valid(bits, ps, (k - 1) as nat);
        let e = encoded(bits, ps, (k - 1) as nat);
        let n = e.range.narrow(bits[k - 1], ps[k - 1]);
        e.range.lemma_narrow_cost(bits[k - 1], ps[k - 1]);
        n.lemma_settled_cost();
    }
}

/// Coding cannot shrink without bound: where no probability is below 1/4096 or
/// above 4094/4096, a byte of the stream stands for 32768 bits at the most.
pub proof fn law_expansion_is_bounded(bits: Seq<bool>, ps: Seq<u32>)
    requires
        bits.len() == ps.len(),
        forall|i: int| 0 <= i < ps.len() ==> 1 <= #[trigger] ps[i] <= 4094,
    ensures
        bits.len() <= 0x8000 * coded_stream(bits, ps).len(),
{
    lemma_encoded_cost(bits, ps, bits.len());
    lemma_encoded_valid(bits, ps, bits.len());
    lemma_cost_range(encoded(bits, ps, bits.len()).range.width());
}

/// The interval is split in proportion to the probability: a 1 has the lower
/// part, which is that share of it to within one code word, and a 0 the rest.
pub proof fn law_split_is_in_proportion(r: Interval, p: u32)
    requires
        r.x1 < r.x2,
        p < 4096,
    ensures
        ({
            let lower = r.narrow(true, p);
            let upper = r.narrow(false, p);
            let share = lower.x2 - r.x1;
            &&& 4096 * share <= (r.x2 - r.x1) * p < 4096 * share + 4096
            &&& lower.x1 == r.x1 && upper.x1 == lower.x2 + 1 && upper.x2 == r.x2
        }),
{
    r.lemma_split(p);
}

/// A byte leaves the interval once all code words agree on it, and precision
/// moves up in its place.
pub proof fn law_agreed_bytes_leave(r: Interval)
    requires
        r.x1 <= r.x2,
    ensures
        r.x1 / 0x100_0000 != r.x2 / 0x100_0000 ==> r.settled_bytes().len() == 0 && r.unsettled()
            == r,
        r.x1 / 0x100_0000 == r.x2 / 0x100_0000 ==> ({
            let s = Interval {
                x1: (r.x1 % 0x100_0000 * 256) as u32,
                x2: (r.x2 % 0x100_0000 * 256 + 255) as u32,
            };
            &&& r.settled_bytes() == seq![(r.x1 / 0x100_0000) as u8] + s.settled_bytes()
            &&& r.unsettled() == s.unsettled()
        }),
{
    if r.x1 / 0x100_0000 == r.x2 / 0x100_0000 {
        r.lemma_shift_widens();
    }
}

/// Coding begins with every code word and nothing written; a bit narrows the
/// interval and lets the agreed bytes out; and at the end the lower end of the
/// interval is written, highest byte first.
pub proof fn law_coding(e: EncoderState, bit: bool, p: u32)
    ensures
        EncoderState::fresh().range == (Interval { x1: 0, x2: 0xffff_ffff }),
        EncoderState::fresh().out.len() == 0,
        e.encode(bit, p).range == e.range.narrow(bit, p).unsettled(),
        e.encode(bit, p).out == e.out + e.range.narrow(bit, p).settled_bytes(),
        e.finish().len() == e.out.len() + 4,
        e.finish().take(e.out.len() as int) == e.out,
        ({
            let f = e.finish();
            let n = e.out.len() as int;
            ((f[n] * 256 + f[n + 1]) * 256 + f[n + 2]) * 256 + f[n + 3] == e.range.x1
        }),
{
    reveal(EncoderState::encode);
    assert(e.finish().take(e.out.len() as int) =~= e.out);
}

/// Decoding begins with every code word at the first four bytes; a bit is a 1
/// where the code word lies in its part; and the decoder moves on by the bytes
/// that are agreed. Past the end it reads zeros, and counts them.
pub proof fn law_decoding(d: DecoderState, p: u32, input: Seq<u8>, i: int)
    requires
        d.range.x1 < d.range.x2,
        p < 4096,
    ensures
        DecoderState::fresh(input).range == (Interval { x1: 0, x2: 0xffff_ffff }),
        DecoderState::fresh(input).input == input && DecoderState::fresh(input).at == 0,
        d.bit(p) <==> word_at(d.input, d.at as int) <= d.range.narrow(true, p).x2,
        d.decode(p).range == d.range.narrow(d.bit(p), p).unsettled(),
        d.decode(p).at == d.at + d.range.narrow(d.bit(p), p).settled_bytes().len(),
        d.decode(p).input == d.input,
        d.overrun() > 0 <==> d.at + 4 > d.input.len(),
        d.overrun() > 0 ==> d.overrun() == d.at + 4 - d.input.len(),
        0 <= i && i + 4 <= input.len() ==> word_at(input, i) == ((input[i] * 256 + input[i + 1])
            * 256 + input[i + 2]) * 256 + input[i + 3],
        i >= input.len() ==> word_at(input, i) == 0,
        0 <= i < input.len() ==> word_at(input, i) / 0x100_0000 == input[i],
{
    reveal(DecoderState::decode);
    d.range.lemma_split(p);
}

} // verus!

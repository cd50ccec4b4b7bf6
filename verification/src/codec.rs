//! The payload of an archive: every bit of the data, coded with the
//! probability that the model gave to it.

use vstd::arithmetic::power2::pow2;
use vstd::prelude::*;

#[allow(unused_imports)]
use crate::history::{be_value, last_eight, lemma_last_eight};
#[allow(unused_imports)]
use crate::model::{law_probability_range, lemma_bit_known, Model};
use crate::model::Predictor;
use crate::progress::{Meter, TotalMeter};
#[allow(unused_imports)]
use crate::progress::{lemma_marks, marks, reports, stride};
#[allow(unused_imports)]
use crate::rc::{
    coded_stream, encoded, in_step, law_decoder_follows_encoder, law_expansion_is_bounded,
    law_finished_stream_never_overruns, word_at, DecoderState, EncoderState,
};
use crate::rc::{Decoder, Encoder};

verus! {

/// Cap on the output buffer reserved up front. Beyond this the vector simply
/// grows as bytes are produced, so a hostile size field cannot turn into a
/// single huge allocation.
pub const MAX_PREALLOC: usize = 0x40_0000;

/// Bit `k` of `data`, most significant bit of each byte first.
pub open spec fn bit_at(data: Seq<u8>, k: int) -> bool {
    data[k / 8] as int / (pow2((7 - k % 8) as nat) as int) % 2 == 1
}

/// The bits of `data`.
pub open spec fn bits_of(data: Seq<u8>) -> Seq<bool> {
    Seq::new(data.len() * 8, |k: int| bit_at(data, k))
}

/// The number whose binary digits are the `n` bits from `from` on.
pub open spec fn bits_value(bits: Seq<bool>, from: int, n: nat) -> nat
    decreases n,
{
    if n == 0 {
        0
    } else {
        bits_value(bits, from, (n - 1) as nat) * 2 + (if bits[from + n - 1] {
            1nat
        } else {
            0
        })
    }
}

/// The bytes that `bits` make up.
pub open spec fn bytes_of(bits: Seq<bool>) -> Seq<u8> {
    Seq::new(bits.len() / 8, |i: int| bits_value(bits, i * 8, 8) as u8)
}

/// The model once it has seen the first `k` of `bits`.
pub open spec fn trained(bits: Seq<bool>, level: u8, k: nat) -> Model
    decreases k,
{
    if k == 0 {
        Model::fresh(level)
    } else {
        trained(bits, level, (k - 1) as nat).select().learn(bits[k - 1])
    }
}

/// The probability that the model gives to each of `bits` being a 1, knowing
/// those before it.
pub open spec fn chances(bits: Seq<bool>, level: u8) -> Seq<u32> {
    Seq::new(bits.len(), |k: int| trained(bits, level, k as nat).select().pr())
}

/// The payload that `data` is coded to.
pub open spec fn payload(data: Seq<u8>, level: u8) -> Seq<u8> {
    coded_stream(bits_of(data), chances(bits_of(data), level))
}

/// A decoder and its model, and the bits that they have brought out.
#[verifier::ext_equal]
pub struct Decoding {
    pub model: Model,
    pub coder: DecoderState,
    pub bits: Seq<bool>,
}

/// The decoding of `input` after `k` bits.
pub open spec fn decoding(input: Seq<u8>, level: u8, k: nat) -> Decoding
    decreases k,
{
    if k == 0 {
        Decoding {
            model: Model::fresh(level),
            coder: DecoderState::fresh(input),
            bits: Seq::empty(),
        }
    } else {
        let d = decoding(input, level, (k - 1) as nat);
        let model = d.model.select();
        let bit = d.coder.bit(model.pr());
        Decoding {
            model: model.learn(bit),
            coder: d.coder.decode(model.pr()),
            bits: d.bits.push(bit),
        }
    }
}

/// `input` has been read past its end once `n` bytes are out. Where none are
/// asked for, nothing has to be there.
pub open spec fn runs_out(input: Seq<u8>, level: u8, n: nat) -> bool {
    n > 0 && decoding(input, level, n * 8).coder.overrun() > 0
}

/// The first `n` marks of a decoding to `len` bytes, without those at which
/// the payload had run out.
pub open spec fn decode_marks(input: Seq<u8>, level: u8, len: usize, n: nat) -> Seq<(usize, usize)>
    decreases n,
{
    if n == 0 {
        Seq::empty()
    } else {
        let before = decode_marks(input, level, len, (n - 1) as nat);
        if runs_out(input, level, n * stride(len as nat)) {
            before
        } else {
            before.push(((n * stride(len as nat)) as usize, len))
        }
    }
}

/// What is reported of a decoding to `len` bytes: every mark that is reached
/// before the payload runs out, and the end if it does not.
pub open spec fn decode_reports(input: Seq<u8>, level: u8, len: usize) -> Seq<(usize, usize)> {
    let before = decode_marks(input, level, len, len as nat / stride(len as nat));
    if runs_out(input, level, len as nat) {
        before
    } else {
        before.push((len, len))
    }
}

/// Eight bits of a byte make up that byte.
proof fn lemma_bits_of_byte(data: Seq<u8>, i: int, n: nat)
    requires
        0 <= i < data.len(),
        n <= 8,
    ensures
        bits_value(bits_of(data), i * 8, n) == data[i] as int / (pow2((8 - n) as nat) as int),
    decreases n,
{
    vstd::arithmetic::power2::lemma2_to64();
    if n > 0 {
        lemma_bits_of_byte(data, i, (n - 1) as nat);
        let k = i * 8 + n - 1;
        assert(k / 8 == i && k % 8 == n - 1);
        assert(bits_of(data)[k] == bit_at(data, k));
        vstd::arithmetic::power2::lemma_pow2_unfold((9 - n) as nat);
        vstd::arithmetic::power2::lemma_pow2_pos((8 - n) as nat);
        let b = data[i] as int;
        let w = pow2((8 - n) as nat) as int;
        assert(pow2((9 - n) as nat) == w * 2);
        vstd::arithmetic::div_mod::lemma_div_denominator(b, w, 2);
        assert(bits_value(bits_of(data), i * 8, (n - 1) as nat) == b / w / 2);
        assert(bits_of(data)[i * 8 + n - 1] == (b / w % 2 == 1));
    } else {
        assert(data[i] as int / 256 == 0);
    }
}

/// The bits of `data` make up `data`.
pub proof fn law_bytes_of_bits(data: Seq<u8>)
    ensures
        bytes_of(bits_of(data)) == data,
{
    vstd::arithmetic::power2::lemma2_to64();
    assert forall|i: int| 0 <= i < data.len() implies #[trigger] bytes_of(bits_of(data))[i]
        == data[i] by {
        lemma_bits_of_byte(data, i, 8);
        assert(data[i] as int / 1 == data[i]);
    }
    assert(bytes_of(bits_of(data)) =~= data);
}

/// A value depends on its own bits only.
proof fn lemma_bits_value_prefix(a: Seq<bool>, b: Seq<bool>, from: int, n: nat)
    requires
        0 <= from,
        from + n <= a.len() <= b.len(),
        forall|i: int| 0 <= i < a.len() ==> #[trigger] b[i] == a[i],
    ensures
        bits_value(a, from, n) == bits_value(b, from, n),
    decreases n,
{
    if n > 0 {
        lemma_bits_value_prefix(a, b, from, (n - 1) as nat);
        assert(b[from + n - 1] == a[from + n - 1]);
    }
}

/// Eight bits are a byte.
proof fn lemma_bits_value_bound(bits: Seq<bool>, from: int, n: nat)
    ensures
        bits_value(bits, from, n) < pow2(n),
    decreases n,
{
    vstd::arithmetic::power2::lemma2_to64();
    if n > 0 {
        lemma_bits_value_bound(bits, from, (n - 1) as nat);
        vstd::arithmetic::power2::lemma_pow2_unfold(n);
    }
}

/// Every probability is one that the coder takes.
proof fn lemma_chances(bits: Seq<bool>, level: u8)
    ensures
        forall|k: int|
            0 <= k < bits.len() ==> 1 <= (#[trigger] chances(bits, level)[k]) <= 4094,
{
    assert forall|k: int| 0 <= k < bits.len() implies 1 <= (#[trigger] chances(bits, level)[k])
        <= 4094 by {
        law_probability_range(trained(bits, level, k as nat));
    }
}

/// Decoding reads back the data bit by bit, with the model in the state that
/// it had when each bit was coded.
pub proof fn law_decoding_follows(data: Seq<u8>, level: u8, k: nat)
    requires
        k <= data.len() * 8,
    ensures
        decoding(payload(data, level), level, k).model == trained(bits_of(data), level, k),
        decoding(payload(data, level), level, k).bits == bits_of(data).take(k as int),
        decoding(payload(data, level), level, k).coder.overrun() == 0,
{
    lemma_decoding_in_step(data, level, k);
    law_finished_stream_never_overruns(bits_of(data), chances(bits_of(data), level), k);
}

proof fn lemma_decoding_in_step(data: Seq<u8>, level: u8, k: nat)
    requires
        k <= data.len() * 8,
    ensures
        decoding(payload(data, level), level, k) == (Decoding {
            model: trained(bits_of(data), level, k),
            coder: in_step(bits_of(data), chances(bits_of(data), level), k),
            bits: bits_of(data).take(k as int),
        }),
    decreases k,
{
    let bits = bits_of(data);
    let ps = chances(bits, level);
    lemma_chances(bits, level);
    if k == 0 {
        assert(in_step(bits, ps, 0) =~= DecoderState::fresh(coded_stream(bits, ps)));
        assert(bits.take(0) =~= Seq::empty());
    } else {
        lemma_decoding_in_step(data, level, (k - 1) as nat);
        law_decoder_follows_encoder(bits, ps, (k - 1) as nat);
        assert(bits.take(k as int) =~= bits.take(k - 1).push(bits[k - 1]));
    }
}

/// The model keeps account of what it has seen: the whole bytes so far, the last
/// eight of them as a number, and the bits of the byte that has begun, with a 1
/// in front. Between two bytes there are none of these.
pub proof fn law_history_is_the_data(data: Seq<u8>, level: u8, k: nat)
    requires
        k <= data.len() * 8,
    ensures
        ({
            let m = trained(bits_of(data), level, k);
            &&& m.history.buf == data.take((k / 8) as int)
            &&& m.history.hist == be_value(last_eight(data.take((k / 8) as int)))
            &&& m.bitpos == k % 8
            &&& m.c0 == pow2(k % 8) + bits_value(bits_of(data), k - k % 8, k % 8)
            &&& pow2(k % 8) <= m.c0 < 2 * pow2(k % 8)
            &&& 1 <= m.c0 < 256
            &&& k % 8 == 0 ==> m.c0 == 1
        }),
    decreases k,
{
    let bits = bits_of(data);
    let r = k % 8;
    lemma_bits_value_bound(bits, k - r, r);
    assert(pow2(0) == 1 && pow2(8) == 256 && 1 <= pow2(r) <= 128) by {
        vstd::arithmetic::power2::lemma2_to64();
    }
    if k == 0 {
        reveal(Model::fresh);
        assert(data.take(0) =~= Seq::empty());
    } else {
        let j = (k - 1) as nat;
        let m = trained(bits, level, j);
        law_history_is_the_data(data, level, j);
        lemma_bit_known(m, bits[j as int]);
        let q = j % 8;
        let from = j - q;
        assert(bits_value(bits, from, q + 1) == bits_value(bits, from, q) * 2 + (if bits[j as int] {
            1nat
        } else {
            0
        }));
        vstd::arithmetic::power2::lemma_pow2_unfold(q + 1);
        lemma_bits_value_bound(bits, from, q + 1);
        assert(pow2(q + 1) <= 256) by {
            vstd::arithmetic::power2::lemma2_to64();
        }
        if q == 7 {
            let i = (j / 8) as int;
            assert(from == i * 8 && k / 8 == i + 1 && r == 0);
            lemma_bits_of_byte(data, i, 8);
            assert(bits_value(bits, from, 8) == data[i]) by {
                vstd::arithmetic::div_mod::lemma_div_basics(data[i] as int);
            }
            assert(data.take(i + 1) =~= data.take(i).push(data[i]));
            lemma_last_eight(data.take(i), m.history.hist, data[i]);
        } else {
            assert(k / 8 == j / 8 && r == q + 1 && k - r == from);
        }
    }
}

/// A payload byte stands for 4096 bytes of the data at the most.
pub proof fn law_payload_expansion(data: Seq<u8>, level: u8)
    ensures
        data.len() <= 4096 * payload(data, level).len(),
{
    lemma_chances(bits_of(data), level);
    law_expansion_is_bounded(bits_of(data), chances(bits_of(data), level));
}

/// A stream of which the end is missing is decoded as the whole one is, until
/// the missing part is reached.
proof fn lemma_cut_follows(input: Seq<u8>, level: u8, n: nat, k: nat)
    requires
        n <= input.len(),
    ensures
        ({
            let d = decoding(input.take(n as int), level, k);
            let e = decoding(input, level, k);
            d.coder.overrun() > 0 || {
                &&& d.model == e.model
                &&& d.coder.range == e.coder.range
                &&& d.coder.at == e.coder.at
                &&& d.bits == e.bits
            }
        }),
    decreases k,
{
    let cut = input.take(n as int);
    lemma_overrun_grows(cut, level, k, k);
    if k > 0 {
        lemma_cut_follows(input, level, n, (k - 1) as nat);
        lemma_overrun_grows(cut, level, (k - 1) as nat, k);
        lemma_overrun_grows(cut, level, (k - 1) as nat, (k - 1) as nat);
        lemma_overrun_grows(input, level, (k - 1) as nat, (k - 1) as nat);
        let d = decoding(cut, level, (k - 1) as nat);
        let e = decoding(input, level, (k - 1) as nat);
        if d.coder.overrun() == 0 {
            let at = d.coder.at as int;
            assert(word_at(cut, at) == word_at(input, at));
            reveal(DecoderState::decode);
        }
    }
}

/// A payload of which any part at the end is missing runs out.
pub proof fn law_cut_payload_runs_out(data: Seq<u8>, level: u8, n: nat)
    requires
        data.len() > 0,
        n < payload(data, level).len(),
    ensures
        runs_out(payload(data, level).take(n as int), level, data.len()),
{
    let k = data.len() * 8;
    let s = payload(data, level);
    lemma_decoding_in_step(data, level, k);
    lemma_cut_follows(s, level, n, k);
    lemma_overrun_grows(s.take(n as int), level, k, k);
}

/// The overrun never shrinks.
proof fn lemma_overrun_grows(input: Seq<u8>, level: u8, j: nat, k: nat)
    requires
        j <= k,
    ensures
        decoding(input, level, k).coder.input == input,
        decoding(input, level, j).coder.at <= decoding(input, level, k).coder.at,
        decoding(input, level, j).coder.overrun() <= decoding(input, level, k).coder.overrun(),
    decreases k,
{
    if k > 0 {
        let d = decoding(input, level, (k - 1) as nat);
        d.coder.lemma_decode_advances(d.model.select().pr());
        if j < k {
            lemma_overrun_grows(input, level, j, (k - 1) as nat);
        } else {
            lemma_overrun_grows(input, level, (k - 1) as nat, (k - 1) as nat);
        }
    }
}

/// A payload that has run out stays so.
proof fn lemma_runs_out_stays(input: Seq<u8>, level: u8, m: nat, n: nat)
    requires
        m <= n,
        runs_out(input, level, m),
    ensures
        runs_out(input, level, n),
{
    lemma_overrun_grows(input, level, m * 8, n * 8);
}

/// Once the payload has run out, no mark is reported any more.
proof fn lemma_decode_marks_stop(input: Seq<u8>, level: u8, len: usize, m: nat, n: nat)
    requires
        m <= n,
        runs_out(input, level, (m + 1) * stride(len as nat)),
    ensures
        decode_marks(input, level, len, n) == decode_marks(input, level, len, m),
    decreases n,
{
    if m < n {
        lemma_decode_marks_stop(input, level, len, m, (n - 1) as nat);
        let s = stride(len as nat);
        assert((m + 1) * s <= n * s) by (nonlinear_arith)
            requires
                m + 1 <= n,
                s >= 0,
        ;
        lemma_runs_out_stays(input, level, (m + 1) * s, n * s);
    }
}

/// A decoding that has run out at byte `i`, between the marks `done` and
/// `done + 1`, reports those up to `done` and nothing else.
proof fn lemma_stopped(input: Seq<u8>, level: u8, len: usize, i: nat, done: nat)
    requires
        done * stride(len as nat) <= i <= len,
        i <= (done + 1) * stride(len as nat),
        runs_out(input, level, i),
    ensures
        runs_out(input, level, len as nat),
        decode_reports(input, level, len) == decode_marks(input, level, len, done),
{
    let s = stride(len as nat);
    lemma_runs_out_stays(input, level, i, len as nat);
    lemma_runs_out_stays(input, level, i, (done + 1) * s);
    assert((done + 1) * s == done * s + s) by (nonlinear_arith);
    if (done + 1) * s <= len {
        lemma_marks(len as nat, done);
        lemma_decode_marks_stop(input, level, len, done, len as nat / s);
    } else {
        lemma_quotient(len as nat, s, done);
    }
}

/// Eight more bits are one more byte.
proof fn lemma_bytes_grow(a: Seq<bool>, b: Seq<bool>)
    requires
        a.len() % 8 == 0,
        b.len() == a.len() + 8,
        b.take(a.len() as int) == a,
    ensures
        bytes_of(b) == bytes_of(a).push(bits_value(b, a.len() as int, 8) as u8),
{
    assert forall|i: int| 0 <= i < a.len() implies #[trigger] b[i] == a[i] by {
        assert(b.take(a.len() as int)[i] == b[i]);
    }
    assert forall|i: int| 0 <= i < a.len() / 8 implies #[trigger] bytes_of(b)[i] == bytes_of(
        a,
    )[i] by {
        lemma_bits_value_prefix(a, b, i * 8, 8);
    }
    assert(bytes_of(b) =~= bytes_of(a).push(bits_value(b, a.len() as int, 8) as u8));
}

/// A decoding that does not run out makes the reports that the encoding made,
/// each with the total.
pub proof fn law_decode_reports(input: Seq<u8>, level: u8, len: usize)
    requires
        !runs_out(input, level, len as nat),
    ensures
        decode_reports(input, level, len) == Seq::new(
            reports(len as nat).len(),
            |i: int| (reports(len as nat)[i], len),
        ),
{
    let n = len as nat / stride(len as nat);
    lemma_all_marks(input, level, len, n);
    let all = Seq::new(reports(len as nat).len(), |i: int| (reports(len as nat)[i], len));
    assert(decode_reports(input, level, len) =~= all);
}

proof fn lemma_all_marks(input: Seq<u8>, level: u8, len: usize, n: nat)
    requires
        !runs_out(input, level, len as nat),
        n <= len as nat / stride(len as nat),
    ensures
        decode_marks(input, level, len, n) == Seq::new(n, |i: int| (marks(len as nat)[i], len)),
    decreases n,
{
    let s = stride(len as nat);
    let all = Seq::new(n, |i: int| (marks(len as nat)[i], len));
    if n > 0 {
        lemma_all_marks(input, level, len, (n - 1) as nat);
        assert(n * s <= len) by {
            let q = len as nat / s;
            vstd::arithmetic::div_mod::lemma_fundamental_div_mod(len as int, s as int);
            assert(n * s <= s * q) by (nonlinear_arith)
                requires
                    n <= q,
                    s > 0,
            ;
        }
        if runs_out(input, level, n * s) {
            lemma_runs_out_stays(input, level, n * s, len as nat);
        }
        let before = Seq::new((n - 1) as nat, |i: int| (marks(len as nat)[i], len));
        assert(all =~= before.push(((n * s) as usize, len)));
    } else {
        assert(all =~= Seq::empty());
    }
}

/// The bits that have been decoded number `k`.
pub proof fn lemma_decoding_len(input: Seq<u8>, level: u8, k: nat)
    ensures
        decoding(input, level, k).bits.len() == k,
    decreases k,
{
    if k > 0 {
        lemma_decoding_len(input, level, (k - 1) as nat);
    }
}

/// `n / d` is `q` where `n` lies between `q` and `q + 1` times `d`.
proof fn lemma_quotient(n: nat, d: nat, q: nat)
    requires
        q * d <= n < q * d + d,
    ensures
        n / d == q,
{
    assert(q * d == d * q) by (nonlinear_arith);
    vstd::arithmetic::div_mod::lemma_fundamental_div_mod_converse(
        n as int,
        d as int,
        q as int,
        n - q * d,
    );
}

/// The payload of `data`, with the number of bytes consumed so far reported
/// about a hundred times.
pub fn encode_payload<F: FnMut(usize)>(data: &[u8], level: u8, meter: &mut Meter<F>) -> (out: Vec<
    u8,
>)
    requires
        data@.len() <= isize::MAX,
        old(meter).callable(),
    ensures
        out@ == payload(data@, level),
        final(meter).callable(),
        final(meter).function() == old(meter).function(),
        final(meter)@ == old(meter)@ + reports(data@.len()),
{
    let ghost bits = bits_of(data@);
    let ghost ps = chances(bits, level);
    let mut p = Predictor::new(level);
    let mut enc = Encoder::new(data.len() / 3 + 64);
    let step: usize = if data.len() / 100 > 0x1_0000 {
        data.len() / 100
    } else {
        0x1_0000
    };
    let mut next: usize = step;
    let mut i: usize = 0;
    let ghost mut done: nat = 0;
    let ghost mut last: nat = 0;
    proof {
        lemma_chances(bits, level);
        assert(marks(data@.len()).take(0) =~= Seq::empty());
        assert(meter@ =~= old(meter)@ + marks(data@.len()).take(0));
    }
    while i < data.len()
        invariant
            i <= data@.len() <= isize::MAX,
            step == stride(data@.len()),
            step >= 1,
            bits == bits_of(data@),
            ps == chances(bits, level),
            p.wf(),
            p@ == trained(bits, level, (i * 8) as nat),
            enc@ == encoded(bits, ps, (i * 8) as nat),
            enc@.range.valid(),
            last == done * step,
            next == last + step,
            last <= i < next,
            meter.callable(),
            meter.function() == old(meter).function(),
            done <= marks(data@.len()).len(),
            meter@ == old(meter)@ + marks(data@.len()).take(done as int),
        decreases data@.len() - i,
    {
        let b: u32 = data[i] as u32;
        let mut j: u32 = 0;
        while j < 8
            invariant
                j <= 8,
                i < data@.len(),
                b == data@[i as int],
                bits == bits_of(data@),
                ps == chances(bits, level),
                p.wf(),
                p@ == trained(bits, level, (i * 8 + j) as nat),
                enc@ == encoded(bits, ps, (i * 8 + j) as nat),
                enc@.range.valid(),
            decreases 8 - j,
        {
            let ghost k = i * 8 + j;
            proof {
                vstd::bits::lemma_u32_shr_is_div(b, (7 - j) as u32);
                assert(k / 8 == i as int && k % 8 == j as int);
                assert(bits[k] == bit_at(data@, k));
            }
            let bit: u32 = (b >> (7 - j)) % 2;
            let pr: u32 = p.p();
            assert(ps[k] == pr);
            enc.encode(bit, pr);
            p.update(bit);
            j = j + 1;
        }
        i = i + 1;
        if i >= next {
            assert((done + 1) * step == last + step) by (nonlinear_arith)
                requires
                    last == done * step,
            ;
            proof {
                lemma_marks(data@.len(), done);
            }
            meter.report(i);
            assert(meter@ =~= old(meter)@ + marks(data@.len()).take(done as int + 1));
            proof {
                done = done + 1;
                last = last + step as nat;
            }
            next = next + step;
        }
    }
    proof {
        lemma_quotient(data@.len(), step as nat, done);
        assert(marks(data@.len()).take(done as int) =~= marks(data@.len()));
    }
    meter.report(data.len());
    assert(meter@ =~= old(meter)@ + reports(data@.len()));
    enc.finish()
}

/// `len` bytes decoded from `body`, or `None` if the payload runs out before
/// they are complete. Progress is reported as output bytes are produced.
pub fn decode_payload<F: FnMut(usize, usize)>(
    body: &[u8],
    level: u8,
    len: usize,
    meter: &mut TotalMeter<F>,
) -> (r: Option<Vec<u8>>)
    requires
        old(meter).callable(),
    ensures
        match r {
            Some(out) => !runs_out(body@, level, len as nat) && out@ == bytes_of(
                decoding(body@, level, len as nat * 8).bits,
            ),
            None => runs_out(body@, level, len as nat),
        },
        final(meter).callable(),
        final(meter).function() == old(meter).function(),
        final(meter)@ == old(meter)@ + decode_reports(body@, level, len),
{
    let mut p = Predictor::new(level);
    let mut dec = Decoder::new(body);
    let mut out: Vec<u8> = Vec::with_capacity(if len < MAX_PREALLOC {
        len
    } else {
        MAX_PREALLOC
    });
    let step: usize = if len / 100 > 0x1_0000 {
        len / 100
    } else {
        0x1_0000
    };
    let mut next: u128 = step as u128;
    let mut i: usize = 0;
    let ghost mut done: nat = 0;
    let ghost mut last: nat = 0;
    let ghost start = meter@;
    assert(meter@ =~= start + decode_marks(body@, level, len, 0));
    assert(out@ =~= bytes_of(decoding(body@, level, 0).bits));
    while i < len
        invariant
            i <= len,
            step == stride(len as nat),
            step >= 1,
            start == old(meter)@,
            p.wf(),
            dec.wf(),
            p@ == decoding(body@, level, (i * 8) as nat).model,
            dec@ == decoding(body@, level, (i * 8) as nat).coder,
            out@ == bytes_of(decoding(body@, level, (i * 8) as nat).bits),
            last == done * step,
            next == last + step,
            last <= i < next,
            dec@.overrun() <= 4,
            i > 0 ==> dec@.overrun() == 0,
            meter.callable(),
            meter.function() == old(meter).function(),
            meter@ == start + decode_marks(body@, level, len, done),
        decreases len - i,
    {
        let ghost k = (i * 8) as nat;
        let ghost before = decoding(body@, level, k).bits;
        let mut byte: u32 = 0;
        let mut j: u32 = 0;
        proof {
            vstd::arithmetic::power2::lemma2_to64();
            lemma_decoding_len(body@, level, k);
        }
        while j < 8
            invariant
                j <= 8,
                k == i * 8,
                p.wf(),
                dec.wf(),
                p@ == decoding(body@, level, (k + j) as nat).model,
                dec@ == decoding(body@, level, (k + j) as nat).coder,
                byte == bits_value(decoding(body@, level, (k + j) as nat).bits, k as int, j as nat),
                byte < pow2(j as nat),
                decoding(body@, level, (k + j) as nat).bits.len() == k + j,
                decoding(body@, level, (k + j) as nat).bits.take(k as int) == before,
                dec@.overrun() <= 4 + 4 * j,
            decreases 8 - j,
        {
            let ghost d = decoding(body@, level, (k + j) as nat);
            let ghost e = decoding(body@, level, (k + j + 1) as nat);
            proof {
                vstd::arithmetic::power2::lemma2_to64();
            }
            let pr: u32 = p.p();
            let bit: u32 = dec.decode(pr);
            p.update(bit);
            proof {
                assert(e.bits == d.bits.push(bit != 0));
                lemma_bits_value_prefix(d.bits, e.bits, k as int, j as nat);
                lemma_bits_value_bound(e.bits, k as int, (j + 1) as nat);
                assert(e.bits.take(k as int) =~= d.bits.take(k as int));
            }
            byte = byte * 2 + bit;
            j = j + 1;
        }
        proof {
            vstd::arithmetic::power2::lemma2_to64();
            lemma_bytes_grow(before, decoding(body@, level, (k + 8) as nat).bits);
        }
        out.push(byte as u8);
        i = i + 1;
        // Reading past the payload means the archive was cut short or forged;
        // without this the decoder would happily invent bytes from an endless
        // run of zeros.
        if dec.overrun() > 0 {
            proof {
                assert((done + 1) * step == last + step) by (nonlinear_arith)
                    requires
                        last == done * step,
                ;
                lemma_stopped(body@, level, len, i as nat, done);
            }
            return None;
        }
        if i as u128 >= next {
            assert((done + 1) * step == last + step) by (nonlinear_arith)
                requires
                    last == done * step,
            ;
            meter.report(i, len);
            proof {
                done = done + 1;
                last = last + step as nat;
            }
            assert(meter@ =~= start + decode_marks(body@, level, len, done));
            next = next + step as u128;
        }
    }
    proof {
        lemma_quotient(len as nat, step as nat, done);
    }
    meter.report(len, len);
    assert(meter@ =~= start + decode_reports(body@, level, len));
    Some(out)
}

/// The data is coded from its first byte to its last, each from its highest bit
/// to its lowest.
pub proof fn law_bits_come_highest_first(data: Seq<u8>, i: int, j: u8)
    requires
        0 <= i < data.len(),
        j < 8,
    ensures
        bits_of(data).len() == data.len() * 8,
        bits_of(data)[i * 8 + j] == ((data[i] >> ((7 - j) as u8)) & 1 == 1),
{
    let k = i * 8 + j;
    let b = data[i];
    let n = (7 - j) as u8;
    assert(k / 8 == i && k % 8 == j as int);
    assert(bits_of(data)[k] == bit_at(data, k));
    vstd::bits::lemma_u8_shr_is_div(b, n);
    let q = b >> n;
    assert(q & 1 == q % 2) by (bit_vector);
}

/// Every bit is coded with the probability that the model gave to it before it
/// knew it, and the model then learns it, in both directions alike.
pub proof fn law_model_runs_ahead(data: Seq<u8>, input: Seq<u8>, level: u8, k: nat)
    requires
        k < data.len() * 8,
    ensures
        ({
            let bits = bits_of(data);
            let ps = chances(bits, level);
            let m = trained(bits, level, k);
            &&& payload(data, level) == encoded(bits, ps, bits.len()).finish()
            &&& ps.len() == bits.len()
            &&& ps[k as int] == m.select().pr()
            &&& trained(bits, level, 0) == Model::fresh(level)
            &&& trained(bits, level, k + 1) == m.select().learn(bits[k as int])
            &&& encoded(bits, ps, 0) == EncoderState::fresh()
            &&& encoded(bits, ps, k + 1) == encoded(bits, ps, k).encode(
                bits[k as int],
                ps[k as int],
            )
        }),
        ({
            let d = decoding(input, level, k);
            let n = decoding(input, level, k + 1);
            let bit = d.coder.bit(d.model.select().pr());
            &&& decoding(input, level, 0).model == Model::fresh(level)
            &&& decoding(input, level, 0).coder == DecoderState::fresh(input)
            &&& decoding(input, level, 0).bits.len() == 0
            &&& n.model == d.model.select().learn(bit)
            &&& n.coder == d.coder.decode(d.model.select().pr())
            &&& n.bits == d.bits.push(bit)
        }),
{
}

/// Eight bits are the byte that they are the binary digits of, highest first.
#[verifier::rlimit(40)]
pub proof fn law_bytes_are_binary(bits: Seq<bool>, i: int)
    requires
        0 <= i < bits.len() / 8,
    ensures
        bytes_of(bits).len() == bits.len() / 8,
        ({
            let d = |j: int|
                if bits[i * 8 + j] {
                    1int
                } else {
                    0
                };
            bytes_of(bits)[i] == d(0) * 128 + d(1) * 64 + d(2) * 32 + d(3) * 16 + d(4) * 8 + d(5)
                * 4 + d(6) * 2 + d(7)
        }),
{
    reveal_with_fuel(bits_value, 9);
}

/// The end of a payload is never looked at: what follows it changes nothing.
pub proof fn law_what_follows_is_ignored(data: Seq<u8>, level: u8, more: Seq<u8>)
    ensures
        !runs_out(payload(data, level) + more, level, data.len()),
        bytes_of(decoding(payload(data, level) + more, level, data.len() * 8).bits) == data,
{
    let k = data.len() * 8;
    let p = payload(data, level);
    let n = p.len();
    assert((p + more).take(n as int) =~= p);
    law_decoding_follows(data, level, k);
    lemma_cut_follows(p + more, level, n, k);
    lemma_overrun_grows(p, level, k, k);
    lemma_overrun_grows(p + more, level, k, k);
    law_bytes_of_bits(data);
    assert(bits_of(data).take(k as int) =~= bits_of(data));
}

/// A decoding reports the marks at which the payload has not run out, and no
/// others; and the end, if it has not run out there.
pub proof fn law_decode_stops_reporting(input: Seq<u8>, level: u8, len: usize, n: nat)
    ensures
        decode_marks(input, level, len, 0).len() == 0,
        decode_marks(input, level, len, n + 1) == (if (n + 1) * stride(len as nat) > 0 && decoding(
            input,
            level,
            (n + 1) * stride(len as nat) * 8,
        ).coder.overrun() > 0 {
            decode_marks(input, level, len, n)
        } else {
            decode_marks(input, level, len, n).push((((n + 1) * stride(len as nat)) as usize, len))
        }),
        decode_reports(input, level, len) == (if len > 0 && decoding(
            input,
            level,
            len as nat * 8,
        ).coder.overrun() > 0 {
            decode_marks(input, level, len, len as nat / stride(len as nat))
        } else {
            decode_marks(input, level, len, len as nat / stride(len as nat)).push((len, len))
        }),
{
}

} // verus!

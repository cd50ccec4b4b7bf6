//! The counters of the order 0, order 1 and hashed context models.

use vstd::arithmetic::power2::pow2;
use vstd::prelude::*;

use crate::counter::{ctr_get_tagged, ctr_p12, ctr_update, COUNT_LIMIT, CTR_INIT};
#[allow(unused_imports)]
use crate::counter::{ctr_claimed, ctr_next, ctr_prob, is_recip_table};
use crate::logistic::stretch_by;
#[allow(unused_imports)]
use crate::logistic::{is_stretch_table, lemma_stretched_range, stretched};
use crate::matching::two_to;
#[allow(unused_imports)]
use crate::mixer::logistic_inputs;

verus! {

/// The probability of counter `v`, in the logistic domain.
pub open spec fn voice(v: u32) -> i32 {
    stretched(ctr_prob(v) / 16) as i32
}

/// Context `ctx` together with the partial byte `c0`. The partial byte is
/// spread by a multiplicative constant so that adjacent ones land far apart.
pub open spec fn slot_hash(ctx: u32, c0: u32) -> u32 {
    ctx ^ c0.wrapping_mul(0x9E37_79B1)
}

/// The fingerprint of a context, from bits that its slot does not use.
pub open spec fn slot_tag(h: u32) -> u32 {
    (h >> 26) | 1
}

/// The counters, and those of them that speak for the current bit.
#[verifier::ext_equal]
pub struct BankState {
    /// Order 0: by partial byte.
    pub t0: Seq<u32>,
    /// Order 1: by previous byte and partial byte.
    pub t1: Seq<u32>,
    /// Higher orders: by hash.
    pub th: Seq<Seq<u32>>,
    pub hmask: u32,
    pub idx0: nat,
    pub idx1: nat,
    pub idxh: Seq<usize>,
}

impl BankState {
    pub open spec fn fresh(bits: nat) -> BankState {
        BankState {
            t0: Seq::new(256, |i: int| CTR_INIT),
            t1: Seq::new(65536, |i: int| CTR_INIT),
            th: Seq::new(7, |i: int| Seq::new(pow2(bits), |j: int| CTR_INIT)),
            hmask: (pow2(bits) - 1) as u32,
            idx0: 1,
            idx1: 1,
            idxh: Seq::new(7, |i: int| 0usize),
        }
    }

    pub open spec fn valid(self) -> bool {
        &&& self.t0.len() == 256
        &&& self.t1.len() == 65536
        &&& self.th.len() == 7
        &&& self.hmask < 0x100_0000
        &&& forall|i: int| 0 <= i < 7 ==> (#[trigger] self.th[i]).len() == self.hmask + 1
        &&& self.idx0 < 256
        &&& self.idx1 < 65536
        &&& self.idxh.len() == 7
        &&& forall|i: int| 0 <= i < 7 ==> (#[trigger] self.idxh[i]) <= self.hmask
    }

    /// The slot of hashed table `i` that the contexts select.
    pub open spec fn slot(self, ctx: Seq<u32>, c0: u32, i: int) -> usize {
        (slot_hash(ctx[i], c0) & self.hmask) as usize
    }

    /// Hashed table `i` once its context owns its slot.
    pub open spec fn claimed(self, ctx: Seq<u32>, c0: u32, i: int) -> Seq<u32> {
        let slot = self.slot(ctx, c0, i) as int;
        self.th[i].update(
            slot,
            ctr_claimed(self.th[i][slot], slot_tag(slot_hash(ctx[i], c0))),
        )
    }

    /// The state once the contexts have selected their counters: `c0` is the
    /// partial byte, `c1` the byte before it.
    pub open spec fn select(self, c0: u32, c1: u32, ctx: Seq<u32>) -> BankState {
        BankState {
            idx0: c0 as nat,
            idx1: (c1 * 256 + c0) as nat,
            idxh: Seq::new(7, |i: int| self.slot(ctx, c0, i)),
            th: Seq::new(7, |i: int| self.claimed(ctx, c0, i)),
            ..self
        }
    }

    /// What the selected counters say, in the logistic domain.
    pub open spec fn opinions(self) -> Seq<i32> {
        Seq::new(
            9,
            |i: int|
                if i == 0 {
                    voice(self.t0[self.idx0 as int])
                } else if i == 1 {
                    voice(self.t1[self.idx1 as int])
                } else {
                    voice(self.th[i - 2][self.idxh[i - 2] as int])
                },
        )
    }

    /// Table `t` once the counter at `i` has seen `bit`.
    pub open spec fn trained(t: Seq<u32>, i: int, bit: bool) -> Seq<u32> {
        t.update(i, ctr_next(t[i], bit, COUNT_LIMIT))
    }

    /// The state once the selected counters have seen `bit`.
    pub open spec fn learn(self, bit: bool) -> BankState {
        BankState {
            t0: Self::trained(self.t0, self.idx0 as int, bit),
            t1: Self::trained(self.t1, self.idx1 as int, bit),
            th: Seq::new(7, |i: int| Self::trained(self.th[i], self.idxh[i] as int, bit)),
            ..self
        }
    }

    /// Number of counters.
    pub open spec fn counters(self) -> nat {
        self.t0.len() + self.t1.len() + 7 * (self.hmask + 1) as nat
    }
}

/// The counters of the context models.
pub struct Bank {
    t0: Vec<u32>,
    t1: Vec<u32>,
    th: Vec<Vec<u32>>,
    hmask: u32,
    idx0: usize,
    idx1: usize,
    idxh: Vec<usize>,
}

impl View for Bank {
    type V = BankState;

    closed spec fn view(&self) -> BankState {
        BankState {
            t0: self.t0@,
            t1: self.t1@,
            th: Seq::new(self.th@.len(), |i: int| self.th@[i]@),
            hmask: self.hmask,
            idx0: self.idx0 as nat,
            idx1: self.idx1 as nat,
            idxh: self.idxh@,
        }
    }
}

impl Bank {
    /// A bank whose hashed tables have `2^bits` slots each.
    pub fn new(bits: u32) -> (b: Self)
        requires
            bits <= 24,
        ensures
            b@ == BankState::fresh(bits as nat),
            b@.valid(),
    {
        let slots: usize = two_to(bits);
        let mut th: Vec<Vec<u32>> = Vec::with_capacity(7);
        let mut i: usize = 0;
        while i < 7
            invariant
                i <= 7,
                th@.len() == i,
                slots == pow2(bits as nat),
                forall|j: int|
                    0 <= j < i ==> (#[trigger] th@[j])@ == Seq::new(
                        pow2(bits as nat),
                        |k: int| CTR_INIT,
                    ),
            decreases 7 - i,
        {
            let t: Vec<u32> = vec![CTR_INIT; slots];
            assert(t@ =~= Seq::new(pow2(bits as nat), |k: int| CTR_INIT));
            th.push(t);
            i = i + 1;
        }
        let b = Bank {
            t0: vec![CTR_INIT; 256],
            t1: vec![CTR_INIT; 65536],
            th,
            hmask: (slots - 1) as u32,
            idx0: 1,
            idx1: 1,
            idxh: vec![0usize; 7],
        };
        assert(b@ =~= BankState::fresh(bits as nat));
        b
    }

    /// Number of counters.
    pub fn counters(&self) -> (n: usize)
        requires
            self@.valid(),
        ensures
            n == self@.counters(),
    {
        self.t0.len() + self.t1.len() + 7 * (self.hmask as usize + 1)
    }

    /// Select the counters of the contexts, and add what they say to `inputs`.
    pub fn select(
        &mut self,
        c0: u32,
        c1: u32,
        ctx: &[u32; 7],
        st: &Vec<i16>,
        inputs: &mut Vec<i32>,
    )
        requires
            old(self)@.valid(),
            c0 < 256,
            c1 < 256,
            is_stretch_table(st@),
        ensures
            final(self)@ == old(self)@.select(c0, c1, ctx@),
            final(self)@.valid(),
            final(inputs)@ == old(inputs)@ + final(self)@.opinions(),
            logistic_inputs(final(self)@.opinions()),
    {
        self.idx0 = c0 as usize;
        self.idx1 = (c1 * 256 + c0) as usize;
        let ghost goal = old(self)@.select(c0, c1, ctx@);
        inputs.push(stretch_by(st, ctr_p12(self.t0[self.idx0])));
        inputs.push(stretch_by(st, ctr_p12(self.t1[self.idx1])));
        let mut i: usize = 0;
        while i < 7
            invariant
                i <= 7,
                old(self)@.valid(),
                self@.valid(),
                is_stretch_table(st@),
                goal == old(self)@.select(c0, c1, ctx@),
                self@.t0 == goal.t0,
                self@.t1 == goal.t1,
                self@.hmask == goal.hmask,
                self@.idx0 == goal.idx0,
                self@.idx1 == goal.idx1,
                forall|j: int| 0 <= j < i ==> #[trigger] self@.idxh[j] == goal.idxh[j],
                forall|j: int| 0 <= j < i ==> #[trigger] self@.th[j] == goal.th[j],
                forall|j: int| i <= j < 7 ==> #[trigger] self@.th[j] == old(self)@.th[j],
                inputs@ == old(inputs)@ + goal.opinions().subrange(0, i + 2),
            decreases 7 - i,
        {
            let h: u32 = ctx[i] ^ c0.wrapping_mul(0x9E37_79B1);
            let hmask: u32 = self.hmask;
            assert(h & hmask <= hmask && (h >> 26) | 1 < 64) by (bit_vector);
            let slot: usize = (h & hmask) as usize;
            self.idxh[i] = slot;
            assert(self@.th[i as int] == self.th@[i as int]@);
            let ghost before = self.th@;
            let ghost tables = self@.th;
            let mut v: u32 = self.th[i][slot];
            let p: i32 = ctr_get_tagged(&mut v, (h >> 26) | 1);
            self.th[i][slot] = v;
            assert forall|j: int| 0 <= j < 7 && j != i implies #[trigger] self@.th[j]
                == tables[j] by {
                assert(self.th@[j] == before[j]);
            }
            inputs.push(stretch_by(st, p));
            assert(self@.th[i as int] =~= goal.th[i as int]);
            assert(inputs@ =~= old(inputs)@ + goal.opinions().subrange(0, i + 3));
            i = i + 1;
        }
        assert(self@ =~= goal);
        assert(goal.opinions().subrange(0, 9) =~= goal.opinions());
        assert forall|j: int| 0 <= j < 9 implies -2047 <= #[trigger] goal.opinions()[j]
            <= 2047 by {
            if j == 0 {
                lemma_stretched_range(ctr_prob(goal.t0[goal.idx0 as int]) / 16);
            } else if j == 1 {
                lemma_stretched_range(ctr_prob(goal.t1[goal.idx1 as int]) / 16);
            } else {
                lemma_stretched_range(ctr_prob(goal.th[j - 2][goal.idxh[j - 2] as int]) / 16);
            }
        }
    }

    /// Train the selected counters.
    pub fn learn(&mut self, bit: u32, recip: &Vec<u32>)
        requires
            old(self)@.valid(),
            bit <= 1,
            is_recip_table(recip@),
        ensures
            final(self)@ == old(self)@.learn(bit != 0),
            final(self)@.valid(),
    {
        let ghost goal = old(self)@.learn(bit != 0);
        let mut v: u32 = self.t0[self.idx0];
        ctr_update(&mut v, bit, COUNT_LIMIT, recip);
        self.t0[self.idx0] = v;
        let mut v: u32 = self.t1[self.idx1];
        ctr_update(&mut v, bit, COUNT_LIMIT, recip);
        self.t1[self.idx1] = v;
        let mut i: usize = 0;
        while i < 7
            invariant
                i <= 7,
                old(self)@.valid(),
                self@.valid(),
                is_recip_table(recip@),
                goal == old(self)@.learn(bit != 0),
                self@.t0 == goal.t0,
                self@.t1 == goal.t1,
                self@.hmask == goal.hmask,
                self@.idx0 == goal.idx0,
                self@.idx1 == goal.idx1,
                self@.idxh == goal.idxh,
                forall|j: int| 0 <= j < i ==> #[trigger] self@.th[j] == goal.th[j],
                forall|j: int| i <= j < 7 ==> #[trigger] self@.th[j] == old(self)@.th[j],
            decreases 7 - i,
        {
            assert(self@.th[i as int] == self.th@[i as int]@);
            let ghost before = self.th@;
            let ghost tables = self@.th;
            let slot: usize = self.idxh[i];
            assert(self@.idxh[i as int] <= self@.hmask);
            let mut v: u32 = self.th[i][slot];
            ctr_update(&mut v, bit, COUNT_LIMIT, recip);
            self.th[i][slot] = v;
            assert forall|j: int| 0 <= j < 7 && j != i implies #[trigger] self@.th[j]
                == tables[j] by {
                assert(self.th@[j] == before[j]);
            }
            assert(self@.th[i as int] =~= goal.th[i as int]);
            i = i + 1;
        }
        assert(self@ =~= goal);
    }
}

/// Each model asks one counter: that of the partial byte, that of the last byte
/// and the partial byte, and those of the seven contexts, where the slot and the
/// tag come from the context and the partial byte.
pub proof fn law_counters_are_selected(b: BankState, c0: u32, c1: u32, ctx: Seq<u32>, i: int)
    requires
        b.valid(),
        1 <= c0 < 256,
        c1 < 256,
        0 <= i < 7,
    ensures
        ({
            let n = b.select(c0, c1, ctx);
            let h = ctx[i] ^ c0.wrapping_mul(2654435761);
            let slot = (h & b.hmask) as int;
            &&& n.idx0 == c0 && n.idx1 == c1 * 256 + c0 && n.idxh.len() == 7 && n.th.len() == 7
            &&& n.t0 == b.t0 && n.t1 == b.t1 && n.hmask == b.hmask
            &&& n.idxh[i] == slot
            &&& n.th[i] == b.th[i].update(
                slot,
                ctr_claimed(b.th[i][slot], ((h >> 26) | 1)),
            )
        }),
{
    let h = slot_hash(ctx[i], c0);
    let m = b.hmask;
    assert(h & m <= m) by (bit_vector);
}

/// What a model says is what the counter it asked has learned, to twelve bits and
/// in the logistic domain.
pub proof fn law_opinions(b: BankState, i: int)
    requires
        b.valid(),
        0 <= i < 7,
    ensures
        b.opinions().len() == 9,
        b.opinions()[0] == stretched(b.t0[b.idx0 as int] as int / 1048576),
        b.opinions()[1] == stretched(b.t1[b.idx1 as int] as int / 1048576),
        b.opinions()[i + 2] == stretched(b.th[i][b.idxh[i] as int] as int / 1048576),
{
    crate::logistic::lemma_stretched_range(b.t0[b.idx0 as int] as int / 1048576);
    crate::logistic::lemma_stretched_range(b.t1[b.idx1 as int] as int / 1048576);
    crate::logistic::lemma_stretched_range(b.th[i][b.idxh[i] as int] as int / 1048576);
}

/// The counters that were asked learn the bit, and no others.
pub proof fn law_asked_counters_learn(b: BankState, bit: bool, i: int)
    requires
        b.valid(),
        0 <= i < 7,
    ensures
        ({
            let n = b.learn(bit);
            &&& n.t0 == b.t0.update(b.idx0 as int, ctr_next(b.t0[b.idx0 as int], bit, 255))
            &&& n.t1 == b.t1.update(b.idx1 as int, ctr_next(b.t1[b.idx1 as int], bit, 255))
            &&& n.th.len() == 7
            &&& n.th[i] == b.th[i].update(
                b.idxh[i] as int,
                ctr_next(b.th[i][b.idxh[i] as int], bit, 255),
            )
            &&& n.idx0 == b.idx0 && n.idx1 == b.idx1 && n.idxh == b.idxh && n.hmask == b.hmask
        }),
{
}

/// At first every counter is at even odds.
pub proof fn law_fresh_counters(bits: nat, i: int, j: int)
    requires
        bits <= 24,
    ensures
        ({
            let b = BankState::fresh(bits);
            &&& b.t0.len() == 256 && b.t1.len() == 65536 && b.th.len() == 7
            &&& b.hmask == pow2(bits) - 1
            &&& 0 <= i < 256 ==> b.t0[i] == 0x8000_0000
            &&& 0 <= i < 65536 ==> b.t1[i] == 0x8000_0000
            &&& 0 <= i < 7 ==> b.th[i].len() == pow2(bits)
            &&& 0 <= i < 7 && 0 <= j < pow2(bits) ==> b.th[i][j] == 0x8000_0000
        }),
{
    vstd::arithmetic::power2::lemma2_to64();
    vstd::arithmetic::power2::lemma_pow2_pos(bits);
    if bits < 24 {
        vstd::arithmetic::power2::lemma_pow2_strictly_increases(bits, 24);
    }
}

} // verus!

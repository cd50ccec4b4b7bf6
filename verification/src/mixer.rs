//! Gated linear mixing in the logistic domain.

use vstd::prelude::*;

use crate::logistic::squash;
#[allow(unused_imports)]
use crate::logistic::{clamped, squashed};

verus! {

/// Learning rates, expressed as the right shift applied to `input * error`.
/// Larger means slower. Tuned on a mixed text/binary corpus.
pub const MIX_LR: u32 = 9;

/// The learning rate of the second layer.
pub const MIX2_LR: u32 = 13;

/// Weight magnitude ceiling, far above anything training reaches in practice.
pub const W_LIMIT: i32 = 0x100_0000;

/// The greatest number of inputs of one mixer.
pub const MAX_INPUTS: usize = 16;

/// The sum of the first `n` inputs, each times its weight from `base` on.
pub open spec fn weighted_sum(inputs: Seq<i32>, w: Seq<i32>, base: int, n: int) -> int
    decreases n,
{
    if n <= 0 {
        0
    } else {
        weighted_sum(inputs, w, base, n - 1) + inputs[n - 1] * w[base + n - 1]
    }
}

/// What `input * error` is divided by.
pub open spec fn rate_divisor(lr: u32) -> int {
    if lr == MIX_LR {
        512
    } else {
        8192
    }
}

/// Every input lies in the logistic domain.
pub open spec fn logistic_inputs(inputs: Seq<i32>) -> bool {
    forall|i: int| 0 <= i < inputs.len() ==> -2047 <= #[trigger] inputs[i] <= 2047
}

/// State of a mixer: one vector of `n` weights per context, the vector that
/// was last selected and the probability it gave.
#[verifier::ext_equal]
pub struct MixerState {
    pub n: nat,
    pub w: Seq<i32>,
    pub base: nat,
    pub pr: i32,
    pub lr: u32,
}

impl MixerState {
    /// The first mix is a plain average.
    pub open spec fn fresh(n: nat, contexts: nat, lr: u32) -> MixerState {
        MixerState {
            n,
            w: Seq::new(n * contexts, |i: int| (65536int / (n as int)) as i32),
            base: 0,
            pr: 2048,
            lr,
        }
    }

    pub open spec fn valid(self) -> bool {
        &&& 1 <= self.n <= MAX_INPUTS
        &&& self.lr == MIX_LR || self.lr == MIX2_LR
        &&& self.base + self.n <= self.w.len()
        &&& 1 <= self.pr <= 4094
        &&& forall|i: int| 0 <= i < self.w.len() ==> -W_LIMIT <= #[trigger] self.w[i] <= W_LIMIT
    }

    /// The state once `inputs` have been mixed by the weights of context `cx`.
    /// The weights are 16.16 fixed point.
    pub open spec fn mix(self, inputs: Seq<i32>, cx: nat) -> MixerState {
        MixerState {
            base: cx * self.n,
            pr: squashed(
                weighted_sum(inputs, self.w, (cx * self.n) as int, self.n as int) / 0x1_0000,
            ) as i32,
            ..self
        }
    }

    /// One step of gradient descent on the coding loss of `bit`.
    pub open spec fn update(self, inputs: Seq<i32>, bit: bool) -> MixerState {
        let err: int = (if bit {
            4096int
        } else {
            0
        }) - self.pr;
        MixerState {
            w: Seq::new(
                self.w.len(),
                |i: int|
                    if self.base <= i < self.base + self.n {
                        clamped(
                            self.w[i] + inputs[i - self.base] * err / rate_divisor(self.lr),
                            -W_LIMIT as int,
                            W_LIMIT as int,
                        ) as i32
                    } else {
                        self.w[i]
                    },
            ),
            ..self
        }
    }
}

/// A mixer: one weight vector per selection context, trained by online
/// gradient descent on coding loss.
pub struct Mixer {
    n: usize,
    w: Vec<i32>,
    base: usize,
    pr: i32,
    lr: u32,
}

impl View for Mixer {
    type V = MixerState;

    closed spec fn view(&self) -> MixerState {
        MixerState {
            n: self.n as nat,
            w: self.w@,
            base: self.base as nat,
            pr: self.pr,
            lr: self.lr,
        }
    }
}

impl Mixer {
    pub fn new(n: usize, contexts: usize) -> (m: Self)
        requires
            1 <= n <= MAX_INPUTS,
            1 <= contexts <= 0x1_0000,
        ensures
            m@ == MixerState::fresh(n as nat, contexts as nat, MIX_LR),
            m@.valid(),
    {
        Self::with_lr(n, contexts, MIX_LR)
    }

    pub fn with_lr(n: usize, contexts: usize, lr: u32) -> (m: Self)
        requires
            1 <= n <= MAX_INPUTS,
            1 <= contexts <= 0x1_0000,
            lr == MIX_LR || lr == MIX2_LR,
        ensures
            m@ == MixerState::fresh(n as nat, contexts as nat, lr),
            m@.valid(),
    {
        assert(n <= n * contexts <= 16 * 0x1_0000) by (nonlinear_arith)
            requires
                1 <= n <= 16,
                1 <= contexts <= 0x1_0000,
        ;
        assert(0 <= 65536int / (n as int) <= 65536) by (nonlinear_arith)
            requires
                n >= 1,
        ;
        let m = Mixer {
            n,
            w: vec![65536 / (n as i32); n * contexts],
            base: 0,
            pr: 2048,
            lr,
        };
        assert(m@ =~= MixerState::fresh(n as nat, contexts as nat, lr));
        m
    }

    /// Number of weights.
    pub fn weights(&self) -> (n: usize)
        ensures
            n == self@.w.len(),
    {
        self.w.len()
    }

    /// The probability that the weights of context `cx` give to `inputs`.
    pub fn mix(&mut self, inputs: &Vec<i32>, cx: usize) -> (pr: i32)
        requires
            old(self)@.valid(),
            inputs@.len() == old(self)@.n,
            logistic_inputs(inputs@),
            (cx + 1) * old(self)@.n <= old(self)@.w.len(),
        ensures
            final(self)@ == old(self)@.mix(inputs@, cx as nat),
            final(self)@.valid(),
            pr == final(self)@.pr,
    {
        assert(cx * self.n + self.n == (cx + 1) * self.n) by (nonlinear_arith);
        assert(0 <= cx * self.n) by (nonlinear_arith);
        assert(self.w.len() == self@.w.len());
        self.base = cx * self.n;
        let mut dot: i64 = 0;
        let mut i: usize = 0;
        while i < self.n
            invariant
                i <= self.n,
                self@.valid(),
                self@.base == cx * self@.n,
                self@ == (MixerState { base: (cx * old(self)@.n) as nat, ..old(self)@ }),
                inputs@.len() == self@.n,
                logistic_inputs(inputs@),
                dot == weighted_sum(inputs@, self@.w, self@.base as int, i as int),
                -0x8_0000_0000 * i <= dot <= 0x8_0000_0000 * i,
            decreases self.n - i,
        {
            assert(self.w.len() == self@.w.len());
            let x: i64 = inputs[i] as i64;
            let y: i64 = self.w[self.base + i] as i64;
            assert(-2047 <= inputs@[i as int] <= 2047);
            assert(-W_LIMIT <= self@.w[self@.base + i] <= W_LIMIT);
            assert(-0x8_0000_0000 <= x * y <= 0x8_0000_0000) by (nonlinear_arith)
                requires
                    -2047 <= x <= 2047,
                    -0x100_0000 <= y <= 0x100_0000,
            ;
            dot = dot + x * y;
            i = i + 1;
        }
        assert(dot >> 16 == dot / 65536) by (bit_vector);
        self.pr = squash((dot >> 16) as i32);
        assert(self@ =~= old(self)@.mix(inputs@, cx as nat));
        self.pr
    }

    /// Train the weights that gave the last probability.
    pub fn update(&mut self, inputs: &Vec<i32>, bit: u32)
        requires
            old(self)@.valid(),
            inputs@.len() == old(self)@.n,
            logistic_inputs(inputs@),
            bit <= 1,
        ensures
            final(self)@ == old(self)@.update(inputs@, bit != 0),
            final(self)@.valid(),
    {
        let err: i32 = bit as i32 * 4096 - self.pr;
        let ghost goal = old(self)@.update(inputs@, bit != 0);
        let mut i: usize = 0;
        while i < self.n
            invariant
                i <= self.n,
                old(self)@.valid(),
                inputs@.len() == self@.n,
                logistic_inputs(inputs@),
                -4094 <= err <= 4095,
                err == (if bit != 0 {
                    4096int
                } else {
                    0
                }) - old(self)@.pr,
                goal == old(self)@.update(inputs@, bit != 0),
                self@.n == old(self)@.n,
                self@.base == old(self)@.base,
                self@.pr == old(self)@.pr,
                self@.lr == old(self)@.lr,
                self@.w.len() == goal.w.len(),
                forall|j: int| 0 <= j < self@.w.len() ==> #[trigger] self@.w[j] == (if j
                    < self@.base + i {
                    goal.w[j]
                } else {
                    old(self)@.w[j]
                }),
            decreases self.n - i,
        {
            assert(self.w.len() == self@.w.len());
            let x: i32 = inputs[i];
            let k: usize = self.base + i;
            assert(-2047 <= inputs@[i as int] <= 2047);
            assert(-W_LIMIT <= old(self)@.w[k as int] <= W_LIMIT);
            assert(-0x80_0000 <= x * err <= 0x80_0000) by (nonlinear_arith)
                requires
                    -2047 <= x <= 2047,
                    -4094 <= err <= 4095,
            ;
            let g: i32 = x * err;
            assert(g >> 9 == g / 512) by (bit_vector);
            assert(g >> 13 == g / 8192) by (bit_vector);
            // Gradient descent is self-correcting, so the clamp practically
            // never binds; it is here so that a pathological input cannot walk
            // a weight into overflow.
            let v: i32 = self.w[k] + (g >> self.lr);
            let c: i32 = if v < -W_LIMIT {
                -W_LIMIT
            } else if v > W_LIMIT {
                W_LIMIT
            } else {
                v
            };
            assert(goal.w[k as int] == c);
            self.w[k] = c;
            i = i + 1;
        }
        assert(self@ =~= goal);
        assert forall|j: int| 0 <= j < self@.w.len() implies -W_LIMIT <= #[trigger] self@.w[j]
            <= W_LIMIT by {
            assert(-W_LIMIT <= old(self)@.w[j] <= W_LIMIT);
        }
    }
}

/// A mixed probability is the logistic map of the weighted mean of the inputs:
/// each counts by its weight in the selected set, of which 65536 is one.
pub proof fn law_mix_is_a_dot_product(m: MixerState, inputs: Seq<i32>, cx: nat, n: int)
    ensures
        m.mix(inputs, cx).pr == squashed(
            weighted_sum(inputs, m.w, (cx * m.n) as int, m.n as int) / 65536,
        ) as i32,
        m.mix(inputs, cx).base == cx * m.n,
        m.mix(inputs, cx).w == m.w,
        m.mix(inputs, cx).n == m.n && m.mix(inputs, cx).lr == m.lr,
        weighted_sum(inputs, m.w, (cx * m.n) as int, 0) == 0,
        n > 0 ==> weighted_sum(inputs, m.w, (cx * m.n) as int, n) - weighted_sum(
            inputs,
            m.w,
            (cx * m.n) as int,
            n - 1,
        ) == m.w[cx * m.n + n - 1] * inputs[n - 1],
{
    assert(inputs[n - 1] * m.w[cx * m.n + n - 1] == m.w[cx * m.n + n - 1] * inputs[n - 1])
        by (nonlinear_arith);
}

/// Each selected weight goes against its share of the error, by 2^9 or 2^13
/// parts of it and never beyond 2^24; all the others stay as they are.
pub proof fn law_mixer_descends(m: MixerState, inputs: Seq<i32>, bit: bool, i: int)
    requires
        0 <= i < m.w.len(),
        m.lr == 9 || m.lr == 13,
        -0x100_0000 <= m.w[i] <= 0x100_0000,
    ensures
        ({
            let n = m.update(inputs, bit);
            let parts: int = if m.lr == 9 {
                512
            } else {
                8192
            };
            let wanted: int = if bit {
                4096
            } else {
                0
            };
            let slope = inputs[i - m.base] * (wanted - m.pr);
            let moved = n.w[i] - m.w[i];
            &&& n.w.len() == m.w.len() && n.n == m.n && n.base == m.base && n.pr == m.pr && n.lr
                == m.lr
            &&& !(m.base <= i < m.base + m.n) ==> n.w[i] == m.w[i]
            &&& m.base <= i < m.base + m.n ==> -0x100_0000 <= n.w[i] <= 0x100_0000
            &&& m.base <= i < m.base + m.n && -0x100_0000 < n.w[i] < 0x100_0000 ==> parts * moved
                <= slope < parts * moved + parts
            &&& m.base <= i < m.base + m.n && n.w[i] == 0x100_0000 ==> parts * moved <= slope
            &&& m.base <= i < m.base + m.n && n.w[i] == -0x100_0000 ==> slope < parts * moved
                + parts
        }),
{
}

/// At first every input counts the same, and they make up one.
pub proof fn law_fresh_weights_are_even(n: nat, contexts: nat, lr: u32, i: int)
    requires
        0 < n,
        0 <= i < n * contexts,
    ensures
        ({
            let m = MixerState::fresh(n, contexts, lr);
            &&& m.w.len() == n * contexts && m.n == n && m.lr == lr && m.pr == 2048 && m.base == 0
            &&& n * m.w[i] <= 65536 < n * m.w[i] + n
        }),
{
    let w = 65536int / (n as int);
    vstd::arithmetic::div_mod::lemma_fundamental_div_mod(65536, n as int);
    assert(w <= 65536) by (nonlinear_arith)
        requires
            w == 65536int / (n as int),
            n > 0,
    ;
    assert(w >= 0) by (nonlinear_arith)
        requires
            w == 65536int / (n as int),
            n > 0,
    ;
}

} // verus!

//! The two layers of mixers and the two refinements after them.

use vstd::prelude::*;

use crate::apm::Apm;
#[allow(unused_imports)]
use crate::apm::ApmState;
use crate::logistic::stretch_by;
#[allow(unused_imports)]
use crate::logistic::{clamped, is_stretch_table, lemma_stretched_range, stretched};
use crate::mixer::{Mixer, MIX2_LR};
#[allow(unused_imports)]
use crate::mixer::{logistic_inputs, MixerState, MIX_LR};

verus! {

/// Inputs of the first layer: bias, order 0, order 1, the hashed contexts and
/// the match.
pub const NINPUTS: usize = 11;

/// First-layer mixers, each gated on a different context.
pub const NMIX: usize = 3;

/// The contexts that gate the network: facts that change which models deserve
/// trust.
pub struct Gates {
    /// Partial byte, and whether a match speaks and for which bit.
    pub byte: usize,
    /// Previous byte.
    pub prev: usize,
    /// Match length and bit position.
    pub run: usize,
    /// Partial byte.
    pub part: usize,
    /// Hash of the last two bytes and the partial byte.
    pub order2: usize,
}

impl Gates {
    pub open spec fn in_range(self) -> bool {
        &&& self.byte < 768
        &&& self.prev < 256
        &&& self.run < 256
        &&& self.part < 256
        &&& self.order2 < 65536
    }
}

/// `a` and three times `b`, averaged.
pub open spec fn blend(a: int, b: int) -> int {
    (b * 3 + a) / 4
}

/// State of the network, with what it was last given and what it answered.
#[verifier::ext_equal]
pub struct NetState {
    pub inputs: Seq<i32>,
    pub hidden: Seq<i32>,
    pub by_byte: MixerState,
    pub by_prev: MixerState,
    pub by_run: MixerState,
    pub last: MixerState,
    pub apm1: ApmState,
    pub apm2: ApmState,
    pub pr: i32,
}

impl NetState {
    pub open spec fn fresh() -> NetState {
        NetState {
            inputs: Seq::empty(),
            hidden: Seq::empty(),
            by_byte: MixerState::fresh(11, 768, MIX_LR),
            by_prev: MixerState::fresh(11, 256, MIX_LR),
            by_run: MixerState::fresh(11, 256, MIX_LR),
            last: MixerState::fresh(3, 256, MIX2_LR),
            apm1: ApmState::fresh(256),
            apm2: ApmState::fresh(65536),
            pr: 2048,
        }
    }

    pub open spec fn sized(m: MixerState, n: nat, contexts: nat) -> bool {
        m.valid() && m.n == n && m.w.len() == n * contexts
    }

    pub open spec fn valid(self) -> bool {
        &&& Self::sized(self.by_byte, 11, 768)
        &&& Self::sized(self.by_prev, 11, 256)
        &&& Self::sized(self.by_run, 11, 256)
        &&& Self::sized(self.last, 3, 256)
        &&& self.apm1.valid() && self.apm1.contexts == 256
        &&& self.apm2.valid() && self.apm2.contexts == 65536
        &&& logistic_inputs(self.inputs)
        &&& logistic_inputs(self.hidden)
        &&& self.ready() || (self.inputs.len() == 0 && self.hidden.len() == 0)
        &&& 1 <= self.pr <= 4094
    }

    /// A prediction has been made, so there is something to train.
    pub open spec fn ready(self) -> bool {
        self.inputs.len() == 11 && self.hidden.len() == 3
    }

    /// The state once a prediction has been made from `inputs`.
    pub open spec fn mix(self, inputs: Seq<i32>, g: Gates) -> NetState {
        let by_byte = self.by_byte.mix(inputs, g.byte as nat);
        let by_prev = self.by_prev.mix(inputs, g.prev as nat);
        let by_run = self.by_run.mix(inputs, g.run as nat);
        let hidden = seq![
            stretched(by_byte.pr as int) as i32,
            stretched(by_prev.pr as int) as i32,
            stretched(by_run.pr as int) as i32,
        ];
        let last = self.last.mix(hidden, g.part as nat);
        let mixed = last.pr as int;
        let refined = blend(mixed, self.apm1.refined(mixed, g.part as nat));
        let again = blend(refined, self.apm2.refined(refined, g.order2 as nat));
        NetState {
            inputs,
            hidden,
            by_byte,
            by_prev,
            by_run,
            last,
            apm1: self.apm1.refine(mixed, g.part as nat),
            apm2: self.apm2.refine(refined, g.order2 as nat),
            pr: clamped(again, 1, 4094) as i32,
        }
    }

    /// The state once the predicted bit is known.
    pub open spec fn learn(self, bit: bool) -> NetState {
        NetState {
            by_byte: self.by_byte.update(self.inputs, bit),
            by_prev: self.by_prev.update(self.inputs, bit),
            by_run: self.by_run.update(self.inputs, bit),
            last: self.last.update(self.hidden, bit),
            apm1: self.apm1.update(bit),
            apm2: self.apm2.update(bit),
            ..self
        }
    }

    /// Number of mixer weights.
    pub open spec fn weights(self) -> nat {
        self.by_byte.w.len() + self.by_prev.w.len() + self.by_run.w.len() + self.last.w.len()
    }

    /// Number of interpolation points.
    pub open spec fn points(self) -> nat {
        self.apm1.t.len() + self.apm2.t.len()
    }
}

/// The mixing network.
pub struct Network {
    inputs: Vec<i32>,
    hidden: Vec<i32>,
    by_byte: Mixer,
    by_prev: Mixer,
    by_run: Mixer,
    last: Mixer,
    apm1: Apm,
    apm2: Apm,
    pr: i32,
}

impl View for Network {
    type V = NetState;

    closed spec fn view(&self) -> NetState {
        NetState {
            inputs: self.inputs@,
            hidden: self.hidden@,
            by_byte: self.by_byte@,
            by_prev: self.by_prev@,
            by_run: self.by_run@,
            last: self.last@,
            apm1: self.apm1@,
            apm2: self.apm2@,
            pr: self.pr,
        }
    }
}

impl Network {
    pub fn new() -> (n: Self)
        ensures
            n@ == NetState::fresh(),
            n@.valid(),
    {
        let n = Network {
            inputs: Vec::with_capacity(NINPUTS),
            hidden: Vec::with_capacity(NMIX),
            by_byte: Mixer::new(NINPUTS, 768),
            by_prev: Mixer::new(NINPUTS, 256),
            by_run: Mixer::new(NINPUTS, 256),
            last: Mixer::with_lr(NMIX, 256, MIX2_LR),
            apm1: Apm::new(256),
            apm2: Apm::new(65536),
            pr: 2048,
        };
        assert(n@ =~= NetState::fresh());
        n
    }

    /// Number of mixer weights.
    pub fn weights(&self) -> (n: usize)
        requires
            self@.valid(),
        ensures
            n == self@.weights(),
    {
        self.by_byte.weights() + self.by_prev.weights() + self.by_run.weights()
            + self.last.weights()
    }

    /// Number of interpolation points.
    pub fn points(&self) -> (n: usize)
        requires
            self@.valid(),
        ensures
            n == self@.points(),
    {
        self.apm1.points() + self.apm2.points()
    }

    /// Probability that the next bit is 1, as a 12-bit value.
    pub fn mix(&mut self, inputs: Vec<i32>, g: &Gates, st: &Vec<i16>) -> (pr: i32)
        requires
            old(self)@.valid(),
            inputs@.len() == 11,
            logistic_inputs(inputs@),
            g.in_range(),
            is_stretch_table(st@),
        ensures
            final(self)@ == old(self)@.mix(inputs@, *g),
            final(self)@.valid(),
            final(self)@.ready(),
            pr == final(self)@.pr,
    {
        let a: i32 = self.by_byte.mix(&inputs, g.byte);
        let b: i32 = self.by_prev.mix(&inputs, g.prev);
        let c: i32 = self.by_run.mix(&inputs, g.run);
        let hidden: Vec<i32> = vec![stretch_by(st, a), stretch_by(st, b), stretch_by(st, c)];
        proof {
            lemma_stretched_range(a as int);
            lemma_stretched_range(b as int);
            lemma_stretched_range(c as int);
        }
        let mixed: i32 = self.last.mix(&hidden, g.part);
        let refined: i32 = (self.apm1.refine(mixed, g.part, st) * 3 + mixed) / 4;
        let again: i32 = (self.apm2.refine(refined, g.order2, st) * 3 + refined) / 4;
        self.inputs = inputs;
        self.hidden = hidden;
        self.pr = if again < 1 {
            1
        } else if again > 4094 {
            4094
        } else {
            again
        };
        assert(self@ =~= old(self)@.mix(inputs@, *g));
        self.pr
    }

    /// Train everything that the last prediction used.
    pub fn learn(&mut self, bit: u32)
        requires
            old(self)@.valid(),
            old(self)@.ready(),
            bit <= 1,
        ensures
            final(self)@ == old(self)@.learn(bit != 0),
            final(self)@.valid(),
            final(self)@.ready(),
    {
        self.apm1.update(bit);
        self.apm2.update(bit);
        self.last.update(&self.hidden, bit);
        self.by_byte.update(&self.inputs, bit);
        self.by_prev.update(&self.inputs, bit);
        self.by_run.update(&self.inputs, bit);
        assert(self@ =~= old(self)@.learn(bit != 0));
    }
}

/// The mixed probability: three mixers see the same inputs, each with the weights
/// of its own gate; a fourth one weighs the three; and two refinements, each
/// three parts to one of what came in, have the last word.
pub proof fn law_two_layers_and_two_refinements(n: NetState, inputs: Seq<i32>, g: Gates)
    ensures
        ({
            let m = n.mix(inputs, g);
            let a = n.by_byte.mix(inputs, g.byte as nat);
            let b = n.by_prev.mix(inputs, g.prev as nat);
            let c = n.by_run.mix(inputs, g.run as nat);
            let said = m.last.pr as int;
            let once = (n.apm1.refined(said, g.part as nat) * 3 + said) / 4;
            let twice = (n.apm2.refined(once, g.order2 as nat) * 3 + once) / 4;
            &&& m.by_byte == a && m.by_prev == b && m.by_run == c && m.inputs == inputs
            &&& m.hidden == seq![
                stretched(a.pr as int) as i32,
                stretched(b.pr as int) as i32,
                stretched(c.pr as int) as i32,
            ]
            &&& m.last == n.last.mix(m.hidden, g.part as nat)
            &&& m.apm1 == n.apm1.refine(said, g.part as nat)
            &&& m.apm2 == n.apm2.refine(once, g.order2 as nat)
            &&& 1 <= m.pr <= 4094
            &&& 1 <= twice <= 4094 ==> m.pr == twice
            &&& twice < 1 ==> m.pr == 1
            &&& twice > 4094 ==> m.pr == 4094
        }),
{
}

/// Every stage learns from the same bit, each from what it was given.
pub proof fn law_every_stage_learns(n: NetState, bit: bool)
    ensures
        ({
            let m = n.learn(bit);
            &&& m.by_byte == n.by_byte.update(n.inputs, bit)
            &&& m.by_prev == n.by_prev.update(n.inputs, bit)
            &&& m.by_run == n.by_run.update(n.inputs, bit)
            &&& m.last == n.last.update(n.hidden, bit)
            &&& m.apm1 == n.apm1.update(bit)
            &&& m.apm2 == n.apm2.update(bit)
            &&& m.pr == n.pr && m.inputs == n.inputs && m.hidden == n.hidden
        }),
{
}

/// The second layer learns sixteen times more slowly than the first.
pub proof fn law_fresh_network()
    ensures
        ({
            let n = NetState::fresh();
            &&& n.by_byte == MixerState::fresh(11, 768, 9)
            &&& n.by_prev == MixerState::fresh(11, 256, 9)
            &&& n.by_run == MixerState::fresh(11, 256, 9)
            &&& n.last == MixerState::fresh(3, 256, 13)
            &&& n.apm1 == ApmState::fresh(256)
            &&& n.apm2 == ApmState::fresh(65536)
        }),
{
}

} // verus!

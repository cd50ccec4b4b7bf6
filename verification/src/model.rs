//! Context-mixing model.
//!
//! One bit at a time, several independent context models each output a
//! probability. The probabilities are converted to the logistic domain
//! (`stretch`), combined by a gated linear mixer whose weights are trained
//! online, then refined by two adaptive probability maps (SSE stages).
//!
//! Models used:
//!   - order 0 (partial byte only)
//!   - orders 1, 2, 3, 4, 6, 8 over the byte history
//!   - a word model (hash of the current alphanumeric run)
//!   - a sparse model (bytes at distance 1 and 3)
//!   - a match model predicting the continuation of the longest recent match

use vstd::arithmetic::power2::pow2;
use vstd::prelude::*;

use crate::bank::Bank;
#[allow(unused_imports)]
use crate::bank::BankState;
use crate::counter::recip_table;
#[allow(unused_imports)]
use crate::counter::is_recip_table;
use crate::history::History;
#[allow(unused_imports)]
use crate::history::HistoryState;
use crate::logistic::stretch_table;
#[allow(unused_imports)]
use crate::logistic::is_stretch_table;
use crate::matching::{bit_len, MatchModel};
#[allow(unused_imports)]
use crate::matching::{bit_length, lemma_bit_length_at_most, MatchState};
use crate::network::{Gates, Network, NINPUTS};
#[allow(unused_imports)]
use crate::network::NetState;

pub use crate::logistic::{squash, stretch};

verus! {

/// How many bits index the hashed tables at `level`.
pub open spec fn hash_bits(level: u8) -> nat {
    if level < 8 {
        (16 + level) as nat
    } else {
        24
    }
}

/// How many bits index the match table at `level`.
pub open spec fn match_bits(level: u8) -> nat {
    if level < 6 {
        (16 + level) as nat
    } else {
        22
    }
}

/// State of the whole model.
#[verifier::ext_equal]
pub struct Model {
    pub history: HistoryState,
    /// Partial byte with a leading 1 bit, and how many bits of it are known.
    pub c0: u32,
    pub bitpos: u32,
    pub bank: BankState,
    pub matches: MatchState,
    pub net: NetState,
}

impl Model {
    #[verifier::opaque]
    pub open spec fn fresh(level: u8) -> Model {
        Model {
            history: HistoryState::fresh(),
            c0: 1,
            bitpos: 0,
            bank: BankState::fresh(hash_bits(level)),
            matches: MatchState::fresh(match_bits(level)),
            net: NetState::fresh(),
        }
    }

    pub open spec fn valid(self) -> bool {
        &&& self.history.ctx.len() == 7
        &&& self.bitpos < 8
        &&& pow2(self.bitpos as nat) <= self.c0 < pow2((self.bitpos + 1) as nat)
        &&& self.bank.valid()
        &&& self.matches.valid()
        &&& self.matches.mask < 0x40_0000
        &&& self.net.valid()
    }

    /// A bit has been predicted, so there is something to train.
    pub open spec fn ready(self) -> bool {
        self.net.ready()
    }

    /// The contexts that gate the network, given the match state `m`.
    pub open spec fn gates(self, m: MatchState) -> Gates {
        Gates {
            byte: (self.c0 + (if !m.active {
                0int
            } else if m.expected {
                256
            } else {
                512
            })) as usize,
            prev: self.history.last() as usize,
            run: (bit_length(m.len as nat) * 8 + self.bitpos) as usize,
            part: self.c0 as usize,
            order2: (self.history.order2_hash(self.c0) % 65536) as usize,
        }
    }

    /// The state once the next bit has been predicted.
    #[verifier::opaque]
    pub open spec fn select(self) -> Model {
        let bank = self.bank.select(self.c0, self.history.last() as u32, self.history.ctx);
        let matches = self.matches.predict(self.c0, self.bitpos);
        let inputs = seq![256i32] + bank.opinions() + seq![matches.opinion() as i32];
        Model { bank, matches, net: self.net.mix(inputs, self.gates(matches)), ..self }
    }

    /// The probability that the last prediction gave to a 1, in 4096ths.
    pub open spec fn pr(self) -> u32 {
        self.net.pr as u32
    }

    /// The state once a whole byte is known.
    pub open spec fn push_byte(self, byte: u8) -> Model {
        let history = self.history.push(byte);
        Model {
            history,
            c0: 1,
            bitpos: 0,
            matches: self.matches.update_byte(history.buf, history.match_hash()),
            ..self
        }
    }

    /// The state once the predicted bit is known.
    #[verifier::opaque]
    pub open spec fn learn(self, bit: bool) -> Model {
        let c0 = self.c0 * 2 + (if bit {
            1int
        } else {
            0
        });
        let trained = Model {
            bank: self.bank.learn(bit),
            matches: self.matches.update_bit(bit),
            net: self.net.learn(bit),
            ..self
        };
        if self.bitpos == 7 {
            trained.push_byte((c0 % 256) as u8)
        } else {
            Model { c0: c0 as u32, bitpos: (self.bitpos + 1) as u32, ..trained }
        }
    }

    /// Memory of the tables, in bytes.
    pub open spec fn memory(self) -> nat {
        (self.bank.counters() + self.matches.ht.len() + self.net.weights()) * 4
            + self.net.points() * 2
    }
}

/// What a predicted bit does to the history and to the partial byte.
pub proof fn lemma_bit_known(m: Model, bit: bool)
    ensures
        ({
            let next = m.select().learn(bit);
            let c0 = m.c0 * 2 + (if bit {
                1int
            } else {
                0
            });
            if m.bitpos == 7 {
                &&& next.history.buf == m.history.buf.push((c0 % 256) as u8)
                &&& next.history.hist == (m.history.hist << 8) | (((c0 % 256) as u8) as u64)
                &&& next.c0 == 1
                &&& next.bitpos == 0
            } else {
                &&& next.history == m.history
                &&& next.c0 == c0 as u32
                &&& next.bitpos == (m.bitpos + 1) as u32
            }
        }),
{
    reveal(Model::select);
    reveal(Model::learn);
}

/// Whatever the model has seen, it gives a 1 a probability between 1/4096 and
/// 4094/4096.
pub proof fn law_probability_range(m: Model)
    ensures
        1 <= m.select().pr() <= 4094,
{
    reveal(Model::select);
}

/// What the model needs at each level, in bytes.
pub open spec fn memory_at(level: u8) -> nat {
    (256 + 65536 + 7 * pow2(hash_bits(level)) + pow2(match_bits(level)) + 11 * (768 + 256 + 256)
        + 3 * 256) * 4 + 33 * (256 + 65536) * 2
}

/// A fresh model takes `memory_at` its level.
pub proof fn law_memory_by_level(level: u8)
    ensures
        Model::fresh(level).memory() == memory_at(level),
{
    reveal(Model::fresh);
    vstd::arithmetic::power2::lemma2_to64();
    vstd::arithmetic::power2::lemma_pow2_pos(hash_bits(level));
    if hash_bits(level) < 24 {
        vstd::arithmetic::power2::lemma_pow2_strictly_increases(hash_bits(level), 24);
    }
}

/// Predicts a sequence of bits, most significant bit of each byte first.
pub struct Predictor {
    history: History,
    c0: u32,
    bitpos: u32,
    bank: Bank,
    matches: MatchModel,
    net: Network,
    stretches: Vec<i16>,
    recips: Vec<u32>,
}

impl View for Predictor {
    type V = Model;

    closed spec fn view(&self) -> Model {
        Model {
            history: self.history@,
            c0: self.c0,
            bitpos: self.bitpos,
            bank: self.bank@,
            matches: self.matches@,
            net: self.net@,
        }
    }
}

impl Predictor {
    pub closed spec fn wf(&self) -> bool {
        &&& self@.valid()
        &&& is_stretch_table(self.stretches@)
        &&& is_recip_table(self.recips@)
    }

    /// `level` in 0..=9 trades memory for compression ratio; anything above is
    /// taken as 9.
    pub fn new(level: u8) -> (p: Self)
        ensures
            p@ == Model::fresh(level),
            p.wf(),
    {
        let hbits: u32 = if level < 8 {
            16 + level as u32
        } else {
            24
        };
        let mbits: u32 = if level < 6 {
            16 + level as u32
        } else {
            22
        };
        proof {
            vstd::arithmetic::power2::lemma2_to64();
            if mbits < 22 {
                vstd::arithmetic::power2::lemma_pow2_strictly_increases(mbits as nat, 22);
            }
        }
        let p = Predictor {
            history: History::new(),
            c0: 1,
            bitpos: 0,
            bank: Bank::new(hbits),
            matches: MatchModel::new(mbits),
            net: Network::new(),
            stretches: stretch_table(),
            recips: recip_table(),
        };
        proof {
            reveal(Model::fresh);
        }
        assert(p@ =~= Model::fresh(level));
        p
    }

    /// Memory footprint of the model tables, in bytes.
    pub fn memory_usage(&self) -> (n: usize)
        requires
            self.wf(),
        ensures
            n == self@.memory(),
    {
        (self.bank.counters() + self.matches.slots() + self.net.weights()) * 4 + self.net.points()
            * 2
    }

    /// Probability that the next bit is 1, as a 12-bit value in 1..=4094.
    ///
    /// This is not a pure query: it selects the table slots and mixer weight
    /// sets that [`Predictor::update`] will then train, and it drops a match
    /// that no longer agrees with the partial byte. Call it exactly once per
    /// bit, always followed by `update`. The encoder and the decoder must run
    /// the same sequence of calls or they will diverge.
    pub fn p(&mut self) -> (pr: u32)
        requires
            old(self).wf(),
        ensures
            final(self)@ == old(self)@.select(),
            final(self).wf(),
            final(self)@.ready(),
            pr == final(self)@.pr(),
            1 <= pr <= 4094,
    {
        proof {
            vstd::arithmetic::power2::lemma2_to64();
        }
        let c0: u32 = self.c0;
        let c1: u32 = self.history.last();
        let mut inputs: Vec<i32> = Vec::with_capacity(NINPUTS);
        inputs.push(256);
        self.bank.select(c0, c1, self.history.contexts(), &self.stretches, &mut inputs);
        let says: i32 = self.matches.predict(c0, self.bitpos, &self.stretches);
        inputs.push(says);
        let gate: usize = match self.matches.expects() {
            None => 0,
            Some(true) => 256,
            Some(false) => 512,
        };
        let run: u32 = bit_len(self.matches.length());
        proof {
            lemma_bit_length_at_most(self.matches@.len as nat, 16);
        }
        let g = Gates {
            byte: c0 as usize + gate,
            prev: c1 as usize,
            run: run as usize * 8 + self.bitpos as usize,
            part: c0 as usize,
            order2: (self.history.order2_hash(c0) % 65536) as usize,
        };
        assert(g == old(self)@.gates(self.matches@));
        assert(inputs@ =~= seq![256i32] + self.bank@.opinions() + seq![says]);
        let pr: i32 = self.net.mix(inputs, &g, &self.stretches);
        proof {
            reveal(Model::select);
        }
        assert(self@ =~= old(self)@.select());
        pr as u32
    }

    /// Feed back the bit that was actually coded.
    pub fn update(&mut self, bit: u32)
        requires
            old(self).wf(),
            old(self)@.ready(),
            bit <= 1,
        ensures
            final(self)@ == old(self)@.learn(bit != 0),
            final(self).wf(),
            final(self)@.ready(),
    {
        proof {
            vstd::arithmetic::power2::lemma2_to64();
            vstd::arithmetic::power2::lemma_pow2_unfold((self.bitpos + 1) as nat);
            vstd::arithmetic::power2::lemma_pow2_unfold((self.bitpos + 2) as nat);
        }
        self.net.learn(bit);
        self.bank.learn(bit, &self.recips);
        self.matches.update_bit(bit, &self.recips);
        let c0: u32 = self.c0 * 2 + bit;
        if self.bitpos == 7 {
            self.push_byte((c0 % 256) as u8);
        } else {
            self.c0 = c0;
            self.bitpos = self.bitpos + 1;
        }
        proof {
            reveal(Model::learn);
        }
        assert(self@ =~= old(self)@.learn(bit != 0));
    }

    /// Start the next byte, `byte` being the one that just ended.
    fn push_byte(&mut self, byte: u8)
        requires
            old(self).wf(),
        ensures
            final(self)@ == old(self)@.push_byte(byte),
            final(self).wf(),
    {
        proof {
            vstd::arithmetic::power2::lemma2_to64();
        }
        self.history.push(byte);
        self.c0 = 1;
        self.bitpos = 0;
        let h: u32 = self.history.match_hash();
        self.matches.update_byte(self.history.bytes(), h);
        assert(self@ =~= old(self)@.push_byte(byte));
    }
}

/// What a prediction is made of: a constant, what the nine counters say, and
/// what the match says; gated by the partial byte and what the match expects, by
/// the last byte, and by the length of the match and the bit position; refined
/// by the partial byte, and by it and the two bytes before.
pub proof fn law_prediction(m: Model)
    requires
        m.valid(),
    ensures
        ({
            let n = m.select();
            let g = m.gates(n.matches);
            &&& n.bank == m.bank.select(m.c0, m.history.last() as u32, m.history.ctx)
            &&& n.matches == m.matches.predict(m.c0, m.bitpos)
            &&& n.net == m.net.mix(
                seq![256i32] + n.bank.opinions() + seq![n.matches.opinion() as i32],
                g,
            )
            &&& n.history == m.history && n.c0 == m.c0 && n.bitpos == m.bitpos
            &&& n.pr() == n.net.pr
            &&& g.byte == m.c0 + (if !n.matches.active {
                0int
            } else if n.matches.expected {
                256
            } else {
                512
            })
            &&& g.prev == m.history.last()
            &&& g.part == m.c0
            &&& g.run == bit_length(n.matches.len as nat) * 8 + m.bitpos
            &&& g.order2 == m.history.order2_hash(m.c0) % 65536
        }),
{
    reveal(Model::select);
    vstd::arithmetic::power2::lemma2_to64();
    lemma_bit_length_at_most(m.matches.predict(m.c0, m.bitpos).len as nat, 16);
}

/// What a bit teaches: every counter that was asked, the match and the network
/// learn it, and the partial byte takes it; the eighth one ends the byte, which
/// goes into the history and to the match model.
pub proof fn law_learning(m: Model, bit: bool)
    requires
        m.valid(),
    ensures
        ({
            let n = m.learn(bit);
            let c0 = m.c0 * 2 + (if bit {
                1int
            } else {
                0
            });
            &&& n.bank == m.bank.learn(bit)
            &&& n.net == m.net.learn(bit)
            &&& m.bitpos < 7 ==> n.c0 == c0 && n.bitpos == m.bitpos + 1 && n.history == m.history
                && n.matches == m.matches.update_bit(bit)
            &&& m.bitpos == 7 ==> n.c0 == 1 && n.bitpos == 0 && n.history == m.history.push(
                (c0 % 256) as u8,
            ) && n.matches == m.matches.update_bit(bit).update_byte(
                n.history.buf,
                n.history.match_hash(),
            )
        }),
{
    reveal(Model::learn);
    vstd::arithmetic::power2::lemma2_to64();
}

/// A level sets the size of the tables: `2^(16+level)` slots for each hashed
/// context, at most `2^24`, and as many for matches, at most `2^22`.
pub proof fn law_level_sets_the_tables(level: u8)
    requires
        level <= 9,
    ensures
        ({
            let m = Model::fresh(level);
            &&& m.bank == BankState::fresh(
                if level > 8 {
                    24
                } else {
                    (16 + level) as nat
                },
            )
            &&& m.matches == MatchState::fresh(
                if level > 6 {
                    22
                } else {
                    (16 + level) as nat
                },
            )
            &&& m.history == HistoryState::fresh() && m.net == NetState::fresh()
            &&& m.c0 == 1 && m.bitpos == 0
        }),
{
    reveal(Model::fresh);
}

} // verus!

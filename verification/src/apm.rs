//! Adaptive probability maps (secondary symbol estimation).

use vstd::prelude::*;

use crate::logistic::{squash, stretch_by};
#[allow(unused_imports)]
use crate::logistic::{is_stretch_table, squashed, stretched};

verus! {

/// Interpolation points per context.
pub const POINTS: usize = 33;

/// State of a map: 33 interpolation points per context, and the point that
/// was last nearest.
#[verifier::ext_equal]
pub struct ApmState {
    pub t: Seq<u16>,
    pub idx: nat,
    pub contexts: nat,
}

impl ApmState {
    /// Every context starts with the logistic curve itself.
    pub open spec fn fresh(contexts: nat) -> ApmState {
        ApmState {
            t: Seq::new(contexts * 33, |i: int| (squashed((i % 33 - 16) * 128) * 16) as u16),
            idx: 0,
            contexts,
        }
    }

    pub open spec fn valid(self) -> bool {
        &&& self.t.len() == self.contexts * 33
        &&& self.idx < self.t.len()
    }

    /// The distance of `pr` from the left end of the logistic domain.
    pub open spec fn offset(pr: int) -> int {
        stretched(pr) + 2048
    }

    /// The point on the left of `pr` in context `cx`.
    pub open spec fn left(pr: int, cx: nat) -> int {
        cx * 33 + Self::offset(pr) / 128
    }

    /// `pr` refined by context `cx`: the map, interpolated, as 12 bits.
    pub open spec fn refined(self, pr: int, cx: nat) -> int {
        let w = Self::offset(pr) % 128;
        let i = Self::left(pr, cx);
        (self.t[i] * (128 - w) + self.t[i + 1] * w) / 2048
    }

    /// The state once `pr` has been refined: the nearer of the two points is
    /// selected.
    pub open spec fn refine(self, pr: int, cx: nat) -> ApmState {
        ApmState {
            idx: (Self::left(pr, cx) + Self::offset(pr) % 128 / 64) as nat,
            ..self
        }
    }

    /// The selected point moved 1/128 of the way towards `bit`.
    pub open spec fn update(self, bit: bool) -> ApmState {
        let v = self.t[self.idx as int] as int;
        let g: int = if bit {
            65535int + 127
        } else {
            0
        };
        ApmState { t: self.t.update(self.idx as int, (v + (g - v) / 128) as u16), ..self }
    }
}

/// Refines a probability given a small context, by interpolating in a learned
/// table over the logistic domain.
pub struct Apm {
    t: Vec<u16>,
    idx: usize,
    contexts: usize,
}

impl View for Apm {
    type V = ApmState;

    closed spec fn view(&self) -> ApmState {
        ApmState { t: self.t@, idx: self.idx as nat, contexts: self.contexts as nat }
    }
}

impl Apm {
    pub fn new(contexts: usize) -> (a: Self)
        requires
            1 <= contexts <= 0x1_0000,
        ensures
            a@ == ApmState::fresh(contexts as nat),
            a@.valid(),
    {
        let mut t: Vec<u16> = Vec::with_capacity(contexts * 33);
        let mut c: usize = 0;
        while c < contexts
            invariant
                c <= contexts <= 0x1_0000,
                t@.len() == c * 33,
                forall|i: int|
                    0 <= i < t@.len() ==> #[trigger] t@[i] == (squashed((i % 33 - 16) * 128)
                        * 16) as u16,
            decreases contexts - c,
        {
            let mut j: usize = 0;
            while j < 33
                invariant
                    j <= 33,
                    c < 0x1_0000,
                    t@.len() == c * 33 + j,
                    forall|i: int|
                        0 <= i < t@.len() ==> #[trigger] t@[i] == (squashed((i % 33 - 16) * 128)
                            * 16) as u16,
                decreases 33 - j,
            {
                assert((c * 33 + j) % 33 == j);
                t.push((squash((j as i32 - 16) * 128) * 16) as u16);
                j = j + 1;
            }
            c = c + 1;
        }
        let a = Apm { t, idx: 0, contexts };
        assert(a@ =~= ApmState::fresh(contexts as nat));
        a
    }

    /// Number of interpolation points.
    pub fn points(&self) -> (n: usize)
        ensures
            n == self@.t.len(),
    {
        self.t.len()
    }

    /// `pr` as context `cx` knows it.
    pub fn refine(&mut self, pr: i32, cx: usize, st: &Vec<i16>) -> (r: i32)
        requires
            old(self)@.valid(),
            0 <= pr < 4096,
            cx < old(self)@.contexts <= 0x1_0000,
            is_stretch_table(st@),
        ensures
            final(self)@ == old(self)@.refine(pr as int, cx as nat),
            final(self)@.valid(),
            r == old(self)@.refined(pr as int, cx as nat),
            0 <= r < 4096,
    {
        // `stretch` returns [-2047, 2047], so s is in [1, 4095] and s / 128 is
        // in [0, 31]: the interpolation reads slots 0..=32 of the row and never
        // spills into the next one.
        let s: usize = (stretch_by(st, pr) + 2048) as usize;
        let w: usize = s % 128;
        let i: usize = cx * 33 + s / 128;
        self.idx = i + w / 64;
        let a: u32 = self.t[i] as u32;
        let b: u32 = self.t[i + 1] as u32;
        let wl: u32 = 128 - w as u32;
        let wr: u32 = w as u32;
        assert(0 <= a * wl <= 65535 * wl && 0 <= b * wr <= 65535 * wr) by (nonlinear_arith)
            requires
                0 <= a <= 65535,
                0 <= b <= 65535,
                0 <= wl,
                0 <= wr,
        ;
        assert(self@ =~= old(self)@.refine(pr as int, cx as nat));
        ((a * wl + b * wr) / 2048) as i32
    }

    /// Feed back the bit that was coded.
    pub fn update(&mut self, bit: u32)
        requires
            old(self)@.valid(),
            bit <= 1,
        ensures
            final(self)@ == old(self)@.update(bit != 0),
            final(self)@.valid(),
    {
        let g: i32 = bit as i32 * (65535 + 127);
        let v: i32 = self.t[self.idx] as i32;
        let d: i32 = g - v;
        assert(d >> 7 == d / 128) by (bit_vector);
        // The fixed point of this recurrence sits just above the largest
        // value, but the increment reaches zero there, so the cast never
        // truncates.
        self.t[self.idx] = (v + (d >> 7)) as u16;
        assert(self@ =~= old(self)@.update(bit != 0));
    }
}

/// A probability is refined between the two points around it, in proportion to
/// how near it is to each.
pub proof fn law_refined_between_its_points(a: ApmState, pr: int, cx: nat)
    requires
        0 <= pr <= 4095,
        a.t.len() == a.contexts * 33,
        cx < a.contexts,
    ensures
        ({
            let at = stretched(pr) + 2048;
            let k = cx * 33 + at / 128;
            let near = at % 128;
            let r = a.refined(pr, cx);
            &&& 2048 * r <= a.t[k] * (128 - near) + a.t[k + 1] * near < 2048 * r + 2048
            &&& a.refine(pr, cx).idx == (if near < 64 {
                k
            } else {
                k + 1
            })
            &&& a.refine(pr, cx).t == a.t && a.refine(pr, cx).contexts == a.contexts
        }),
{
    crate::logistic::lemma_stretched_range(pr);
    let at = stretched(pr) + 2048;
    assert(at % 128 / 64 == (if at % 128 < 64 {
        0int
    } else {
        1
    }));
}

/// The nearer point goes one 128th of the way to the bit; the others stay.
pub proof fn law_refinement_learns(a: ApmState, bit: bool, i: int)
    requires
        a.valid(),
        0 <= i < a.t.len(),
    ensures
        ({
            let n = a.update(bit);
            let moved = n.t[i] - a.t[i];
            let way = if bit {
                65662 - a.t[i]
            } else {
                -(a.t[i] as int)
            };
            &&& n.t.len() == a.t.len() && n.idx == a.idx && n.contexts == a.contexts
            &&& i != a.idx ==> n.t[i] == a.t[i]
            &&& i == a.idx ==> 128 * moved <= way < 128 * moved + 128
        }),
{
}

/// At first a probability is refined to itself: the points lie on the curve.
pub proof fn law_fresh_points_lie_on_the_curve(contexts: nat, cx: nat, k: int)
    requires
        cx < contexts,
        0 <= k < 33,
    ensures
        ApmState::fresh(contexts).t.len() == contexts * 33,
        ApmState::fresh(contexts).t[cx * 33 + k] == squashed((k - 16) * 128) * 16,
        ApmState::fresh(contexts).contexts == contexts,
{
    crate::logistic::lemma_squashed_range((k - 16) * 128);
    assert(cx * 33 + k < contexts * 33) by (nonlinear_arith)
        requires
            cx < contexts,
            k < 33,
    ;
    assert((cx * 33 + k) % 33 == k);
}

} // verus!

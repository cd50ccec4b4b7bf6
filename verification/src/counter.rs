//! Adaptive bit counters.
//!
//! A counter packs a 16-bit probability, a 10-bit observation count and a
//! 6-bit tag: `p:16 | count:10 | tag:6`. The count drives the adaptation rate,
//! fast while the context is fresh and slow (hence stable) once it has seen
//! enough bits. The tag is a fingerprint of the context that owns the slot; on
//! a hashed table it lets an unrelated context that collided be detected and
//! the slot recycled, instead of the two contexts poisoning each other.

use vstd::prelude::*;

verus! {

/// The observation count past which a counter adapts no more slowly.
pub const COUNT_LIMIT: u32 = 255;

/// An even probability that nothing has been observed of yet.
pub const CTR_INIT: u32 = 0x8000_0000;

/// The 16-bit probability of a 1.
pub open spec fn ctr_prob(v: u32) -> int {
    v as int / 0x1_0000
}

/// How many bits have been observed.
pub open spec fn ctr_count(v: u32) -> int {
    v as int / 64 % 1024
}

/// The fingerprint of the context that owns the slot.
pub open spec fn ctr_tag(v: u32) -> int {
    v as int % 64
}

/// The counter with the given fields.
pub open spec fn ctr_pack(prob: int, count: int, tag: int) -> u32 {
    (prob * 0x1_0000 + count * 64 + tag) as u32
}

/// The probability after `bit`, at the rate of a counter that has seen
/// `count` bits: it moves the fraction `1 / (count + 2)` of the way.
pub open spec fn adapted(prob: int, count: int, bit: bool) -> int {
    let target: int = if bit {
        0xffff
    } else {
        0
    };
    prob + (target - prob) * (0x1_0000int / (count + 2)) / 0x1_0000
}

/// The counter after `bit`.
pub open spec fn ctr_next(v: u32, bit: bool, limit: u32) -> u32 {
    ctr_pack(
        adapted(ctr_prob(v), ctr_count(v), bit),
        if ctr_count(v) < limit {
            ctr_count(v) + 1
        } else {
            ctr_count(v)
        },
        ctr_tag(v),
    )
}

/// The slot as the context with fingerprint `tag` finds it: its own, or a
/// fresh one if the slot belongs to another.
pub open spec fn ctr_claimed(v: u32, tag: u32) -> u32 {
    if ctr_tag(v) != tag {
        ctr_pack(0x8000, 0, tag as int)
    } else {
        v
    }
}

/// Packing keeps each field.
pub proof fn law_counter_fields(prob: int, count: int, tag: int)
    requires
        0 <= prob < 0x1_0000,
        0 <= count < 1024,
        0 <= tag < 64,
    ensures
        ctr_prob(ctr_pack(prob, count, tag)) == prob,
        ctr_count(ctr_pack(prob, count, tag)) == count,
        ctr_tag(ctr_pack(prob, count, tag)) == tag,
{
}

/// An adapted probability is still a probability, and it moves towards the
/// bit without passing it.
pub proof fn law_adapted_moves_towards_bit(prob: int, count: int, bit: bool)
    requires
        0 <= prob < 0x1_0000,
        0 <= count,
    ensures
        bit ==> prob <= adapted(prob, count, bit) < 0x1_0000,
        !bit ==> 0 <= adapted(prob, count, bit) <= prob,
{
    let rate = 0x1_0000int / (count + 2);
    assert(0 <= rate <= 0x8000) by (nonlinear_arith)
        requires
            rate == 0x1_0000int / (count + 2),
            count >= 0,
    ;
    if bit {
        let gap = 0xffff - prob;
        assert(0 <= gap * rate <= gap * 0x1_0000) by (nonlinear_arith)
            requires
                gap >= 0,
                0 <= rate <= 0x8000,
        ;
    } else {
        let gap = -prob;
        assert(gap * 0x1_0000 <= gap * rate <= 0) by (nonlinear_arith)
            requires
                gap <= 0,
                0 <= rate <= 0x8000,
        ;
        assert((0 - prob) * rate == gap * rate);
    }
}

/// The adaptation rates by observation count.
pub open spec fn is_recip_table(t: Seq<u32>) -> bool {
    &&& t.len() == 1026
    &&& forall|n: int| 0 <= n < 1026 ==> #[trigger] t[n] == 0x1_0000int / (n + 2)
}

/// The adaptation rate of each observation count.
pub fn recip_table() -> (t: Vec<u32>)
    ensures
        is_recip_table(t@),
{
    let mut t: Vec<u32> = Vec::with_capacity(1026);
    let mut n: u32 = 0;
    while n < 1026
        invariant
            n <= 1026,
            t@.len() == n,
            forall|i: int| 0 <= i < n ==> #[trigger] t@[i] == 0x1_0000int / (i + 2),
        decreases 1026 - n,
    {
        t.push(0x1_0000 / (n + 2));
        n = n + 1;
    }
    t
}

/// The probability of a 1, scaled to 12 bits.
pub fn ctr_p12(v: u32) -> (p: i32)
    ensures
        p == ctr_prob(v) / 16,
        0 <= p < 4096,
{
    (v / 0x10_0000) as i32
}

/// Read a slot from a hashed table, recycling it if it belongs to another
/// context.
pub fn ctr_get_tagged(v: &mut u32, tag: u32) -> (p: i32)
    requires
        tag < 64,
    ensures
        *final(v) == ctr_claimed(*old(v), tag),
        p == ctr_prob(*final(v)) / 16,
        0 <= p < 4096,
{
    if *v % 64 != tag {
        *v = CTR_INIT + tag;
    }
    ctr_p12(*v)
}

/// Observe `bit`, counting up to `limit` observations.
pub fn ctr_update(v: &mut u32, bit: u32, limit: u32, recip: &Vec<u32>)
    requires
        limit < 1024,
        is_recip_table(recip@),
    ensures
        *final(v) == ctr_next(*old(v), bit != 0, limit),
{
    let p: i64 = (*v / 0x1_0000) as i64;
    let n: u32 = *v / 64 % 1024;
    let tag: u32 = *v % 64;
    let rate: i64 = recip[n as usize] as i64;
    proof {
        law_adapted_moves_towards_bit(p as int, n as int, bit != 0);
        assert(0 <= rate <= 0x8000) by (nonlinear_arith)
            requires
                rate == 0x1_0000int / (n + 2),
                n >= 0,
        ;
    }
    let np: i64 = if bit != 0 {
        assert(0 <= (0xffff - p) * rate <= 0xffff * 0x8000) by (nonlinear_arith)
            requires
                0 <= p <= 0xffff,
                0 <= rate <= 0x8000,
        ;
        p + (0xffff - p) * rate / 0x1_0000
    } else {
        // The step down is rounded away from zero.
        assert(0 <= p * rate <= 0xffff * 0x8000 && (0 - p) * rate == -(p * rate))
            by (nonlinear_arith)
            requires
                0 <= p <= 0xffff,
                0 <= rate <= 0x8000,
        ;
        p - (p * rate + 0xffff) / 0x1_0000
    };
    let nn: u32 = if n < limit {
        n + 1
    } else {
        n
    };
    *v = np as u32 * 0x1_0000 + nn * 64 + tag;
}

/// A counter that learns a bit goes the share of the way to it that its count
/// allows, one in two at first and less each time, counts one more up to the
/// limit, and keeps its tag.
pub proof fn law_counter_learns(v: u32, bit: bool, limit: u32)
    requires
        limit < 1024,
    ensures
        ({
            let prob = v as int / 65536;
            let count = v as int / 64 % 1024;
            let n = ctr_next(v, bit, limit);
            let share = 65536int / (count + 2);
            let way = (if bit {
                65535 - prob
            } else {
                -prob
            }) * share;
            let moved = n as int / 65536 - prob;
            &&& 65536 * moved <= way < 65536 * moved + 65536
            &&& n as int / 64 % 1024 == (if count < limit {
                count + 1
            } else {
                count
            })
            &&& n as int % 64 == v as int % 64
        }),
{
    let prob = v as int / 65536;
    let count = v as int / 64 % 1024;
    law_adapted_moves_towards_bit(prob, count, bit);
    law_counter_fields(
        adapted(prob, count, bit),
        if count < limit {
            count + 1
        } else {
            count
        },
        v as int % 64,
    );
}

/// A slot belongs to the context whose tag it bears: another one finds it as
/// good as new, even odds and nothing counted, and its own finds it untouched.
pub proof fn law_slots_are_not_shared(v: u32, tag: u32)
    requires
        tag < 64,
    ensures
        ctr_claimed(v, tag) as int % 64 == tag,
        v as int % 64 == tag ==> ctr_claimed(v, tag) == v,
        v as int % 64 != tag ==> ctr_claimed(v, tag) as int / 65536 == 32768 && ctr_claimed(
            v,
            tag,
        ) as int / 64 % 1024 == 0,
        CTR_INIT as int / 65536 == 32768 && CTR_INIT as int % 65536 == 0,
{
    law_counter_fields(0x8000, 0, tag as int);
}

/// The adaptation rate after `n` observations is one part in `n + 2`, out of
/// 65536 and rounded down.
pub proof fn law_rates(t: Seq<u32>, n: int)
    requires
        is_recip_table(t),
        0 <= n < 1026,
    ensures
        t.len() == 1026,
        t[n] * (n + 2) <= 65536 < (t[n] + 1) * (n + 2),
{
    let d = n + 2;
    let q = 0x1_0000int / d;
    assert(q * d <= 65536 < (q + 1) * d) by (nonlinear_arith)
        requires
            d > 0,
            q == 0x1_0000int / d,
    ;
}

} // verus!

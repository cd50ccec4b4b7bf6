//! The match model: long-range redundancy at next to no cost.

use vstd::arithmetic::power2::pow2;
use vstd::prelude::*;

use crate::counter::{ctr_p12, ctr_update, COUNT_LIMIT, CTR_INIT};
#[allow(unused_imports)]
use crate::counter::{ctr_next, ctr_prob, is_recip_table};
use crate::logistic::stretch_by;
#[allow(unused_imports)]
use crate::logistic::{is_stretch_table, lemma_stretched_range, stretched};

verus! {

/// The shortest match that is followed.
pub const MATCH_MIN: usize = 6;

/// The length past which a match is counted no further.
pub const MATCH_MAX_LEN: u32 = 65535;

/// How many bytes, up to `most`, agree before positions `a` and `b`.
pub open spec fn common_suffix(buf: Seq<u8>, a: int, b: int, most: nat) -> nat
    decreases most,
{
    if most > 0 && a > 0 && b > 0 && buf[a - 1] == buf[b - 1] {
        1 + common_suffix(buf, a - 1, b - 1, (most - 1) as nat)
    } else {
        0
    }
}

/// How many binary digits `n` has; at least one.
pub open spec fn bit_length(n: nat) -> nat
    decreases n,
{
    if n < 2 {
        1
    } else {
        1 + bit_length(n / 2)
    }
}

/// A number below `2^k` has at most `k` binary digits.
pub proof fn lemma_bit_length_at_most(n: nat, k: nat)
    requires
        n < pow2(k),
        k >= 1,
    ensures
        1 <= bit_length(n) <= k,
    decreases k,
{
    vstd::arithmetic::power2::lemma2_to64();
    if n >= 2 {
        vstd::arithmetic::power2::lemma_pow2_unfold(k);
        assert(k >= 2);
        lemma_bit_length_at_most(n / 2, (k - 1) as nat);
    }
}

/// How many binary digits `n` has; at least one.
pub fn bit_len(n: u32) -> (r: u32)
    ensures
        r == bit_length(n as nat),
        1 <= r <= 32,
{
    proof {
        vstd::arithmetic::power2::lemma2_to64();
        lemma_bit_length_at_most(n as nat, 32);
    }
    let mut m: u32 = n;
    let mut r: u32 = 1;
    while m >= 2
        invariant
            r - 1 + bit_length(m as nat) == bit_length(n as nat),
            1 <= r,
            bit_length(n as nat) <= 32,
        decreases m,
    {
        assert(bit_length((m / 2) as nat) >= 1);
        m = m / 2;
        r = r + 1;
    }
    r
}

/// State of the match model.
#[verifier::ext_equal]
pub struct MatchState {
    /// Where each hashed context was last followed; 0 for nowhere.
    pub ht: Seq<u32>,
    pub mask: u32,
    /// The position that the match predicts from, and how long it is.
    pub ptr: nat,
    pub len: u32,
    pub predicted: u8,
    /// One counter per match length, bit position and expected bit.
    pub sm: Seq<u32>,
    pub sm_idx: nat,
    pub active: bool,
    pub expected: bool,
}

impl MatchState {
    pub open spec fn fresh(bits: nat) -> MatchState {
        MatchState {
            ht: Seq::new(pow2(bits), |i: int| 0u32),
            mask: (pow2(bits) - 1) as u32,
            ptr: 0,
            len: 0,
            predicted: 0,
            sm: Seq::new(256, |i: int| CTR_INIT),
            sm_idx: 0,
            active: false,
            expected: false,
        }
    }

    pub open spec fn valid(self) -> bool {
        &&& self.ht.len() == self.mask + 1
        &&& self.sm.len() == 256
        &&& self.sm_idx < 256
        &&& self.len <= MATCH_MAX_LEN
    }

    /// The current match, once the last byte of `buf` is known: longer by that
    /// byte, or gone.
    pub open spec fn followed(self, buf: Seq<u8>) -> (nat, u32) {
        if self.len == 0 || self.ptr >= buf.len() || buf[self.ptr as int] != buf.last() {
            (self.ptr, 0)
        } else if self.len < MATCH_MAX_LEN {
            (self.ptr + 1, (self.len + 1) as u32)
        } else {
            (self.ptr + 1, self.len)
        }
    }

    /// The match that is followed from here on: the current one, or the
    /// candidate of context `h` where it agrees far enough back.
    pub open spec fn found(self, buf: Seq<u8>, h: u32) -> (nat, u32) {
        let cand = self.ht[(h & self.mask) as int] as nat;
        let agreed = common_suffix(buf, cand as int, buf.len() as int, 32);
        if self.followed(buf).1 == 0 && MATCH_MIN <= buf.len() && 0 < cand < buf.len() && agreed
            >= MATCH_MIN {
            (cand, agreed as u32)
        } else {
            self.followed(buf)
        }
    }

    /// The state once `buf` has been extended with a byte, `h` being the hash
    /// of the context that ends in it.
    pub open spec fn update_byte(self, buf: Seq<u8>, h: u32) -> MatchState {
        let (ptr, len) = self.found(buf, h);
        MatchState {
            ht: if buf.len() >= MATCH_MIN {
                self.ht.update((h & self.mask) as int, buf.len() as u32)
            } else {
                self.ht
            },
            ptr,
            len,
            predicted: if len > 0 && ptr < buf.len() {
                buf[ptr as int]
            } else {
                0
            },
            ..self
        }
    }

    /// The predicted byte with a leading 1 bit, from its `n` highest bits on.
    pub open spec fn predicted_bits(self, n: nat) -> int {
        (256 + self.predicted) / (pow2((8 - n) as nat) as int)
    }

    /// The match only speaks for the bit at `bitpos` if the bits of the byte
    /// known so far, `c0`, agree with the predicted byte.
    pub open spec fn speaks(self, c0: u32, bitpos: u32) -> bool {
        self.len > 0 && self.predicted_bits(bitpos as nat) == c0
    }

    /// The counter that the match length, the bit position and the expected
    /// bit select.
    pub open spec fn counter_of(self, bitpos: u32, expected: bool) -> nat {
        let log = bit_length(self.len as nat) - 1;
        let log: int = if log < 7 {
            log
        } else {
            7
        };
        let bucket = log * 2 + (if self.len >= 24 {
            1int
        } else {
            0
        });
        ((bucket * 8 + bitpos) * 2 + (if expected {
            1int
        } else {
            0
        })) as nat
    }

    /// The state once the bit at `bitpos` has been predicted.
    pub open spec fn predict(self, c0: u32, bitpos: u32) -> MatchState {
        let expected = self.predicted_bits((bitpos + 1) as nat) % 2 == 1;
        if self.speaks(c0, bitpos) {
            MatchState {
                sm_idx: self.counter_of(bitpos, expected),
                active: true,
                expected,
                ..self
            }
        } else {
            MatchState { len: 0, active: false, ..self }
        }
    }

    /// What the state after `predict` says of the bit, in the logistic domain.
    pub open spec fn opinion(self) -> int {
        if self.active {
            stretched(ctr_prob(self.sm[self.sm_idx as int]) / 16)
        } else {
            0
        }
    }

    /// The state once the bit is known.
    pub open spec fn update_bit(self, bit: bool) -> MatchState {
        if self.active {
            MatchState {
                sm: self.sm.update(
                    self.sm_idx as int,
                    ctr_next(self.sm[self.sm_idx as int], bit, COUNT_LIMIT),
                ),
                ..self
            }
        } else {
            self
        }
    }
}

/// The bytes that the match is made of agree with the last ones of `buf`, and
/// the byte after them is the predicted one.
pub open spec fn match_holds(m: MatchState, buf: Seq<u8>) -> bool {
    &&& m.ptr <= buf.len()
    &&& m.len > 0 ==> m.ptr < buf.len() && m.predicted == buf[m.ptr as int]
    &&& m.len <= m.ptr || m.len == 0
    &&& forall|k: int|
        0 <= k < m.len ==> #[trigger] buf[m.ptr - 1 - k] == buf[buf.len() - 1 - k]
}

/// Common suffixes are common.
proof fn lemma_common_suffix(buf: Seq<u8>, a: int, b: int, most: nat)
    requires
        0 <= a <= b <= buf.len(),
    ensures
        common_suffix(buf, a, b, most) <= most,
        common_suffix(buf, a, b, most) <= a,
        forall|k: int|
            0 <= k < common_suffix(buf, a, b, most) ==> #[trigger] buf[a - 1 - k] == buf[b - 1
                - k],
    decreases most,
{
    if most > 0 && a > 0 && b > 0 && buf[a - 1] == buf[b - 1] {
        lemma_common_suffix(buf, a - 1, b - 1, (most - 1) as nat);
        assert forall|k: int| 0 <= k < common_suffix(buf, a, b, most) implies #[trigger] buf[a - 1
            - k] == buf[b - 1 - k] by {
            if k > 0 {
                assert(buf[a - 1 - 1 - (k - 1)] == buf[b - 1 - 1 - (k - 1)]);
            }
        }
    }
}

/// Only real matches are followed: whatever byte comes next, the bytes that the
/// match is made of still agree with the last ones, and what it predicts is the
/// byte that came after them the last time. It is the match before, carried on,
/// or a new one of six to 32 bytes.
pub proof fn law_matches_are_real(m: MatchState, buf: Seq<u8>, byte: u8, h: u32)
    requires
        match_holds(m, buf),
        m.valid(),
    ensures
        match_holds(m.update_byte(buf.push(byte), h), buf.push(byte)),
        ({
            let n = m.update_byte(buf.push(byte), h);
            let carried = m.followed(buf.push(byte));
            n.len > 0 ==> if carried.1 > 0 {
                (n.ptr, n.len) == carried
            } else {
                MATCH_MIN <= n.len <= 32
            }
        }),
{
    let next = buf.push(byte);
    let n = m.update_byte(next, h);
    let cand = m.ht[(h & m.mask) as int] as nat;
    if n.len > 0 {
        if m.followed(next).1 > 0 {
            assert forall|k: int| 0 <= k < n.len implies #[trigger] next[n.ptr - 1 - k]
                == next[next.len() - 1 - k] by {
                if k > 0 {
                    assert(buf[m.ptr - 1 - (k - 1)] == buf[buf.len() - 1 - (k - 1)]);
                }
            }
        } else {
            lemma_common_suffix(next, cand as int, next.len() as int, 32);
        }
    }
}

/// Predicts the next bits by following the most recent occurrence of the
/// current order-6 context. This is what gives long-range redundancy (repeated
/// blocks, duplicated files) a cheap, near-free encoding.
pub struct MatchModel {
    ht: Vec<u32>,
    mask: u32,
    ptr: usize,
    len: u32,
    predicted: u8,
    sm: Vec<u32>,
    sm_idx: usize,
    active: bool,
    expected: bool,
}

impl View for MatchModel {
    type V = MatchState;

    closed spec fn view(&self) -> MatchState {
        MatchState {
            ht: self.ht@,
            mask: self.mask,
            ptr: self.ptr as nat,
            len: self.len,
            predicted: self.predicted,
            sm: self.sm@,
            sm_idx: self.sm_idx as nat,
            active: self.active,
            expected: self.expected,
        }
    }
}

impl MatchModel {
    /// A model with `2^bits` context slots.
    pub fn new(bits: u32) -> (m: Self)
        requires
            bits <= 24,
        ensures
            m@ == MatchState::fresh(bits as nat),
            m@.valid(),
    {
        let slots: usize = two_to(bits);
        let m = MatchModel {
            ht: vec![0u32; slots],
            mask: (slots - 1) as u32,
            ptr: 0,
            len: 0,
            predicted: 0,
            sm: vec![CTR_INIT; 256],
            sm_idx: 0,
            active: false,
            expected: false,
        };
        assert(m@ =~= MatchState::fresh(bits as nat));
        m
    }

    /// Number of context slots.
    pub fn slots(&self) -> (n: usize)
        ensures
            n == self@.ht.len(),
    {
        self.ht.len()
    }

    /// Length of the match that is being followed; 0 for none.
    pub fn length(&self) -> (n: u32)
        ensures
            n == self@.len,
    {
        self.len
    }

    /// The bit that the match expects, if it speaks for the current one.
    pub fn expects(&self) -> (e: Option<bool>)
        ensures
            e == (if self@.active {
                Some(self@.expected)
            } else {
                None
            }),
    {
        if self.active {
            Some(self.expected)
        } else {
            None
        }
    }

    /// Called after `buf` has been extended with a byte.
    pub fn update_byte(&mut self, buf: &Vec<u8>, h: u32)
        requires
            old(self)@.valid(),
            buf@.len() > 0,
        ensures
            final(self)@ == old(self)@.update_byte(buf@, h),
            final(self)@.valid(),
    {
        let pos: usize = buf.len();
        let mask: u32 = self.mask;
        assert(h & mask <= mask) by (bit_vector);
        let slot: usize = (h & mask) as usize;
        if self.len > 0 {
            // Extend the current match if it still holds.
            if self.ptr < pos && buf[self.ptr] == buf[pos - 1] {
                self.ptr = self.ptr + 1;
                if self.len < MATCH_MAX_LEN {
                    self.len = self.len + 1;
                }
            } else {
                self.len = 0;
            }
        }
        assert((self@.ptr, self@.len) == old(self)@.followed(buf@));
        if self.len == 0 && pos >= MATCH_MIN {
            let cand: usize = self.ht[slot] as usize;
            if cand > 0 && cand < pos {
                // Measure how far back the candidate agrees with us.
                let mut l: usize = 0;
                while l < 32 && l < cand && buf[cand - 1 - l] == buf[pos - 1 - l]
                    invariant
                        l <= 32,
                        l <= cand < pos == buf@.len(),
                        l + common_suffix(buf@, cand - l, pos - l, (32 - l) as nat)
                            == common_suffix(buf@, cand as int, pos as int, 32),
                    decreases 32 - l,
                {
                    l = l + 1;
                }
                if l >= MATCH_MIN {
                    self.ptr = cand;
                    self.len = l as u32;
                }
            }
        }
        assert((self@.ptr, self@.len) == old(self)@.found(buf@, h));
        if pos >= MATCH_MIN {
            self.ht[slot] = #[verifier::truncate]
            (pos as u32);
        }
        self.predicted = if self.len > 0 && self.ptr < pos {
            buf[self.ptr]
        } else {
            0
        };
        assert(self@ =~= old(self)@.update_byte(buf@, h));
    }

    /// Logistic prediction for the current bit, or 0 when no match applies.
    pub fn predict(&mut self, c0: u32, bitpos: u32, st: &Vec<i16>) -> (d: i32)
        requires
            old(self)@.valid(),
            bitpos < 8,
            is_stretch_table(st@),
        ensures
            final(self)@ == old(self)@.predict(c0, bitpos),
            final(self)@.valid(),
            d == final(self)@.opinion(),
            -2047 <= d <= 2047,
    {
        self.active = false;
        if self.len == 0 {
            assert(self@ =~= old(self)@.predict(c0, bitpos));
            return 0;
        }
        let pb: u32 = self.predicted as u32 + 256;
        proof {
            vstd::bits::lemma_u32_shr_is_div(pb, (8 - bitpos) as u32);
            vstd::bits::lemma_u32_shr_is_div(pb, (7 - bitpos) as u32);
        }
        if (pb >> (8 - bitpos)) != c0 {
            self.len = 0;
            assert(self@ =~= old(self)@.predict(c0, bitpos));
            return 0;
        }
        let expected: u32 = (pb >> (7 - bitpos)) % 2;
        let digits: u32 = bit_len(self.len) - 1;
        let log: usize = if digits < 7 {
            digits as usize
        } else {
            7
        };
        let bucket: usize = log * 2 + if self.len >= 24 {
            1
        } else {
            0
        };
        self.sm_idx = (bucket * 8 + bitpos as usize) * 2 + expected as usize;
        self.active = true;
        self.expected = expected != 0;
        assert(self@ =~= old(self)@.predict(c0, bitpos));
        proof {
            lemma_stretched_range(ctr_prob(self.sm@[self.sm_idx as int]) / 16);
        }
        stretch_by(st, ctr_p12(self.sm[self.sm_idx]))
    }

    /// Train the counter that spoke, if one did.
    pub fn update_bit(&mut self, bit: u32, recip: &Vec<u32>)
        requires
            old(self)@.valid(),
            bit <= 1,
            is_recip_table(recip@),
        ensures
            final(self)@ == old(self)@.update_bit(bit != 0),
            final(self)@.valid(),
    {
        if self.active {
            let mut v: u32 = self.sm[self.sm_idx];
            ctr_update(&mut v, bit, COUNT_LIMIT, recip);
            self.sm[self.sm_idx] = v;
        }
        assert(self@ =~= old(self)@.update_bit(bit != 0));
    }
}

/// `2^bits`.
pub fn two_to(bits: u32) -> (n: usize)
    requires
        bits <= 24,
    ensures
        n == pow2(bits as nat),
        1 <= n <= 0x100_0000,
{
    let mut n: usize = 1;
    let mut i: u32 = 0;
    proof {
        vstd::arithmetic::power2::lemma2_to64();
    }
    while i < bits
        invariant
            i <= bits <= 24,
            n == pow2(i as nat),
            pow2(24) == 0x100_0000,
        decreases bits - i,
    {
        proof {
            vstd::arithmetic::power2::lemma_pow2_unfold((i + 1) as nat);
            if i + 1 < 24 {
                vstd::arithmetic::power2::lemma_pow2_strictly_increases((i + 1) as nat, 24);
            }
        }
        n = n * 2;
        i = i + 1;
    }
    proof {
        vstd::arithmetic::power2::lemma_pow2_pos(bits as nat);
        if bits < 24 {
            vstd::arithmetic::power2::lemma_pow2_strictly_increases(bits as nat, 24);
        }
    }
    n
}

/// A common suffix is as long as it can be: it ends where the bytes differ, at
/// the beginning, or at the limit.
pub proof fn law_common_suffix_is_longest(buf: Seq<u8>, a: int, b: int, most: nat)
    requires
        0 <= a <= b <= buf.len(),
    ensures
        ({
            let n = common_suffix(buf, a, b, most);
            &&& n <= most && n <= a
            &&& forall|k: int| 0 <= k < n ==> #[trigger] buf[a - 1 - k] == buf[b - 1 - k]
            &&& n < most && n < a ==> buf[a - 1 - n] != buf[b - 1 - n]
        }),
    decreases most,
{
    lemma_common_suffix(buf, a, b, most);
    if most > 0 && a > 0 && b > 0 && buf[a - 1] == buf[b - 1] {
        law_common_suffix_is_longest(buf, a - 1, b - 1, (most - 1) as nat);
    }
}

/// The bit length of a number is the power of two that is just above it.
pub proof fn law_bit_length(n: nat)
    requires
        n > 0,
    ensures
        pow2((bit_length(n) - 1) as nat) <= n < pow2(bit_length(n)),
    decreases n,
{
    vstd::arithmetic::power2::lemma2_to64();
    if n >= 2 {
        law_bit_length(n / 2);
        vstd::arithmetic::power2::lemma_pow2_unfold(bit_length(n));
        vstd::arithmetic::power2::lemma_pow2_unfold((bit_length(n) - 1) as nat);
    }
}

/// A match that predicted the byte goes on; else the place where the context was
/// last seen is taken, if six bytes or more before it agree, and followed from
/// there; else there is none. The place is then noted for the next time.
pub proof fn law_match_lookup(m: MatchState, buf: Seq<u8>, h: u32)
    requires
        buf.len() > 0,
        m.ht.len() == m.mask + 1,
    ensures
        ({
            let n = m.update_byte(buf, h);
            let slot = (h & m.mask) as int;
            let seen = m.ht[slot] as int;
            let end = buf.len() as int;
            let hit = m.len > 0 && m.ptr < end && buf[m.ptr as int] == buf[end - 1];
            let agree = 6 <= seen < end && forall|k: int|
                0 <= k < 6 ==> #[trigger] buf[seen - 1 - k] == buf[end - 1 - k];
            &&& hit ==> n.ptr == m.ptr + 1 && n.len == (if m.len < 65535 {
                (m.len + 1) as u32
            } else {
                m.len
            })
            &&& !hit && agree ==> n.ptr == seen && 6 <= n.len <= 32 && (forall|k: int|
                0 <= k < n.len ==> #[trigger] buf[seen - 1 - k] == buf[end - 1 - k]) && (n.len
                == 32 || n.len == seen || buf[seen - 1 - n.len] != buf[end - 1 - n.len])
            &&& !hit && !agree ==> n.len == 0
            &&& n.predicted == (if n.len > 0 && n.ptr < end {
                buf[n.ptr as int]
            } else {
                0
            })
            &&& n.ht == (if end >= 6 {
                m.ht.update(slot, end as u32)
            } else {
                m.ht
            })
            &&& n.sm == m.sm && n.mask == m.mask
        }),
{
    let slot = (h & m.mask) as int;
    let seen = m.ht[slot] as int;
    let end = buf.len() as int;
    if 0 < seen < end {
        law_common_suffix_is_longest(buf, seen, end, 32);
        let n = common_suffix(buf, seen, end, 32);
        if 6 <= seen && n < 6 {
            assert(buf[seen - 1 - n] != buf[end - 1 - n]);
        }
    }
}

/// The match speaks while the bits of the byte so far are those it predicted; it
/// then says what its counter for this length, bit and prediction has learned,
/// and that counter alone learns. Once it was wrong it is over.
pub proof fn law_match_speaks(m: MatchState, c0: u32, bitpos: u32, bit: bool)
    requires
        m.valid(),
        bitpos < 8,
    ensures
        ({
            let n = m.predict(c0, bitpos);
            let whole = 256 + m.predicted;
            let right = m.len > 0 && whole / (pow2((8 - bitpos) as nat) as int) == c0;
            let ahead = whole / (pow2((7 - bitpos) as nat) as int) % 2 == 1;
            &&& n.active == right
            &&& right ==> n.expected == ahead && n.len == m.len && n.opinion() == stretched(
                m.sm[n.sm_idx as int] as int / 1048576,
            )
            &&& !right ==> n.len == 0 && n.opinion() == 0 && n.update_bit(bit) == n
            &&& n.ht == m.ht && n.ptr == m.ptr && n.predicted == m.predicted && n.sm == m.sm
                && n.mask == m.mask
            &&& right ==> n.update_bit(bit).sm == m.sm.update(
                n.sm_idx as int,
                ctr_next(m.sm[n.sm_idx as int], bit, 255),
            )
            &&& n.update_bit(bit).len == n.len && n.update_bit(bit).ptr == n.ptr && n.update_bit(
                bit,
            ).ht == n.ht && n.update_bit(bit).predicted == n.predicted && n.update_bit(bit).mask
                == n.mask
        }),
{
}

/// The counters are told apart by what is predicted, the bit position, and the
/// length: by its power of two up to 128, and from 24 bytes on again.
pub proof fn law_match_counters(m: MatchState, bitpos: u32, expected: bool, log: nat)
    requires
        0 < m.len,
        bitpos < 8,
        pow2(log) <= m.len < pow2(log + 1),
    ensures
        ({
            let c = m.counter_of(bitpos, expected);
            let step: int = if log > 7 {
                7
            } else {
                log as int
            };
            &&& c % 2 == (if expected {
                1nat
            } else {
                0
            })
            &&& c / 2 % 8 == bitpos
            &&& c / 32 == step
            &&& c / 16 % 2 == (if m.len >= 24 {
                1nat
            } else {
                0
            })
        }),
{
    law_bit_length(m.len as nat);
    let b = bit_length(m.len as nat);
    if b - 1 < log {
        vstd::arithmetic::power2::lemma_pow2_strictly_increases((b - 1) as nat, log);
        if b < log {
            vstd::arithmetic::power2::lemma_pow2_strictly_increases(b, log);
        }
    } else if b - 1 > log {
        if b - 1 > log + 1 {
            vstd::arithmetic::power2::lemma_pow2_strictly_increases(log + 1, (b - 1) as nat);
        }
    }
    assert(b - 1 == log);
}

/// At first nothing has been seen, nothing is followed, and every counter is at
/// even odds.
pub proof fn law_no_match(bits: nat, i: int)
    requires
        bits <= 24,
    ensures
        ({
            let m = MatchState::fresh(bits);
            &&& m.ht.len() == pow2(bits) && m.mask == pow2(bits) - 1
            &&& m.len == 0 && !m.active && m.sm.len() == 256 && m.ptr == 0 && m.predicted == 0
            &&& 0 <= i < pow2(bits) ==> m.ht[i] == 0
            &&& 0 <= i < 256 ==> m.sm[i] == 0x8000_0000
        }),
{
    vstd::arithmetic::power2::lemma2_to64();
    vstd::arithmetic::power2::lemma_pow2_pos(bits);
    if bits < 24 {
        vstd::arithmetic::power2::lemma_pow2_strictly_increases(bits, 24);
    }
}

} // verus!

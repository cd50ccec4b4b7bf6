//! The byte history and the contexts that are drawn from it.

use vstd::arithmetic::power2::pow2;
use vstd::prelude::*;

verus! {

/// Hashed contexts: orders 2, 3, 4, 6, 8, the word and a sparse context.
pub const HASHED: usize = 7;

/// A 32-bit hash of `x`; each user of it has a `salt` of its own.
#[verifier::opaque]
pub open spec fn hashed(x: u64, salt: u64) -> u32 {
    let a = x.wrapping_mul(0x9E37_79B9_7F4A_7C15) ^ salt.wrapping_mul(0xC2B2_AE3D_27D4_EB4F);
    let b = (a ^ (a >> 29)).wrapping_mul(0xBF58_476D_1CE4_E5B9);
    (b ^ (b >> 32)) as u32
}

/// A 32-bit hash of `x`; each user of it has a `salt` of its own.
pub fn hash(x: u64, salt: u64) -> (h: u32)
    ensures
        h == hashed(x, salt),
{
    proof {
        reveal(hashed);
    }
    let a: u64 = x.wrapping_mul(0x9E37_79B9_7F4A_7C15) ^ salt.wrapping_mul(
        0xC2B2_AE3D_27D4_EB4F,
    );
    let b: u64 = (a ^ (a >> 29)).wrapping_mul(0xBF58_476D_1CE4_E5B9);
    #[verifier::truncate]
    ((b ^ (b >> 32)) as u32)
}

/// An ASCII letter or digit.
pub open spec fn is_alphanumeric(byte: u8) -> bool {
    0x30 <= byte <= 0x39 || 0x41 <= byte <= 0x5a || 0x61 <= byte <= 0x7a
}

/// The contexts that the last eight bytes and the current word give.
pub open spec fn contexts_of(hist: u64, word: u32) -> Seq<u32> {
    seq![
        hashed(hist & 0xffff, 2),
        hashed(hist & 0x00ff_ffff, 3),
        hashed(hist & 0xffff_ffff, 4),
        hashed(hist & 0x0000_ffff_ffff_ffff, 6),
        hashed(hist, 8),
        hashed(word as u64, 7),
        // Bytes at distance 1 and 3, skipping distance 2.
        hashed((hist & 0xff) | ((hist >> 16) & 0xff00), 13),
    ]
}

/// What is known of the bytes so far.
#[verifier::ext_equal]
pub struct HistoryState {
    pub buf: Seq<u8>,
    /// The last eight bytes, the latest lowest.
    pub hist: u64,
    /// Hash of the alphanumeric run that ends here.
    pub word: u32,
    pub ctx: Seq<u32>,
}

impl HistoryState {
    /// No bytes: every context is 0.
    pub open spec fn fresh() -> HistoryState {
        HistoryState { buf: Seq::empty(), hist: 0, word: 0, ctx: Seq::new(7, |i: int| 0u32) }
    }

    /// The last byte.
    pub open spec fn last(self) -> int {
        self.hist as int % 256
    }

    /// The history with `byte` added.
    pub open spec fn push(self, byte: u8) -> HistoryState {
        let hist = (self.hist << 8) | (byte as u64);
        let word = if is_alphanumeric(byte) {
            self.word.wrapping_add((byte | 32) as u32).wrapping_mul(0x3F5B_ADFF)
        } else {
            0
        };
        HistoryState { buf: self.buf.push(byte), hist, word, ctx: contexts_of(hist, word) }
    }

    /// Hash of the context that matches are looked up by.
    pub open spec fn match_hash(self) -> u32 {
        hashed(self.hist & 0x0000_ffff_ffff_ffff, 11)
    }

    /// Hash of the last two bytes and the partial byte.
    pub open spec fn order2_hash(self, c0: u32) -> u32 {
        hashed((c0 as u64) | ((self.hist & 0xffff) << 9), 0xA5)
    }
}

/// The number that `bytes` hold, most significant byte first.
pub open spec fn be_value(bytes: Seq<u8>) -> nat
    decreases bytes.len(),
{
    if bytes.len() == 0 {
        0
    } else {
        be_value(bytes.drop_last()) * 256 + bytes.last() as nat
    }
}

/// The last eight of `bytes`, or all of them where there are fewer.
pub open spec fn last_eight(bytes: Seq<u8>) -> Seq<u8> {
    if bytes.len() > 8 {
        bytes.skip(bytes.len() - 8)
    } else {
        bytes
    }
}

/// The first byte is the most significant one.
proof fn lemma_be_value(bytes: Seq<u8>)
    ensures
        be_value(bytes) < pow2(8 * bytes.len()),
        bytes.len() > 0 ==> be_value(bytes) == bytes[0] * pow2((8 * (bytes.len() - 1)) as nat)
            + be_value(bytes.skip(1)),
    decreases bytes.len(),
{
    vstd::arithmetic::power2::lemma2_to64();
    if bytes.len() > 0 {
        let front = bytes.drop_last();
        let n = (8 * (bytes.len() - 1)) as nat;
        lemma_be_value(front);
        vstd::arithmetic::power2::lemma_pow2_adds(n, 8);
        if bytes.len() == 1 {
            assert(bytes.skip(1) =~= Seq::empty());
            assert(bytes[0] * 1 == bytes[0]);
        } else {
            let w = pow2((n - 8) as nat);
            let first = bytes[0] as nat;
            vstd::arithmetic::power2::lemma_pow2_adds((n - 8) as nat, 8);
            assert(front.skip(1) =~= bytes.skip(1).drop_last());
            assert((first * w) * 256 == first * (w * 256)) by (nonlinear_arith);
        }
    }
}

/// The last eight bytes are kept in step with all of them.
pub proof fn lemma_last_eight(bytes: Seq<u8>, hist: u64, byte: u8)
    requires
        hist == be_value(last_eight(bytes)),
    ensures
        (hist << 8) | (byte as u64) == be_value(last_eight(bytes.push(byte))),
{
    vstd::arithmetic::power2::lemma2_to64();
    vstd::arithmetic::power2::lemma_pow2_adds(32, 24);
    let was = last_eight(bytes);
    let is = last_eight(bytes.push(byte));
    lemma_be_value(was);
    lemma_be_value(was.skip(1));
    assert((hist << 8) | (byte as u64) == (hist % 0x100_0000_0000_0000) * 256 + byte)
        by (bit_vector);
    if bytes.len() < 8 {
        assert(is.drop_last() =~= was);
        if was.len() < 7 {
            vstd::arithmetic::power2::lemma_pow2_strictly_increases((8 * was.len()) as nat, 56);
        }
    } else {
        assert(is.drop_last() =~= was.skip(1));
        let first = was[0] as int;
        assert(hist as int % 0x100_0000_0000_0000 == be_value(was.skip(1))) by {
            vstd::arithmetic::div_mod::lemma_fundamental_div_mod_converse(
                hist as int,
                0x100_0000_0000_0000,
                first,
                be_value(was.skip(1)) as int,
            );
        }
    }
}

/// The byte history, shared by every model.
pub struct History {
    buf: Vec<u8>,
    hist: u64,
    word: u32,
    ctx: [u32; 7],
}

impl View for History {
    type V = HistoryState;

    closed spec fn view(&self) -> HistoryState {
        HistoryState { buf: self.buf@, hist: self.hist, word: self.word, ctx: self.ctx@ }
    }
}

impl History {
    pub fn new() -> (h: Self)
        ensures
            h@ == HistoryState::fresh(),
    {
        let h = History { buf: Vec::new(), hist: 0, word: 0, ctx: [0; 7] };
        assert(h@ =~= HistoryState::fresh());
        h
    }

    /// Add a byte.
    pub fn push(&mut self, byte: u8)
        ensures
            final(self)@ == old(self)@.push(byte),
            final(self)@.ctx.len() == 7,
    {
        self.buf.push(byte);
        self.hist = (self.hist << 8) | (byte as u64);
        let alphanumeric = (0x30 <= byte && byte <= 0x39) || (0x41 <= byte && byte <= 0x5a) || (0x61
            <= byte && byte <= 0x7a);
        self.word = if alphanumeric {
            self.word.wrapping_add((byte | 32) as u32).wrapping_mul(0x3F5B_ADFF)
        } else {
            0
        };
        let hist: u64 = self.hist;
        self.ctx = [
            hash(hist & 0xffff, 2),
            hash(hist & 0x00ff_ffff, 3),
            hash(hist & 0xffff_ffff, 4),
            hash(hist & 0x0000_ffff_ffff_ffff, 6),
            hash(hist, 8),
            hash(self.word as u64, 7),
            hash((hist & 0xff) | ((hist >> 16) & 0xff00), 13),
        ];
        assert(self@ =~= old(self)@.push(byte));
    }

    /// The bytes so far.
    pub fn bytes(&self) -> (buf: &Vec<u8>)
        ensures
            buf@ == self@.buf,
    {
        &self.buf
    }

    /// The last byte.
    pub fn last(&self) -> (c1: u32)
        ensures
            c1 == self@.last(),
            c1 < 256,
    {
        (self.hist % 256) as u32
    }

    /// The hashed contexts.
    pub fn contexts(&self) -> (ctx: &[u32; 7])
        ensures
            ctx@ == self@.ctx,
    {
        &self.ctx
    }

    /// Hash of the context that matches are looked up by.
    pub fn match_hash(&self) -> (h: u32)
        ensures
            h == self@.match_hash(),
    {
        hash(self.hist & 0x0000_ffff_ffff_ffff, 11)
    }

    /// Hash of the last two bytes and the partial byte.
    pub fn order2_hash(&self, c0: u32) -> (h: u32)
        ensures
            h == self@.order2_hash(c0),
    {
        hash((c0 as u64) | ((self.hist & 0xffff) << 9), 0xA5)
    }
}

/// The word context is the hash of the alphanumeric run that ends here, letters
/// counting the same in either case. A letter or a digit carries the run on;
/// every other byte ends it.
pub proof fn law_word_is_the_alphanumeric_run(h: HistoryState, byte: u8)
    ensures
        97 <= byte <= 122 ==> h.push(byte).word == h.push((byte - 32) as u8).word,
        97 <= byte <= 122 ==> h.push(byte).word == (((h.word + byte) % 0x1_0000_0000)
            * 0x3F5B_ADFF) % 0x1_0000_0000,
        48 <= byte <= 57 ==> h.push(byte).word == (((h.word + byte) % 0x1_0000_0000)
            * 0x3F5B_ADFF) % 0x1_0000_0000,
        byte < 48 || 57 < byte < 65 || 90 < byte < 97 || 122 < byte ==> h.push(byte).word == 0,
{
    assert(97 <= byte <= 122 ==> (byte | 32) == byte && (((byte - 32) as u8) | 32) == byte)
        by (bit_vector);
    assert(48 <= byte <= 57 ==> (byte | 32) == byte) by (bit_vector);
}

/// The hash: two rounds of multiplying and folding the high bits down, of which
/// the low 32 are kept. The salt is worked in before the first fold.
pub proof fn law_hash(x: u64, salt: u64)
    ensures
        ({
            let a = ((x * 0x9E37_79B9_7F4A_7C15) % 0x1_0000_0000_0000_0000) as u64 ^ ((salt
                * 0xC2B2_AE3D_27D4_EB4F) % 0x1_0000_0000_0000_0000) as u64;
            let b = (((a ^ a / 0x2000_0000) * 0xBF58_476D_1CE4_E5B9) % 0x1_0000_0000_0000_0000)
                as u64;
            hashed(x, salt) as int == (b ^ b / 0x1_0000_0000) as int % 0x1_0000_0000
        }),
{
    reveal(hashed);
    let a = x.wrapping_mul(0x9E37_79B9_7F4A_7C15) ^ salt.wrapping_mul(0xC2B2_AE3D_27D4_EB4F);
    lemma_wrapped(x, 0x9E37_79B9_7F4A_7C15);
    lemma_wrapped(salt, 0xC2B2_AE3D_27D4_EB4F);
    assert(a >> 29 == a / 0x2000_0000) by (bit_vector);
    let b = (a ^ (a >> 29)).wrapping_mul(0xBF58_476D_1CE4_E5B9);
    lemma_wrapped(a ^ (a >> 29), 0xBF58_476D_1CE4_E5B9);
    assert(b >> 32 == b / 0x1_0000_0000) by (bit_vector);
    let c = b ^ (b >> 32);
    assert(c as u32 as int == c as int % 0x1_0000_0000) by (bit_vector);
}

proof fn lemma_wrapped(x: u64, by: u64)
    ensures
        x.wrapping_mul(by) == ((x * by) % 0x1_0000_0000_0000_0000) as u64,
{
}

/// A byte is added at the end: it becomes the last one, and the seven before it
/// stay at hand.
pub proof fn law_history_grows(h: HistoryState, byte: u8)
    ensures
        h.push(byte).buf == h.buf.push(byte),
        h.push(byte).hist as int == (h.hist as int % 0x100_0000_0000_0000) * 256 + byte,
        h.push(byte).last() == byte,
{
    let o = h.hist;
    assert((o << 8) | (byte as u64) == (o % 0x100_0000_0000_0000) * 256 + byte) by (bit_vector);
    let n = h.push(byte).hist;
    assert(n == (o << 8) | (byte as u64));
    assert(n as int % 256 == byte);
}

/// The contexts are drawn anew from what is known with the new byte.
pub proof fn law_contexts_are_current(h: HistoryState, byte: u8, i: int)
    requires
        0 <= i < 7,
    ensures
        h.push(byte).ctx.len() == 7,
        h.push(byte).ctx[i] == contexts_of(h.push(byte).hist, h.push(byte).word)[i],
{
}

/// Each context looks back exactly as far as it says: the hash of the last two,
/// three, four, six and eight bytes, of the word, and of the bytes at distance
/// one and three.
pub proof fn law_contexts_look_back(past: u64, word: u32)
    ensures
        contexts_of(past, word).len() == 7,
        contexts_of(past, word)[0] == hashed((past % 0x1_0000) as u64, 2),
        contexts_of(past, word)[1] == hashed((past % 0x100_0000) as u64, 3),
        contexts_of(past, word)[2] == hashed((past % 0x1_0000_0000) as u64, 4),
        contexts_of(past, word)[3] == hashed((past % 0x1_0000_0000_0000) as u64, 6),
        contexts_of(past, word)[4] == hashed(past, 8),
        contexts_of(past, word)[5] == hashed(word as u64, 7),
        contexts_of(past, word)[6] == hashed(
            (past % 256 + past / 0x100_0000 % 256 * 256) as u64,
            13,
        ),
{
    assert(past & 0xffff == past % 0x1_0000 && past & 0x00ff_ffff == past % 0x100_0000 && past
        & 0xffff_ffff == past % 0x1_0000_0000 && past & 0x0000_ffff_ffff_ffff == past
        % 0x1_0000_0000_0000) by (bit_vector);
    assert((past & 0xff) | ((past >> 16) & 0xff00) == past % 256 + past / 0x100_0000 % 256 * 256)
        by (bit_vector);
}

/// Matches are looked up by the last six bytes, and the last stage by the last
/// two and the byte that has begun.
pub proof fn law_lookups_look_back(h: HistoryState, c0: u32)
    requires
        c0 < 256,
    ensures
        h.match_hash() == hashed((h.hist % 0x1_0000_0000_0000) as u64, 11),
        h.order2_hash(c0) == hashed((c0 + h.hist % 0x1_0000 * 512) as u64, 165),
{
    let p = h.hist;
    assert(p & 0x0000_ffff_ffff_ffff == p % 0x1_0000_0000_0000) by (bit_vector);
    assert((c0 as u64) | ((p & 0xffff) << 9) == c0 + p % 0x1_0000 * 512) by (bit_vector)
        requires
            c0 < 256,
    ;
}

/// Before the first byte nothing is known.
pub proof fn law_no_history()
    ensures
        ({
            let h = HistoryState::fresh();
            &&& h.buf.len() == 0 && h.hist == 0 && h.word == 0 && h.ctx.len() == 7
            &&& forall|i: int| 0 <= i < 7 ==> #[trigger] h.ctx[i] == 0
        }),
{
}

} // verus!

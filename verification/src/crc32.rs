//! CRC-32 (IEEE 802.3 polynomial) used as an integrity check on the payload.

use vstd::prelude::*;

verus! {

/// The reflected generator polynomial.
pub const POLYNOMIAL: u32 = 0xedb8_8320;

/// One step of the bit-serial division: the remainder is shifted right, and
/// the polynomial is subtracted when the bit that fell out was set.
pub open spec fn crc_shift(c: u32) -> u32 {
    if c % 2 != 0 {
        POLYNOMIAL ^ (c / 2)
    } else {
        c / 2
    }
}

/// `n` steps of the bit-serial division.
pub open spec fn crc_shifts(c: u32, n: nat) -> u32
    decreases n,
{
    if n == 0 {
        c
    } else {
        crc_shift(crc_shifts(c, (n - 1) as nat))
    }
}

/// The remainder after one more byte of input.
pub open spec fn crc_byte(c: u32, b: u8) -> u32 {
    crc_shifts((c ^ (b as u32)) % 256, 8) ^ (c / 256)
}

/// The remainder after `data`, starting from all ones.
pub open spec fn crc_fold(data: Seq<u8>) -> u32
    decreases data.len(),
{
    if data.len() == 0 {
        0xffff_ffff
    } else {
        crc_byte(crc_fold(data.drop_last()), data.last())
    }
}

/// The CRC-32 of `data`: the complement of the remainder.
pub open spec fn crc32_of(data: Seq<u8>) -> u32 {
    crc_fold(data) ^ 0xffff_ffff
}

/// One step of the division is linear and loses nothing.
proof fn lemma_shift(x: u32, y: u32)
    ensures
        crc_shift(x ^ y) == crc_shift(x) ^ crc_shift(y),
        crc_shift(x) == crc_shift(y) ==> x == y,
{
    assert(crc_shift(x ^ y) == crc_shift(x) ^ crc_shift(y)) by (bit_vector);
    assert(crc_shift(x) == crc_shift(y) ==> x == y) by (bit_vector);
}

/// The division is linear and loses nothing.
proof fn lemma_shifts(x: u32, y: u32, n: nat)
    ensures
        crc_shifts(x ^ y, n) == crc_shifts(x, n) ^ crc_shifts(y, n),
        crc_shifts(x, n) == crc_shifts(y, n) ==> x == y,
    decreases n,
{
    if n > 0 {
        lemma_shifts(x, y, (n - 1) as nat);
        lemma_shift(crc_shifts(x, (n - 1) as nat), crc_shifts(y, (n - 1) as nat));
    }
}

/// Eight steps on a multiple of 256 divide it.
proof fn lemma_shifts_high(h: u32)
    requires
        h % 256 == 0,
    ensures
        crc_shifts(h, 8) == h / 256,
{
    reveal_with_fuel(crc_shifts, 9);
    assert(crc_shifts(h, 1) == h / 2);
    assert(crc_shifts(h, 2) == h / 4);
    assert(crc_shifts(h, 3) == h / 8);
    assert(crc_shifts(h, 4) == h / 16);
    assert(crc_shifts(h, 5) == h / 32);
    assert(crc_shifts(h, 6) == h / 64);
    assert(crc_shifts(h, 7) == h / 128);
}

/// A byte is eight steps on the whole remainder.
proof fn lemma_crc_byte(c: u32, b: u8)
    ensures
        crc_byte(c, b) == crc_shifts(c ^ (b as u32), 8),
{
    let x = c ^ (b as u32);
    let low = x % 256;
    let high = (x - x % 256) as u32;
    assert(x == low ^ high && x / 256 == high / 256 && high % 256 == 0) by (bit_vector)
        requires
            low == x % 256,
            high == x - x % 256,
    ;
    assert(x / 256 == c / 256) by (bit_vector)
        requires
            x == c ^ (b as u32),
    ;
    lemma_shifts(low, high, 8);
    lemma_shifts_high(high);
}

/// A change within four consecutive bytes always changes the checksum.
pub proof fn law_four_bytes_change_crc(a: Seq<u8>, b: Seq<u8>, i: int)
    requires
        a.len() == b.len(),
        a != b,
        forall|j: int| 0 <= j < a.len() && !(i <= j < i + 4) ==> #[trigger] a[j] == b[j],
    ensures
        crc32_of(a) != crc32_of(b),
{
    let x = crc_fold(a);
    let y = crc_fold(b);
    assert(x ^ 0xffff_ffff == y ^ 0xffff_ffff ==> x == y) by (bit_vector);
    if x == y {
        let m = if i + 4 < 0 {
            0
        } else if i + 4 < a.len() {
            i + 4
        } else {
            a.len() as int
        };
        lemma_same_tail(a, b, m);
        let c = crc_fold(a.take(m));
        assert(c ^ c == 0) by (bit_vector);
        lemma_same_window(a.take(m), b.take(m), 4);
        assert forall|j: int| 0 <= j < a.len() implies a[j] == b[j] by {
            if j < m {
                assert(a.take(m)[j] == b.take(m)[j]);
            }
        }
        assert(a =~= b);
    }
}

/// Equal remainders were equal before an equal tail.
proof fn lemma_same_tail(a: Seq<u8>, b: Seq<u8>, m: int)
    requires
        a.len() == b.len(),
        0 <= m <= a.len(),
        crc_fold(a) == crc_fold(b),
        forall|j: int| m <= j < a.len() ==> #[trigger] a[j] == b[j],
    ensures
        crc_fold(a.take(m)) == crc_fold(b.take(m)),
    decreases a.len(),
{
    if m == a.len() {
        assert(a.take(m) =~= a && b.take(m) =~= b);
    } else {
        let c = crc_fold(a.drop_last());
        let d = crc_fold(b.drop_last());
        let p = a.last() as u32;
        lemma_crc_byte(c, a.last());
        lemma_crc_byte(d, b.last());
        lemma_shifts(c ^ p, d ^ p, 8);
        assert(c ^ p == d ^ p ==> c == d) by (bit_vector);
        assert(a.drop_last().take(m) =~= a.take(m) && b.drop_last().take(m) =~= b.take(m));
        lemma_same_tail(a.drop_last(), b.drop_last(), m);
    }
}

/// A difference of two remainders that is below this grows to no more than 32
/// bits while the last `n` bytes are undone.
spec fn window_bound(n: nat) -> int {
    if n == 0 {
        0x1_0000_0000
    } else if n == 1 {
        0x100_0000
    } else if n == 2 {
        0x1_0000
    } else if n == 3 {
        0x100
    } else {
        1
    }
}

/// Where the last `n` bytes alone may differ, and the remainders by so little,
/// nothing differs.
proof fn lemma_same_window(a: Seq<u8>, b: Seq<u8>, n: nat)
    requires
        a.len() == b.len(),
        n <= 4,
        forall|j: int| 0 <= j < a.len() - n ==> #[trigger] a[j] == b[j],
        crc_fold(a) ^ crc_fold(b) < window_bound(n),
    ensures
        a == b,
    decreases n,
{
    if n == 0 || a.len() == 0 {
        assert(a =~= b);
    } else {
        let c = crc_fold(a.drop_last());
        let d = crc_fold(b.drop_last());
        let p = a.last() as u32;
        let q = b.last() as u32;
        let v = crc_fold(a) ^ crc_fold(b);
        lemma_crc_byte(c, a.last());
        lemma_crc_byte(d, b.last());
        lemma_shifts(c ^ p, d ^ q, 8);
        let h = (v * 256) as u32;
        lemma_shifts_high(h);
        lemma_shifts((c ^ p) ^ (d ^ q), h, 8);
        assert(c ^ d == h + (p ^ q) && p ^ q < 256 && (p ^ q == 0 ==> p == q)) by (bit_vector)
            requires
                (c ^ p) ^ (d ^ q) == h,
                h % 256 == 0,
                p < 256,
                q < 256,
        ;
        lemma_same_window(a.drop_last(), b.drop_last(), (n - 1) as nat);
        assert(c ^ c == 0) by (bit_vector);
        assert(a =~= a.drop_last().push(a.last()) && b =~= b.drop_last().push(b.last()));
    }
}

/// The 256 byte remainders.
fn table() -> (t: Vec<u32>)
    ensures
        t@.len() == 256,
        forall|i: int| 0 <= i < 256 ==> #[trigger] t@[i] == crc_shifts(i as u32, 8),
{
    let mut t: Vec<u32> = Vec::with_capacity(256);
    let mut i: u32 = 0;
    while i < 256
        invariant
            i <= 256,
            t@.len() == i,
            forall|j: int| 0 <= j < i ==> #[trigger] t@[j] == crc_shifts(j as u32, 8),
        decreases 256 - i,
    {
        let mut c: u32 = i;
        let mut k: u32 = 0;
        while k < 8
            invariant
                k <= 8,
                c == crc_shifts(i, k as nat),
            decreases 8 - k,
        {
            c = if c % 2 != 0 {
                POLYNOMIAL ^ (c / 2)
            } else {
                c / 2
            };
            k = k + 1;
        }
        t.push(c);
        i = i + 1;
    }
    t
}

/// CRC-32 of `data`.
pub fn crc32(data: &[u8]) -> (c: u32)
    ensures
        c == crc32_of(data@),
{
    let t = table();
    let mut c: u32 = 0xffff_ffff;
    let mut i: usize = 0;
    while i < data.len()
        invariant
            i <= data@.len(),
            t@.len() == 256,
            forall|j: int| 0 <= j < 256 ==> #[trigger] t@[j] == crc_shifts(j as u32, 8),
            c == crc_fold(data@.take(i as int)),
        decreases data@.len() - i,
    {
        assert(data@.take(i + 1).drop_last() =~= data@.take(i as int));
        c = t[((c ^ (data[i] as u32)) % 256) as usize] ^ (c / 256);
        i = i + 1;
    }
    assert(data@.take(i as int) =~= data@);
    c ^ 0xffff_ffff
}

/// The checksum is that of the bit-serial division by the reflected polynomial,
/// which begins and ends with a complement: a byte goes in at the low end, and
/// eight times the remainder is halved, with the polynomial taken off where a
/// bit fell out.
pub proof fn law_crc_is_a_division(a: Seq<u8>, b: u8, c: u32, n: nat)
    ensures
        crc32_of(seq![]) == 0,
        crc32_of(a.push(b)) == !crc_shifts(!crc32_of(a) ^ (b as u32), 8),
        crc_shifts(c, 0) == c,
        crc_shifts(c, n + 1) == (if crc_shifts(c, n) % 2 == 1 {
            (crc_shifts(c, n) / 2) as u32 ^ 0xedb8_8320
        } else {
            (crc_shifts(c, n) / 2) as u32
        }),
{
    assert(0xffff_ffffu32 ^ 0xffff_ffffu32 == 0) by (bit_vector);
    assert(a.push(b).drop_last() =~= a);
    let f = crc_fold(a);
    let x = crc_shifts(f ^ (b as u32), 8);
    assert(!(f ^ 0xffff_ffff) == f && x ^ 0xffff_ffff == !x) by (bit_vector);
    lemma_crc_byte(f, b);
    let s = crc_shifts(c, n);
    assert(0xedb8_8320u32 ^ (s / 2) == (s / 2) ^ 0xedb8_8320u32) by (bit_vector);
}

} // verus!

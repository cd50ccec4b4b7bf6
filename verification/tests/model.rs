//! The predictor and its parts.

use compactor::counter::{ctr_get_tagged, ctr_p12, ctr_update, recip_table, COUNT_LIMIT, CTR_INIT};
use compactor::crc32::crc32;
use compactor::history::{hash, History};
use compactor::logistic::stretch_table;
use compactor::matching::{bit_len, MatchModel};
use compactor::model::{squash, stretch, Predictor};
use compactor::rc::{Decoder, Encoder};

#[test]
fn squash_values() {
    assert_eq!(squash(0), 2047);
    assert_eq!(squash(-2047), 1);
    assert_eq!(squash(2047), 4094);
    assert_eq!(squash(-5000), 1);
    assert_eq!(squash(5000), 4094);
    assert_eq!(squash(128), 2549);
    assert_eq!(squash(64), 2298);
    assert_eq!(squash(-128), 1546);
}

#[test]
fn squash_is_monotonic() {
    for d in -2100..2100 {
        assert!(squash(d) <= squash(d + 1));
    }
}

#[test]
fn stretch_inverts_squash() {
    assert_eq!(stretch(0), -2047);
    assert_eq!(stretch(2047), 0);
    assert_eq!(stretch(4095), 2047);
    assert_eq!(stretch(-7), stretch(0));
    assert_eq!(stretch(9000), stretch(4095));
    for p in 1..=4094 {
        let d = stretch(p);
        assert!(squash(d) >= p);
        assert!(d == -2047 || squash(d - 1) < p);
    }
}

#[test]
fn counters_adapt() {
    let recip = recip_table();
    let mut v = CTR_INIT;
    assert_eq!(ctr_p12(v), 2048);
    ctr_update(&mut v, 1, COUNT_LIMIT, &recip);
    // Half of the way to the top, and one observation.
    assert_eq!(v, (0xbfff << 16) | (1 << 6));
    ctr_update(&mut v, 0, COUNT_LIMIT, &recip);
    // A third of the way to the bottom.
    assert_eq!(v, (0x7fff << 16) | (2 << 6));
    for _ in 0..2000 {
        ctr_update(&mut v, 0, COUNT_LIMIT, &recip);
    }
    assert_eq!((v >> 6) & 0x3ff, 255);
    assert_eq!(v & 0x3f, 0);
}

#[test]
fn a_slot_of_another_context_is_recycled() {
    let mut v = (0xffff << 16) | (9 << 6) | 5;
    assert_eq!(ctr_get_tagged(&mut v, 5), 4095);
    assert_eq!(v, (0xffff << 16) | (9 << 6) | 5);
    assert_eq!(ctr_get_tagged(&mut v, 7), 2048);
    assert_eq!(v, CTR_INIT | 7);
}

#[test]
fn checksums() {
    assert_eq!(crc32(b""), 0);
    assert_eq!(crc32(b"123456789"), 0xcbf4_3926);
    assert_eq!(crc32(b"The quick brown fox jumps over the lazy dog"), 0x414f_a339);
}

#[test]
fn bit_lengths() {
    for n in [0u32, 1, 2, 3, 4, 7, 8, 255, 256, 65535, u32::MAX] {
        assert_eq!(bit_len(n), 32 - (n | 1).leading_zeros());
    }
}

#[test]
fn hashes() {
    // The multipliers are those of SplitMix64 and its relatives.
    let reference = |x: u64, salt: u64| {
        let mut h =
            x.wrapping_mul(0x9E37_79B9_7F4A_7C15) ^ salt.wrapping_mul(0xC2B2_AE3D_27D4_EB4F);
        h ^= h >> 29;
        h = h.wrapping_mul(0xBF58_476D_1CE4_E5B9);
        h ^= h >> 32;
        h as u32
    };
    for (x, salt) in [(0u64, 0u64), (1, 2), (0x6162_6364, 4), (u64::MAX, 13)] {
        assert_eq!(hash(x, salt), reference(x, salt));
    }
}

#[test]
fn predictions_stay_in_range_and_learn() {
    let mut p = Predictor::new(0);
    let mut last = 0;
    for _ in 0..4000 {
        last = p.p();
        assert!((1..=4094).contains(&last));
        p.update(1);
    }
    assert!(last > 4000);
    let mut p = Predictor::new(0);
    // Nothing is known yet; the bias tips the scales a little.
    assert_eq!(p.p(), 2137);
}

#[test]
fn the_model_is_deterministic() {
    let bits: Vec<u32> = (0..2000u32).map(|i| (i * i / 7 + i / 3) & 1).collect();
    let run = || {
        let mut p = Predictor::new(1);
        bits.iter()
            .map(|b| {
                let pr = p.p();
                p.update(*b);
                pr
            })
            .collect::<Vec<u32>>()
    };
    assert_eq!(run(), run());
}

#[test]
fn the_decoder_reads_back_what_the_encoder_wrote() {
    let bits: Vec<u32> = (0..5000u32).map(|i| (i ^ (i >> 3)) % 3 % 2).collect();
    let prob = |i: usize| ((i * 37) % 4095) as u32;
    let mut e = Encoder::new(10);
    for (i, b) in bits.iter().enumerate() {
        e.encode(*b, prob(i));
    }
    let out = e.finish();
    let mut d = Decoder::new(&out);
    for (i, b) in bits.iter().enumerate() {
        assert_eq!(d.decode(prob(i)), *b);
        assert_eq!(d.overrun(), 0);
    }
}

#[test]
fn an_exhausted_decoder_counts_what_it_reads_past_the_end() {
    let mut d = Decoder::new(&[1, 2]);
    assert_eq!(d.overrun(), 2);
    for _ in 0..64 {
        d.decode(2048);
    }
    assert!(d.overrun() > 4);
}

#[test]
fn an_empty_stream_is_its_flush() {
    assert_eq!(Encoder::new(0).finish(), [0, 0, 0, 0]);
}

#[test]
fn memory_usage_is_that_of_the_tables() {
    assert_eq!(Predictor::new(0).memory_usage(), 6_761_984);
}

#[test]
fn one_changed_byte_changes_the_checksum() {
    let data = b"the quick brown fox";
    for i in 0..data.len() {
        for byte in 0..=255u8 {
            let mut other = *data;
            other[i] = byte;
            assert_eq!(crc32(&other) == crc32(data), byte == data[i]);
        }
    }
}

#[test]
fn four_changed_bytes_change_the_checksum() {
    let data = b"the quick brown fox";
    let sum = crc32(data);
    let mut s = 1u32;
    for i in 0..data.len() - 3 {
        for _ in 0..1000 {
            s = s.wrapping_mul(1_664_525).wrapping_add(1_013_904_223);
            let mut other = *data;
            for (k, b) in s.to_le_bytes().into_iter().enumerate() {
                other[i + k] ^= b;
            }
            assert_eq!(crc32(&other) == sum, s == 0);
        }
    }
    // Five bytes are enough to bring the same checksum about.
    let (a, b) = ([0u8; 5], [0x01u8, 0x96, 0x30, 0x07, 0x77]);
    assert_eq!(crc32(&a), crc32(&b));
}

#[test]
fn the_history_holds_the_bytes() {
    let mut h = History::new();
    assert_eq!(h.last(), 0);
    let data = b"0123456789";
    for (i, b) in data.iter().enumerate() {
        h.push(*b);
        assert_eq!(h.bytes()[..], data[..=i]);
        assert_eq!(h.last(), *b as u32);
    }
    // The last six bytes, the latest lowest.
    assert_eq!(h.match_hash(), hash(0x3435_3637_3839, 11));
}

#[test]
fn matches_are_followed_and_dropped() {
    let st = stretch_table();
    let mut m = MatchModel::new(16);
    let mut buf: Vec<u8> = Vec::new();
    // The context is the same after both runs of "abcdefg".
    for (i, b) in b"abcdefgXabcdefg".iter().enumerate() {
        buf.push(*b);
        m.update_byte(&buf, if *b == b'g' { 7 } else { 100 + i as u32 });
    }
    assert_eq!(m.length(), 7);
    // The byte that followed was an X, 0x58: its first bit is a 0.
    m.predict(1, 0, &st);
    assert_eq!(m.expects(), Some(false));
    m.predict(2, 1, &st);
    assert_eq!(m.expects(), Some(true));
    // A partial byte that does not agree ends the match.
    assert_eq!(m.predict(4, 2, &st), 0);
    assert_eq!(m.expects(), None);
    assert_eq!(m.length(), 0);
}

#[test]
fn a_match_grows_while_it_holds() {
    let mut m = MatchModel::new(16);
    let mut buf: Vec<u8> = Vec::new();
    let mut lengths = Vec::new();
    for b in b"abcdefghijabcdefghijk" {
        buf.push(*b);
        m.update_byte(&buf, *b as u32);
        lengths.push(m.length());
    }
    // Six bytes make a match; every byte that agrees makes it longer.
    assert_eq!(lengths[10..], [0, 0, 0, 0, 0, 6, 7, 8, 9, 10, 0]);
}

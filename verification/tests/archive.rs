//! The container: round trips, refusals and progress.

use compactor::{
    compress, compress_with_progress, decompress, decompress_with_progress, is_archive,
    model_memory, HEADER_LEN, MAGIC, METHOD_CM, METHOD_STORED, VERSION,
};

fn roundtrip(data: &[u8], level: u8) {
    let blob = compress(data, level);
    let back = decompress(&blob).expect("decompress failed");
    assert_eq!(back, data, "round-trip mismatch ({} bytes)", data.len());
}

fn header(method: u8, level: u8, len: u64, crc: u32) -> Vec<u8> {
    let mut h = Vec::new();
    h.extend_from_slice(&MAGIC);
    h.push(VERSION);
    h.push(method);
    h.push(level);
    h.extend_from_slice(&len.to_le_bytes());
    h.extend_from_slice(&crc.to_le_bytes());
    h
}

#[test]
fn empty_input() {
    roundtrip(b"", 3);
}

#[test]
fn single_byte() {
    roundtrip(b"x", 3);
}

#[test]
fn text_repeats() {
    let mut d = Vec::new();
    for i in 0..2000 {
        d.extend_from_slice(
            format!("line {i}: the quick brown fox jumps over it\n").as_bytes(),
        );
    }
    roundtrip(&d, 4);
    let blob = compress(&d, 4);
    assert!(
        blob.len() * 20 < d.len(),
        "expected strong compression on repetitive text, got {} from {}",
        blob.len(),
        d.len()
    );
}

#[test]
fn incompressible_stays_small() {
    // Deterministic pseudo-random bytes: must not grow beyond the header.
    let mut s = 0x243F_6A88_85A3_08D3u64;
    let d: Vec<u8> = (0..50_000)
        .map(|_| {
            s ^= s << 13;
            s ^= s >> 7;
            s ^= s << 17;
            (s >> 33) as u8
        })
        .collect();
    roundtrip(&d, 4);
    assert!(compress(&d, 4).len() <= d.len() + HEADER_LEN);
}

#[test]
fn all_levels() {
    let d: Vec<u8> = (0..30_000u32).map(|i| (i % 251) as u8).collect();
    for level in 0..=9u8 {
        roundtrip(&d, level);
    }
}

#[test]
fn binary_structured() {
    let d: Vec<u8> = (0..40_000u32).flat_map(|i| i.to_le_bytes()).collect();
    roundtrip(&d, 5);
}

#[test]
fn corruption_detected() {
    let d = b"the quick brown fox jumps over the lazy dog".repeat(50);
    let mut blob = compress(&d, 3);
    // Flip a bit in the middle of the payload. The last few bytes are the
    // coder's flush tail and are partly redundant, so a flip there is not
    // guaranteed to change the decoded output.
    let mid = HEADER_LEN + (blob.len() - HEADER_LEN) / 2;
    blob[mid] ^= 0xff;
    assert!(decompress(&blob).is_err(), "corruption went unnoticed");
}

#[test]
fn rejects_foreign_data() {
    assert!(decompress(b"not an archive at all").is_err());
}

#[test]
fn rejects_huge_declared_size() {
    // An archive claiming to hold 2^64-1 bytes must be refused outright,
    // not turned into an allocation or an endless decode. With no payload
    // the truncation check fires first, which is just as good; with a
    // payload it is the plausibility bound that has to catch it.
    let blob = header(METHOD_CM, 6, u64::MAX, 0);
    let e = decompress(&blob).unwrap_err();
    assert!(
        e.contains("implausible") || e.contains("does not fit") || e.contains("truncated"),
        "{e}"
    );

    let mut blob = header(METHOD_CM, 6, u64::MAX, 0);
    blob.extend_from_slice(&[0u8; 64]);
    let e = decompress(&blob).unwrap_err();
    assert!(e.contains("implausible") || e.contains("does not fit"), "{e}");

    let mut blob = header(METHOD_CM, 6, 1 << 40, 0);
    blob.extend_from_slice(&[0u8; 64]);
    assert!(decompress(&blob).is_err());
}

#[test]
fn rejects_invalid_level() {
    let blob = header(METHOD_CM, 200, 0, 0);
    assert_eq!(
        decompress(&blob).unwrap_err(),
        "invalid level 200 in header"
    );
}

#[test]
fn rejects_truncated_payload() {
    let d = b"the quick brown fox jumps over the lazy dog".repeat(200);
    let blob = compress(&d, 3);
    // Cut the payload in half but leave the declared size intact.
    let cut = HEADER_LEN + (blob.len() - HEADER_LEN) / 2;
    assert!(decompress(&blob[..cut]).is_err(), "truncation went unnoticed");
}

#[test]
fn rejects_empty_payload() {
    let blob = header(METHOD_CM, 6, 1000, 0);
    assert!(decompress(&blob).is_err());
}

#[test]
fn rejects_truncated_stored() {
    let mut blob = header(METHOD_STORED, 6, 100, 0);
    blob.extend_from_slice(b"short");
    assert_eq!(decompress(&blob).unwrap_err(), "truncated stored archive");
}

#[test]
fn rejects_unknown_method() {
    let blob = header(9, 6, 0, 0);
    assert!(decompress(&blob).unwrap_err().contains("unknown compression method"));
}

#[test]
fn header_fuzz_never_panics() {
    // Every archive-shaped blob must come back as Ok or Err, never a panic
    // and never an unbounded run.
    let mut s = 0x1234_5678_9abc_def0u64;
    let mut rnd = || {
        s ^= s << 13;
        s ^= s >> 7;
        s ^= s << 17;
        s
    };
    for _ in 0..300 {
        let mut blob = MAGIC.to_vec();
        blob.push(VERSION);
        blob.push((rnd() % 3) as u8);
        blob.push((rnd() % 12) as u8);
        blob.extend_from_slice(&(rnd() % 4096).to_le_bytes());
        blob.extend_from_slice(&(rnd() as u32).to_le_bytes());
        let n = (rnd() % 64) as usize;
        for _ in 0..n {
            blob.push(rnd() as u8);
        }
        let _ = decompress(&blob);
    }
}

#[test]
fn progress_is_monotonic_and_complete() {
    let d: Vec<u8> = (0..200_000u32).map(|i| (i % 97) as u8).collect();
    let mut last = 0;
    let blob = compress_with_progress(&d, 2, |done| {
        assert!(done >= last);
        last = done;
    });
    assert_eq!(last, d.len());
    let mut last = 0;
    let back = decompress_with_progress(&blob, |done, total| {
        assert_eq!(total, d.len());
        assert!(done >= last);
        last = done;
    })
    .unwrap();
    assert_eq!(last, d.len());
    assert_eq!(back, d);
}

// ------------------------------------------------------------ exact contents

#[test]
fn layout_of_a_stored_archive() {
    // "123456789" is the standard check input of CRC-32.
    let blob = compress(b"123456789", 42);
    let mut expected = vec![0x43, 0x50, 0x54, 0x36, 1, 0, 9, 9, 0, 0, 0, 0, 0, 0, 0];
    expected.extend_from_slice(&[0x26, 0x39, 0xf4, 0xcb]);
    expected.extend_from_slice(b"123456789");
    assert_eq!(blob, expected);
    assert!(is_archive(&blob));
    assert_eq!(decompress(&blob).unwrap(), b"123456789");
}

#[test]
fn layout_of_a_modelled_archive() {
    let d = b"the quick brown fox jumps over the lazy dog. ".repeat(4);
    let blob = compress(&d, 3);
    let payload = "929f54929a454423777cf0f816ef4227c9f52944cd9fa3311a51ec3ce49e8668\
                   42d14867de2b58eacb0a7d5eb8fca5eabac348db65c975";
    let hex: String = blob[HEADER_LEN..].iter().map(|b| format!("{b:02x}")).collect();
    assert_eq!(hex, payload);
    assert_eq!(blob[..4], MAGIC);
    assert_eq!(blob[4..7], [VERSION, METHOD_CM, 3]);
    assert_eq!(blob[7..15], 180u64.to_le_bytes());
    assert_eq!(decompress(&blob).unwrap(), d);
}

#[test]
fn level_is_capped() {
    let d = b"level level level level level level level".repeat(20);
    assert_eq!(compress(&d, 9), compress(&d, 255));
}

#[test]
fn each_refusal_has_its_message() {
    let refuse = |blob: &[u8]| decompress(blob).unwrap_err();
    assert_eq!(refuse(b""), "not a Compactor archive (bad magic)");
    assert_eq!(refuse(&MAGIC), "not a Compactor archive (bad magic)");
    let mut blob = header(METHOD_CM, 6, 0, 0);
    blob[4] = 7;
    assert_eq!(refuse(&blob), "unsupported archive version 7");
    assert_eq!(refuse(&header(METHOD_CM, 10, 0, 0)), "invalid level 10 in header");
    assert_eq!(refuse(&header(9, 0, 0, 0)), "unknown compression method 9");
    assert_eq!(refuse(&header(METHOD_STORED, 0, 1, 0)), "truncated stored archive");
    assert_eq!(refuse(&header(METHOD_CM, 0, 1, 0)), "truncated archive (no payload)");
    let mut blob = header(METHOD_CM, 0, 45057, 0);
    blob.extend_from_slice(&[1, 2, 3]);
    assert_eq!(
        refuse(&blob),
        "implausible original size 45057 for a 3 byte payload (corrupt or hostile archive)"
    );
    let mut blob = header(METHOD_CM, 0, 4000, 0);
    blob.extend_from_slice(&[1, 2, 3]);
    assert_eq!(refuse(&blob), "truncated archive (payload ended early)");
    let mut blob = header(METHOD_STORED, 0, 3, 0xdead_beef);
    blob.extend_from_slice(b"abc");
    assert_eq!(
        refuse(&blob),
        "checksum mismatch: expected deadbeef, got 352441c2 (corrupt archive)"
    );
}

#[test]
fn an_empty_model_archive_is_empty() {
    assert_eq!(decompress(&header(METHOD_CM, 0, 0, 0)).unwrap(), b"");
}

#[test]
fn long_runs_come_back() {
    for byte in [0u8, 0x55, 0xff] {
        let d = vec![byte; 200_000];
        let blob = compress(&d, 0);
        assert!(d.len() <= 4096 * (blob.len() - HEADER_LEN));
        assert_eq!(decompress(&blob).unwrap(), d);
    }
    let d = vec![0u8; 500_000];
    let blob = compress(&d, 6);
    assert!(d.len() > 2500 * (blob.len() - HEADER_LEN));
    assert_eq!(decompress(&blob).unwrap(), d);
}

#[test]
fn an_archive_is_refused_wherever_it_is_cut() {
    for d in [b"abcabcabc".repeat(60), (0..=255u8).collect::<Vec<u8>>()] {
        let blob = compress(&d, 0);
        for n in 0..blob.len() {
            assert!(decompress(&blob[..n]).is_err(), "cut to {n} bytes");
        }
        assert_eq!(decompress(&blob).unwrap(), d);
    }
}

#[test]
fn zeros_at_the_end_of_a_payload_are_missed() {
    // Ones alone never raise the lower end of the coder's interval.
    let d = [0xffu8; 500];
    let blob = compress(&d, 0);
    assert_eq!(blob[5], METHOD_CM);
    assert!(blob[HEADER_LEN..].iter().all(|b| *b == 0));
    for n in HEADER_LEN + 1..blob.len() {
        assert_eq!(
            decompress(&blob[..n]).unwrap_err(),
            "truncated archive (payload ended early)"
        );
    }
    assert_eq!(decompress(&blob).unwrap(), d);
}

#[test]
fn progress_marks() {
    let d: Vec<u8> = (0..200_000u32).map(|i| (i % 97) as u8).collect();
    let mut seen = Vec::new();
    let blob = compress_with_progress(&d, 0, |done| seen.push(done));
    assert_eq!(seen, [65536, 131072, 196608, 200000]);
    let mut seen = Vec::new();
    decompress_with_progress(&blob, |done, total| seen.push((done, total))).unwrap();
    assert_eq!(
        seen,
        [(65536, 200000), (131072, 200000), (196608, 200000), (200000, 200000)]
    );
    let mut seen = Vec::new();
    let stored = compress(b"abc", 0);
    decompress_with_progress(&stored, |done, total| seen.push((done, total))).unwrap();
    assert_eq!(seen, [(3, 3)]);
    let mut seen = Vec::new();
    assert!(decompress_with_progress(&blob[..40], |done, _| seen.push(done)).is_err());
    assert!(seen.is_empty());
}

#[test]
fn model_memory_by_level() {
    // 2^(16+level) slots in each of seven tables, capped at 2^24, and as many in
    // the match table, capped at 2^22.
    let fixed = (256 + 65536 + 11 * 1280 + 768) * 4 + 33 * 65792 * 2;
    for level in 0..=9u32 {
        let expected = fixed + 4 * (7 << (16 + level).min(24)) + 4 * (1 << (16 + level).min(22));
        assert_eq!(model_memory(level as u8), expected);
    }
    assert_eq!(model_memory(0), 6_761_984);
    assert_eq!(model_memory(200), model_memory(9));
}

#[test]
fn a_changed_byte_of_stored_data_is_noticed() {
    let blob = compress(b"123456789", 0);
    for i in HEADER_LEN..blob.len() {
        for flip in [1u8, 0x80, 0xff] {
            let mut bad = blob.clone();
            bad[i] ^= flip;
            assert!(decompress(&bad).unwrap_err().starts_with("checksum mismatch: expected cbf43926"));
        }
    }
}

#[test]
fn output_is_bounded_by_the_payload() {
    let d = b"abcabcabc".repeat(3000);
    let blob = compress(&d, 1);
    let back = decompress(&blob).unwrap();
    assert!(back.len() <= (blob.len() - HEADER_LEN + 8) * 4096);
    assert_eq!(blob[7..15], (back.len() as u64).to_le_bytes());
}

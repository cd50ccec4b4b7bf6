//! The archive container: a header, and the payload or the data itself.
//!
//! Everything here is deterministic integer arithmetic, so an archive made on
//! one machine decodes bit for bit identically on any other.

use vstd::arithmetic::power2::pow2;
use vstd::prelude::*;
use vstd::string::StringExecFns;

use crate::codec::{decode_payload, encode_payload};
#[allow(unused_imports)]
use crate::codec::{
    bits_of, bytes_of, decode_reports, decoding, law_bytes_of_bits, law_cut_payload_runs_out,
    law_decode_reports, law_decoding_follows, law_payload_expansion, law_what_follows_is_ignored,
    payload, runs_out,
};
use crate::crc32::crc32;
#[allow(unused_imports)]
use crate::crc32::{crc32_of, law_four_bytes_change_crc};
use crate::model::Predictor;
#[allow(unused_imports)]
use crate::model::{law_memory_by_level, memory_at, Model};
use crate::progress::{Meter, TotalMeter};
#[allow(unused_imports)]
use crate::progress::{law_progress, reports};
use crate::text::{push_decimal, push_hex};
#[allow(unused_imports)]
use crate::text::{decimal, hex};

verus! {

/// The first four bytes of every archive: `CPT6`.
pub const MAGIC: [u8; 4] = [0x43, 0x50, 0x54, 0x36];

pub const VERSION: u8 = 1;

/// The data as it is.
pub const METHOD_STORED: u8 = 0;

/// The data coded by the model.
pub const METHOD_CM: u8 = 1;

pub const HEADER_LEN: usize = 19;

pub const DEFAULT_LEVEL: u8 = 6;

pub const MAX_LEVEL: u8 = 9;

/// Upper bound on how many output bytes a single payload byte can legitimately
/// stand for; `law_payload_expansion` shows that none stands for more. A forged
/// header that asks for more is refused before anything is decoded.
pub const MAX_EXPANSION: usize = 4096;

/// `n` as `width` bytes, least significant byte first.
pub open spec fn le_bytes(n: nat, width: nat) -> Seq<u8>
    decreases width,
{
    if width == 0 {
        Seq::empty()
    } else {
        seq![(n % 256) as u8] + le_bytes(n / 256, (width - 1) as nat)
    }
}

/// The number that `bytes` hold, least significant byte first.
pub open spec fn le_value(bytes: Seq<u8>) -> nat
    decreases bytes.len(),
{
    if bytes.len() == 0 {
        0
    } else {
        bytes[0] as nat + 256 * le_value(bytes.skip(1))
    }
}

/// Why an archive is refused.
#[derive(Debug)]
pub enum ArchiveError {
    BadMagic,
    UnsupportedVersion(u8),
    InvalidLevel(u8),
    TooLarge,
    TruncatedStored,
    NoPayload,
    Implausible { size: usize, payload: usize },
    EndedEarly,
    UnknownMethod(u8),
    ChecksumMismatch { expected: u32, got: u32 },
}

impl ArchiveError {
    /// The message for the user.
    pub open spec fn text(self) -> Seq<char> {
        match self {
            ArchiveError::BadMagic => "not a Compactor archive (bad magic)"@,
            ArchiveError::UnsupportedVersion(v) => "unsupported archive version "@ + decimal(
                v as nat,
            ),
            ArchiveError::InvalidLevel(l) => "invalid level "@ + decimal(l as nat)
                + " in header"@,
            ArchiveError::TooLarge => "original size does not fit in memory on this platform"@,
            ArchiveError::TruncatedStored => "truncated stored archive"@,
            ArchiveError::NoPayload => "truncated archive (no payload)"@,
            ArchiveError::Implausible { size, payload } => "implausible original size "@ + decimal(
                size as nat,
            ) + " for a "@ + decimal(payload as nat)
                + " byte payload (corrupt or hostile archive)"@,
            ArchiveError::EndedEarly => "truncated archive (payload ended early)"@,
            ArchiveError::UnknownMethod(m) => "unknown compression method "@ + decimal(m as nat),
            ArchiveError::ChecksumMismatch { expected, got } => "checksum mismatch: expected "@
                + hex(expected as nat, 8) + ", got "@ + hex(got as nat, 8) + " (corrupt archive)"@,
        }
    }

    /// The message for the user.
    pub fn message(&self) -> (s: String)
        ensures
            s@ == self.text(),
    {
        match self {
            ArchiveError::BadMagic => "not a Compactor archive (bad magic)".to_string(),
            ArchiveError::UnsupportedVersion(v) => {
                let mut s = "unsupported archive version ".to_string();
                push_decimal(&mut s, *v as u64);
                s
            },
            ArchiveError::InvalidLevel(l) => {
                let mut s = "invalid level ".to_string();
                push_decimal(&mut s, *l as u64);
                s.append(" in header");
                s
            },
            ArchiveError::TooLarge => {
                "original size does not fit in memory on this platform".to_string()
            },
            ArchiveError::TruncatedStored => "truncated stored archive".to_string(),
            ArchiveError::NoPayload => "truncated archive (no payload)".to_string(),
            ArchiveError::Implausible { size, payload } => {
                let mut s = "implausible original size ".to_string();
                push_decimal(&mut s, *size as u64);
                s.append(" for a ");
                push_decimal(&mut s, *payload as u64);
                s.append(" byte payload (corrupt or hostile archive)");
                s
            },
            ArchiveError::EndedEarly => "truncated archive (payload ended early)".to_string(),
            ArchiveError::UnknownMethod(m) => {
                let mut s = "unknown compression method ".to_string();
                push_decimal(&mut s, *m as u64);
                s
            },
            ArchiveError::ChecksumMismatch { expected, got } => {
                let mut s = "checksum mismatch: expected ".to_string();
                push_hex(&mut s, *expected, 8);
                s.append(", got ");
                push_hex(&mut s, *got, 8);
                s.append(" (corrupt archive)");
                s
            },
        }
    }
}

/// The level that is used for `level`.
pub open spec fn effective_level(level: u8) -> u8 {
    if level < MAX_LEVEL {
        level
    } else {
        MAX_LEVEL
    }
}

/// An archive with the given fields.
pub open spec fn archive(method: u8, level: u8, len: nat, crc: u32, body: Seq<u8>) -> Seq<u8> {
    MAGIC@ + seq![VERSION, method, level] + le_bytes(len, 8) + le_bytes(crc as nat, 4) + body
}

/// The payload of `data` at `level` is worth keeping.
pub open spec fn shrinks(data: Seq<u8>, level: u8) -> bool {
    payload(data, effective_level(level)).len() < data.len()
}

/// The archive that `data` is packed into.
pub open spec fn packed(data: Seq<u8>, level: u8) -> Seq<u8> {
    let level = effective_level(level);
    if shrinks(data, level) {
        archive(METHOD_CM, level, data.len(), crc32_of(data), payload(data, level))
    } else {
        archive(METHOD_STORED, level, data.len(), crc32_of(data), data)
    }
}

/// The data that `body` stands for, before its checksum is compared.
pub open spec fn unpacked_body(method: u8, level: u8, len: nat, body: Seq<u8>) -> Result<
    Seq<u8>,
    ArchiveError,
> {
    if method == METHOD_STORED {
        if body.len() != len {
            Err(ArchiveError::TruncatedStored)
        } else {
            Ok(body)
        }
    } else if method == METHOD_CM {
        if body.len() == 0 && len > 0 {
            Err(ArchiveError::NoPayload)
        } else if len > (body.len() + 8) * MAX_EXPANSION {
            Err(ArchiveError::Implausible { size: len as usize, payload: body.len() as usize })
        } else if runs_out(body, level, len) {
            Err(ArchiveError::EndedEarly)
        } else {
            Ok(bytes_of(decoding(body, level, len * 8).bits))
        }
    } else {
        Err(ArchiveError::UnknownMethod(method))
    }
}

/// An archive begins like one.
pub open spec fn looks_like_archive(blob: Seq<u8>) -> bool {
    blob.len() >= HEADER_LEN && blob.take(4) == MAGIC@
}

/// The size that an archive declares.
pub open spec fn declared_len(blob: Seq<u8>) -> nat {
    le_value(blob.subrange(7, 15))
}

/// The checksum that an archive declares.
pub open spec fn declared_crc(blob: Seq<u8>) -> u32 {
    le_value(blob.subrange(15, 19)) as u32
}

/// What is wrong with the header of `blob`, if anything is.
pub open spec fn header_error(blob: Seq<u8>) -> Option<ArchiveError> {
    if !looks_like_archive(blob) {
        Some(ArchiveError::BadMagic)
    } else if blob[4] != VERSION {
        Some(ArchiveError::UnsupportedVersion(blob[4]))
    } else if blob[6] > MAX_LEVEL {
        Some(ArchiveError::InvalidLevel(blob[6]))
    } else if declared_len(blob) > usize::MAX {
        Some(ArchiveError::TooLarge)
    } else {
        None
    }
}

/// The data that `blob` holds, or why it is refused.
pub open spec fn unpacked(blob: Seq<u8>) -> Result<Seq<u8>, ArchiveError> {
    match header_error(blob) {
        Some(e) => Err(e),
        None => match unpacked_body(blob[5], blob[6], declared_len(blob), blob.skip(19)) {
            Err(e) => Err(e),
            Ok(out) => if crc32_of(out) != declared_crc(blob) {
                Err(
                    ArchiveError::ChecksumMismatch {
                        expected: declared_crc(blob),
                        got: crc32_of(out),
                    },
                )
            } else {
                Ok(out)
            },
        },
    }
}

/// What is reported while `blob` is unpacked.
pub open spec fn unpack_reports(blob: Seq<u8>) -> Seq<(usize, usize)> {
    let len = declared_len(blob) as usize;
    if header_error(blob) is Some {
        Seq::empty()
    } else if blob[5] == METHOD_STORED && blob.skip(19).len() == len {
        seq![(len, len)]
    } else if blob[5] == METHOD_CM && (blob.skip(19).len() > 0 || len == 0) && len <= (blob.skip(
        19,
    ).len() + 8) * MAX_EXPANSION {
        decode_reports(blob.skip(19), blob[6], len)
    } else {
        Seq::empty()
    }
}

/// Numbers survive being written down.
proof fn lemma_le_round_trip(n: nat, width: nat)
    requires
        n < pow2(8 * width),
    ensures
        le_bytes(n, width).len() == width,
        le_value(le_bytes(n, width)) == n,
    decreases width,
{
    vstd::arithmetic::power2::lemma2_to64();
    if width > 0 {
        vstd::arithmetic::power2::lemma_pow2_adds(8, (8 * (width - 1)) as nat);
        let rest = le_bytes(n / 256, (width - 1) as nat);
        lemma_le_round_trip(n / 256, (width - 1) as nat);
        assert(le_bytes(n, width).skip(1) =~= rest);
    }
}

/// The fields of an archive are read back as they were written.
proof fn lemma_archive_fields(method: u8, level: u8, len: nat, crc: u32, body: Seq<u8>)
    requires
        len <= u64::MAX,
    ensures
        ({
            let a = archive(method, level, len, crc, body);
            &&& a.len() == HEADER_LEN + body.len()
            &&& looks_like_archive(a)
            &&& a[4] == VERSION
            &&& a[5] == method
            &&& a[6] == level
            &&& declared_len(a) == len
            &&& declared_crc(a) == crc
            &&& a.skip(19) == body
        }),
{
    vstd::arithmetic::power2::lemma2_to64();
    let a = archive(method, level, len, crc, body);
    lemma_le_round_trip(len, 8);
    lemma_le_round_trip(crc as nat, 4);
    assert(a.take(4) =~= MAGIC@);
    assert(a.subrange(7, 15) =~= le_bytes(len, 8));
    assert(a.subrange(15, 19) =~= le_bytes(crc as nat, 4));
    assert(a.skip(19) =~= body);
}

/// Unpacking undoes packing, whatever the data and the level.
pub proof fn law_round_trip(data: Seq<u8>, level: u8)
    requires
        data.len() <= usize::MAX,
    ensures
        unpacked(packed(data, level)) == Ok::<Seq<u8>, ArchiveError>(data),
{
    let lv = effective_level(level);
    let crc = crc32_of(data);
    if shrinks(data, level) {
        let body = payload(data, lv);
        lemma_archive_fields(METHOD_CM, lv, data.len(), crc, body);
        law_payload_expansion(data, lv);
        law_decoding_follows(data, lv, data.len() * 8);
        law_bytes_of_bits(data);
        assert(bits_of(data).take((data.len() * 8) as int) =~= bits_of(data));
    } else {
        lemma_archive_fields(METHOD_STORED, lv, data.len(), crc, data);
    }
}

/// Progress on what was packed is monotonic and complete: every report gives the
/// size of the data as the total, none goes back, and the last one is the end.
pub proof fn law_unpack_progress(data: Seq<u8>, level: u8, i: int, j: int)
    requires
        data.len() <= usize::MAX,
        0 <= i <= j < unpack_reports(packed(data, level)).len(),
    ensures
        ({
            let all = unpack_reports(packed(data, level));
            &&& all[i].0 <= all[j].0 <= data.len()
            &&& all[i].1 == data.len()
            &&& all.last() == (data.len() as usize, data.len() as usize)
        }),
{
    let lv = effective_level(level);
    let len = data.len() as usize;
    if shrinks(data, level) {
        lemma_archive_fields(METHOD_CM, lv, data.len(), crc32_of(data), payload(data, lv));
        law_payload_expansion(data, lv);
        law_decoding_follows(data, lv, data.len() * 8);
        law_decode_reports(payload(data, lv), lv, len);
        law_progress(data.len(), i, j);
    } else {
        lemma_archive_fields(METHOD_STORED, lv, data.len(), crc32_of(data), data);
    }
}

/// What was packed is recognised as an archive, never grows by more than the
/// header, and tells the level, the size and the checksum of the data.
pub proof fn law_packed_shape(data: Seq<u8>, level: u8)
    requires
        data.len() <= u64::MAX,
    ensures
        looks_like_archive(packed(data, level)),
        packed(data, level).len() <= data.len() + HEADER_LEN,
        packed(data, level)[4] == VERSION,
        packed(data, level)[5] == METHOD_CM || packed(data, level)[5] == METHOD_STORED,
        packed(data, level)[6] == effective_level(level),
        declared_len(packed(data, level)) == data.len(),
        declared_crc(packed(data, level)) == crc32_of(data),
{
    let lv = effective_level(level);
    lemma_archive_fields(METHOD_CM, lv, data.len(), crc32_of(data), payload(data, lv));
    lemma_archive_fields(METHOD_STORED, lv, data.len(), crc32_of(data), data);
}

/// Levels above the highest are the highest.
pub proof fn law_level_is_capped(data: Seq<u8>, level: u8)
    requires
        level >= MAX_LEVEL,
    ensures
        packed(data, level) == packed(data, MAX_LEVEL),
{
}

/// Whatever is unpacked has the declared size and the declared checksum, and
/// is no longer than the payload allows for.
pub proof fn law_unpacked_is_checked(blob: Seq<u8>)
    requires
        unpacked(blob) is Ok,
    ensures
        looks_like_archive(blob),
        unpacked(blob)->Ok_0.len() == declared_len(blob),
        crc32_of(unpacked(blob)->Ok_0) == declared_crc(blob),
        unpacked(blob)->Ok_0.len() <= (blob.len() - HEADER_LEN + 8) * MAX_EXPANSION,
{
    let body = blob.skip(19);
    let len = declared_len(blob);
    crate::codec::lemma_decoding_len(body, blob[6], len * 8);
}

/// A stored archive whose data has changed within four consecutive bytes is
/// refused.
pub proof fn law_changed_bytes_are_refused(data: Seq<u8>, level: u8, other: Seq<u8>, i: int)
    requires
        data.len() <= usize::MAX,
        other.len() == data.len(),
        other != data,
        forall|j: int| 0 <= j < data.len() && !(i <= j < i + 4) ==> #[trigger] data[j] == other[j],
        level <= MAX_LEVEL,
    ensures
        unpacked(archive(METHOD_STORED, level, data.len(), crc32_of(data), other)) == Err::<
            Seq<u8>,
            ArchiveError,
        >(ArchiveError::ChecksumMismatch { expected: crc32_of(data), got: crc32_of(other) }),
{
    lemma_archive_fields(METHOD_STORED, level, data.len(), crc32_of(data), other);
    law_four_bytes_change_crc(data, other, i);
}

/// A payload that runs out is refused, whatever it would have decoded to.
pub proof fn law_truncation_is_refused(blob: Seq<u8>)
    requires
        looks_like_archive(blob),
        blob[5] == METHOD_CM,
        runs_out(blob.skip(19), blob[6], declared_len(blob)),
    ensures
        unpacked(blob) is Err,
{
}

/// An archive of which any part at the end is missing is refused.
pub proof fn law_cut_archive_is_refused(data: Seq<u8>, level: u8, n: nat)
    requires
        data.len() <= usize::MAX,
        n < packed(data, level).len(),
    ensures
        unpacked(packed(data, level).take(n as int)) is Err,
{
    let lv = effective_level(level);
    let whole = packed(data, level);
    let blob = whole.take(n as int);
    lemma_archive_fields(METHOD_CM, lv, data.len(), crc32_of(data), payload(data, lv));
    lemma_archive_fields(METHOD_STORED, lv, data.len(), crc32_of(data), data);
    if n >= HEADER_LEN {
        assert(blob.subrange(7, 15) =~= whole.subrange(7, 15));
        assert(blob.skip(19) =~= whole.skip(19).take(n - 19));
        if shrinks(data, level) {
            law_cut_payload_runs_out(data, lv, (n - 19) as nat);
        }
    }
}

/// Append `n` as `width` bytes, least significant byte first.
fn push_le(out: &mut Vec<u8>, n: u64, width: usize)
    ensures
        final(out)@ == old(out)@ + le_bytes(n as nat, width as nat),
    decreases width,
{
    if width > 0 {
        out.push((n % 256) as u8);
        push_le(out, n / 256, width - 1);
    }
    assert(out@ =~= old(out)@ + le_bytes(n as nat, width as nat));
}

/// The number that `width` bytes from `from` on hold.
fn read_le(blob: &[u8], from: usize, width: usize) -> (n: u64)
    requires
        from + width <= blob@.len(),
        width <= 8,
    ensures
        n == le_value(blob@.subrange(from as int, from + width)),
        n < pow2(8 * width as nat),
    decreases width,
{
    proof {
        vstd::arithmetic::power2::lemma2_to64();
    }
    if width == 0 {
        0
    } else {
        assert(blob.len() == blob@.len());
        let rest: u64 = read_le(blob, from + 1, width - 1);
        proof {
            vstd::arithmetic::power2::lemma_pow2_adds(8, (8 * (width - 1)) as nat);
            if width < 8 {
                vstd::arithmetic::power2::lemma_pow2_strictly_increases((8 * width) as nat, 64);
            }
            assert(pow2(64) == 0x1_0000_0000_0000_0000) by {
                vstd::arithmetic::power2::lemma_pow2_adds(32, 32);
            }
            assert(blob@.subrange(from as int, from + width).skip(1) =~= blob@.subrange(
                from + 1,
                from + width,
            ));
        }
        rest * 256 + blob[from] as u64
    }
}

/// Compress `data` into a self-describing container.
pub fn compress(data: &[u8], level: u8) -> (out: Vec<u8>)
    requires
        data@.len() + HEADER_LEN <= isize::MAX,
    ensures
        out@ == packed(data@, level),
{
    compress_with_progress(data, level, |_done: usize| {  })
}

/// Same as [`compress`], calling `progress` with the number of input bytes
/// consumed so far, about a hundred times over the whole input: at every mark
/// and at the end. (That the calls come in this order, and that there are no
/// others, is stated of [`compress_metered`].)
pub fn compress_with_progress<F: FnMut(usize)>(data: &[u8], level: u8, progress: F) -> (out: Vec<
    u8,
>)
    requires
        data@.len() + HEADER_LEN <= isize::MAX,
        forall|done: usize| call_requires(progress, (done,)),
    ensures
        out@ == packed(data@, level),
        forall|i: int|
            0 <= i < reports(data@.len()).len() ==> call_ensures(
                progress,
                (#[trigger] reports(data@.len())[i],),
                (),
            ),
{
    let mut meter = Meter::new(progress);
    let out = compress_metered(data, level, &mut meter);
    assert(meter@ =~= reports(data@.len()));
    out
}

/// Same as [`compress`], reporting to `meter` at every mark and at the end.
pub fn compress_metered<F: FnMut(usize)>(data: &[u8], level: u8, meter: &mut Meter<F>) -> (out: Vec<
    u8,
>)
    requires
        data@.len() + HEADER_LEN <= isize::MAX,
        old(meter).callable(),
    ensures
        out@ == packed(data@, level),
        final(meter).callable(),
        final(meter).function() == old(meter).function(),
        final(meter)@ == old(meter)@ + reports(data@.len()),
{
    let level: u8 = if level < MAX_LEVEL {
        level
    } else {
        MAX_LEVEL
    };
    let payload = encode_payload(data, level, meter);
    // Incompressible input must never grow by more than the header.
    let method: u8 = if payload.len() < data.len() {
        METHOD_CM
    } else {
        METHOD_STORED
    };
    let body: &[u8] = if payload.len() < data.len() {
        payload.as_slice()
    } else {
        data
    };
    let mut out: Vec<u8> = Vec::with_capacity(HEADER_LEN + body.len());
    out.extend_from_slice(&MAGIC);
    out.push(VERSION);
    out.push(method);
    out.push(level);
    push_le(&mut out, data.len() as u64, 8);
    push_le(&mut out, crc32(data) as u64, 4);
    out.extend_from_slice(body);
    assert(out@ =~= packed(data@, level));
    out
}

/// Decompress a container produced by [`compress`], verifying its checksum.
pub fn decompress(blob: &[u8]) -> (r: Result<Vec<u8>, String>)
    ensures
        match r {
            Ok(out) => unpacked(blob@) == Ok::<Seq<u8>, ArchiveError>(out@),
            Err(text) => unpacked(blob@) is Err && text@ == unpacked(blob@)->Err_0.text(),
        },
{
    decompress_with_progress(blob, |_done: usize, _total: usize| {  })
}

/// Same as [`decompress`], calling `progress(done, total)` as output bytes are
/// produced: at every mark and at the end, up to where the payload runs out.
/// (That the calls come in this order, and that there are no others, is stated
/// of [`decompress_metered`].)
///
/// Every header field is treated as hostile: an archive is 19 bytes of
/// attacker-chosen data followed by a payload, and none of it may be trusted
/// to size an allocation or bound a loop on its own.
pub fn decompress_with_progress<F: FnMut(usize, usize)>(blob: &[u8], progress: F) -> (r: Result<
    Vec<u8>,
    String,
>)
    requires
        forall|done: usize, total: usize| call_requires(progress, (done, total)),
    ensures
        match r {
            Ok(out) => unpacked(blob@) == Ok::<Seq<u8>, ArchiveError>(out@),
            Err(text) => unpacked(blob@) is Err && text@ == unpacked(blob@)->Err_0.text(),
        },
        forall|i: int|
            0 <= i < unpack_reports(blob@).len() ==> call_ensures(
                progress,
                #[trigger] unpack_reports(blob@)[i],
                (),
            ),
{
    let mut meter = TotalMeter::new(progress);
    let r = decompress_metered(blob, &mut meter);
    assert(meter@ =~= unpack_reports(blob@));
    match r {
        Ok(out) => Ok(out),
        Err(e) => Err(e.message()),
    }
}

/// Same as [`decompress`], reporting to `meter`, and with the reason of a
/// refusal as it is.
pub fn decompress_metered<F: FnMut(usize, usize)>(blob: &[u8], meter: &mut TotalMeter<F>) -> (r:
    Result<Vec<u8>, ArchiveError>)
    requires
        old(meter).callable(),
    ensures
        match r {
            Ok(out) => unpacked(blob@) == Ok::<Seq<u8>, ArchiveError>(out@),
            Err(e) => unpacked(blob@) == Err::<Seq<u8>, ArchiveError>(e),
        },
        final(meter).callable(),
        final(meter).function() == old(meter).function(),
        final(meter)@ == old(meter)@ + unpack_reports(blob@),
{
    assert(meter@ =~= old(meter)@ + Seq::<(usize, usize)>::empty());
    if !is_archive(blob) {
        return Err(ArchiveError::BadMagic);
    }
    let version: u8 = blob[4];
    if version != VERSION {
        return Err(ArchiveError::UnsupportedVersion(version));
    }
    let method: u8 = blob[5];
    let level: u8 = blob[6];
    if level > MAX_LEVEL {
        return Err(ArchiveError::InvalidLevel(level));
    }
    let raw_len: u64 = read_le(blob, 7, 8);
    if raw_len > usize::MAX as u64 {
        return Err(ArchiveError::TooLarge);
    }
    let len: usize = raw_len as usize;
    proof {
        vstd::arithmetic::power2::lemma2_to64();
    }
    let want: u32 = read_le(blob, 15, 4) as u32;
    let body: &[u8] = vstd::slice::slice_subrange(blob, HEADER_LEN, blob.len());
    assert(body@ =~= blob@.skip(19));
    let out: Vec<u8> = if method == METHOD_STORED {
        if body.len() != len {
            return Err(ArchiveError::TruncatedStored);
        }
        meter.report(len, len);
        assert(meter@ =~= old(meter)@ + seq![(len, len)]);
        vstd::slice::slice_to_vec(body)
    } else if method == METHOD_CM {
        if body.len() == 0 && len > 0 {
            return Err(ArchiveError::NoPayload);
        }
        if len as u128 > (body.len() as u128 + 8) * MAX_EXPANSION as u128 {
            return Err(ArchiveError::Implausible { size: len, payload: body.len() });
        }
        match decode_payload(body, level, len, meter) {
            None => {
                return Err(ArchiveError::EndedEarly);
            },
            Some(out) => out,
        }
    } else {
        return Err(ArchiveError::UnknownMethod(method));
    };
    let got: u32 = crc32(out.as_slice());
    if got != want {
        return Err(ArchiveError::ChecksumMismatch { expected: want, got });
    }
    Ok(out)
}

/// True if `blob` looks like a Compactor archive, for callers that want to pick
/// between compressing and decompressing on their own.
pub fn is_archive(blob: &[u8]) -> (r: bool)
    ensures
        r == looks_like_archive(blob@),
{
    let r = blob.len() >= HEADER_LEN && blob[0] == MAGIC[0] && blob[1] == MAGIC[1] && blob[2]
        == MAGIC[2] && blob[3] == MAGIC[3];
    assert(blob@.len() >= 4 ==> (blob@.take(4) =~= MAGIC@ <==> blob@[0] == MAGIC@[0] && blob@[1]
        == MAGIC@[1] && blob@[2] == MAGIC@[2] && blob@[3] == MAGIC@[3]));
    r
}

/// Model memory needed at `level`, in bytes. Both directions need the same.
pub fn model_memory(level: u8) -> (n: usize)
    ensures
        n == memory_at(effective_level(level)),
{
    let level: u8 = if level < MAX_LEVEL {
        level
    } else {
        MAX_LEVEL
    };
    proof {
        law_memory_by_level(level);
    }
    Predictor::new(level).memory_usage()
}

/// An archive holds the payload where that is smaller than the data, and the data
/// as it is where it is not; so it is as small as either, and the header.
pub proof fn law_smaller_one_is_kept(data: Seq<u8>, level: u8)
    ensures
        ({
            let p = packed(data, level);
            let coded = payload(
                data,
                if level < 9 {
                    level
                } else {
                    9
                },
            );
            &&& p.len() == 19 + (if coded.len() < data.len() {
                coded.len()
            } else {
                data.len()
            })
            &&& p[5] == 0 <==> coded.len() >= data.len()
            &&& p[5] == 1 <==> coded.len() < data.len()
            &&& coded.len() < data.len() ==> p.skip(19) == coded
            &&& coded.len() >= data.len() ==> p.skip(19) == data
        }),
{
    let lv = effective_level(level);
    lemma_le_len(data.len(), 8);
    lemma_le_len(crc32_of(data) as nat, 4);
    let p = packed(data, level);
    assert(p.skip(19) =~= (if shrinks(data, level) {
        payload(data, lv)
    } else {
        data
    }));
}

proof fn lemma_le_len(n: nat, width: nat)
    ensures
        le_bytes(n, width).len() == width,
    decreases width,
{
    if width > 0 {
        lemma_le_len(n / 256, (width - 1) as nat);
    }
}

/// The header, byte by byte: `CPT6`, version 1, the method, the level, and the
/// size and the checksum of the data, lowest byte first.
pub proof fn law_header_layout(data: Seq<u8>, level: u8)
    requires
        data.len() <= u64::MAX,
    ensures
        ({
            let p = packed(data, level);
            &&& p[0] == 67 && p[1] == 80 && p[2] == 84 && p[3] == 54
            &&& p[4] == 1 && p[6] == (if level < 9 {
                level
            } else {
                9
            })
            &&& data.len() == p[7] + 256 * (p[8] + 256 * (p[9] + 256 * (p[10] + 256 * (p[11] + 256
                * (p[12] + 256 * (p[13] + 256 * p[14]))))))
            &&& crc32_of(data) == p[15] + 256 * (p[16] + 256 * (p[17] + 256 * p[18]))
        }),
{
    law_packed_shape(data, level);
    let p = packed(data, level);
    law_fields_are_little_endian(p);
    assert(p.take(4)[0] == p[0] && p.take(4)[1] == p[1] && p.take(4)[2] == p[2] && p.take(4)[3]
        == p[3]);
    assert(MAGIC@[0] == 67 && MAGIC@[1] == 80 && MAGIC@[2] == 84 && MAGIC@[3] == 54);
}

/// The size and the checksum are read lowest byte first.
pub proof fn law_fields_are_little_endian(p: Seq<u8>)
    requires
        p.len() >= 19,
    ensures
        declared_len(p) == p[7] + 256 * (p[8] + 256 * (p[9] + 256 * (p[10] + 256 * (p[11] + 256 * (
        p[12] + 256 * (p[13] + 256 * p[14])))))),
        declared_crc(p) == p[15] + 256 * (p[16] + 256 * (p[17] + 256 * p[18])),
{
    reveal_with_fuel(le_value, 9);
    let a = p.subrange(7, 15);
    assert(a[0] == p[7]);
    assert(a.skip(1)[0] == p[8]);
    assert(a.skip(1).skip(1)[0] == p[9]);
    assert(a.skip(1).skip(1).skip(1)[0] == p[10]);
    assert(a.skip(1).skip(1).skip(1).skip(1)[0] == p[11]);
    assert(a.skip(1).skip(1).skip(1).skip(1).skip(1)[0] == p[12]);
    assert(a.skip(1).skip(1).skip(1).skip(1).skip(1).skip(1)[0] == p[13]);
    assert(a.skip(1).skip(1).skip(1).skip(1).skip(1).skip(1).skip(1)[0] == p[14]);
    let b = p.subrange(15, 19);
    assert(b[0] == p[15]);
    assert(b.skip(1)[0] == p[16]);
    assert(b.skip(1).skip(1)[0] == p[17]);
    assert(b.skip(1).skip(1).skip(1)[0] == p[18]);
}

/// What is wrong with a header is found in this order: the magic, the version,
/// the level, the size. Each refusal says what it found.
pub proof fn law_bad_headers_are_refused(blob: Seq<u8>)
    ensures
        ({
            let magic = blob.len() >= 19 && blob[0] == 67 && blob[1] == 80 && blob[2] == 84
                && blob[3] == 54;
            let r = unpacked(blob);
            &&& looks_like_archive(blob) <==> magic
            &&& !magic ==> r == Err::<Seq<u8>, ArchiveError>(ArchiveError::BadMagic)
            &&& magic && blob[4] != 1 ==> r == Err::<Seq<u8>, ArchiveError>(
                ArchiveError::UnsupportedVersion(blob[4]),
            )
            &&& magic && blob[4] == 1 && blob[6] > 9 ==> r == Err::<Seq<u8>, ArchiveError>(
                ArchiveError::InvalidLevel(blob[6]),
            )
            &&& magic && blob[4] == 1 && blob[6] <= 9 && declared_len(blob) > usize::MAX ==> r
                == Err::<Seq<u8>, ArchiveError>(ArchiveError::TooLarge)
            &&& magic && blob[4] == 1 && blob[6] <= 9 && declared_len(blob) <= usize::MAX && blob[5]
                > 1 ==> r == Err::<Seq<u8>, ArchiveError>(ArchiveError::UnknownMethod(blob[5]))
        }),
{
    assert(MAGIC@[0] == 67 && MAGIC@[1] == 80 && MAGIC@[2] == 84 && MAGIC@[3] == 54);
    if blob.len() >= 19 {
        let t = blob.take(4);
        assert(t[0] == blob[0] && t[1] == blob[1] && t[2] == blob[2] && t[3] == blob[3]);
        if blob[0] == 67 && blob[1] == 80 && blob[2] == 84 && blob[3] == 54 {
            assert(t =~= MAGIC@);
        }
    }
}

/// A stored archive with a good header is its body, provided that this has the
/// declared size and the declared checksum.
pub proof fn law_stored_is_taken_as_it_is(blob: Seq<u8>)
    requires
        looks_like_archive(blob),
        blob[4] == 1,
        blob[5] == 0,
        blob[6] <= 9,
        declared_len(blob) <= usize::MAX,
    ensures
        ({
            let body = blob.skip(19);
            let r = unpacked(blob);
            &&& body.len() != declared_len(blob) ==> r == Err::<Seq<u8>, ArchiveError>(
                ArchiveError::TruncatedStored,
            )
            &&& body.len() == declared_len(blob) && crc32_of(body) == declared_crc(blob) ==> r
                == Ok::<Seq<u8>, ArchiveError>(body)
            &&& body.len() == declared_len(blob) && crc32_of(body) != declared_crc(blob) ==> r
                == Err::<Seq<u8>, ArchiveError>(
                ArchiveError::ChecksumMismatch {
                    expected: declared_crc(blob),
                    got: crc32_of(body),
                },
            )
        }),
{
}

/// A coded archive with a good header decodes to its data at any level, whether
/// or not coding made it smaller, and whatever follows the payload.
pub proof fn law_coded_is_decoded(blob: Seq<u8>, data: Seq<u8>, more: Seq<u8>)
    requires
        looks_like_archive(blob),
        blob[4] == 1,
        blob[5] == 1,
        blob[6] <= 9,
        declared_len(blob) == data.len() <= usize::MAX,
        declared_crc(blob) == crc32_of(data),
        blob.skip(19) == payload(data, blob[6]) + more,
    ensures
        unpacked(blob) == Ok::<Seq<u8>, ArchiveError>(data),
{
    law_payload_expansion(data, blob[6]);
    law_what_follows_is_ignored(data, blob[6], more);
}

/// A coded archive with a good header is refused for want of a payload, for a
/// size that no payload of its length can stand for, and for a payload that runs
/// out, in this order.
pub proof fn law_bad_payloads_are_refused(blob: Seq<u8>)
    requires
        looks_like_archive(blob),
        blob[4] == 1,
        blob[5] == 1,
        blob[6] <= 9,
        declared_len(blob) <= usize::MAX,
    ensures
        ({
            let len = declared_len(blob);
            let n = blob.len() - 19;
            let r = unpacked(blob);
            let out = len > 0 && decoding(blob.skip(19), blob[6], len * 8).coder.overrun() > 0;
            &&& n == 0 && len > 0 ==> r == Err::<Seq<u8>, ArchiveError>(ArchiveError::NoPayload)
            &&& !(n == 0 && len > 0) && len > (n + 8) * 4096 ==> r == Err::<Seq<u8>, ArchiveError>(
                ArchiveError::Implausible { size: len as usize, payload: n as usize },
            )
            &&& !(n == 0 && len > 0) && len <= (n + 8) * 4096 && out ==> r == Err::<
                Seq<u8>,
                ArchiveError,
            >(ArchiveError::EndedEarly)
            &&& !(n == 0 && len > 0) && len <= (n + 8) * 4096 && !out ==> (r is Ok || r
                is Err && r->Err_0 is ChecksumMismatch)
        }),
{
    assert(blob.skip(19).len() == blob.len() - 19);
}

/// What is said of an archive that cannot be read, with the figures that it is
/// about: sizes and numbers in decimal, checksums as eight hexadecimal digits.
pub proof fn law_messages(n: u8, size: usize, payload: usize, expected: u32, got: u32)
    ensures
        ArchiveError::BadMagic.text() == "not a Compactor archive (bad magic)"@,
        ArchiveError::UnsupportedVersion(n).text() == "unsupported archive version "@ + decimal(
            n as nat,
        ),
        ArchiveError::InvalidLevel(n).text() == "invalid level "@ + decimal(n as nat)
            + " in header"@,
        ArchiveError::TooLarge.text() == "original size does not fit in memory on this platform"@,
        ArchiveError::TruncatedStored.text() == "truncated stored archive"@,
        ArchiveError::NoPayload.text() == "truncated archive (no payload)"@,
        (ArchiveError::Implausible { size, payload }).text() == "implausible original size "@
            + decimal(size as nat) + " for a "@ + decimal(payload as nat)
            + " byte payload (corrupt or hostile archive)"@,
        ArchiveError::EndedEarly.text() == "truncated archive (payload ended early)"@,
        ArchiveError::UnknownMethod(n).text() == "unknown compression method "@ + decimal(n as nat),
        (ArchiveError::ChecksumMismatch { expected, got }).text() == "checksum mismatch: expected "@
            + hex(expected as nat, 8) + ", got "@ + hex(got as nat, 8) + " (corrupt archive)"@,
{
}

/// What is stored is reported at once and whole, what is coded as it is decoded,
/// and what is refused before that not at all.
pub proof fn law_unpack_reports(blob: Seq<u8>)
    requires
        looks_like_archive(blob),
        blob[4] == 1,
        blob[6] <= 9,
        declared_len(blob) <= usize::MAX,
    ensures
        ({
            let len = declared_len(blob) as usize;
            let body = blob.skip(19);
            let r = unpack_reports(blob);
            &&& blob[5] == 0 && body.len() == len ==> r == seq![(len, len)]
            &&& blob[5] == 0 && body.len() != len ==> r.len() == 0
            &&& blob[5] == 1 && (len == 0 || (body.len() > 0 && len <= (body.len() + 8) * 4096))
                ==> r == decode_reports(body, blob[6], len)
            &&& blob[5] == 1 && len > 0 && (body.len() == 0 || len > (body.len() + 8) * 4096)
                ==> r.len() == 0
            &&& blob[5] > 1 ==> r.len() == 0
        }),
{
}

/// An archive whose header is refused is not reported on.
pub proof fn law_refused_headers_are_silent(blob: Seq<u8>)
    requires
        !looks_like_archive(blob) || blob[4] != 1 || blob[6] > 9 || declared_len(blob) > usize::MAX,
    ensures
        unpack_reports(blob).len() == 0,
{
}

} // verus!

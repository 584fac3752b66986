//! `RATCHET_STATE_V1`: the versioned byte encoding of the complete
//! [`DoubleRatchet`] state, and its exact inverse.
//!
//! | offset | size | field                                              |
//! |-------:|-----:|----------------------------------------------------|
//! |      0 |    1 | version, `1`                                       |
//! |      1 |    1 | presence flags: bit0 `dhr`, bit1 `cks`, bit2 `ckr` |
//! |      2 |   32 | `dhs` secret bytes                                 |
//! |     34 |   32 | `dhr` (all zero when absent)                       |
//! |     66 |   32 | `rk`                                               |
//! |     98 |   32 | `cks` (all zero when absent)                       |
//! |    130 |   32 | `ckr` (all zero when absent)                       |
//! |    162 |    4 | `ns`                                               |
//! |    166 |    4 | `nr`                                               |
//! |    170 |    4 | `pn`                                               |
//! |    174 |    4 | `max_skipped`, must equal [`MAX_SKIPPED_KEYS`]     |
//! |    178 |    4 | skipped-key count, at most [`MAX_SKIPPED_KEYS`]    |
//! |    182 | 68·n | skipped entries in map order: dh(32) n(4) mk(32)   |
//!
//! Integers are big-endian and the record is exactly `182 + 68·count` bytes.
//! Decoding accepts only states the ratchet itself can reach, and rejects
//! anything else as a whole. The record is not encrypted or authenticated
//! here, and decoding says nothing about whether it is the newest state.

use vstd::prelude::*;

use crate::buf::{all_zero, append_bytes, array32_at};
use crate::bytes::{
    be_bytes, be_value, lemma_be_bytes_len, lemma_be_value_of_bytes, lemma_bytes_of_be_value,
    pow256, u32_from_be, u32_to_be,
};
use crate::ratchet::skipped::{
    entries_sized, has_key, insert_spec, keys_unique, skipped_contains, skipped_entries,
    skipped_get, skipped_insert, skipped_len, skipped_with_capacity, SkipEntry,
};
use crate::ratchet::{DoubleRatchet, RatchetState, MAX_COUNTER, MAX_SKIPPED_KEYS, ratchet_wf};
use crate::text::{decimal_spec, hex_width_spec, push_decimal, push_hex_width, push_str};

verus! {

/// Current `RATCHET_STATE_V1` format version.
pub const RATCHET_CHECKPOINT_VERSION: u8 = 1;

/// Length of the fixed part of a record.
pub const FIXED_LEN: usize = 182;

/// Length of one skipped-key entry.
pub const ENTRY_LEN: usize = 68;

/// Largest valid `RATCHET_STATE_V1` record, in bytes.
pub const RATCHET_CHECKPOINT_MAX_LEN: usize = 136182;

/// Why a ratchet checkpoint could not be written or read. No variant carries
/// key material.
#[derive(Debug, Clone, PartialEq, Eq)]
pub enum CheckpointError {
    Truncated { actual: usize },
    Oversized { actual: usize },
    UnsupportedVersion(u8),
    LengthMismatch { expected: usize, actual: usize },
    UnknownFlags(u8),
    UnexpectedCapacity(u32),
    TooManySkippedKeys(u32),
    DuplicateSkippedKey,
    AbsentFieldNotZero(&'static str),
    InconsistentState(&'static str),
    /// A message counter is too close to its limit to be decrypted with or
    /// advanced safely.
    CounterExhausted(&'static str),
}

/// The message of a checkpoint error, naming the offending value.
pub open spec fn checkpoint_error_message(e: CheckpointError) -> Seq<char> {
    match e {
        CheckpointError::Truncated { actual } => "ratchet checkpoint is "@ + decimal_spec(actual as nat)
            + " bytes; at least 182 required"@,
        CheckpointError::Oversized { actual } => "ratchet checkpoint is "@ + decimal_spec(actual as nat)
            + " bytes; limit is 136182"@,
        CheckpointError::UnsupportedVersion(v) => "unsupported ratchet checkpoint version "@
            + decimal_spec(v as nat),
        CheckpointError::LengthMismatch { expected, actual } => "ratchet checkpoint length "@
            + decimal_spec(actual as nat) + " does not match "@ + decimal_spec(expected as nat)
            + " implied by its skipped-key count"@,
        CheckpointError::UnknownFlags(f) => "ratchet checkpoint has unknown presence flags 0x"@
            + hex_width_spec(f as nat, 2),
        CheckpointError::UnexpectedCapacity(n) => "ratchet checkpoint max_skipped "@ + decimal_spec(
            n as nat,
        ) + " does not match this implementation"@,
        CheckpointError::TooManySkippedKeys(n) => "ratchet checkpoint holds "@ + decimal_spec(n as nat)
            + " skipped keys; limit is 2000"@,
        CheckpointError::DuplicateSkippedKey => "ratchet checkpoint lists the same skipped key twice"@,
        CheckpointError::AbsentFieldNotZero(f) => "ratchet checkpoint field "@ + f@
            + " is marked absent but not zero"@,
        CheckpointError::InconsistentState(w) => "ratchet state is not one this implementation can reach: "@
            + w@,
        CheckpointError::CounterExhausted(c) => "ratchet checkpoint counter "@ + c@
            + " is too close to its limit"@,
    }
}

impl CheckpointError {
    /// The error message.
    pub fn to_string(&self) -> (s: String)
        ensures
            s@ == checkpoint_error_message(*self),
    {
        let mut s = String::new();
        push_message(&mut s, self);
        s
    }
}

/// Appends the message of `e` to `s`.
pub fn push_message(s: &mut String, e: &CheckpointError)
    ensures
        final(s)@ == old(s)@ + checkpoint_error_message(*e),
{
    match *e {
        CheckpointError::Truncated { actual } => {
            push_str(s, "ratchet checkpoint is ");
            push_decimal(s, actual as u64);
            push_str(s, " bytes; at least 182 required");
        },
        CheckpointError::Oversized { actual } => {
            push_str(s, "ratchet checkpoint is ");
            push_decimal(s, actual as u64);
            push_str(s, " bytes; limit is 136182");
        },
        CheckpointError::UnsupportedVersion(v) => {
            push_str(s, "unsupported ratchet checkpoint version ");
            push_decimal(s, v as u64);
        },
        CheckpointError::LengthMismatch { expected, actual } => {
            push_str(s, "ratchet checkpoint length ");
            push_decimal(s, actual as u64);
            push_str(s, " does not match ");
            push_decimal(s, expected as u64);
            push_str(s, " implied by its skipped-key count");
        },
        CheckpointError::UnknownFlags(f) => {
            push_str(s, "ratchet checkpoint has unknown presence flags 0x");
            push_hex_width(s, f as u64, 2);
        },
        CheckpointError::UnexpectedCapacity(n) => {
            push_str(s, "ratchet checkpoint max_skipped ");
            push_decimal(s, n as u64);
            push_str(s, " does not match this implementation");
        },
        CheckpointError::TooManySkippedKeys(n) => {
            push_str(s, "ratchet checkpoint holds ");
            push_decimal(s, n as u64);
            push_str(s, " skipped keys; limit is 2000");
        },
        CheckpointError::DuplicateSkippedKey => {
            push_str(s, "ratchet checkpoint lists the same skipped key twice");
        },
        CheckpointError::AbsentFieldNotZero(f) => {
            push_str(s, "ratchet checkpoint field ");
            push_str(s, f);
            push_str(s, " is marked absent but not zero");
        },
        CheckpointError::InconsistentState(w) => {
            push_str(s, "ratchet state is not one this implementation can reach: ");
            push_str(s, w);
        },
        CheckpointError::CounterExhausted(c) => {
            push_str(s, "ratchet checkpoint counter ");
            push_str(s, c);
            push_str(s, " is too close to its limit");
        },
    }
}

// ── The format, stated once ───────────────────────────────────────────────────

/// The cross-field rules on reachable states, in the order they are checked.
pub open spec fn state_error(
    has_dhr: bool,
    has_cks: bool,
    has_ckr: bool,
    ns: u32,
    nr: u32,
    pn: u32,
    skipped: nat,
) -> Option<CheckpointError> {
    if !has_dhr && !has_cks && !has_ckr && ns != 0 {
        Some(
            CheckpointError::InconsistentState(
                "messages counted as sent before a sending chain exists",
            ),
        )
    } else if !((!has_dhr && !has_cks && !has_ckr) || (has_dhr && has_cks)) {
        Some(CheckpointError::InconsistentState("impossible combination of peer key and chain keys"))
    } else if !has_ckr && (nr != 0 || pn != 0 || skipped != 0) {
        Some(
            CheckpointError::InconsistentState(
                "receive-side counters or skipped keys without a receiving chain",
            ),
        )
    } else if skipped > MAX_SKIPPED_KEYS {
        Some(
            CheckpointError::TooManySkippedKeys(
                if skipped <= u32::MAX {
                    skipped as u32
                } else {
                    u32::MAX
                },
            ),
        )
    } else if ns > MAX_COUNTER {
        Some(CheckpointError::CounterExhausted("ns"))
    } else if nr > MAX_COUNTER {
        Some(CheckpointError::CounterExhausted("nr"))
    } else {
        None
    }
}

/// Why a state cannot be written, if it cannot.
pub open spec fn encode_error(v: RatchetState) -> Option<CheckpointError> {
    if v.max_skipped != MAX_SKIPPED_KEYS {
        Some(
            CheckpointError::UnexpectedCapacity(
                if v.max_skipped <= u32::MAX {
                    v.max_skipped as u32
                } else {
                    u32::MAX
                },
            ),
        )
    } else {
        state_error(v.dhr is Some, v.cks is Some, v.ckr is Some, v.ns, v.nr, v.pn, v.skipped.len())
    }
}

pub open spec fn zeros32() -> Seq<u8> {
    Seq::new(32, |i: int| 0u8)
}

pub open spec fn key_or_zero(k: Option<Seq<u8>>) -> Seq<u8> {
    match k {
        Some(x) => x,
        None => zeros32(),
    }
}

/// The presence flags byte.
pub open spec fn flags_of(v: RatchetState) -> u8 {
    ((if v.dhr is Some {
        1u8
    } else {
        0u8
    }) + (if v.cks is Some {
        2u8
    } else {
        0u8
    }) + (if v.ckr is Some {
        4u8
    } else {
        0u8
    })) as u8
}

/// The bytes of one skipped-key entry.
pub open spec fn entry_bytes(e: SkipEntry) -> Seq<u8> {
    e.0 + be_bytes(e.1 as nat, 4) + e.2
}

/// The bytes of a list of skipped-key entries, in order.
pub open spec fn entries_bytes(s: Seq<SkipEntry>) -> Seq<u8>
    decreases s.len(),
{
    if s.len() == 0 {
        Seq::empty()
    } else {
        entries_bytes(s.drop_last()) + entry_bytes(s.last())
    }
}

/// The complete record of a state.
pub open spec fn record_spec(v: RatchetState) -> Seq<u8> {
    seq![1u8, flags_of(v)] + v.dhs + key_or_zero(v.dhr) + v.rk + key_or_zero(v.cks) + key_or_zero(
        v.ckr,
    ) + be_bytes(v.ns as nat, 4) + be_bytes(v.nr as nat, 4) + be_bytes(v.pn as nat, 4) + be_bytes(
        v.max_skipped as nat,
        4,
    ) + be_bytes(v.skipped.len(), 4) + entries_bytes(v.skipped)
}

/// The entry at position `i` of the entry area `t`.
pub open spec fn entry_at(t: Seq<u8>, i: int) -> SkipEntry {
    (
        t.subrange(68 * i, 68 * i + 32),
        be_value(t.subrange(68 * i + 32, 68 * i + 36)) as u32,
        t.subrange(68 * i + 36, 68 * i + 68),
    )
}

/// The `count` entries stored in the entry area `t`.
pub open spec fn parse_entries(t: Seq<u8>, count: nat) -> Seq<SkipEntry> {
    Seq::new(count, |i: int| entry_at(t, i))
}

/// The `u32` stored big-endian at `off`.
pub open spec fn u32_at(b: Seq<u8>, off: int) -> u32 {
    be_value(b.subrange(off, off + 4)) as u32
}

/// What decoding a record yields: the state, or the first rule it breaks.
pub open spec fn decode_spec(b: Seq<u8>) -> Result<RatchetState, CheckpointError> {
    if b.len() > RATCHET_CHECKPOINT_MAX_LEN {
        Err(CheckpointError::Oversized { actual: b.len() as usize })
    } else if b.len() < FIXED_LEN {
        Err(CheckpointError::Truncated { actual: b.len() as usize })
    } else if b[0] != 1 {
        Err(CheckpointError::UnsupportedVersion(b[0]))
    } else if b[1] >= 8 {
        Err(CheckpointError::UnknownFlags(b[1]))
    } else if u32_at(b, 174) != MAX_SKIPPED_KEYS {
        Err(CheckpointError::UnexpectedCapacity(u32_at(b, 174)))
    } else if u32_at(b, 178) > MAX_SKIPPED_KEYS {
        Err(CheckpointError::TooManySkippedKeys(u32_at(b, 178)))
    } else if b.len() != FIXED_LEN + ENTRY_LEN * u32_at(b, 178) {
        Err(
            CheckpointError::LengthMismatch {
                expected: (FIXED_LEN + ENTRY_LEN * u32_at(b, 178)) as usize,
                actual: b.len() as usize,
            },
        )
    } else {
        let has_dhr = b[1] % 2 == 1;
        let has_cks = (b[1] / 2) % 2 == 1;
        let has_ckr = (b[1] / 4) % 2 == 1;
        let count = u32_at(b, 178);
        match state_error(
            has_dhr,
            has_cks,
            has_ckr,
            u32_at(b, 162),
            u32_at(b, 166),
            u32_at(b, 170),
            count as nat,
        ) {
            Some(e) => Err(e),
            None => if !has_dhr && !(b.subrange(34, 66) == zeros32()) {
                Err(CheckpointError::AbsentFieldNotZero("dhr"))
            } else if !has_cks && !(b.subrange(98, 130) == zeros32()) {
                Err(CheckpointError::AbsentFieldNotZero("cks"))
            } else if !has_ckr && !(b.subrange(130, 162) == zeros32()) {
                Err(CheckpointError::AbsentFieldNotZero("ckr"))
            } else {
                let entries = parse_entries(b.subrange(182, b.len() as int), count as nat);
                if !keys_unique(entries) {
                    Err(CheckpointError::DuplicateSkippedKey)
                } else {
                    Ok(
                        RatchetState {
                            dhs: b.subrange(2, 34),
                            dhr: if has_dhr {
                                Some(b.subrange(34, 66))
                            } else {
                                None
                            },
                            rk: b.subrange(66, 98),
                            cks: if has_cks {
                                Some(b.subrange(98, 130))
                            } else {
                                None
                            },
                            ckr: if has_ckr {
                                Some(b.subrange(130, 162))
                            } else {
                                None
                            },
                            ns: u32_at(b, 162),
                            nr: u32_at(b, 166),
                            pn: u32_at(b, 170),
                            skipped: entries,
                            max_skipped: MAX_SKIPPED_KEYS,
                        },
                    )
                }
            },
        }
    }
}

// ── Executable encoding ───────────────────────────────────────────────────────

/// Checks the cross-field rules. Shared by encode and decode so neither side
/// can accept what the other refuses.
fn check_state(
    has_dhr: bool,
    has_cks: bool,
    has_ckr: bool,
    ns: u32,
    nr: u32,
    pn: u32,
    skipped: usize,
) -> (r: Result<(), CheckpointError>)
    ensures
        r == match state_error(has_dhr, has_cks, has_ckr, ns, nr, pn, skipped as nat) {
            Some(e) => Err(e),
            None => Ok::<(), CheckpointError>(()),
        },
{
    if !has_dhr && !has_cks && !has_ckr {
        if ns != 0 {
            return Err(
                CheckpointError::InconsistentState(
                    "messages counted as sent before a sending chain exists",
                ),
            );
        }
    } else if !(has_dhr && has_cks) {
        return Err(
            CheckpointError::InconsistentState("impossible combination of peer key and chain keys"),
        );
    }
    if !has_ckr && (nr != 0 || pn != 0 || skipped != 0) {
        return Err(
            CheckpointError::InconsistentState(
                "receive-side counters or skipped keys without a receiving chain",
            ),
        );
    }
    if skipped > MAX_SKIPPED_KEYS {
        let n: u32 = if skipped <= 0xffff_ffffusize {
            skipped as u32
        } else {
            0xffff_ffffu32
        };
        return Err(CheckpointError::TooManySkippedKeys(n));
    }
    if ns > MAX_COUNTER {
        return Err(CheckpointError::CounterExhausted("ns"));
    }
    if nr > MAX_COUNTER {
        return Err(CheckpointError::CounterExhausted("nr"));
    }
    Ok(())
}

/// The big-endian `u32` at `off`.
pub fn read_u32(b: &[u8], off: usize) -> (x: u32)
    requires
        off + 4 <= b@.len(),
    ensures
        x == u32_at(b@, off as int),
{
    let n = b.len();
    u32_from_be(vstd::slice::slice_subrange(b, off, off + 4))
}

/// The 32 bytes at `off`.
pub fn read_32(b: &[u8], off: usize) -> (k: [u8; 32])
    requires
        off + 32 <= b@.len(),
    ensures
        k@ == b@.subrange(off as int, off + 32),
{
    array32_at(b, off)
}

fn push_key_or_zero(out: &mut Vec<u8>, k: &Option<[u8; 32]>)
    ensures
        final(out)@ == old(out)@ + key_or_zero(crate::ratchet::opt_key(*k)),
{
    match k {
        Some(x) => append_bytes(out, x.as_slice()),
        None => {
            let z = [0u8; 32];
            assert(z@ =~= zeros32());
            append_bytes(out, z.as_slice());
        },
    }
}

fn push_u32(out: &mut Vec<u8>, x: u32)
    ensures
        final(out)@ == old(out)@ + be_bytes(x as nat, 4),
{
    let b = u32_to_be(x);
    append_bytes(out, b.as_slice());
}

proof fn lemma_entries_bytes_len(s: Seq<SkipEntry>)
    requires
        entries_sized(s),
    ensures
        entries_bytes(s).len() == 68 * s.len(),
    decreases s.len(),
{
    if s.len() > 0 {
        assert(entries_sized(s.drop_last()));
        lemma_entries_bytes_len(s.drop_last());
        lemma_be_bytes_len(s.last().1 as nat, 4);
    }
}

impl DoubleRatchet {
    /// Encodes the complete ratchet state as a `RATCHET_STATE_V1` record. A
    /// state that [`from_checkpoint`](Self::from_checkpoint) would refuse is
    /// refused here too, so nothing unreadable is produced.
    pub fn to_checkpoint(&self) -> (r: Result<Vec<u8>, CheckpointError>)
        requires
            self.wf(),
        ensures
            match encode_error(self@) {
                Some(e) => r matches Err(x) && x == e,
                None => r matches Ok(v) && v@ == record_spec(self@),
            },
    {
        if self.max_skipped != MAX_SKIPPED_KEYS {
            let n: u32 = if self.max_skipped <= 0xffff_ffffusize {
                self.max_skipped as u32
            } else {
                0xffff_ffffu32
            };
            return Err(CheckpointError::UnexpectedCapacity(n));
        }
        let count = skipped_len(&self.skipped);
        check_state(
            self.dhr.is_some(),
            self.cks.is_some(),
            self.ckr.is_some(),
            self.ns,
            self.nr,
            self.pn,
            count,
        )?;
        let len = FIXED_LEN + ENTRY_LEN * count;
        let mut out: Vec<u8> = Vec::with_capacity(len);
        let mut flags: u8 = 0;
        if self.dhr.is_some() {
            flags = flags + 1;
        }
        if self.cks.is_some() {
            flags = flags + 2;
        }
        if self.ckr.is_some() {
            flags = flags + 4;
        }
        out.push(RATCHET_CHECKPOINT_VERSION);
        out.push(flags);
        append_bytes(&mut out, self.dhs.as_slice());
        push_key_or_zero(&mut out, &self.dhr);
        append_bytes(&mut out, self.rk.as_slice());
        push_key_or_zero(&mut out, &self.cks);
        push_key_or_zero(&mut out, &self.ckr);
        push_u32(&mut out, self.ns);
        push_u32(&mut out, self.nr);
        push_u32(&mut out, self.pn);
        push_u32(&mut out, 2000);
        push_u32(&mut out, count as u32);
        let ghost fixed = out@;
        let ghost s = self@.skipped;
        assert(fixed =~= seq![1u8, flags_of(self@)] + self@.dhs + key_or_zero(self@.dhr)
            + self@.rk + key_or_zero(self@.cks) + key_or_zero(self@.ckr) + be_bytes(
            self@.ns as nat,
            4,
        ) + be_bytes(self@.nr as nat, 4) + be_bytes(self@.pn as nat, 4) + be_bytes(
            self@.max_skipped as nat,
            4,
        ) + be_bytes(self@.skipped.len(), 4));
        let mut i: usize = 0;
        while i < count
            invariant
                count == s.len(),
                s == skipped_entries(self.skipped),
                i <= count,
                out@ == fixed + entries_bytes(s.subrange(0, i as int)),
            decreases count - i,
        {
            let (dh, n, mk) = skipped_get(&self.skipped, i);
            append_bytes(&mut out, dh.as_slice());
            push_u32(&mut out, n);
            append_bytes(&mut out, mk.as_slice());
            proof {
                let t = s.subrange(0, i + 1);
                assert(t.drop_last() =~= s.subrange(0, i as int));
                assert(t.last() == s[i as int]);
            }
            i = i + 1;
        }
        assert(s.subrange(0, count as int) =~= s);
        Ok(out)
    }

    /// Rebuilds a ratchet from a `RATCHET_STATE_V1` record. Every field is
    /// taken as stored; a record that breaks any rule is rejected as a whole.
    /// Skipped keys come back in the stored order.
    pub fn from_checkpoint(record: &[u8]) -> (r: Result<Self, CheckpointError>)
        ensures
            match decode_spec(record@) {
                Ok(v) => r matches Ok(d) && d@ == v && d.wf(),
                Err(e) => r matches Err(x) && x == e,
            },
    {
        let len = record.len();
        if len > RATCHET_CHECKPOINT_MAX_LEN {
            return Err(CheckpointError::Oversized { actual: len });
        }
        if len < FIXED_LEN {
            return Err(CheckpointError::Truncated { actual: len });
        }
        if record[0] != RATCHET_CHECKPOINT_VERSION {
            return Err(CheckpointError::UnsupportedVersion(record[0]));
        }
        let flags = record[1];
        if flags >= 8 {
            return Err(CheckpointError::UnknownFlags(flags));
        }
        let max_skipped = read_u32(record, 174);
        if max_skipped != 2000 {
            return Err(CheckpointError::UnexpectedCapacity(max_skipped));
        }
        let count = read_u32(record, 178);
        if count > 2000 {
            return Err(CheckpointError::TooManySkippedKeys(count));
        }
        let expected = FIXED_LEN + ENTRY_LEN * (count as usize);
        if len != expected {
            return Err(CheckpointError::LengthMismatch { expected, actual: len });
        }
        let has_dhr = flags % 2 == 1;
        let has_cks = (flags / 2) % 2 == 1;
        let has_ckr = (flags / 4) % 2 == 1;
        let ns = read_u32(record, 162);
        let nr = read_u32(record, 166);
        let pn = read_u32(record, 170);
        check_state(has_dhr, has_cks, has_ckr, ns, nr, pn, count as usize)?;
        let dhr_bytes = read_32(record, 34);
        let cks_bytes = read_32(record, 98);
        let ckr_bytes = read_32(record, 130);
        proof {
            assert(zeros32().len() == 32);
            assert((dhr_bytes@ == zeros32()) == (forall|j: int| 0 <= j < 32 ==> dhr_bytes@[j]
                == 0)) by {
                if forall|j: int| 0 <= j < 32 ==> dhr_bytes@[j] == 0 {
                    assert(dhr_bytes@ =~= zeros32());
                }
            }
            assert((cks_bytes@ == zeros32()) == (forall|j: int| 0 <= j < 32 ==> cks_bytes@[j]
                == 0)) by {
                if forall|j: int| 0 <= j < 32 ==> cks_bytes@[j] == 0 {
                    assert(cks_bytes@ =~= zeros32());
                }
            }
            assert((ckr_bytes@ == zeros32()) == (forall|j: int| 0 <= j < 32 ==> ckr_bytes@[j]
                == 0)) by {
                if forall|j: int| 0 <= j < 32 ==> ckr_bytes@[j] == 0 {
                    assert(ckr_bytes@ =~= zeros32());
                }
            }
        }
        if !has_dhr && !all_zero(dhr_bytes.as_slice()) {
            return Err(CheckpointError::AbsentFieldNotZero("dhr"));
        }
        if !has_cks && !all_zero(cks_bytes.as_slice()) {
            return Err(CheckpointError::AbsentFieldNotZero("cks"));
        }
        if !has_ckr && !all_zero(ckr_bytes.as_slice()) {
            return Err(CheckpointError::AbsentFieldNotZero("ckr"));
        }
        let ghost t = record@.subrange(182, len as int);
        let ghost entries = parse_entries(t, count as nat);
        let ghost expected_state = RatchetState {
            dhs: record@.subrange(2, 34),
            dhr: if has_dhr {
                Some(record@.subrange(34, 66))
            } else {
                None
            },
            rk: record@.subrange(66, 98),
            cks: if has_cks {
                Some(record@.subrange(98, 130))
            } else {
                None
            },
            ckr: if has_ckr {
                Some(record@.subrange(130, 162))
            } else {
                None
            },
            ns,
            nr,
            pn,
            skipped: entries,
            max_skipped: MAX_SKIPPED_KEYS,
        };
        assert(decode_spec(record@) == if keys_unique(entries) {
            Ok::<RatchetState, CheckpointError>(expected_state)
        } else {
            Err::<RatchetState, CheckpointError>(CheckpointError::DuplicateSkippedKey)
        });
        let mut skipped = skipped_with_capacity(count as usize);
        let mut i: usize = 0;
        while i < count as usize
            invariant
                len == record@.len(),
                len == 182 + 68 * count,
                t == record@.subrange(182, len as int),
                entries == parse_entries(t, count as nat),
                i <= count,
                skipped_entries(skipped) == entries.subrange(0, i as int),
                keys_unique(entries.subrange(0, i as int)),
                decode_spec(record@) == if keys_unique(entries) {
                    Ok::<RatchetState, CheckpointError>(expected_state)
                } else {
                    Err::<RatchetState, CheckpointError>(CheckpointError::DuplicateSkippedKey)
                },
            decreases count - i,
        {
            let off = FIXED_LEN + ENTRY_LEN * i;
            let dh = read_32(record, off);
            let n = read_u32(record, off + 32);
            let mk = read_32(record, off + 36);
            proof {
                assert(dh@ =~= t.subrange(68 * i, 68 * i + 32));
                assert(record@.subrange(off + 32, off + 36) =~= t.subrange(
                    68 * i + 32,
                    68 * i + 36,
                ));
                assert(mk@ =~= t.subrange(68 * i + 36, 68 * i + 68));
                assert(entries[i as int] == (dh@, n, mk@));
            }
            if skipped_contains(&skipped, &dh, n) {
                proof {
                    let p = entries.subrange(0, i as int);
                    let j = choose|j: int| 0 <= j < p.len() && p[j].0 == dh@ && p[j].1 == n;
                    assert(entries[j] == p[j]);
                    assert(j != i);
                    assert(entries[j].0 == entries[i as int].0 && entries[j].1 == entries[i as int].1);
                    assert(!keys_unique(entries));
                }
                return Err(CheckpointError::DuplicateSkippedKey);
            }
            skipped_insert(&mut skipped, dh, n, mk);
            proof {
                let p = entries.subrange(0, i as int);
                assert(entries.subrange(0, i + 1) =~= p.push((dh@, n, mk@)));
                let q = entries.subrange(0, i + 1);
                assert forall|a: int, b: int|
                    0 <= a < q.len() && 0 <= b < q.len() && a != b implies !(q[a].0 == q[b].0
                    && q[a].1 == q[b].1) by {
                    if a < i && b < i {
                        assert(q[a] == p[a] && q[b] == p[b]);
                    } else if a == i {
                        assert(q[b] == p[b]);
                        assert(!has_key(p, dh@, n));
                    } else {
                        assert(q[a] == p[a]);
                        assert(!has_key(p, dh@, n));
                    }
                }
            }
            i = i + 1;
        }
        proof {
            assert(entries.subrange(0, count as int) =~= entries);
            assert forall|k: int| 0 <= k < entries.len() implies entries[k].0.len() == 32
                && entries[k].2.len() == 32 by {}
        }
        let dhs = read_32(record, 2);
        let rk = read_32(record, 66);
        let r = DoubleRatchet {
            dhs,
            dhr: if has_dhr {
                Some(dhr_bytes)
            } else {
                None
            },
            rk,
            cks: if has_cks {
                Some(cks_bytes)
            } else {
                None
            },
            ckr: if has_ckr {
                Some(ckr_bytes)
            } else {
                None
            },
            ns,
            nr,
            pn,
            skipped,
            max_skipped: 2000,
        };
        Ok(r)
    }
}

// ── Laws ──────────────────────────────────────────────────────────────────────

proof fn lemma_entry_at_concat(e: Seq<u8>, x: Seq<u8>, i: int)
    requires
        0 <= i,
        68 * i + 68 <= e.len(),
    ensures
        entry_at(e + x, i) == entry_at(e, i),
{
    let c = e + x;
    assert(c.subrange(68 * i, 68 * i + 32) =~= e.subrange(68 * i, 68 * i + 32));
    assert(c.subrange(68 * i + 32, 68 * i + 36) =~= e.subrange(68 * i + 32, 68 * i + 36));
    assert(c.subrange(68 * i + 36, 68 * i + 68) =~= e.subrange(68 * i + 36, 68 * i + 68));
}

/// Reading the entries back from their bytes gives the entries.
proof fn lemma_parse_entries_bytes(s: Seq<SkipEntry>)
    requires
        entries_sized(s),
    ensures
        parse_entries(entries_bytes(s), s.len()) =~= s,
    decreases s.len(),
{
    if s.len() > 0 {
        let p = s.drop_last();
        let e = s.last();
        assert(entries_sized(p));
        lemma_parse_entries_bytes(p);
        lemma_entries_bytes_len(p);
        lemma_be_bytes_len(e.1 as nat, 4);
        let b = entries_bytes(s);
        let eb = entry_bytes(e);
        assert(b == entries_bytes(p) + eb);
        assert forall|i: int| 0 <= i < p.len() implies entry_at(b, i) == p[i] by {
            lemma_entry_at_concat(entries_bytes(p), eb, i);
            assert(entry_at(entries_bytes(p), i) == parse_entries(entries_bytes(p), p.len())[i]);
        }
        let k = p.len() as int;
        assert(b.subrange(68 * k, 68 * k + 32) =~= e.0);
        assert(b.subrange(68 * k + 32, 68 * k + 36) =~= be_bytes(e.1 as nat, 4));
        assert(b.subrange(68 * k + 36, 68 * k + 68) =~= e.2);
        reveal_with_fuel(pow256, 5);
        lemma_be_value_of_bytes(e.1 as nat, 4);
        assert(entry_at(b, k) == e);
    }
}

/// Writing out the entries read from an entry area gives the area back.
proof fn lemma_entries_bytes_parse(t: Seq<u8>, count: nat)
    requires
        t.len() == 68 * count,
    ensures
        entries_bytes(parse_entries(t, count)) =~= t,
        entries_sized(parse_entries(t, count)),
    decreases count,
{
    let s = parse_entries(t, count);
    if count > 0 {
        let c1 = (count - 1) as nat;
        let m: int = (68 * c1) as int;
        let t1 = t.subrange(0, m);
        lemma_entries_bytes_parse(t1, c1);
        assert forall|i: int| 0 <= i < c1 implies entry_at(t, i) == entry_at(t1, i) by {
            assert(t =~= t1 + t.subrange(m, t.len() as int));
            lemma_entry_at_concat(t1, t.subrange(m, t.len() as int), i);
        }
        assert(s.drop_last() =~= parse_entries(t1, c1));
        let e = entry_at(t, c1 as int);
        lemma_bytes_of_be_value(t.subrange(m + 32, m + 36));
        reveal_with_fuel(pow256, 5);
        assert(be_value(t.subrange(m + 32, m + 36)) < 4294967296);
        assert(entry_bytes(e) =~= t.subrange(m, m + 68));
        assert(t =~= t1 + t.subrange(m, m + 68));
    }
}

proof fn lemma_flags(f: u8)
    requires
        f < 8,
    ensures
        (if f % 2 == 1 {
            1u8
        } else {
            0u8
        }) + (if (f / 2) % 2 == 1 {
            2u8
        } else {
            0u8
        }) + (if (f / 4) % 2 == 1 {
            4u8
        } else {
            0u8
        }) == f,
{
    assert(f == 0 || f == 1 || f == 2 || f == 3 || f == 4 || f == 5 || f == 6 || f == 7);
}

proof fn lemma_flags_of(v: RatchetState)
    ensures
        flags_of(v) < 8,
        (flags_of(v) % 2 == 1) == (v.dhr is Some),
        ((flags_of(v) / 2) % 2 == 1) == (v.cks is Some),
        ((flags_of(v) / 4) % 2 == 1) == (v.ckr is Some),
{
}

proof fn lemma_u32_round_trip(x: u32)
    ensures
        be_value(be_bytes(x as nat, 4)) == x,
        be_bytes(x as nat, 4).len() == 4,
{
    reveal_with_fuel(pow256, 5);
    lemma_be_bytes_len(x as nat, 4);
    lemma_be_value_of_bytes(x as nat, 4);
}

/// Every state this code can write is read back exactly: field for field,
/// and skipped keys in their original order.
pub proof fn lemma_checkpoint_round_trip(v: RatchetState)
    requires
        ratchet_wf(v),
        encode_error(v) is None,
    ensures
        decode_spec(record_spec(v)) == Ok::<RatchetState, CheckpointError>(v),
{
    let s = v.skipped;
    let b = record_spec(v);
    lemma_entries_bytes_len(s);
    lemma_u32_round_trip(v.ns);
    lemma_u32_round_trip(v.nr);
    lemma_u32_round_trip(v.pn);
    lemma_u32_round_trip(v.max_skipped as u32);
    lemma_u32_round_trip(s.len() as u32);
    lemma_flags_of(v);
    let e = entries_bytes(s);
    assert(key_or_zero(v.dhr).len() == 32);
    assert(key_or_zero(v.cks).len() == 32);
    assert(key_or_zero(v.ckr).len() == 32);
    assert(b.len() == 182 + 68 * s.len());
    assert(b.subrange(2, 34) =~= v.dhs);
    assert(b.subrange(34, 66) =~= key_or_zero(v.dhr));
    assert(b.subrange(66, 98) =~= v.rk);
    assert(b.subrange(98, 130) =~= key_or_zero(v.cks));
    assert(b.subrange(130, 162) =~= key_or_zero(v.ckr));
    assert(b.subrange(162, 166) =~= be_bytes(v.ns as nat, 4));
    assert(b.subrange(166, 170) =~= be_bytes(v.nr as nat, 4));
    assert(b.subrange(170, 174) =~= be_bytes(v.pn as nat, 4));
    assert(b.subrange(174, 178) =~= be_bytes(v.max_skipped as nat, 4));
    assert(b.subrange(178, 182) =~= be_bytes(s.len(), 4));
    assert(b.subrange(182, b.len() as int) =~= e);
    lemma_parse_entries_bytes(s);
    let d = decode_spec(b)->Ok_0;
    assert(decode_spec(b) is Ok);
    assert(d.dhr == v.dhr);
    assert(d.cks == v.cks);
    assert(d.ckr == v.ckr);
    assert(d == v);
}

/// A record that decodes is exactly the record of the state it decodes to:
/// writing that state back reproduces the bytes, and the state is one this
/// code can write.
pub proof fn lemma_decoded_record_is_canonical(b: Seq<u8>)
    requires
        decode_spec(b) is Ok,
    ensures
        ratchet_wf(decode_spec(b)->Ok_0),
        encode_error(decode_spec(b)->Ok_0) is None,
        record_spec(decode_spec(b)->Ok_0) == b,
{
    let v = decode_spec(b)->Ok_0;
    let count = u32_at(b, 178);
    let t = b.subrange(182, b.len() as int);
    lemma_entries_bytes_parse(t, count as nat);
    lemma_flags(b[1]);
    lemma_flags_of(v);
    lemma_bytes_of_be_value(b.subrange(162, 166));
    lemma_bytes_of_be_value(b.subrange(166, 170));
    lemma_bytes_of_be_value(b.subrange(170, 174));
    lemma_bytes_of_be_value(b.subrange(174, 178));
    lemma_bytes_of_be_value(b.subrange(178, 182));
    reveal_with_fuel(pow256, 5);
    assert(b.subrange(174, 178) =~= be_bytes(v.max_skipped as nat, 4));
    assert(b.subrange(178, 182) =~= be_bytes(v.skipped.len(), 4));
    assert(b.subrange(34, 66) =~= key_or_zero(v.dhr));
    assert(b.subrange(98, 130) =~= key_or_zero(v.cks));
    assert(b.subrange(130, 162) =~= key_or_zero(v.ckr));
    assert(seq![1u8, flags_of(v)] =~= b.subrange(0, 2));
    assert(b =~= b.subrange(0, 2) + b.subrange(2, 34) + b.subrange(34, 66) + b.subrange(66, 98)
        + b.subrange(98, 130) + b.subrange(130, 162) + b.subrange(162, 166) + b.subrange(166, 170)
        + b.subrange(170, 174) + b.subrange(174, 178) + b.subrange(178, 182) + t);
    assert(record_spec(v) =~= b);
}

} // verus!

//! Captures: one record per cycle, written to a file by a thread of its own.
//!
//! This module holds the records' layout and what a capture decides. The owner
//! opens the file, runs the writer, and reports how it went.

use crate::bytes::{le_bytes, push_le};
use crate::text::{chars_of, copy_text, decimal, decimal_int, push_decimal, push_decimal_int};
use vstd::prelude::*;

verus! {

/// A capture is running already.
pub const ERR_CAPTURE_ACTIVE: i32 = -320;

/// No capture is running.
pub const ERR_CAPTURE_NOT_ACTIVE: i32 = -321;

/// The file could not be made or written.
pub const ERR_CAPTURE_FILE: i32 = -322;

/// The writer fell behind.
pub const ERR_CAPTURE_OVERFLOW: i32 = -323;

/// A text cannot stand in the header.
pub const ERR_CAPTURE_BAD_ARG: i32 = -324;

/// How many records may wait for the writer.
pub const CAPTURE_RING_CAPACITY: usize = 4096;

/// How many bytes a record takes.
pub const RECORD_SIZE: usize = 31;

/// Torque is on.
pub const FLAG_TORQUE_ENABLED: u8 = 1;

/// A motion is running.
pub const FLAG_MOTION_ACTIVE: u8 = 2;

/// What the drive reports in a cycle.
#[derive(Debug, Clone, Copy, PartialEq, Eq, Structural)]
pub struct DriveSample {
    pub target_counts: i32,
    pub position_demand: i32,
    pub position_actual: i32,
    pub following_error: i32,
    pub torque_actual: i16,
    pub statusword: u16,
    pub error_code: u16,
}

/// The record of a cycle.
#[derive(Debug, Clone, Copy, PartialEq, Eq, Structural)]
pub struct CaptureRecord {
    pub cycle_index: u64,
    pub flags: u8,
    pub drive: DriveSample,
}

/// What a capture is made with. `counts_per_mm` is the number in words.
#[derive(Debug)]
pub struct CaptureConfig {
    pub path: String,
    pub started_utc: String,
    pub drive_name: String,
    pub cycle_ns: i64,
    pub counts_per_mm: String,
    pub started_mono_ns: u64,
}

/// How a capture ended.
#[derive(Debug, Clone, Copy, PartialEq, Eq, Structural)]
pub struct StopOutcome {
    pub result: i32,
    pub samples: u64,
    pub overflow_cycle: Option<u64>,
}

/// The bytes of a record.
pub open spec fn record_bytes(r: CaptureRecord) -> Seq<u8> {
    le_bytes(r.cycle_index as int, 8) + seq![r.flags] + le_bytes(r.drive.target_counts as int, 4)
        + le_bytes(r.drive.position_demand as int, 4) + le_bytes(
        r.drive.position_actual as int,
        4,
    ) + le_bytes(r.drive.following_error as int, 4) + le_bytes(r.drive.torque_actual as int, 2)
        + le_bytes(r.drive.statusword as int, 2) + le_bytes(r.drive.error_code as int, 2)
}

/// The low bytes of a number depend on its remainder alone.
pub(crate) proof fn lemma_le_bytes_wrapped(v: int, w: int, n: nat)
    requires
        v == w || v == w + crate::bytes::le_limit(n),
    ensures
        le_bytes(v, n) == le_bytes(w, n),
    decreases n,
{
    if n > 0 {
        let m = (n - 1) as nat;
        let l = crate::bytes::le_limit(m);
        assert(crate::bytes::le_limit(n) == 256 * l);
        if v != w {
            assert(v % 256 == w % 256 && v / 256 == w / 256 + l) by (nonlinear_arith)
                requires
                    v == w + 256 * l,
            ;
        }
        lemma_le_bytes_wrapped(v / 256, w / 256, m);
    }
}

/// Appends the four bytes of a signed number.
fn push_i32(out: &mut Vec<u8>, v: i32)
    ensures
        final(out)@ == old(out)@ + le_bytes(v as int, 4),
{
    let bits: u64 = if v >= 0 {
        v as u64
    } else {
        (v as i64 + 0x1_0000_0000) as u64
    };
    proof {
        crate::bytes::lemma_limits();
        lemma_le_bytes_wrapped(bits as int, v as int, 4);
    }
    push_le(out, bits, 4);
}

/// Appends the two bytes of a signed number.
fn push_i16(out: &mut Vec<u8>, v: i16)
    ensures
        final(out)@ == old(out)@ + le_bytes(v as int, 2),
{
    let bits: u64 = if v >= 0 {
        v as u64
    } else {
        (v as i64 + 0x1_0000) as u64
    };
    proof {
        crate::bytes::lemma_limits();
        lemma_le_bytes_wrapped(bits as int, v as int, 2);
    }
    push_le(out, bits, 2);
}

/// The bytes of a record.
pub fn encode_record(r: &CaptureRecord) -> (b: Vec<u8>)
    ensures
        b@ == record_bytes(*r),
        b@.len() == RECORD_SIZE,
{
    let mut b: Vec<u8> = Vec::new();
    push_le(&mut b, r.cycle_index, 8);
    b.push(r.flags);
    push_i32(&mut b, r.drive.target_counts);
    push_i32(&mut b, r.drive.position_demand);
    push_i32(&mut b, r.drive.position_actual);
    push_i32(&mut b, r.drive.following_error);
    push_i16(&mut b, r.drive.torque_actual);
    push_le(&mut b, r.drive.statusword as u64, 2);
    push_le(&mut b, r.drive.error_code as u64, 2);
    proof {
        assert(b@ =~= record_bytes(*r));
        reveal_with_fuel(le_bytes, 9);
    }
    b
}

/// Whether a character can stand in a JSON text as it is.
pub open spec fn plain_char(c: char) -> bool {
    ' ' <= c <= '~' && c != '"' && c != '\\'
}

/// Whether every character of a text can stand in a JSON text as it is.
pub open spec fn plain_text(s: Seq<char>) -> bool {
    forall|i: int| 0 <= i < s.len() ==> plain_char(#[trigger] s[i])
}

/// Whether every character of a text can stand in a JSON text as it is.
fn json_string_safe(s: &str) -> (r: bool)
    ensures
        r == plain_text(s@),
{
    let cs: Vec<char> = chars_of(s);
    let mut i: usize = 0;
    while i < cs.len()
        invariant
            i <= cs@.len(),
            cs@ == s@,
            forall|j: int| 0 <= j < i ==> plain_char(#[trigger] cs@[j]),
        decreases cs@.len() - i,
    {
        let c: char = cs[i];
        if !(' ' <= c && c <= '~' && c != '"' && c != '\\') {
            proof {
                assert(!plain_char(s@[i as int]));
            }
            return false;
        }
        i += 1;
    }
    true
}

/// The header of a capture's file: what the capture is, and how a record is
/// laid out.
pub open spec fn header_text(
    cycle_ns: i64,
    started_utc: Seq<char>,
    started_mono_ns: u64,
    drive_name: Seq<char>,
    counts_per_mm: Seq<char>,
) -> Seq<char> {
    "{\"version\":1,\"cycle_ns\":"@ + decimal_int(cycle_ns as int)
        + ",\"record_size\":31,\"started_utc\":\""@ + started_utc + "\",\"started_mono_ns\":"@
        + decimal(started_mono_ns as nat) + ",\"drives\":[{\"name\":\""@ + drive_name
        + "\",\"counts_per_mm\":"@ + counts_per_mm + "}],\"channels\":["@
        + "{\"name\":\"cycle_index\",\"dtype\":\"u64\",\"offset\":0},"@
        + "{\"name\":\"flags\",\"dtype\":\"u8\",\"offset\":8},"@
        + "{\"name\":\"target_counts\",\"dtype\":\"i32\",\"offset\":9},"@
        + "{\"name\":\"position_demand\",\"dtype\":\"i32\",\"offset\":13},"@
        + "{\"name\":\"position_actual\",\"dtype\":\"i32\",\"offset\":17},"@
        + "{\"name\":\"following_error\",\"dtype\":\"i32\",\"offset\":21},"@
        + "{\"name\":\"torque_actual\",\"dtype\":\"i16\",\"offset\":25},"@
        + "{\"name\":\"statusword\",\"dtype\":\"u16\",\"offset\":27},"@
        + "{\"name\":\"error_code\",\"dtype\":\"u16\",\"offset\":29}"@ + "]}\n"@
}

/// The header of a capture's file.
pub fn header_json(cfg: &CaptureConfig) -> (r: String)
    ensures
        r@ == header_text(
            cfg.cycle_ns,
            cfg.started_utc@,
            cfg.started_mono_ns,
            cfg.drive_name@,
            cfg.counts_per_mm@,
        ),
{
    let mut s: String = copy_text("{\"version\":1,\"cycle_ns\":");
    push_decimal_int(&mut s, cfg.cycle_ns);
    s.append(",\"record_size\":31,\"started_utc\":\"");
    s.append(cfg.started_utc.as_str());
    s.append("\",\"started_mono_ns\":");
    push_decimal(&mut s, cfg.started_mono_ns);
    s.append(",\"drives\":[{\"name\":\"");
    s.append(cfg.drive_name.as_str());
    s.append("\",\"counts_per_mm\":");
    s.append(cfg.counts_per_mm.as_str());
    s.append("}],\"channels\":[");
    s.append("{\"name\":\"cycle_index\",\"dtype\":\"u64\",\"offset\":0},");
    s.append("{\"name\":\"flags\",\"dtype\":\"u8\",\"offset\":8},");
    s.append("{\"name\":\"target_counts\",\"dtype\":\"i32\",\"offset\":9},");
    s.append("{\"name\":\"position_demand\",\"dtype\":\"i32\",\"offset\":13},");
    s.append("{\"name\":\"position_actual\",\"dtype\":\"i32\",\"offset\":17},");
    s.append("{\"name\":\"following_error\",\"dtype\":\"i32\",\"offset\":21},");
    s.append("{\"name\":\"torque_actual\",\"dtype\":\"i16\",\"offset\":25},");
    s.append("{\"name\":\"statusword\",\"dtype\":\"u16\",\"offset\":27},");
    s.append("{\"name\":\"error_code\",\"dtype\":\"u16\",\"offset\":29}");
    s.append("]}\n");
    s
}

/// How handing a record to the writer went.
#[derive(Debug, Clone, Copy, PartialEq, Eq, Structural)]
pub enum Handed {
    Taken,
    /// Too many records wait.
    Full,
    /// The writer is gone.
    Gone,
}

/// A capture that may be running.
#[derive(Debug)]
pub struct Capture {
    capacity: usize,
    active: bool,
    failure: Option<(u64, i32)>,
}

/// Model of [`Capture`].
pub struct CaptureView {
    pub capacity: usize,
    pub active: bool,
    /// The cycle whose record was lost first, and why.
    pub failure: Option<(u64, i32)>,
}

impl View for Capture {
    type V = CaptureView;

    closed spec fn view(&self) -> CaptureView {
        CaptureView { capacity: self.capacity, active: self.active, failure: self.failure }
    }
}

/// Why a capture cannot start, zero where it can.
pub open spec fn refusal(v: CaptureView, drive_name: Seq<char>, started_utc: Seq<char>) -> i32 {
    if v.active {
        ERR_CAPTURE_ACTIVE
    } else if !plain_text(drive_name) || !plain_text(started_utc) {
        ERR_CAPTURE_BAD_ARG
    } else {
        0
    }
}

/// The capture after a record was offered to the writer: the first loss is
/// kept.
pub open spec fn after_push(v: CaptureView, cycle: u64, handed: Handed) -> CaptureView {
    if !v.active || v.failure is Some {
        v
    } else {
        match handed {
            Handed::Taken => v,
            Handed::Full => CaptureView { failure: Some((cycle, ERR_CAPTURE_OVERFLOW)), ..v },
            Handed::Gone => CaptureView { failure: Some((cycle, ERR_CAPTURE_FILE)), ..v },
        }
    }
}

/// The capture after it was ended.
pub open spec fn after_stop(v: CaptureView) -> CaptureView {
    if v.active {
        CaptureView { active: false, failure: None, ..v }
    } else {
        v
    }
}

impl Capture {
    /// No capture, with room for the usual number of waiting records.
    pub fn new() -> (c: Self)
        ensures
            c@ == (CaptureView { capacity: CAPTURE_RING_CAPACITY, active: false, failure: None }),
    {
        Capture::with_capacity(CAPTURE_RING_CAPACITY)
    }

    /// No capture, with room for that many waiting records.
    pub fn with_capacity(capacity: usize) -> (c: Self)
        ensures
            c@ == (CaptureView { capacity, active: false, failure: None }),
    {
        Capture { capacity, active: false, failure: None }
    }

    /// How many records may wait.
    pub fn capacity(&self) -> (n: usize)
        ensures
            n == self@.capacity,
    {
        self.capacity
    }

    /// Whether a capture is running.
    pub fn is_active(&self) -> (r: bool)
        ensures
            r == self@.active,
    {
        self.active
    }

    /// Why a capture cannot start, zero where it can. The owner opens the file
    /// only where it can.
    pub fn check_start(&self, cfg: &CaptureConfig) -> (r: i32)
        ensures
            r == refusal(self@, cfg.drive_name@, cfg.started_utc@),
    {
        if self.active {
            return ERR_CAPTURE_ACTIVE;
        }
        if !json_string_safe(cfg.drive_name.as_str()) || !json_string_safe(
            cfg.started_utc.as_str(),
        ) {
            return ERR_CAPTURE_BAD_ARG;
        }
        0
    }

    /// Starts a capture, where it can start and its file was made.
    pub fn start(&mut self, cfg: &CaptureConfig, file_made: bool) -> (r: i32)
        ensures
            r == if refusal(old(self)@, cfg.drive_name@, cfg.started_utc@) != 0 {
                refusal(old(self)@, cfg.drive_name@, cfg.started_utc@)
            } else if !file_made {
                ERR_CAPTURE_FILE
            } else {
                0
            },
            final(self)@ == if r == 0 {
                CaptureView { active: true, failure: None, ..old(self)@ }
            } else {
                old(self)@
            },
    {
        let why: i32 = self.check_start(cfg);
        if why != 0 {
            return why;
        }
        if !file_made {
            return ERR_CAPTURE_FILE;
        }
        self.active = true;
        self.failure = None;
        0
    }

    /// Whether the next record is to be offered to the writer.
    pub fn wants_records(&self) -> (r: bool)
        ensures
            r == (self@.active && self@.failure is None),
    {
        self.active && self.failure.is_none()
    }

    /// A record was offered to the writer.
    pub fn push(&mut self, record: &CaptureRecord, handed: Handed)
        ensures
            final(self)@ == after_push(old(self)@, record.cycle_index, handed),
    {
        if !self.active || self.failure.is_some() {
            return;
        }
        match handed {
            Handed::Taken => {},
            Handed::Full => {
                self.failure = Some((record.cycle_index, ERR_CAPTURE_OVERFLOW));
            },
            Handed::Gone => {
                self.failure = Some((record.cycle_index, ERR_CAPTURE_FILE));
            },
        }
    }

    /// Ends the capture. Where none is running the outcome is there at once;
    /// otherwise it comes when the writer has ended.
    pub fn stop_async(&mut self) -> (p: PendingStop)
        ensures
            final(self)@ == after_stop(old(self)@),
            p@ == if old(self)@.active {
                PendingView { failure: old(self)@.failure, outcome: None, taken: false }
            } else {
                PendingView {
                    failure: None,
                    outcome: Some(
                        StopOutcome {
                            result: ERR_CAPTURE_NOT_ACTIVE,
                            samples: 0,
                            overflow_cycle: None,
                        },
                    ),
                    taken: false,
                }
            },
    {
        if !self.active {
            return PendingStop {
                failure: None,
                outcome: Some(
                    StopOutcome { result: ERR_CAPTURE_NOT_ACTIVE, samples: 0, overflow_cycle: None },
                ),
                taken: false,
            };
        }
        self.active = false;
        let failure = self.failure;
        self.failure = None;
        PendingStop { failure, outcome: None, taken: false }
    }

    /// Ends the capture and waits: what the writer wrote, and whether the file
    /// of a failed capture could be renamed.
    pub fn stop(&mut self, written: Result<u64, u64>, renamed: bool) -> (r: StopOutcome)
        ensures
            r == if old(self)@.active {
                settled(old(self)@.failure, written, renamed)
            } else {
                StopOutcome { result: ERR_CAPTURE_NOT_ACTIVE, samples: 0, overflow_cycle: None }
            },
            final(self)@ == after_stop(old(self)@),
    {
        let mut p: PendingStop = self.stop_async();
        p.finish(written, renamed);
        p.wait()
    }
}

impl Default for Capture {
    fn default() -> (c: Self)
        ensures
            c@ == (CaptureView { capacity: CAPTURE_RING_CAPACITY, active: false, failure: None }),
    {
        Capture::new()
    }
}

/// The result before the file of a failed capture is renamed.
pub open spec fn written_result(failure: Option<(u64, i32)>, written: Result<u64, u64>) -> i32 {
    match failure {
        Some(f) => if f.1 == 0 && written is Err {
            ERR_CAPTURE_FILE
        } else {
            f.1
        },
        None => if written is Err {
            ERR_CAPTURE_FILE
        } else {
            0
        },
    }
}

/// How a capture ended: a record that was lost or a failure of the writer
/// makes it a failed one, whose file is renamed.
pub open spec fn settled(
    failure: Option<(u64, i32)>,
    written: Result<u64, u64>,
    renamed: bool,
) -> StopOutcome {
    let result = written_result(failure, written);
    StopOutcome {
        result: if result != 0 && !renamed {
            ERR_CAPTURE_FILE
        } else {
            result
        },
        samples: match written {
            Ok(n) => n,
            Err(n) => n,
        },
        overflow_cycle: match failure {
            Some(f) => Some(f.0),
            None => None,
        },
    }
}

/// The outcome of a capture that is ending.
#[derive(Debug)]
pub struct PendingStop {
    failure: Option<(u64, i32)>,
    outcome: Option<StopOutcome>,
    taken: bool,
}

/// Model of [`PendingStop`].
pub struct PendingView {
    pub failure: Option<(u64, i32)>,
    pub outcome: Option<StopOutcome>,
    /// Whether the outcome was handed out.
    pub taken: bool,
}

impl View for PendingStop {
    type V = PendingView;

    closed spec fn view(&self) -> PendingView {
        PendingView { failure: self.failure, outcome: self.outcome, taken: self.taken }
    }
}

impl PendingStop {
    /// Whether the file is to be renamed, given what the writer wrote.
    pub fn is_failed(&self, written: Result<u64, u64>) -> (r: bool)
        ensures
            r == (written_result(self@.failure, written) != 0),
    {
        match self.failure {
            Some(f) => f.1 != 0 || written.is_err(),
            None => written.is_err(),
        }
    }

    /// The writer has ended.
    pub fn finish(&mut self, written: Result<u64, u64>, renamed: bool)
        ensures
            final(self)@ == if old(self)@.outcome is None {
                PendingView {
                    outcome: Some(settled(old(self)@.failure, written, renamed)),
                    ..old(self)@
                }
            } else {
                old(self)@
            },
    {
        if self.outcome.is_some() {
            return;
        }
        let failed: bool = self.is_failed(written);
        let mut result: i32 = match self.failure {
            Some(f) => f.1,
            None => 0,
        };
        let overflow_cycle: Option<u64> = match self.failure {
            Some(f) => Some(f.0),
            None => None,
        };
        let samples: u64 = match written {
            Ok(n) => n,
            Err(n) => {
                if result == 0 {
                    result = ERR_CAPTURE_FILE;
                }
                n
            },
        };
        if failed && !renamed {
            result = ERR_CAPTURE_FILE;
        }
        self.outcome = Some(StopOutcome { result, samples, overflow_cycle });
    }

    /// The outcome, once, when it is there.
    pub fn try_take(&mut self) -> (r: Option<StopOutcome>)
        ensures
            r == if old(self)@.taken {
                None
            } else {
                old(self)@.outcome
            },
            final(self)@ == if r is Some {
                PendingView { taken: true, ..old(self)@ }
            } else {
                old(self)@
            },
    {
        if self.taken {
            return None;
        }
        match self.outcome {
            Some(o) => {
                self.taken = true;
                Some(o)
            },
            None => None,
        }
    }

    /// The outcome, which is there.
    pub fn wait(self) -> (r: StopOutcome)
        requires
            self@.outcome is Some,
        ensures
            Some(r) == self@.outcome,
    {
        match self.outcome {
            Some(o) => o,
            None => StopOutcome { result: ERR_CAPTURE_NOT_ACTIVE, samples: 0, overflow_cycle: None },
        }
    }
}

/// The first loss decides: what is offered later changes nothing.
pub proof fn law_first_loss_stays(v: CaptureView, c1: u64, h1: Handed, c2: u64, h2: Handed)
    requires
        v.active,
        v.failure is None,
        h1 != Handed::Taken,
    ensures
        after_push(after_push(v, c1, h1), c2, h2) == after_push(v, c1, h1),
        after_push(v, c1, h1).failure matches Some(f) && f.0 == c1,
{
}

/// A capture ends well exactly when no record was lost and the writer wrote
/// everything; its samples are the records that were written either way.
pub proof fn law_clean_capture(failure: Option<(u64, i32)>, written: Result<u64, u64>, renamed: bool)
    requires
        failure matches Some(f) ==> f.1 != 0,
    ensures
        settled(failure, written, renamed).result == 0 <==> failure is None && written is Ok,
{
}

} // verus!

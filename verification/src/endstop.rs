//! Arming and disarming of endstops, and the events of their trips.

use crate::bytes::{le_bytes, le_value, push_le, read_le};
use crate::host_io::codec::{FieldValue, FieldValueView};
use crate::host_io::enums::{low_i32, to_i32};
use crate::host_io::parse_error::{around, enclose, number_text};
use crate::text::{copy_text, decimal, decimal_int, push_decimal};
use crate::transport::{
    param_bytes, param_u32, transport_error_text, MessageParams, ParamsView, Transport,
    TransportError, TransportErrorView,
};
use vstd::prelude::*;

verus! {

/// The bytes of a source.
pub const SOURCE_RECORD_LEN: usize = 11;

/// The bytes of a stepper.
pub const STEPPER_RECORD_LEN: usize = 1;

/// How many sources one arming takes.
pub const MAX_SOURCES: usize = 4;

/// How many steppers one arming takes.
pub const MAX_STEPPERS: usize = 8;

/// The version of trip events with whole step counts.
pub const FMT_VERSION_V1: u8 = 1;

/// How long an arming waits, in nanoseconds.
pub const DEFAULT_ARM_TIMEOUT: u64 = 100_000_000;

/// How long a disarming waits, in nanoseconds.
pub const DEFAULT_DISARM_TIMEOUT: u64 = 100_000_000;

/// Where a trip signal comes from.
#[derive(Debug, Clone, Copy, PartialEq, Eq, Structural)]
pub enum SourceKind {
    Physical,
    TmcDiag,
}

/// What happens when the signal is there already.
#[derive(Debug, Clone, Copy, PartialEq, Eq, Structural)]
pub enum ArmPolicy {
    TripImmediately,
    WaitForClear,
    IgnoreUntilMoving,
}

/// A source of trips. The bits of `velocity_axis` are the axes.
#[derive(Debug, Clone, Copy, PartialEq, Eq, Structural)]
pub struct SourceSpec {
    pub kind: SourceKind,
    pub gpio: u16,
    pub active_high: bool,
    pub policy: ArmPolicy,
    pub sample_n: u8,
    pub velocity_axis: u8,
    pub v_min_q16: u32,
}

/// The answer to an arming.
#[derive(Debug, Clone, Copy, PartialEq, Eq, Structural)]
pub enum ArmStatus {
    Armed,
    AlreadyTripped,
    Rejected,
}

/// The status with a number.
pub open spec fn arm_status(v: u8) -> Option<ArmStatus> {
    if v == 0 {
        Some(ArmStatus::Armed)
    } else if v == 1 {
        Some(ArmStatus::AlreadyTripped)
    } else if v == 2 {
        Some(ArmStatus::Rejected)
    } else {
        None
    }
}

impl ArmStatus {
    /// The status with a number.
    pub fn from_u8(v: u8) -> (r: Option<Self>)
        ensures
            r == arm_status(v),
    {
        match v {
            0 => Some(ArmStatus::Armed),
            1 => Some(ArmStatus::AlreadyTripped),
            2 => Some(ArmStatus::Rejected),
            _ => None,
        }
    }
}

/// The answer to a disarming.
#[derive(Debug, Clone, Copy, PartialEq, Eq, Structural)]
pub enum DisarmStatus {
    Disarmed,
    AlreadyTripped,
    Unknown,
}

/// The status with a number.
pub open spec fn disarm_status(v: u8) -> Option<DisarmStatus> {
    if v == 0 {
        Some(DisarmStatus::Disarmed)
    } else if v == 1 {
        Some(DisarmStatus::AlreadyTripped)
    } else if v == 2 {
        Some(DisarmStatus::Unknown)
    } else {
        None
    }
}

impl DisarmStatus {
    /// The status with a number.
    pub fn from_u8(v: u8) -> (r: Option<Self>)
        ensures
            r == disarm_status(v),
    {
        match v {
            0 => Some(DisarmStatus::Disarmed),
            1 => Some(DisarmStatus::AlreadyTripped),
            2 => Some(DisarmStatus::Unknown),
            _ => None,
        }
    }
}

/// Why an endstop command or event failed.
#[derive(Debug)]
pub enum EndstopError {
    Transport(TransportError),
    McuRejected(i32),
    MissingField(&'static str),
    InvalidStatus(u8),
    MalformedTripEvent(&'static str),
    TooManySources(usize),
    TooManySteppers(usize),
    UnsupportedFmtVersion(u8),
}

/// Model of [`EndstopError`].
pub enum EndstopErrorView {
    Transport(TransportErrorView),
    McuRejected(i32),
    MissingField(Seq<char>),
    InvalidStatus(u8),
    MalformedTripEvent(Seq<char>),
    TooManySources(usize),
    TooManySteppers(usize),
    UnsupportedFmtVersion(u8),
}

impl View for EndstopError {
    type V = EndstopErrorView;

    open spec fn view(&self) -> EndstopErrorView {
        match self {
            EndstopError::Transport(e) => EndstopErrorView::Transport(e@),
            EndstopError::McuRejected(r) => EndstopErrorView::McuRejected(*r),
            EndstopError::MissingField(s) => EndstopErrorView::MissingField(s@),
            EndstopError::InvalidStatus(b) => EndstopErrorView::InvalidStatus(*b),
            EndstopError::MalformedTripEvent(s) => EndstopErrorView::MalformedTripEvent(s@),
            EndstopError::TooManySources(n) => EndstopErrorView::TooManySources(*n),
            EndstopError::TooManySteppers(n) => EndstopErrorView::TooManySteppers(*n),
            EndstopError::UnsupportedFmtVersion(v) => EndstopErrorView::UnsupportedFmtVersion(*v),
        }
    }
}

/// An endstop error in words.
pub open spec fn endstop_error_text(e: EndstopErrorView) -> Seq<char> {
    match e {
        EndstopErrorView::Transport(t) => around(
            "transport error: "@,
            transport_error_text(t),
            ""@,
        ),
        EndstopErrorView::McuRejected(r) => around(
            "MCU rejected command (result="@,
            decimal_int(r as int),
            ")"@,
        ),
        EndstopErrorView::MissingField(s) => around("response missing field: "@, s, ""@),
        EndstopErrorView::InvalidStatus(b) => around(
            "invalid status byte: "@,
            decimal_int(b as int),
            ""@,
        ),
        EndstopErrorView::MalformedTripEvent(s) => around(
            "malformed trip-event payload: "@,
            s,
            ""@,
        ),
        EndstopErrorView::TooManySources(n) => around(
            "too many sources ("@,
            decimal(n as nat),
            " > 4 max)"@,
        ),
        EndstopErrorView::TooManySteppers(n) => around(
            "too many steppers ("@,
            decimal(n as nat),
            " > 8 max)"@,
        ),
        EndstopErrorView::UnsupportedFmtVersion(v) => around(
            "unsupported trip-event fmt_version: "@,
            decimal_int(v as int),
            ""@,
        ),
    }
}

/// A count in decimal digits.
fn count_text(n: usize) -> (r: String)
    ensures
        r@ == decimal(n as nat),
{
    let mut s: String = String::new();
    push_decimal(&mut s, n as u64);
    proof {
        assert(s@ =~= decimal(n as nat));
    }
    s
}

impl EndstopError {
    /// The error in words.
    pub fn to_text(&self) -> (r: String)
        ensures
            r@ == endstop_error_text(self@),
    {
        match self {
            EndstopError::Transport(e) => enclose("transport error: ", e.to_text(), ""),
            EndstopError::McuRejected(r) => enclose(
                "MCU rejected command (result=",
                number_text(*r as i64),
                ")",
            ),
            EndstopError::MissingField(s) => enclose("response missing field: ", copy_text(s), ""),
            EndstopError::InvalidStatus(b) => enclose(
                "invalid status byte: ",
                number_text(*b as i64),
                "",
            ),
            EndstopError::MalformedTripEvent(s) => enclose(
                "malformed trip-event payload: ",
                copy_text(s),
                "",
            ),
            EndstopError::TooManySources(n) => enclose(
                "too many sources (",
                count_text(*n),
                " > 4 max)",
            ),
            EndstopError::TooManySteppers(n) => enclose(
                "too many steppers (",
                count_text(*n),
                " > 8 max)",
            ),
            EndstopError::UnsupportedFmtVersion(v) => enclose(
                "unsupported trip-event fmt_version: ",
                number_text(*v as i64),
                "",
            ),
        }
    }
}

/// The bytes of a source.
pub open spec fn source_bytes(s: SourceSpec) -> Seq<u8> {
    seq![
        if s.kind == SourceKind::Physical {
            0u8
        } else {
            1u8
        },
    ] + le_bytes(s.gpio as int, 2) + seq![
        if s.active_high {
            1u8
        } else {
            0u8
        },
        match s.policy {
            ArmPolicy::TripImmediately => 0u8,
            ArmPolicy::WaitForClear => 1u8,
            ArmPolicy::IgnoreUntilMoving => 2u8,
        },
        s.sample_n,
        s.velocity_axis,
    ] + le_bytes(s.v_min_q16 as int, 4)
}

/// The bytes of all sources.
pub open spec fn sources_bytes(s: Seq<SourceSpec>) -> Seq<u8>
    decreases s.len(),
{
    if s.len() == 0 {
        Seq::empty()
    } else {
        sources_bytes(s.drop_last()) + source_bytes(s.last())
    }
}

/// Encodes the sources.
pub fn encode_sources(sources: &[SourceSpec]) -> (r: Result<Vec<u8>, EndstopError>)
    ensures
        match r {
            Ok(b) => sources@.len() <= MAX_SOURCES && b@ == sources_bytes(sources@),
            Err(e) => sources@.len() > MAX_SOURCES && e@ == EndstopErrorView::TooManySources(
                sources@.len() as usize,
            ),
        },
{
    if sources.len() > MAX_SOURCES {
        return Err(EndstopError::TooManySources(sources.len()));
    }
    let mut buf: Vec<u8> = Vec::new();
    let mut i: usize = 0;
    while i < sources.len()
        invariant
            i <= sources@.len(),
            buf@ == sources_bytes(sources@.take(i as int)),
        decreases sources@.len() - i,
    {
        let s: SourceSpec = sources[i];
        let ghost was = buf@;
        buf.push(
            match s.kind {
                SourceKind::Physical => 0u8,
                SourceKind::TmcDiag => 1u8,
            },
        );
        push_le(&mut buf, s.gpio as u64, 2);
        buf.push(
            if s.active_high {
                1u8
            } else {
                0u8
            },
        );
        buf.push(
            match s.policy {
                ArmPolicy::TripImmediately => 0u8,
                ArmPolicy::WaitForClear => 1u8,
                ArmPolicy::IgnoreUntilMoving => 2u8,
            },
        );
        buf.push(s.sample_n);
        buf.push(s.velocity_axis);
        push_le(&mut buf, s.v_min_q16 as u64, 4);
        proof {
            assert(buf@ =~= was + source_bytes(s));
            assert(sources@.take(i + 1).drop_last() =~= sources@.take(i as int));
            assert(sources@.take(i + 1).last() == s);
        }
        i += 1;
    }
    proof {
        assert(sources@.take(sources@.len() as int) =~= sources@);
    }
    Ok(buf)
}

/// Each source takes the same number of bytes.
pub proof fn law_source_record_len(s: Seq<SourceSpec>)
    ensures
        sources_bytes(s).len() == s.len() * SOURCE_RECORD_LEN,
    decreases s.len(),
{
    reveal_with_fuel(le_bytes, 5);
    if s.len() > 0 {
        law_source_record_len(s.drop_last());
    }
}

/// Encodes the steppers, one byte each.
pub fn encode_steppers(stepper_oids: &[u8]) -> (r: Result<Vec<u8>, EndstopError>)
    ensures
        match r {
            Ok(b) => stepper_oids@.len() <= MAX_STEPPERS && b@ == stepper_oids@,
            Err(e) => stepper_oids@.len() > MAX_STEPPERS && e@
                == EndstopErrorView::TooManySteppers(stepper_oids@.len() as usize),
        },
{
    if stepper_oids.len() > MAX_STEPPERS {
        return Err(EndstopError::TooManySteppers(stepper_oids.len()));
    }
    Ok(vstd::slice::slice_to_vec(stepper_oids))
}

/// Where one stepper stood at a trip.
#[derive(Debug, Clone, Copy, PartialEq, Eq, Structural)]
pub struct TripStepperRecord {
    pub oid: u8,
    pub step_count: i32,
}

/// A trip, with whole step counts.
#[derive(Debug)]
pub struct TripEventV1 {
    pub arm_id: u32,
    pub trip_clock: u64,
    pub trip_source_idx: u8,
    pub steppers: Vec<TripStepperRecord>,
}

/// Model of [`TripEventV1`].
#[verifier::ext_equal]
pub struct TripEventView {
    pub arm_id: u32,
    pub trip_clock: u64,
    pub trip_source_idx: u8,
    pub steppers: Seq<TripStepperRecord>,
}

impl View for TripEventV1 {
    type V = TripEventView;

    open spec fn view(&self) -> TripEventView {
        TripEventView {
            arm_id: self.arm_id,
            trip_clock: self.trip_clock,
            trip_source_idx: self.trip_source_idx,
            steppers: self.steppers@,
        }
    }
}

/// The low byte of a number.
pub open spec fn low_byte(v: u32) -> u8 {
    (v % 256) as u8
}

/// Two halves of a clock, put together.
pub open spec fn clock_of(lo: u32, hi: u32) -> u64 {
    (hi * 0x1_0000_0000 + lo) as u64
}

/// The stepper at a place of the stepper data.
pub open spec fn stepper_at(blob: Seq<u8>, i: int) -> TripStepperRecord {
    TripStepperRecord {
        oid: blob[5 * i],
        step_count: low_i32(le_value(blob.subrange(5 * i + 1, 5 * i + 5))) as i32,
    }
}

/// A field that must be there.
pub open spec fn needed(p: ParamsView, name: Seq<char>) -> Result<u32, EndstopErrorView> {
    match param_u32(p, name) {
        Some(v) => Ok(v),
        None => Err(EndstopErrorView::MissingField(name)),
    }
}

/// The steppers of a trip: five bytes each.
pub open spec fn trip_steppers(p: ParamsView) -> Result<
    Seq<TripStepperRecord>,
    EndstopErrorView,
> {
    match needed(p, "stepper_count"@) {
        Err(e) => Err(e),
        Ok(n) => match param_bytes(p, "stepper_data"@) {
            None => Err(EndstopErrorView::MissingField("stepper_data"@)),
            Some(blob) => if blob.len() != low_byte(n) * 5 {
                Err(EndstopErrorView::MalformedTripEvent("stepper_data length mismatch"@))
            } else {
                Ok(Seq::new(low_byte(n) as nat, |i: int| stepper_at(blob, i)))
            },
        },
    }
}

/// The trip that the fields of an event hold; the first field that is missing
/// or wrong gives the error.
pub open spec fn trip_of(p: ParamsView) -> Result<TripEventView, EndstopErrorView> {
    match needed(p, "arm_id"@) {
        Err(e) => Err(e),
        Ok(arm_id) => match needed(p, "trip_clock_lo"@) {
            Err(e) => Err(e),
            Ok(lo) => match needed(p, "trip_clock_hi"@) {
                Err(e) => Err(e),
                Ok(hi) => match needed(p, "trip_source_idx"@) {
                    Err(e) => Err(e),
                    Ok(idx) => match needed(p, "fmt_version"@) {
                        Err(e) => Err(e),
                        Ok(v) => if low_byte(v) != FMT_VERSION_V1 {
                            Err(EndstopErrorView::UnsupportedFmtVersion(low_byte(v)))
                        } else {
                            match trip_steppers(p) {
                                Err(e) => Err(e),
                                Ok(steppers) => Ok(
                                    TripEventView {
                                        arm_id,
                                        trip_clock: clock_of(lo, hi),
                                        trip_source_idx: low_byte(idx),
                                        steppers,
                                    },
                                ),
                            }
                        },
                    },
                },
            },
        },
    }
}

/// The low byte of a number.
pub fn to_byte(v: u32) -> (r: u8)
    ensures
        r == low_byte(v),
{
    (v % 256) as u8
}

/// Puts two halves of a clock together.
pub fn join_clock(lo: u32, hi: u32) -> (r: u64)
    ensures
        r == clock_of(lo, hi),
{
    (hi as u64) * 0x1_0000_0000 + lo as u64
}

/// Reads a field that must be there.
fn need(params: &MessageParams, name: &'static str) -> (r: Result<u32, EndstopError>)
    ensures
        match r {
            Ok(v) => needed(params@, name@) == Ok::<_, EndstopErrorView>(v),
            Err(e) => needed(params@, name@) == Err::<u32, _>(e@),
        },
{
    match params.try_get_u32(name) {
        Some(v) => Ok(v),
        None => Err(EndstopError::MissingField(name)),
    }
}

/// Reads the steppers of a trip.
fn decode_steppers(params: &MessageParams) -> (r: Result<Vec<TripStepperRecord>, EndstopError>)
    ensures
        match r {
            Ok(v) => trip_steppers(params@) == Ok::<_, EndstopErrorView>(v@),
            Err(e) => trip_steppers(params@) == Err::<Seq<TripStepperRecord>, _>(e@),
        },
{
    let count: u32 = match need(params, "stepper_count") {
        Ok(n) => n,
        Err(e) => return Err(e),
    };
    let n: usize = to_byte(count) as usize;
    let blob: &Vec<u8> = match params.get_bytes("stepper_data") {
        Some(b) => b,
        None => return Err(EndstopError::MissingField("stepper_data")),
    };
    if blob.len() != n * 5 {
        return Err(EndstopError::MalformedTripEvent("stepper_data length mismatch"));
    }
    let mut out: Vec<TripStepperRecord> = Vec::new();
    let mut i: usize = 0;
    while i < n
        invariant
            i <= n,
            n <= 255,
            blob@.len() == n * 5,
            i == out@.len(),
            forall|j: int| 0 <= j < i ==> #[trigger] out@[j] == stepper_at(blob@, j),
        decreases n - i,
    {
        let v: u64 = read_le(blob.as_slice(), 5 * i + 1, 4);
        proof {
            assert(blob@.subrange(5 * i + 1, 5 * i + 1 + 4) =~= blob@.subrange(
                5 * i + 1,
                5 * i + 5,
            ));
            reveal_with_fuel(crate::bytes::le_limit, 5);
        }
        out.push(TripStepperRecord { oid: blob[5 * i], step_count: to_i32(v as i64) });
        i += 1;
    }
    proof {
        assert(out@ =~= Seq::new(n as nat, |i: int| stepper_at(blob@, i)));
    }
    Ok(out)
}

/// Reads a trip event.
pub fn decode_trip_event(params: &MessageParams) -> (r: Result<TripEventV1, EndstopError>)
    ensures
        match r {
            Ok(t) => trip_of(params@) == Ok::<_, EndstopErrorView>(t@),
            Err(e) => trip_of(params@) == Err::<TripEventView, _>(e@),
        },
{
    let arm_id: u32 = match need(params, "arm_id") {
        Ok(v) => v,
        Err(e) => return Err(e),
    };
    let lo: u32 = match need(params, "trip_clock_lo") {
        Ok(v) => v,
        Err(e) => return Err(e),
    };
    let hi: u32 = match need(params, "trip_clock_hi") {
        Ok(v) => v,
        Err(e) => return Err(e),
    };
    let idx: u32 = match need(params, "trip_source_idx") {
        Ok(v) => v,
        Err(e) => return Err(e),
    };
    let version: u32 = match need(params, "fmt_version") {
        Ok(v) => v,
        Err(e) => return Err(e),
    };
    if to_byte(version) != FMT_VERSION_V1 {
        return Err(EndstopError::UnsupportedFmtVersion(to_byte(version)));
    }
    match decode_steppers(params) {
        Err(e) => Err(e),
        Ok(steppers) => Ok(
            TripEventV1 {
                arm_id,
                trip_clock: join_clock(lo, hi),
                trip_source_idx: to_byte(idx),
                steppers,
            },
        ),
    }
}

/// The status byte of a response.
pub open spec fn status_byte(p: ParamsView) -> Result<u8, EndstopErrorView> {
    match needed(p, "status"@) {
        Ok(v) => Ok(low_byte(v)),
        Err(e) => Err(e),
    }
}

/// The answer to an arming that a response holds.
pub fn arm_answer(resp: &MessageParams) -> (r: Result<ArmStatus, EndstopError>)
    ensures
        match r {
            Ok(s) => status_byte(resp@) matches Ok(b) && arm_status(b) == Some(s),
            Err(e) => match status_byte(resp@) {
                Ok(b) => arm_status(b) is None && e@ == EndstopErrorView::InvalidStatus(b),
                Err(m) => e@ == m,
            },
        },
{
    match need(resp, "status") {
        Err(e) => Err(e),
        Ok(v) => match ArmStatus::from_u8(to_byte(v)) {
            Some(s) => Ok(s),
            None => Err(EndstopError::InvalidStatus(to_byte(v))),
        },
    }
}

/// The answer to a disarming that a response holds.
pub fn disarm_answer(resp: &MessageParams) -> (r: Result<DisarmStatus, EndstopError>)
    ensures
        match r {
            Ok(s) => status_byte(resp@) matches Ok(b) && disarm_status(b) == Some(s),
            Err(e) => match status_byte(resp@) {
                Ok(b) => disarm_status(b) is None && e@ == EndstopErrorView::InvalidStatus(b),
                Err(m) => e@ == m,
            },
        },
{
    match need(resp, "status") {
        Err(e) => Err(e),
        Ok(v) => match DisarmStatus::from_u8(to_byte(v)) {
            Some(s) => Ok(s),
            None => Err(EndstopError::InvalidStatus(to_byte(v))),
        },
    }
}

/// Typed arguments, as models.
pub open spec fn arg_views<'a>(args: Seq<(&'a str, FieldValue<'a>)>) -> Seq<
    (Seq<char>, FieldValueView),
> {
    Seq::new(args.len(), |i: int| (args[i].0@, args[i].1@))
}

/// Whether a transport, asked to send a command with given values and to wait
/// for a response, may reply so.
pub open spec fn replies<'a, T: Transport>(
    io: &T,
    name: Seq<char>,
    args: Seq<(Seq<char>, FieldValueView)>,
    response: Seq<char>,
    timeout: u64,
    reply: Result<MessageParams, TransportError>,
) -> bool {
    exists|n: &'a str, a: &'a [(&'a str, FieldValue<'a>)], w: &'a str|
        #![trigger n@, a@, w@]
        call_ensures(T::call_typed, (io, n, a, w, timeout), reply) && n@ == name && arg_views(a@)
            == args && w@ == response
}

/// The values of an arming.
pub open spec fn arm_args(
    arm_id: u32,
    arm_clock: u64,
    sources: Seq<SourceSpec>,
    stepper_oids: Seq<u8>,
) -> Seq<(Seq<char>, FieldValueView)> {
    seq![
        ("arm_id"@, FieldValueView::U32(arm_id)),
        ("arm_clock_lo"@, FieldValueView::U32((arm_clock % 0x1_0000_0000) as u32)),
        ("arm_clock_hi"@, FieldValueView::U32((arm_clock / 0x1_0000_0000) as u32)),
        ("source_count"@, FieldValueView::Byte(sources.len() as u8)),
        ("sources"@, FieldValueView::Buffer(sources_bytes(sources))),
        ("stepper_count"@, FieldValueView::Byte(stepper_oids.len() as u8)),
        ("steppers"@, FieldValueView::Buffer(stepper_oids)),
    ]
}

/// What an arming returns for a reply.
pub open spec fn armed_by(
    r: Result<ArmStatus, EndstopError>,
    reply: Result<MessageParams, TransportError>,
) -> bool {
    match reply {
        Err(t) => r matches Err(e) && e@ == EndstopErrorView::Transport(t@),
        Ok(p) => match status_byte(p@) {
            Err(m) => r matches Err(e) && e@ == m,
            Ok(b) => match arm_status(b) {
                Some(s) => r == Ok::<_, EndstopError>(s),
                None => r matches Err(e) && e@ == EndstopErrorView::InvalidStatus(b),
            },
        },
    }
}

/// What a disarming returns for a reply.
pub open spec fn disarmed_by(
    r: Result<DisarmStatus, EndstopError>,
    reply: Result<MessageParams, TransportError>,
) -> bool {
    match reply {
        Err(t) => r matches Err(e) && e@ == EndstopErrorView::Transport(t@),
        Ok(p) => match status_byte(p@) {
            Err(m) => r matches Err(e) && e@ == m,
            Ok(b) => match disarm_status(b) {
                Some(s) => r == Ok::<_, EndstopError>(s),
                None => r matches Err(e) && e@ == EndstopErrorView::InvalidStatus(b),
            },
        },
    }
}

/// What an arming returns: an error if there are too many sources, else if
/// there are too many steppers, else what the reply gives.
pub open spec fn armed<T: Transport>(
    io: &T,
    arm_id: u32,
    arm_clock: u64,
    sources: Seq<SourceSpec>,
    stepper_oids: Seq<u8>,
    timeout: u64,
    r: Result<ArmStatus, EndstopError>,
) -> bool {
    if sources.len() > MAX_SOURCES {
        r matches Err(e) && e@ == EndstopErrorView::TooManySources(sources.len() as usize)
    } else if stepper_oids.len() > MAX_STEPPERS {
        r matches Err(e) && e@ == EndstopErrorView::TooManySteppers(stepper_oids.len() as usize)
    } else {
        exists|reply: Result<MessageParams, TransportError>| #[trigger]
            replies(
                io,
                "kalico_arm_endstop"@,
                arm_args(arm_id, arm_clock, sources, stepper_oids),
                "kalico_arm_endstop_response"@,
                timeout,
                reply,
            ) && armed_by(r, reply)
    }
}

/// Arms the endstops and waits for the answer, at most `timeout` nanoseconds.
pub fn arm_endstop_with_timeout<T: Transport>(
    io: &T,
    arm_id: u32,
    arm_clock: u64,
    sources: &[SourceSpec],
    stepper_oids: &[u8],
    timeout: u64,
) -> (r: Result<ArmStatus, EndstopError>)
    ensures
        armed(io, arm_id, arm_clock, sources@, stepper_oids@, timeout, r),
{
    let sources_buf: Vec<u8> = match encode_sources(sources) {
        Ok(b) => b,
        Err(e) => return Err(e),
    };
    let steppers_buf: Vec<u8> = match encode_steppers(stepper_oids) {
        Ok(b) => b,
        Err(e) => return Err(e),
    };
    let name: &str = "kalico_arm_endstop";
    let response: &str = "kalico_arm_endstop_response";
    let args: [(&str, FieldValue<'_>); 7] = [
        ("arm_id", FieldValue::U32(arm_id)),
        ("arm_clock_lo", FieldValue::U32((arm_clock % 0x1_0000_0000) as u32)),
        ("arm_clock_hi", FieldValue::U32((arm_clock / 0x1_0000_0000) as u32)),
        ("source_count", FieldValue::Byte(sources.len() as u8)),
        ("sources", FieldValue::Buffer(sources_buf.as_slice())),
        ("stepper_count", FieldValue::Byte(stepper_oids.len() as u8)),
        ("steppers", FieldValue::Buffer(steppers_buf.as_slice())),
    ];
    let list: &[(&str, FieldValue<'_>)] = args.as_slice();
    let reply: Result<MessageParams, TransportError> = io.call_typed(
        name,
        list,
        response,
        timeout,
    );
    proof {
        assert(arg_views(list@) =~= arm_args(arm_id, arm_clock, sources@, stepper_oids@));
        assert(replies(
            io,
            name@,
            arm_args(arm_id, arm_clock, sources@, stepper_oids@),
            response@,
            timeout,
            reply,
        ));
    }
    match reply {
        Err(t) => Err(EndstopError::Transport(t)),
        Ok(p) => arm_answer(&p),
    }
}

/// Arms the endstops and waits for the answer.
pub fn arm_endstop<T: Transport>(
    io: &T,
    arm_id: u32,
    arm_clock: u64,
    sources: &[SourceSpec],
    stepper_oids: &[u8],
) -> (r: Result<ArmStatus, EndstopError>)
    ensures
        armed(io, arm_id, arm_clock, sources@, stepper_oids@, DEFAULT_ARM_TIMEOUT, r),
{
    arm_endstop_with_timeout(io, arm_id, arm_clock, sources, stepper_oids, DEFAULT_ARM_TIMEOUT)
}

/// What a disarming returns: what the reply gives.
pub open spec fn disarmed<T: Transport>(
    io: &T,
    arm_id: u32,
    timeout: u64,
    r: Result<DisarmStatus, EndstopError>,
) -> bool {
    exists|reply: Result<MessageParams, TransportError>| #[trigger]
        replies(
            io,
            "kalico_disarm_endstop"@,
            seq![("arm_id"@, FieldValueView::U32(arm_id))],
            "kalico_disarm_endstop_response"@,
            timeout,
            reply,
        ) && disarmed_by(r, reply)
}

/// Disarms and waits for the answer, at most `timeout` nanoseconds.
pub fn disarm_endstop_with_timeout<T: Transport>(io: &T, arm_id: u32, timeout: u64) -> (r: Result<
    DisarmStatus,
    EndstopError,
>)
    ensures
        disarmed(io, arm_id, timeout, r),
{
    let name: &str = "kalico_disarm_endstop";
    let response: &str = "kalico_disarm_endstop_response";
    let args: [(&str, FieldValue<'_>); 1] = [("arm_id", FieldValue::U32(arm_id))];
    let list: &[(&str, FieldValue<'_>)] = args.as_slice();
    let reply: Result<MessageParams, TransportError> = io.call_typed(
        name,
        list,
        response,
        timeout,
    );
    proof {
        assert(arg_views(list@) =~= seq![("arm_id"@, FieldValueView::U32(arm_id))]);
        assert(replies(
            io,
            name@,
            seq![("arm_id"@, FieldValueView::U32(arm_id))],
            response@,
            timeout,
            reply,
        ));
    }
    match reply {
        Err(t) => Err(EndstopError::Transport(t)),
        Ok(p) => disarm_answer(&p),
    }
}

/// Disarms and waits for the answer.
pub fn disarm_endstop<T: Transport>(io: &T, arm_id: u32) -> (r: Result<
    DisarmStatus,
    EndstopError,
>)
    ensures
        disarmed(io, arm_id, DEFAULT_DISARM_TIMEOUT, r),
{
    disarm_endstop_with_timeout(io, arm_id, DEFAULT_DISARM_TIMEOUT)
}

proof fn lemma_source_layout(s: SourceSpec)
    ensures
        ({
            let b = source_bytes(s);
            &&& b.len() == 11
            &&& b[0] == if s.kind == SourceKind::TmcDiag {
                1int
            } else {
                0
            }
            &&& b[1] + 256 * b[2] == s.gpio
            &&& b[3] == if s.active_high {
                1int
            } else {
                0
            }
            &&& (s.policy == ArmPolicy::TripImmediately <==> b[4] == 0)
            &&& (s.policy == ArmPolicy::WaitForClear <==> b[4] == 1)
            &&& (s.policy == ArmPolicy::IgnoreUntilMoving <==> b[4] == 2)
            &&& b[5] == s.sample_n
            &&& b[6] == s.velocity_axis
            &&& b[7] + 256 * b[8] + 65536 * b[9] + 16777216 * b[10] == s.v_min_q16
        }),
{
    reveal_with_fuel(le_bytes, 5);
}

proof fn lemma_record_bytes(s: Seq<SourceSpec>, i: int)
    requires
        0 <= i < s.len(),
    ensures
        sources_bytes(s).len() == 11 * s.len(),
        sources_bytes(s).subrange(11 * i, 11 * i + 11) == source_bytes(s[i]),
    decreases s.len(),
{
    law_source_record_len(s);
    law_source_record_len(s.drop_last());
    lemma_source_layout(s.last());
    if i < s.len() - 1 {
        lemma_record_bytes(s.drop_last(), i);
        assert(sources_bytes(s).subrange(11 * i, 11 * i + 11) =~= sources_bytes(
            s.drop_last(),
        ).subrange(11 * i, 11 * i + 11));
    } else {
        assert(sources_bytes(s).subrange(11 * i, 11 * i + 11) =~= source_bytes(s.last()));
    }
}

/// What stands where for the source at place `i`: eleven bytes with its kind,
/// the number of its pin, whether it is active when high, what happens when it
/// is pressed already (0 trips at once, 1 waits until it is clear, 2 ignores it
/// until the axes move), the samples, the axes, and the least velocity; numbers
/// have their low byte first.
pub proof fn law_source_layout(s: Seq<SourceSpec>, i: int)
    requires
        0 <= i < s.len(),
    ensures
        ({
            let b = sources_bytes(s);
            let k = 11 * i;
            &&& b.len() == 11 * s.len()
            &&& b[k] == if s[i].kind == SourceKind::TmcDiag {
                1int
            } else {
                0
            }
            &&& b[k + 1] + 256 * b[k + 2] == s[i].gpio
            &&& b[k + 3] == if s[i].active_high {
                1int
            } else {
                0
            }
            &&& (s[i].policy == ArmPolicy::TripImmediately <==> b[k + 4] == 0)
            &&& (s[i].policy == ArmPolicy::WaitForClear <==> b[k + 4] == 1)
            &&& (s[i].policy == ArmPolicy::IgnoreUntilMoving <==> b[k + 4] == 2)
            &&& b[k + 5] == s[i].sample_n
            &&& b[k + 6] == s[i].velocity_axis
            &&& b[k + 7] + 256 * b[k + 8] + 65536 * b[k + 9] + 16777216 * b[k + 10]
                == s[i].v_min_q16
        }),
{
    lemma_record_bytes(s, i);
    lemma_source_layout(s[i]);
    let b = sources_bytes(s);
    let r = b.subrange(11 * i, 11 * i + 11);
    assert forall|j: int| 0 <= j < 11 implies r[j] == b[11 * i + j] by {}
    assert(r[0] == b[11 * i] && r[1] == b[11 * i + 1] && r[2] == b[11 * i + 2] && r[3] == b[11 * i
        + 3] && r[4] == b[11 * i + 4] && r[5] == b[11 * i + 5] && r[6] == b[11 * i + 6] && r[7]
        == b[11 * i + 7] && r[8] == b[11 * i + 8] && r[9] == b[11 * i + 9] && r[10] == b[11 * i
        + 10]);
}

/// The bytes of sources can be undone: two lists with the same bytes are the
/// same list.
pub proof fn law_sources_are_told_apart(s: Seq<SourceSpec>, t: Seq<SourceSpec>)
    requires
        sources_bytes(s) == sources_bytes(t),
    ensures
        s == t,
{
    law_source_record_len(s);
    law_source_record_len(t);
    assert(s.len() == t.len());
    assert forall|i: int| 0 <= i < s.len() implies s[i] == t[i] by {
        law_source_layout(s, i);
        law_source_layout(t, i);
        assert(s[i].kind == t[i].kind);
        assert(s[i].policy == t[i].policy);
        assert(s[i].gpio == t[i].gpio);
        assert(s[i].active_high == t[i].active_high);
        assert(s[i].v_min_q16 == t[i].v_min_q16);
    }
    assert(s =~= t);
}

/// The value under a name among the values of a command.
pub open spec fn value_named(
    args: Seq<(Seq<char>, FieldValueView)>,
    name: Seq<char>,
) -> Option<FieldValueView>
    decreases args.len(),
{
    if args.len() == 0 {
        None
    } else if args[0].0 == name {
        Some(args[0].1)
    } else {
        value_named(args.skip(1), name)
    }
}

/// An arming hands over what it was asked for: the clock in two halves that
/// give it back, as many sources and steppers as there are, and their bytes.
pub proof fn law_arming_hands_over(
    arm_id: u32,
    arm_clock: u64,
    sources: Seq<SourceSpec>,
    stepper_oids: Seq<u8>,
)
    requires
        sources.len() <= 4,
        stepper_oids.len() <= 8,
    ensures
        ({
            let a = arm_args(arm_id, arm_clock, sources, stepper_oids);
            &&& value_named(a, "arm_id"@) == Some(FieldValueView::U32(arm_id))
            &&& value_named(a, "arm_clock_lo"@) matches Some(FieldValueView::U32(lo)) && (
            value_named(a, "arm_clock_hi"@) matches Some(FieldValueView::U32(hi)) && hi
                * 0x1_0000_0000 + lo == arm_clock)
            &&& value_named(a, "source_count"@) matches Some(FieldValueView::Byte(n)) && n
                == sources.len()
            &&& value_named(a, "sources"@) == Some(FieldValueView::Buffer(sources_bytes(sources)))
            &&& value_named(a, "stepper_count"@) matches Some(FieldValueView::Byte(n)) && n
                == stepper_oids.len()
            &&& value_named(a, "steppers"@) == Some(FieldValueView::Buffer(stepper_oids))
        }),
{
    let a = arm_args(arm_id, arm_clock, sources, stepper_oids);
    reveal_strlit("arm_id");
    reveal_strlit("arm_clock_lo");
    reveal_strlit("arm_clock_hi");
    reveal_strlit("source_count");
    reveal_strlit("sources");
    reveal_strlit("stepper_count");
    reveal_strlit("steppers");
    assert("arm_clock_lo"@[10] == 'l' && "arm_clock_hi"@[10] == 'h');
    assert("arm_clock_lo"@[0] == 'a' && "arm_clock_hi"@[0] == 'a' && "source_count"@[0] == 's');
    assert("arm_id"@.len() == 6 && "sources"@.len() == 7 && "steppers"@.len() == 8);
    assert("arm_clock_lo"@.len() == 12 && "arm_clock_hi"@.len() == 12);
    assert("source_count"@.len() == 12 && "stepper_count"@.len() == 13);
    assert(a[0].0 == "arm_id"@ && a[1].0 == "arm_clock_lo"@ && a[2].0 == "arm_clock_hi"@);
    assert(a[3].0 == "source_count"@ && a[4].0 == "sources"@);
    assert(a[5].0 == "stepper_count"@ && a[6].0 == "steppers"@);
    lemma_value_named(a, 0);
    lemma_value_named(a, 1);
    lemma_value_named(a, 2);
    lemma_value_named(a, 3);
    lemma_value_named(a, 4);
    lemma_value_named(a, 5);
    lemma_value_named(a, 6);
}

proof fn lemma_value_named(args: Seq<(Seq<char>, FieldValueView)>, i: int)
    requires
        0 <= i < args.len(),
        forall|j: int| 0 <= j < i ==> (#[trigger] args[j]).0 != args[i].0,
    ensures
        value_named(args, args[i].0) == Some(args[i].1),
    decreases i,
{
    if i > 0 {
        let t = args.skip(1);
        assert(t[i - 1] == args[i]);
        assert(args[0].0 != args[i].0);
        assert forall|j: int| 0 <= j < i - 1 implies (#[trigger] t[j]).0 != t[i - 1].0 by {
            assert(t[j] == args[j + 1]);
        }
        lemma_value_named(t, i - 1);
    }
}

/// The five bytes of a stepper in a trip: its number, then its steps in two's
/// complement, the low byte first.
pub open spec fn stepper_record(r: TripStepperRecord) -> Seq<u8> {
    let n = if r.step_count < 0 {
        r.step_count + 0x1_0000_0000
    } else {
        r.step_count as int
    };
    seq![
        r.oid,
        (n % 256) as u8,
        ((n / 256) % 256) as u8,
        ((n / 65536) % 256) as u8,
        (n / 16777216) as u8,
    ]
}

/// Whether some bytes hold the records of some steppers, one behind the other.
pub open spec fn holds_steppers(blob: Seq<u8>, rs: Seq<TripStepperRecord>) -> bool {
    &&& blob.len() == 5 * rs.len()
    &&& forall|i: int|
        0 <= i < rs.len() ==> blob.subrange(5 * i, 5 * i + 5) == stepper_record(#[trigger] rs[i])
}

/// A trip is read as it was told: the event with the number of the arming, the
/// clock in two halves, the source and the records of the steppers gives just
/// these.
pub proof fn law_trip_is_read(
    p: ParamsView,
    arm_id: u32,
    trip_clock: u64,
    source: u8,
    rs: Seq<TripStepperRecord>,
    blob: Seq<u8>,
)
    requires
        rs.len() <= 255,
        holds_steppers(blob, rs),
        param_u32(p, "arm_id"@) == Some(arm_id),
        param_u32(p, "trip_clock_lo"@) == Some((trip_clock % 0x1_0000_0000) as u32),
        param_u32(p, "trip_clock_hi"@) == Some((trip_clock / 0x1_0000_0000) as u32),
        param_u32(p, "trip_source_idx"@) == Some(source as u32),
        param_u32(p, "fmt_version"@) == Some(1u32),
        param_u32(p, "stepper_count"@) == Some(rs.len() as u32),
        param_bytes(p, "stepper_data"@) == Some(blob),
    ensures
        trip_of(p) == Ok::<_, EndstopErrorView>(
            TripEventView { arm_id, trip_clock, trip_source_idx: source, steppers: rs },
        ),
{
    assert forall|i: int| 0 <= i < rs.len() implies stepper_at(blob, i) == rs[i] by {
        let r = blob.subrange(5 * i, 5 * i + 5);
        let t = blob.subrange(5 * i + 1, 5 * i + 5);
        assert(r == stepper_record(rs[i]));
        assert(r[0] == blob[5 * i] && r[1] == t[0] && r[2] == t[1] && r[3] == t[2] && r[4] == t[3]);
        reveal_with_fuel(le_value, 6);
        lemma_le_value_four(t);
    }
    assert(Seq::new(rs.len(), |i: int| stepper_at(blob, i)) =~= rs);
}

proof fn lemma_le_value_four(t: Seq<u8>)
    requires
        t.len() == 4,
    ensures
        le_value(t) == t[0] + 256 * t[1] + 65536 * t[2] + 16777216 * t[3],
{
    reveal_with_fuel(le_value, 6);
}

/// The answers to an arming and a disarming are told by a byte: 0 that it was
/// done, 1 that the endstop had tripped before, 2 that it was refused or is not
/// known; any other byte is none.
pub proof fn law_answers_by_number(b: u8)
    ensures
        arm_status(b) is Some <==> b <= 2,
        disarm_status(b) is Some <==> b <= 2,
        arm_status(b) == Some(ArmStatus::Armed) <==> b == 0,
        arm_status(b) == Some(ArmStatus::Rejected) <==> b == 2,
        disarm_status(b) == Some(DisarmStatus::Disarmed) <==> b == 0,
        disarm_status(b) == Some(DisarmStatus::Unknown) <==> b == 2,
{
}

/// A reply to an arming or a disarming is read by its status: a number from 0 to
/// 2 says what came of it, another or none is an error, and so is no reply.
pub proof fn law_reply_is_read(
    p: MessageParams,
    t: TransportError,
    n: u8,
    a: Result<ArmStatus, EndstopError>,
    d: Result<DisarmStatus, EndstopError>,
)
    ensures
        param_u32(p@, "status"@) == Some(n as u32) && armed_by(a, Ok(p)) ==> {
            &&& n == 0 ==> a == Ok::<_, EndstopError>(ArmStatus::Armed)
            &&& n == 1 ==> a == Ok::<_, EndstopError>(ArmStatus::AlreadyTripped)
            &&& n == 2 ==> a == Ok::<_, EndstopError>(ArmStatus::Rejected)
            &&& n > 2 ==> (a matches Err(e) && e@ == EndstopErrorView::InvalidStatus(n))
        },
        param_u32(p@, "status"@) == Some(n as u32) && disarmed_by(d, Ok(p)) ==> {
            &&& n == 0 ==> d == Ok::<_, EndstopError>(DisarmStatus::Disarmed)
            &&& n == 1 ==> d == Ok::<_, EndstopError>(DisarmStatus::AlreadyTripped)
            &&& n == 2 ==> d == Ok::<_, EndstopError>(DisarmStatus::Unknown)
            &&& n > 2 ==> (d matches Err(e) && e@ == EndstopErrorView::InvalidStatus(n))
        },
        param_u32(p@, "status"@) is None && armed_by(a, Ok(p)) ==> (a matches Err(e) && e@
            == EndstopErrorView::MissingField("status"@)),
        param_u32(p@, "status"@) is None && disarmed_by(d, Ok(p)) ==> (d matches Err(e) && e@
            == EndstopErrorView::MissingField("status"@)),
        armed_by(a, Err(t)) ==> (a matches Err(e) && e@ == EndstopErrorView::Transport(t@)),
        disarmed_by(d, Err(t)) ==> (d matches Err(e) && e@ == EndstopErrorView::Transport(t@)),
{
}

/// An arming of at most four sources and eight steppers is one call under its
/// own name, and so is a disarming; what they return is what the reply says. More
/// sources or steppers are refused without a call.
pub proof fn law_one_call_under_its_name<T: Transport>(
    io: &T,
    arm_id: u32,
    arm_clock: u64,
    sources: Seq<SourceSpec>,
    stepper_oids: Seq<u8>,
    timeout: u64,
    a: Result<ArmStatus, EndstopError>,
    d: Result<DisarmStatus, EndstopError>,
)
    requires
        armed(io, arm_id, arm_clock, sources, stepper_oids, timeout, a),
        disarmed(io, arm_id, timeout, d),
    ensures
        sources.len() <= 4 && stepper_oids.len() <= 8 ==> exists|
            reply: Result<MessageParams, TransportError>,
        | #[trigger]
            replies(
                io,
                "kalico_arm_endstop"@,
                arm_args(arm_id, arm_clock, sources, stepper_oids),
                "kalico_arm_endstop_response"@,
                timeout,
                reply,
            ) && armed_by(a, reply),
        4 < sources.len() <= usize::MAX ==> (a matches Err(e) && (e@ matches
            EndstopErrorView::TooManySources(n) && n == sources.len())),
        sources.len() <= 4 && 8 < stepper_oids.len() <= usize::MAX ==> (a matches Err(e) && (
        e@ matches EndstopErrorView::TooManySteppers(n) && n == stepper_oids.len())),
        exists|reply: Result<MessageParams, TransportError>| #[trigger]
            replies(
                io,
                "kalico_disarm_endstop"@,
                seq![("arm_id"@, FieldValueView::U32(arm_id))],
                "kalico_disarm_endstop_response"@,
                timeout,
                reply,
            ) && disarmed_by(d, reply),
{
}

} // verus!

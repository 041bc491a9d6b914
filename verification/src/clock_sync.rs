//! Keeping a controller's clock in step with the host's: which samples count,
//! how old they may be, and when the estimate may be used. Times are in
//! nanoseconds.

use vstd::prelude::*;

verus! {

/// How many samples the estimate rests on at most.
pub const WINDOW: usize = 30;

/// How many samples it takes before the estimate may be used.
pub const MIN_WARMUP_SAMPLES: u32 = 30;

/// How old the last sample may be, in milliseconds.
pub const MAX_SAMPLE_AGE_MS_DEFAULT: u64 = 2000;

/// How old the last dedicated sample may be, in milliseconds.
pub const MAX_RTT_AGE_MS_DEFAULT: u64 = 500;

/// How far a sample may lie from the estimate, in microseconds: the bits of the
/// double 100.
pub const MAX_RESIDUAL_US_DEFAULT: u64 = 0x4059_0000_0000_0000;

/// How far the frequency may be from the nominal one, in parts per million: the
/// bits of the double 100.
pub const MAX_DRIFT_PPM_DEFAULT: u64 = 0x4059_0000_0000_0000;

/// How long a prediction holds against a reading that runs ahead of it.
pub const PREDICTION_HOLD: u64 = 10_000_000_000;

/// Where a sample comes from.
#[derive(Debug, Clone, Copy, PartialEq, Eq, Structural)]
pub enum SampleSource {
    /// A request that was sent for the sample alone.
    Dedicated,
    /// Another message that carried the clock.
    Piggyback,
}

/// A reading of a controller's clock.
#[derive(Debug, Clone, Copy, PartialEq, Eq, Structural)]
pub struct Sample {
    /// The host time of the reading, since the estimate began.
    pub host_time: u64,
    /// The reading.
    pub mcu_clock: u64,
    /// How long the request and its response took, in microseconds.
    pub rtt_us: u32,
    pub source: SampleSource,
    /// When the sample was added.
    pub recorded_at: u64,
}

/// What the estimate says that a controller's clock reads, and how many ticks
/// a reading may be away from that.
#[derive(Debug, Clone, Copy, PartialEq, Eq, Structural)]
pub struct Prediction {
    pub clock: u64,
    pub tolerance: u64,
}

/// Why an estimate may not be used.
#[derive(Debug, Clone, Copy, PartialEq, Eq)]
pub enum QualityGateFailure {
    /// Too few samples.
    InsufficientWarmup { samples: usize, required: usize },
    /// A sample lies too far from the estimate. The numbers are the bits of
    /// doubles.
    ResidualExceeded { observed_us: u64, max_us: u64 },
    /// The frequency is too far from the nominal one. The numbers are the bits
    /// of doubles.
    DriftPpmExceeded { observed_ppm: u64, max_ppm: u64 },
    /// The last sample is too old; there may be none.
    LastSampleStale { age: Option<u64>, max_age: u64 },
    /// The last dedicated sample is too old; there may be none.
    DedicatedSampleStale { age: Option<u64>, max_age: u64 },
}

/// The samples of one controller's clock.
#[derive(Debug)]
pub struct ClockSyncEstimator {
    epoch: u64,
    samples: Vec<Sample>,
    last_dedicated_sample: Option<u64>,
    last_prediction: Option<u64>,
    clock_sync_request_id: u32,
}

/// Model of [`ClockSyncEstimator`]: the samples stand oldest first.
#[verifier::ext_equal]
pub struct EstimatorView {
    pub epoch: u64,
    pub samples: Seq<Sample>,
    pub last_dedicated_sample: Option<u64>,
    /// The host time of the last dedicated sample that was as predicted.
    pub last_prediction: Option<u64>,
    pub clock_sync_request_id: u32,
}

impl View for ClockSyncEstimator {
    type V = EstimatorView;

    closed spec fn view(&self) -> EstimatorView {
        EstimatorView {
            epoch: self.epoch,
            samples: self.samples@,
            last_dedicated_sample: self.last_dedicated_sample,
            last_prediction: self.last_prediction,
            clock_sync_request_id: self.clock_sync_request_id,
        }
    }
}

/// How much later one time is than another; zero if it is not.
pub open spec fn time_since(t: u64, from: u64) -> u64 {
    if t >= from {
        (t - from) as u64
    } else {
        0
    }
}

/// The smaller of two numbers.
pub open spec fn smaller(a: int, b: int) -> int {
    if a <= b {
        a
    } else {
        b
    }
}

/// Samples with one more: the newest [`WINDOW`] stay.
pub open spec fn sampled(s: Seq<Sample>, x: Sample) -> Seq<Sample> {
    if s.len() == WINDOW {
        s.skip(1).push(x)
    } else {
        s.push(x)
    }
}

/// The sample of a request that was sent and answered at the given times. The
/// controller's clock is taken back to the sending, by `one_way` ticks.
pub open spec fn dedicated_sample(
    v: EstimatorView,
    host_send: u64,
    host_recv: u64,
    mcu_at_response: u64,
    one_way: u64,
    now: u64,
) -> Sample {
    Sample {
        host_time: time_since(host_send, v.epoch),
        mcu_clock: time_since(mcu_at_response, one_way),
        rtt_us: smaller((time_since(host_recv, host_send) / 1000) as int, u32::MAX as int) as u32,
        source: SampleSource::Dedicated,
        recorded_at: now,
    }
}

/// Whether a reading is away from what was predicted.
pub open spec fn unexpected(clock: u64, p: Option<Prediction>) -> bool {
    match p {
        Some(p) => clock > p.clock + p.tolerance || clock + p.tolerance < p.clock,
        None => false,
    }
}

/// Whether a sample is dropped: its reading runs ahead of the prediction, and
/// readings were as predicted until a short time before.
pub open spec fn dropped(v: EstimatorView, x: Sample, p: Option<Prediction>) -> bool {
    &&& unexpected(x.mcu_clock, p)
    &&& x.mcu_clock > p->0.clock
    &&& v.last_prediction matches Some(t) && x.host_time < t + PREDICTION_HOLD
}

/// The estimator after a dedicated sample: one that is dropped leaves it
/// unchanged.
pub open spec fn dedicated_added(v: EstimatorView, x: Sample, p: Option<Prediction>) -> EstimatorView {
    if dropped(v, x, p) {
        v
    } else {
        EstimatorView {
            samples: sampled(v.samples, x),
            last_dedicated_sample: Some(x.recorded_at),
            last_prediction: if unexpected(x.mcu_clock, p) {
                v.last_prediction
            } else {
                Some(x.host_time)
            },
            ..v
        }
    }
}

/// The sample of a message that carried the clock.
pub open spec fn piggyback_sample(
    v: EstimatorView,
    host_recv: u64,
    mcu_clock_now: u64,
    now: u64,
) -> Sample {
    Sample {
        host_time: time_since(host_recv, v.epoch),
        mcu_clock: mcu_clock_now,
        rtt_us: 0,
        source: SampleSource::Piggyback,
        recorded_at: now,
    }
}

/// Whether a reading lies between two of the samples.
pub open spec fn within_samples(s: Seq<Sample>, ticks: u64) -> bool {
    &&& exists|i: int| 0 <= i < s.len() && (#[trigger] s[i]).mcu_clock <= ticks
    &&& exists|i: int| 0 <= i < s.len() && ticks <= (#[trigger] s[i]).mcu_clock
}

/// How long ago the last sample was added.
pub open spec fn sample_age(v: EstimatorView, now: u64) -> Option<u64> {
    if v.samples.len() == 0 {
        None
    } else {
        Some(time_since(now, v.samples.last().recorded_at))
    }
}

/// How long ago the last dedicated sample was added.
pub open spec fn dedicated_age(v: EstimatorView, now: u64) -> Option<u64> {
    match v.last_dedicated_sample {
        Some(t) => Some(time_since(now, t)),
        None => None,
    }
}

/// Whether an age is known and no more than a number of whole milliseconds.
pub open spec fn young(age: Option<u64>, max_ms: u64) -> bool {
    match age {
        Some(a) => a / 1_000_000 <= max_ms,
        None => false,
    }
}

/// Why the estimate may not be used, if it may not: the first reason counts.
pub open spec fn quality(
    v: EstimatorView,
    residual: Option<u64>,
    drift: Option<u64>,
    now: u64,
) -> Result<(), QualityGateFailure> {
    if v.samples.len() < MIN_WARMUP_SAMPLES {
        Err(
            QualityGateFailure::InsufficientWarmup {
                samples: v.samples.len() as usize,
                required: MIN_WARMUP_SAMPLES as usize,
            },
        )
    } else if let Some(observed_us) = residual {
        Err(QualityGateFailure::ResidualExceeded { observed_us, max_us: MAX_RESIDUAL_US_DEFAULT })
    } else if let Some(observed_ppm) = drift {
        Err(QualityGateFailure::DriftPpmExceeded { observed_ppm, max_ppm: MAX_DRIFT_PPM_DEFAULT })
    } else if !young(sample_age(v, now), MAX_SAMPLE_AGE_MS_DEFAULT) {
        Err(
            QualityGateFailure::LastSampleStale {
                age: sample_age(v, now),
                max_age: 2_000_000_000,
            },
        )
    } else if !young(dedicated_age(v, now), MAX_RTT_AGE_MS_DEFAULT) {
        Err(
            QualityGateFailure::DedicatedSampleStale {
                age: dedicated_age(v, now),
                max_age: 500_000_000,
            },
        )
    } else {
        Ok(())
    }
}

/// A clock's reading as a signed number: from 2^63 on it is read as negative.
pub open spec fn signed_clock(c: u64) -> int {
    if c <= i64::MAX {
        c as int
    } else {
        c - 0x1_0000_0000_0000_0000
    }
}

/// The reading some ticks away from another: never below zero, and never above
/// the largest signed number.
pub open spec fn moved_clock(anchor: u64, delta: i64) -> u64 {
    let c = signed_clock(anchor) + delta;
    if c < 0 {
        0
    } else if c > i64::MAX {
        i64::MAX as u64
    } else {
        c as u64
    }
}

/// The reading `delta` ticks away from `anchor`: never below zero, and never
/// above the largest signed number.
pub fn mcu_time_from(anchor: u64, delta: i64) -> (r: u64)
    ensures
        r == moved_clock(anchor, delta),
{
    let top: u64 = 0x7fff_ffff_ffff_ffff;
    if anchor <= top {
        if delta >= 0 {
            let d: u64 = delta as u64;
            if d > top - anchor {
                top
            } else {
                anchor + d
            }
        } else {
            let a: i64 = anchor as i64;
            let c: i64 = a + delta;
            if c < 0 {
                0
            } else {
                c as u64
            }
        }
    } else if delta > 0 {
        let below: u64 = u64::MAX - anchor;
        let d: u64 = delta as u64;
        if d > below {
            d - below - 1
        } else {
            0
        }
    } else {
        0
    }
}

impl ClockSyncEstimator {
    /// Whether the samples are no more than the window holds.
    pub closed spec fn wf(&self) -> bool {
        self.samples@.len() <= WINDOW
    }

    /// No samples; host times are counted from now on.
    pub fn new(now: u64) -> (e: Self)
        ensures
            e.wf(),
            e@ == (EstimatorView {
                epoch: now,
                samples: Seq::empty(),
                last_dedicated_sample: None,
                last_prediction: None,
                clock_sync_request_id: 0,
            }),
    {
        let e = ClockSyncEstimator {
            epoch: now,
            samples: Vec::new(),
            last_dedicated_sample: None,
            last_prediction: None,
            clock_sync_request_id: 0,
        };
        proof {
            assert(e@.samples =~= Seq::empty());
        }
        e
    }

    /// The number of the next request.
    pub fn next_clock_sync_request_id(&mut self) -> (r: u32)
        requires
            old(self).wf(),
        ensures
            final(self).wf(),
            r == (old(self)@.clock_sync_request_id + 1) % 0x1_0000_0000,
            final(self)@ == (EstimatorView { clock_sync_request_id: r, ..old(self)@ }),
    {
        self.clock_sync_request_id = self.clock_sync_request_id.wrapping_add(1);
        self.clock_sync_request_id
    }

    /// The host time of a moment, since the estimate began.
    pub fn host_time_at(&self, t: u64) -> (r: u64)
        ensures
            r == time_since(t, self@.epoch),
    {
        t.saturating_sub(self.epoch)
    }

    /// When the estimate began.
    pub fn epoch(&self) -> (r: u64)
        ensures
            r == self@.epoch,
    {
        self.epoch
    }

    /// The samples, oldest first.
    pub fn samples(&self) -> (r: &Vec<Sample>)
        ensures
            r@ == self@.samples,
    {
        &self.samples
    }

    /// Whether a reading lies outside the samples; nothing while there are
    /// none.
    pub fn is_estimated(&self, mcu_ticks: u64) -> (r: Option<bool>)
        ensures
            r == (if self@.samples.len() == 0 {
                None
            } else {
                Some(!within_samples(self@.samples, mcu_ticks))
            }),
    {
        if self.samples.len() == 0 {
            return None;
        }
        let mut low: bool = false;
        let mut high: bool = false;
        let mut i: usize = 0;
        while i < self.samples.len()
            invariant
                i <= self.samples@.len(),
                low == exists|j: int|
                    0 <= j < i && (#[trigger] self.samples@[j]).mcu_clock <= mcu_ticks,
                high == exists|j: int|
                    0 <= j < i && mcu_ticks <= (#[trigger] self.samples@[j]).mcu_clock,
            decreases self.samples@.len() - i,
        {
            let c: u64 = self.samples[i].mcu_clock;
            if c <= mcu_ticks {
                low = true;
            }
            if mcu_ticks <= c {
                high = true;
            }
            i += 1;
        }
        Some(!(low && high))
    }

    fn add_sample(&mut self, sample: Sample)
        requires
            old(self).wf(),
        ensures
            final(self).wf(),
            final(self)@ == (EstimatorView {
                samples: sampled(old(self)@.samples, sample),
                ..old(self)@
            }),
    {
        if self.samples.len() == WINDOW {
            self.samples.remove(0);
            proof {
                assert(self.samples@ =~= old(self)@.samples.skip(1));
            }
        }
        self.samples.push(sample);
    }

    /// Whether a reading at a host time runs ahead of the prediction soon after
    /// readings were as predicted.
    fn runs_ahead(&self, host_time: u64, clock: u64, p: &Prediction) -> (r: bool)
        ensures
            r == (clock > p.clock + p.tolerance && (self@.last_prediction matches Some(t)
                && host_time < t + PREDICTION_HOLD)),
    {
        if clock > p.clock && clock - p.clock > p.tolerance {
            match self.last_prediction {
                Some(t) => host_time < t || host_time - t < PREDICTION_HOLD,
                None => false,
            }
        } else {
            false
        }
    }

    /// Adds the sample of a request that was sent and answered. `one_way` is
    /// how many ticks half the round trip takes, `prediction` what the estimate
    /// gives for the sending. A reading that runs ahead of the prediction soon
    /// after readings were as predicted is dropped; the result says whether the
    /// sample was kept.
    pub fn add_dedicated_sample(
        &mut self,
        host_send: u64,
        host_recv: u64,
        mcu_at_response: u64,
        one_way: u64,
        prediction: Option<Prediction>,
        now: u64,
    ) -> (kept: bool)
        requires
            old(self).wf(),
        ensures
            final(self).wf(),
            ({
                let x = dedicated_sample(
                    old(self)@,
                    host_send,
                    host_recv,
                    mcu_at_response,
                    one_way,
                    now,
                );
                &&& kept == !dropped(old(self)@, x, prediction)
                &&& final(self)@ == dedicated_added(old(self)@, x, prediction)
            }),
    {
        let micros: u64 = host_recv.saturating_sub(host_send) / 1000;
        let rtt_us: u32 = if micros > 0xffff_ffff {
            u32::MAX
        } else {
            micros as u32
        };
        let sample = Sample {
            host_time: self.host_time_at(host_send),
            mcu_clock: mcu_at_response.saturating_sub(one_way),
            rtt_us,
            source: SampleSource::Dedicated,
            recorded_at: now,
        };
        let expected: bool = match &prediction {
            None => true,
            Some(p) => {
                if self.runs_ahead(sample.host_time, sample.mcu_clock, p) {
                    return false;
                }
                if sample.mcu_clock >= p.clock {
                    sample.mcu_clock - p.clock <= p.tolerance
                } else {
                    p.clock - sample.mcu_clock <= p.tolerance
                }
            },
        };
        self.add_sample(sample);
        self.last_dedicated_sample = Some(now);
        if expected {
            self.last_prediction = Some(sample.host_time);
        }
        true
    }

    /// Adds the sample of a message that carried the clock.
    pub fn add_piggyback_sample(&mut self, host_recv: u64, mcu_clock_now: u64, now: u64)
        requires
            old(self).wf(),
        ensures
            final(self).wf(),
            final(self)@ == (EstimatorView {
                samples: sampled(
                    old(self)@.samples,
                    piggyback_sample(old(self)@, host_recv, mcu_clock_now, now),
                ),
                ..old(self)@
            }),
    {
        let sample = Sample {
            host_time: self.host_time_at(host_recv),
            mcu_clock: mcu_clock_now,
            rtt_us: 0,
            source: SampleSource::Piggyback,
            recorded_at: now,
        };
        self.add_sample(sample);
    }

    /// Adds the sample of a message that carried the clock and came in now.
    pub fn add_piggyback_sample_at_now(&mut self, mcu_clock_now: u64, now: u64)
        requires
            old(self).wf(),
        ensures
            final(self).wf(),
            final(self)@ == (EstimatorView {
                samples: sampled(
                    old(self)@.samples,
                    piggyback_sample(old(self)@, now, mcu_clock_now, now),
                ),
                ..old(self)@
            }),
    {
        self.add_piggyback_sample(now, mcu_clock_now, now);
    }

    /// How long ago the last sample was added.
    pub fn last_sample_age(&self, now: u64) -> (r: Option<u64>)
        ensures
            r == sample_age(self@, now),
    {
        let n: usize = self.samples.len();
        if n == 0 {
            None
        } else {
            Some(now.saturating_sub(self.samples[n - 1].recorded_at))
        }
    }

    /// How long ago the last dedicated sample was added.
    pub fn last_dedicated_sample_age(&self, now: u64) -> (r: Option<u64>)
        ensures
            r == dedicated_age(self@, now),
    {
        match self.last_dedicated_sample {
            Some(t) => Some(now.saturating_sub(t)),
            None => None,
        }
    }

    /// How many samples there are.
    pub fn sample_count(&self) -> (r: u32)
        requires
            self.wf(),
        ensures
            r == self@.samples.len(),
    {
        self.samples.len() as u32
    }

    /// Whether the estimate may be used. `residual` and `drift` are there when
    /// a sample lies too far from it and when its frequency has drifted too
    /// far: the bits of how far.
    pub fn is_quality_gate_passed(
        &self,
        residual: Option<u64>,
        drift: Option<u64>,
        now: u64,
    ) -> (r: Result<(), QualityGateFailure>)
        requires
            self.wf(),
        ensures
            r == quality(self@, residual, drift, now),
    {
        let n: u32 = self.sample_count();
        if n < MIN_WARMUP_SAMPLES {
            return Err(
                QualityGateFailure::InsufficientWarmup {
                    samples: n as usize,
                    required: MIN_WARMUP_SAMPLES as usize,
                },
            );
        }
        if let Some(observed_us) = residual {
            return Err(
                QualityGateFailure::ResidualExceeded {
                    observed_us,
                    max_us: MAX_RESIDUAL_US_DEFAULT,
                },
            );
        }
        if let Some(observed_ppm) = drift {
            return Err(
                QualityGateFailure::DriftPpmExceeded {
                    observed_ppm,
                    max_ppm: MAX_DRIFT_PPM_DEFAULT,
                },
            );
        }
        let age: Option<u64> = self.last_sample_age(now);
        if !is_young(age, MAX_SAMPLE_AGE_MS_DEFAULT) {
            return Err(QualityGateFailure::LastSampleStale { age, max_age: 2_000_000_000 });
        }
        let rtt_age: Option<u64> = self.last_dedicated_sample_age(now);
        if !is_young(rtt_age, MAX_RTT_AGE_MS_DEFAULT) {
            return Err(
                QualityGateFailure::DedicatedSampleStale { age: rtt_age, max_age: 500_000_000 },
            );
        }
        Ok(())
    }
}

fn is_young(age: Option<u64>, max_ms: u64) -> (r: bool)
    ensures
        r == young(age, max_ms),
{
    match age {
        Some(a) => a / 1_000_000 <= max_ms,
        None => false,
    }
}

/// Samples with a run of more.
pub open spec fn sampled_all(s: Seq<Sample>, xs: Seq<Sample>) -> Seq<Sample>
    decreases xs.len(),
{
    if xs.len() == 0 {
        s
    } else {
        sampled(sampled_all(s, xs.drop_last()), xs.last())
    }
}

/// However many samples come in, those kept are the newest, in order, and no
/// more than the window holds.
pub proof fn law_newest_samples_kept(s: Seq<Sample>, xs: Seq<Sample>)
    requires
        s.len() <= WINDOW,
    ensures
        sampled_all(s, xs).len() == smaller((s + xs).len() as int, WINDOW as int),
        sampled_all(s, xs) == (s + xs).skip((s + xs).len() - sampled_all(s, xs).len()),
    decreases xs.len(),
{
    let all = s + xs;
    if xs.len() == 0 {
        assert(all =~= s);
        assert(s.skip(0) =~= s);
    } else {
        let before = s + xs.drop_last();
        let kept = sampled_all(s, xs.drop_last());
        law_newest_samples_kept(s, xs.drop_last());
        assert(all =~= before.push(xs.last()));
        let now_kept = sampled_all(s, xs);
        assert(now_kept =~= all.skip(all.len() - now_kept.len()));
    }
}

/// A reading that runs ahead of the prediction soon after readings were as
/// predicted changes nothing: no estimate made from the samples moves.
pub proof fn law_glitch_changes_nothing(v: EstimatorView, x: Sample, p: Prediction, t: u64)
    requires
        v.last_prediction == Some(t),
        x.host_time < t + PREDICTION_HOLD,
        x.mcu_clock > p.clock + p.tolerance,
    ensures
        dedicated_added(v, x, Some(p)) == v,
{
}

/// A full window that takes a dedicated sample may be used at once, if the
/// estimate fits: the sample that was just added is fresh.
pub proof fn law_fresh_sample_suffices(v: EstimatorView, x: Sample, p: Option<Prediction>)
    requires
        v.samples.len() == WINDOW,
        !dropped(v, x, p),
    ensures
        quality(dedicated_added(v, x, p), None, None, x.recorded_at) == Ok::<
            (),
            QualityGateFailure,
        >(()),
{
    assert(dedicated_added(v, x, p).samples.last() == x);
}

/// The sample of a request holds when it was sent, counted from the beginning,
/// the reading at that time, and how long the answer took: later by the way
/// there, the reading is the one that was answered.
pub proof fn law_sample_is_taken_at_the_sending(
    v: EstimatorView,
    host_send: u64,
    host_recv: u64,
    mcu_at_response: u64,
    one_way: u64,
    now: u64,
)
    requires
        v.epoch <= host_send <= host_recv < host_send + 4_000_000_000_000,
        one_way <= mcu_at_response,
    ensures
        ({
            let x = dedicated_sample(v, host_send, host_recv, mcu_at_response, one_way, now);
            &&& v.epoch + x.host_time == host_send
            &&& x.mcu_clock + one_way == mcu_at_response
            &&& 1000 * x.rtt_us <= host_recv - host_send < 1000 * x.rtt_us + 1000
            &&& x.recorded_at == now
        }),
{
}

/// The estimate may be used exactly where there are thirty samples, neither the
/// residual nor the drift is too large, the last sample is no more than two
/// seconds old and the last dedicated one no more than half a second, in whole
/// milliseconds.
pub proof fn law_when_the_estimate_may_be_used(
    v: EstimatorView,
    residual: Option<u64>,
    drift: Option<u64>,
    now: u64,
)
    requires
        v.samples.len() > 0,
        now >= v.samples.last().recorded_at,
        v.last_dedicated_sample matches Some(t) ==> now >= t,
    ensures
        (quality(v, residual, drift, now) is Ok) <==> {
            &&& v.samples.len() >= 30
            &&& residual is None
            &&& drift is None
            &&& now - v.samples.last().recorded_at < 2_001_000_000
            &&& v.last_dedicated_sample matches Some(t) && now - t < 501_000_000
        },
{
}

/// A reading that lags behind the prediction is kept, and so is any reading
/// once ten seconds have passed since one was as predicted. A reading as
/// predicted holds from its own time on.
pub proof fn law_what_is_kept(v: EstimatorView, x: Sample, p: Prediction)
    ensures
        x.mcu_clock <= p.clock ==> dedicated_added(v, x, Some(p)).samples.last() == x,
        (v.last_prediction matches Some(t) && x.host_time >= t + 10_000_000_000)
            ==> dedicated_added(v, x, Some(p)).samples.last() == x,
        p.clock <= x.mcu_clock + p.tolerance && x.mcu_clock <= p.clock + p.tolerance
            ==> dedicated_added(v, x, Some(p)).last_prediction == Some(x.host_time),
{
}

/// Moving a reading by some ticks and back again leaves it as it was, as long
/// as no limit is met; and a later time is a later reading.
pub proof fn law_clock_moves_back(anchor: u64, delta: i64, more: i64)
    requires
        delta > i64::MIN,
        anchor <= i64::MAX,
        0 <= anchor + delta <= i64::MAX,
        delta <= more,
    ensures
        moved_clock(anchor, delta) == anchor + delta,
        moved_clock(moved_clock(anchor, delta), (-delta) as i64) == anchor,
        moved_clock(anchor, delta) <= moved_clock(anchor, more),
{
}

/// A message that carries the clock gives the reading at its receipt.
pub proof fn law_piggyback_is_taken_at_the_receipt(
    v: EstimatorView,
    host_recv: u64,
    mcu_clock_now: u64,
    now: u64,
)
    requires
        v.epoch <= host_recv,
    ensures
        ({
            let x = piggyback_sample(v, host_recv, mcu_clock_now, now);
            &&& v.epoch + x.host_time == host_recv
            &&& x.mcu_clock == mcu_clock_now
            &&& x.recorded_at == now
            &&& x.rtt_us == 0
            &&& x.source == SampleSource::Piggyback
        }),
{
}

/// A reading lies within the samples from the lowest of them to the highest.
pub proof fn law_within_is_from_lowest_to_highest(s: Seq<Sample>, lo: int, hi: int, ticks: u64)
    requires
        0 <= lo < s.len(),
        0 <= hi < s.len(),
        forall|i: int|
            0 <= i < s.len() ==> s[lo].mcu_clock <= (#[trigger] s[i]).mcu_clock <= s[hi].mcu_clock,
    ensures
        within_samples(s, ticks) <==> s[lo].mcu_clock <= ticks <= s[hi].mcu_clock,
{
}

} // verus!

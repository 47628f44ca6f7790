//! Software-defined-radio records: quadrature samples with magnitude
//! and phase, tuner state, and the FM/AM demodulation and decimation
//! arithmetic.  The USB transfers that fetch raw sample bytes are
//! performed by the surrounding system; this module turns the bytes and
//! sample pairs into audio values.

use vstd::prelude::*;
use crate::fixed::{isqrt_spec, isqrt_u128};

verus! {

/// Half turn (pi) in the Q16.16 angle encoding.
pub const PI_FX: i64 = 205887;

/// Quarter turn (pi/2) in the Q16.16 angle encoding.
pub const PI_2_FX: i64 = 102943;

/// Eighth turn (pi/4) in the Q16.16 angle encoding.
pub const PI_4_FX: i64 = 51471;

/// Arctangent of a ratio in `[0, 1]` (both in fixed point): the linear
/// term through pi/4 plus a small symmetric correction.
pub open spec fn atan_unit_spec(t: int) -> int {
    (t * PI_4_FX as int) / 65536 + (((t * (65536 - t)) / 65536) * 17895) / 65536
}

/// Four-quadrant arctangent of `q / i` in the Q16.16 angle encoding.
pub open spec fn atan2_spec(q: int, i: int) -> int {
    if i == 0 && q == 0 {
        0
    } else {
        let aq = if q < 0 {
            -q
        } else {
            q
        };
        let ai = if i < 0 {
            -i
        } else {
            i
        };
        let base = if ai >= aq {
            atan_unit_spec((aq * 65536) / ai)
        } else {
            PI_2_FX as int - atan_unit_spec((ai * 65536) / aq)
        };
        if i >= 0 && q >= 0 {
            base
        } else if i < 0 && q >= 0 {
            PI_FX as int - base
        } else if i < 0 {
            base - PI_FX as int
        } else {
            -base
        }
    }
}

/// Arctangent of a fixed-point ratio in `[0, 65536]`.
fn atan_unit(t: i64) -> (r: i64)
    requires
        0 <= t <= 65536,
    ensures
        r as int == atan_unit_spec(t as int),
        0 <= r <= PI_4_FX + 4474,
{
    let tu: u64 = t as u64;
    proof {
        assert(0 <= (tu as int * (65536 - tu as int)) && tu as int * (65536 - tu as int)
            <= 0x1_0000_0000) by (nonlinear_arith)
            requires
                0 <= tu as int <= 65536,
        ;
    }
    let lin: i64 = ((tu * 51471) / 65536) as i64;
    let cor: i64 = ((((tu * (65536 - tu)) / 65536) * 17895) / 65536) as i64;
    proof {
        vstd::arithmetic::div_mod::lemma_div_pos_is_pos(t as int * PI_4_FX as int, 65536);
        vstd::arithmetic::div_mod::lemma_div_pos_is_pos(
            t as int * (65536 - t as int),
            65536,
        );
        assert(t as int * PI_4_FX as int <= 65536 * 51471) by (nonlinear_arith)
            requires
                0 <= t as int <= 65536,
        ;
        vstd::arithmetic::div_mod::lemma_div_is_ordered(
            t as int * PI_4_FX as int,
            65536int * 51471,
            65536,
        );
        assert(0 <= (t as int * (65536 - t as int)) && t as int * (65536 - t as int) <= 65536
            * 16384) by (nonlinear_arith)
            requires
                0 <= t as int <= 65536,
        ;
        vstd::arithmetic::div_mod::lemma_div_is_ordered(
            t as int * (65536 - t as int),
            65536int * 16384,
            65536,
        );
        assert(((t as int * (65536 - t as int)) / 65536) * 17895 <= 16384 * 17895)
            by (nonlinear_arith)
            requires
                0 <= ((t as int * (65536 - t as int)) / 65536) <= 16384,
        ;
        vstd::arithmetic::div_mod::lemma_div_is_ordered(
            ((t as int * (65536 - t as int)) / 65536) * 17895,
            16384int * 17895,
            65536,
        );
        vstd::arithmetic::mul::lemma_mul_nonnegative(
            (t as int * (65536 - t as int)) / 65536,
            17895,
        );
        vstd::arithmetic::div_mod::lemma_div_pos_is_pos(
            ((t as int * (65536 - t as int)) / 65536) * 17895,
            65536,
        );
    }
    lin + cor
}

/// One quadrature (I/Q) sample.
#[derive(Debug, Clone, Copy, PartialEq, Eq, Structural)]
pub struct IqSample {
    /// In-phase component.
    pub i: i32,
    /// Quadrature component.
    pub q: i32,
}

impl IqSample {
    /// Build a sample from signed components.
    pub fn new(i: i32, q: i32) -> (s: IqSample)
        ensures
            s.i == i,
            s.q == q,
    {
        IqSample { i, q }
    }

    /// Build a sample from the unsigned bytes a tuner delivers, centred
    /// on 127.
    pub fn from_u8(i: u8, q: u8) -> (s: IqSample)
        ensures
            s.i as int == i as int - 127,
            s.q as int == q as int - 127,
    {
        IqSample { i: i as i32 - 127, q: q as i32 - 127 }
    }

    /// Squared length times one fixed-point unit squared; its square
    /// root is the fixed-point magnitude.
    pub open spec fn spec_magnitude(&self) -> int {
        isqrt_spec(
            (self.i as int * self.i as int + self.q as int * self.q as int) * 65536 * 65536,
        )
    }

    /// Fixed-point length of the sample vector.
    pub fn magnitude(&self) -> (r: i64)
        ensures
            r as int == self.spec_magnitude(),
    {
        proof {
            assert(0 <= (self.i as int * self.i as int) && self.i as int * self.i as int
                <= 0x4000_0000_0000_0000) by (nonlinear_arith)
                requires
                    -0x8000_0000 <= self.i as int <= 0x7fff_ffff,
            ;
            assert(0 <= (self.q as int * self.q as int) && self.q as int * self.q as int
                <= 0x4000_0000_0000_0000) by (nonlinear_arith)
                requires
                    -0x8000_0000 <= self.q as int <= 0x7fff_ffff,
            ;
        }
        let sq: u128 = (self.i as i128 * self.i as i128 + self.q as i128 * self.q as i128)
            as u128;
        let scaled: u128 = sq * 65536 * 65536;
        let root: u128 = isqrt_u128(scaled);
        proof {
            assert(root as int <= 0x1_0000_0000_0000) by (nonlinear_arith)
                requires
                    root as int * root as int <= scaled as int,
                    scaled as int <= 0x8000_0000_0000_0000_0000_0000,
                    0 <= root as int,
            ;
        }
        root as i64
    }

    /// Fixed-point phase angle of the sample vector, in radians.
    pub fn phase(&self) -> (r: i64)
        ensures
            r as int == atan2_spec(self.q as int, self.i as int),
    {
        atan2_fx(self.q as i64, self.i as i64)
    }
}

/// Four-quadrant arctangent over fixed-point components.
pub fn atan2_fx(q: i64, i: i64) -> (r: i64)
    requires
        -0x8000_0000 <= q <= 0x7fff_ffff,
        -0x8000_0000 <= i <= 0x7fff_ffff,
    ensures
        r as int == atan2_spec(q as int, i as int),
        -(PI_FX as int) <= r as int <= PI_FX as int,
{
    if i == 0 && q == 0 {
        return 0;
    }
    let aq: i64 = if q < 0 {
        -q
    } else {
        q
    };
    let ai: i64 = if i < 0 {
        -i
    } else {
        i
    };
    let base: i64 = if ai >= aq {
        let t: i64 = (((aq as u64) * 65536) / (ai as u64)) as i64;
        proof {
            vstd::arithmetic::div_mod::lemma_div_pos_is_pos(aq as int * 65536, ai as int);
            vstd::arithmetic::mul::lemma_mul_inequality(aq as int, ai as int, 65536);
            vstd::arithmetic::div_mod::lemma_div_is_ordered(
                aq as int * 65536,
                ai as int * 65536,
                ai as int,
            );
            vstd::arithmetic::div_mod::lemma_div_by_multiple(65536, ai as int);
            vstd::arithmetic::mul::lemma_mul_is_commutative(ai as int, 65536);
        }
        atan_unit(t)
    } else {
        let t: i64 = (((ai as u64) * 65536) / (aq as u64)) as i64;
        proof {
            vstd::arithmetic::div_mod::lemma_div_pos_is_pos(ai as int * 65536, aq as int);
            vstd::arithmetic::mul::lemma_mul_inequality(ai as int, aq as int, 65536);
            vstd::arithmetic::div_mod::lemma_div_is_ordered(
                ai as int * 65536,
                aq as int * 65536,
                aq as int,
            );
            vstd::arithmetic::div_mod::lemma_div_by_multiple(65536, aq as int);
            vstd::arithmetic::mul::lemma_mul_is_commutative(aq as int, 65536);
        }
        PI_2_FX - atan_unit(t)
    };
    if i >= 0 && q >= 0 {
        base
    } else if i < 0 && q >= 0 {
        PI_FX - base
    } else if i < 0 {
        base - PI_FX
    } else {
        -base
    }
}


/// Tuner-state faults.
#[derive(Debug, Clone, Copy, PartialEq, Eq, Structural)]
pub enum SdrError {
    /// The requested frequency lies outside the tuner's range.
    FrequencyOutOfRange,
}

/// Lowest frequency the tuner reaches, in hertz.
pub const TUNER_MIN_HZ: u64 = 24000000;

/// Highest frequency the tuner reaches, in hertz.
pub const TUNER_MAX_HZ: u64 = 1700000000;

/// Tuning state of an RTL2832U-style receiver.  The USB control and
/// bulk transfers that program the hardware and fetch samples are the
/// surrounding system's; this holds the frequency and rate they apply.
#[derive(Debug, Clone, Copy)]
pub struct RtlSdr {
    frequency: u64,
    sample_rate: u32,
}

impl RtlSdr {
    /// The tuned frequency, as seen by specifications.
    pub closed spec fn spec_frequency(&self) -> u64 {
        self.frequency
    }

    /// The sample rate, as seen by specifications.
    pub closed spec fn spec_sample_rate(&self) -> u32 {
        self.sample_rate
    }

    /// Receiver state with the default tuning: 100 MHz at 2.048 MHz.
    pub fn new() -> (r: RtlSdr)
        ensures
            r.spec_frequency() == 100000000,
            r.spec_sample_rate() == 2048000,
    {
        RtlSdr { frequency: 100000000, sample_rate: 2048000 }
    }

    /// The tuned frequency in hertz.
    pub fn get_frequency(&self) -> (r: u64)
        ensures
            r == self.spec_frequency(),
    {
        self.frequency
    }

    /// The sample rate in hertz.
    pub fn get_sample_rate(&self) -> (r: u32)
        ensures
            r == self.spec_sample_rate(),
    {
        self.sample_rate
    }

    /// Retune the receiver; fails if and only if the frequency lies
    /// outside the tuner's range, leaving the state unchanged.
    pub fn tune(&mut self, frequency: u64) -> (r: Result<(), SdrError>)
        ensures
            final(self).spec_sample_rate() == old(self).spec_sample_rate(),
            match r {
                Ok(()) => TUNER_MIN_HZ <= frequency <= TUNER_MAX_HZ
                    && final(self).spec_frequency() == frequency,
                Err(e) => {
                    &&& e == SdrError::FrequencyOutOfRange
                    &&& !(TUNER_MIN_HZ <= frequency <= TUNER_MAX_HZ)
                    &&& final(self).spec_frequency() == old(self).spec_frequency()
                },
            },
    {
        if frequency < TUNER_MIN_HZ || frequency > TUNER_MAX_HZ {
            return Err(SdrError::FrequencyOutOfRange);
        }
        self.frequency = frequency;
        Ok(())
    }
}

/// A phase difference folded into `(-pi, pi]`, in the fixed-point angle
/// encoding.
pub open spec fn wrap_phase_spec(d: int) -> int {
    if d > PI_FX as int {
        d - 2 * PI_FX as int
    } else if d < -(PI_FX as int) {
        d + 2 * PI_FX as int
    } else {
        d
    }
}

/// Audio value the FM discriminator yields for sample `k`: the wrapped
/// phase advance since the previous sample (or since the phase carried
/// over from the previous buffer).
pub open spec fn fm_out_spec(prev: int, s: Seq<IqSample>, k: int) -> int {
    let ph = atan2_spec(s[k].q as int, s[k].i as int);
    let before = if k == 0 {
        prev
    } else {
        atan2_spec(s[k - 1].q as int, s[k - 1].i as int)
    };
    wrap_phase_spec(ph - before)
}

/// FM discriminator: audio is the derivative of the phase.
#[derive(Debug, Clone, Copy)]
pub struct FmDemodulator {
    /// Input sample rate in hertz.
    pub sample_rate: u32,
    /// Phase of the last sample of the previous buffer.
    pub last_phase: i64,
}

impl FmDemodulator {
    /// Discriminator for the given input rate, starting at phase zero.
    pub fn new(sample_rate: u32) -> (r: FmDemodulator)
        ensures
            r.sample_rate == sample_rate,
            r.last_phase == 0,
    {
        FmDemodulator { sample_rate, last_phase: 0 }
    }

    /// Demodulate one buffer of quadrature samples into one audio value
    /// per sample.
    pub fn demodulate(&mut self, samples: &[IqSample]) -> (r: Vec<i64>)
        requires
            -(PI_FX as int) <= old(self).last_phase <= PI_FX as int,
        ensures
            final(self).sample_rate == old(self).sample_rate,
            r@.len() == samples@.len(),
            forall|k: int|
                0 <= k < samples@.len() ==> #[trigger] r@[k] as int == fm_out_spec(
                    old(self).last_phase as int,
                    samples@,
                    k,
                ),
            -(PI_FX as int) <= final(self).last_phase <= PI_FX as int,
            samples@.len() == 0 ==> final(self).last_phase == old(self).last_phase,
            samples@.len() > 0 ==> final(self).last_phase as int == atan2_spec(
                samples@.last().q as int,
                samples@.last().i as int,
            ),
    {
        let n: usize = samples.len();
        let mut out: Vec<i64> = Vec::new();
        let mut prev: i64 = self.last_phase;
        let mut k: usize = 0;
        while k < n
            invariant
                0 <= k <= n,
                n == samples@.len(),
                self.sample_rate == old(self).sample_rate,
                self.last_phase == old(self).last_phase,
                out@.len() == k,
                forall|j: int|
                    0 <= j < k ==> #[trigger] out@[j] as int == fm_out_spec(
                        old(self).last_phase as int,
                        samples@,
                        j,
                    ),
                k == 0 ==> prev == old(self).last_phase,
                k > 0 ==> prev as int == atan2_spec(
                    samples@[k - 1].q as int,
                    samples@[k - 1].i as int,
                ),
                -(PI_FX as int) <= prev as int <= PI_FX as int,
            decreases n - k,
        {
            let s = samples[k];
            let ph: i64 = atan2_fx(s.q as i64, s.i as i64);
            let d: i64 = ph - prev;
            let w: i64 = if d > PI_FX {
                d - 2 * PI_FX
            } else if d < -PI_FX {
                d + 2 * PI_FX
            } else {
                d
            };
            out.push(w);
            prev = ph;
            k += 1;
        }
        if n > 0 {
            self.last_phase = prev;
        }
        out
    }
}

/// AM envelope detector: audio is the sample magnitude less a stored
/// direct-current offset.
#[derive(Debug, Clone, Copy)]
pub struct AmDemodulator {
    /// Offset subtracted from every magnitude.
    pub dc_offset: i64,
}

impl AmDemodulator {
    /// Detector with no offset.
    pub fn new() -> (r: AmDemodulator)
        ensures
            r.dc_offset == 0,
    {
        AmDemodulator { dc_offset: 0 }
    }

    /// Demodulate one buffer: each output is the saturated difference
    /// of the sample magnitude and the stored offset.
    pub fn demodulate(&self, samples: &[IqSample]) -> (r: Vec<i64>)
        ensures
            r@.len() == samples@.len(),
            forall|k: int|
                0 <= k < samples@.len() ==> #[trigger] r@[k] as int == crate::fixed::sat_fx(
                    samples@[k].spec_magnitude() - self.dc_offset as int,
                ),
    {
        let n: usize = samples.len();
        let mut out: Vec<i64> = Vec::new();
        let mut k: usize = 0;
        while k < n
            invariant
                0 <= k <= n,
                n == samples@.len(),
                out@.len() == k,
                forall|j: int|
                    0 <= j < k ==> #[trigger] out@[j] as int == crate::fixed::sat_fx(
                        samples@[j].spec_magnitude() - self.dc_offset as int,
                    ),
            decreases n - k,
        {
            let m: i64 = samples[k].magnitude();
            let v: i64 = crate::fixed::sat_fx_i128(m as i128 - self.dc_offset as i128);
            out.push(v);
            k += 1;
        }
        out
    }
}

/// Sample-rate reducer: keeps every `factor`-th sample.
#[derive(Debug, Clone, Copy)]
pub struct Decimator {
    /// Input samples consumed per output sample.
    pub factor: usize,
    /// Input sample rate in hertz.
    pub sample_rate: u32,
}

impl Decimator {
    /// Reducer keeping one in `factor` samples of an input stream at
    /// the given rate.
    pub fn new(factor: usize, sample_rate: u32) -> (r: Decimator)
        ensures
            r.factor == factor,
            r.sample_rate == sample_rate,
    {
        Decimator { factor, sample_rate }
    }

    /// Keep every `factor`-th sample, starting with the first.
    pub fn decimate(&self, input: &[i64]) -> (r: Vec<i64>)
        requires
            self.factor >= 1,
        ensures
            r@.len() == input@.len() as int / self.factor as int,
            forall|k: int|
                0 <= k < r@.len() ==> #[trigger] r@[k] == input@[k * self.factor as int],
    {
        let n: usize = input.len();
        let count: usize = n / self.factor;
        proof {
            vstd::arithmetic::div_mod::lemma_fundamental_div_mod(n as int, self.factor as int);
            vstd::arithmetic::div_mod::lemma_mod_pos_bound(n as int, self.factor as int);
        }
        let mut out: Vec<i64> = Vec::new();
        let mut k: usize = 0;
        while k < count
            invariant
                0 <= k <= count,
                n == input@.len(),
                self.factor >= 1,
                count as int == n as int / self.factor as int,
                n as int == self.factor as int * (n as int / self.factor as int) + n as int
                    % self.factor as int,
                n as int % self.factor as int >= 0,
                out@.len() == k,
                forall|j: int|
                    0 <= j < k ==> #[trigger] out@[j] == input@[j * self.factor as int],
            decreases count - k,
        {
            proof {
                assert(0 <= k as int * self.factor as int && (k as int
                    * self.factor as int) < n as int) by (nonlinear_arith)
                    requires
                        0 <= k as int && (k as int) < count as int,
                        count as int == n as int / self.factor as int,
                        self.factor as int >= 1,
                        n as int == self.factor as int * (n as int / self.factor as int)
                            + n as int % self.factor as int,
                        n as int % self.factor as int >= 0,
                ;
            }
            out.push(input[k * self.factor]);
            k += 1;
        }
        out
    }
}


/// Full turn (two pi) in the Q16.16 angle encoding.
pub const TWO_PI_FX: i64 = 411774;

/// Sine of an angle in the first quarter turn: a three-term Taylor
/// polynomial, clipped into one unit.
pub open spec fn sin_quarter_spec(u: int) -> int {
    let u2 = (u * u) / 65536;
    let u3 = (u2 * u) / 65536;
    let u5 = (((u3 * u) / 65536) * u) / 65536;
    let s = u - u3 / 6 + u5 / 120;
    if s > 65536 {
        65536
    } else if s < 0 {
        0
    } else {
        s
    }
}

/// Sine of a non-negative fixed-point angle in radians, by reduction
/// into one turn and quadrant symmetry.
pub open spec fn sin_spec(x: int) -> int {
    let t = x % (TWO_PI_FX as int);
    if t <= PI_2_FX as int {
        sin_quarter_spec(t)
    } else if t <= PI_FX as int {
        sin_quarter_spec(PI_FX as int - t)
    } else if t <= PI_FX as int + PI_2_FX as int {
        -sin_quarter_spec(t - PI_FX as int)
    } else {
        -sin_quarter_spec(TWO_PI_FX as int - t)
    }
}

fn sin_quarter(u: u64) -> (r: i64)
    requires
        u <= 102943,
    ensures
        r as int == sin_quarter_spec(u as int),
        0 <= r <= 65536,
{
    proof {
        assert(0 <= (u as int * u as int) && u as int * u as int <= 102943 * 102943)
            by (nonlinear_arith)
            requires
                0 <= u as int <= 102943,
        ;
        assert((u as int * u as int) / 65536 <= 161702) by (nonlinear_arith)
            requires
                0 <= (u as int * u as int) && u as int * u as int <= 102943 * 102943,
        ;
    }
    let u2: u64 = (u * u) / 65536;
    proof {
        assert(0 <= (u2 as int * u as int) && u2 as int * u as int <= 161702 * 102943)
            by (nonlinear_arith)
            requires
                0 <= u2 as int <= 161702,
                0 <= u as int <= 102943,
        ;
        assert((u2 as int * u as int) / 65536 <= 254000) by (nonlinear_arith)
            requires
                0 <= (u2 as int * u as int) && u2 as int * u as int <= 161702 * 102943,
        ;
    }
    let u3: u64 = (u2 * u) / 65536;
    proof {
        assert(0 <= (u3 as int * u as int) && u3 as int * u as int <= 254000 * 102943)
            by (nonlinear_arith)
            requires
                0 <= u3 as int <= 254000,
                0 <= u as int <= 102943,
        ;
        assert((u3 as int * u as int) / 65536 <= 398980) by (nonlinear_arith)
            requires
                0 <= (u3 as int * u as int) && u3 as int * u as int <= 254000 * 102943,
        ;
    }
    let u4: u64 = (u3 * u) / 65536;
    proof {
        assert(0 <= (u4 as int * u as int) && u4 as int * u as int <= 398980 * 102943)
            by (nonlinear_arith)
            requires
                0 <= u4 as int <= 398980,
                0 <= u as int <= 102943,
        ;
    }
    let u5: u64 = (u4 * u) / 65536;
    let s: i64 = u as i64 - (u3 / 6) as i64 + (u5 / 120) as i64;
    if s > 65536 {
        65536
    } else if s < 0 {
        0
    } else {
        s
    }
}

/// Sine of a non-negative fixed-point angle.
pub fn sin_fx(x: i64) -> (r: i64)
    requires
        x >= 0,
    ensures
        r as int == sin_spec(x as int),
        -65536 <= r <= 65536,
{
    let t: i64 = ((x as u64) % (TWO_PI_FX as u64)) as i64;
    if t <= PI_2_FX {
        sin_quarter(t as u64)
    } else if t <= PI_FX {
        sin_quarter((PI_FX - t) as u64)
    } else if t <= PI_FX + PI_2_FX {
        -sin_quarter((t - PI_FX) as u64)
    } else {
        -sin_quarter((TWO_PI_FX - t) as u64)
    }
}

/// Coefficient `k` of the windowed-sinc low-pass filter: the ideal
/// impulse response `sin(wc n) / (pi n)` (with `2 fc / fs` at the
/// centre), shaped by a triangular window.
pub open spec fn lp_coeff_spec(cutoff_hz: int, sample_rate_hz: int, taps: int, k: int) -> int
    recommends
        sample_rate_hz >= 1,
        taps >= 1,
{
    let mid = taps / 2;
    let m = if k >= mid {
        k - mid
    } else {
        mid - k
    };
    let w = 65536 - (m * 65536) / (mid + 1);
    let h = if m == 0 {
        (131072 * cutoff_hz) / sample_rate_hz
    } else {
        let wc = (2 * PI_FX as int * cutoff_hz) / sample_rate_hz;
        (sin_spec(wc * m) * 65536) / (PI_FX as int * m)
    };
    (h * w) / 65536
}

/// Finite-impulse-response low-pass filter: a windowed-sinc design in
/// fixed point.
#[derive(Debug, Clone)]
pub struct LowPassFilter {
    /// Filter taps, centre in the middle.
    pub coefficients: Vec<i64>,
    /// Cutoff frequency in hertz.
    pub cutoff_hz: u32,
    /// Sample rate in hertz.
    pub sample_rate_hz: u32,
}

impl LowPassFilter {
    /// Design a filter with `taps` coefficients for the given cutoff
    /// and sample rate.
    pub fn new(cutoff_hz: u32, sample_rate_hz: u32, taps: usize) -> (r: LowPassFilter)
        requires
            sample_rate_hz >= 1,
            1 <= taps <= 1025,
            cutoff_hz <= sample_rate_hz,
        ensures
            r.cutoff_hz == cutoff_hz,
            r.sample_rate_hz == sample_rate_hz,
            r.coefficients@.len() == taps,
            forall|k: int|
                0 <= k < taps ==> #[trigger] r.coefficients@[k] as int == lp_coeff_spec(
                    cutoff_hz as int,
                    sample_rate_hz as int,
                    taps as int,
                    k,
                ),
    {
        let mid: usize = taps / 2;
        let wc: u64 = (411774u64 * (cutoff_hz as u64)) / (sample_rate_hz as u64);
        let h0: i64 = ((131072u64 * (cutoff_hz as u64)) / (sample_rate_hz as u64)) as i64;
        proof {
            vstd::arithmetic::div_mod::lemma_div_pos_is_pos(
                131072 * cutoff_hz as int,
                sample_rate_hz as int,
            );
            vstd::arithmetic::mul::lemma_mul_inequality(
                cutoff_hz as int,
                sample_rate_hz as int,
                131072,
            );
            vstd::arithmetic::mul::lemma_mul_is_commutative(cutoff_hz as int, 131072);
            vstd::arithmetic::mul::lemma_mul_is_commutative(sample_rate_hz as int, 131072);
            vstd::arithmetic::div_mod::lemma_multiply_divide_le(
                131072 * cutoff_hz as int,
                sample_rate_hz as int,
                131072,
            );
            vstd::arithmetic::div_mod::lemma_div_pos_is_pos(
                2 * PI_FX as int * cutoff_hz as int,
                sample_rate_hz as int,
            );
            vstd::arithmetic::mul::lemma_mul_inequality(
                cutoff_hz as int,
                sample_rate_hz as int,
                411774,
            );
            vstd::arithmetic::mul::lemma_mul_is_commutative(cutoff_hz as int, 411774);
            vstd::arithmetic::mul::lemma_mul_is_commutative(sample_rate_hz as int, 411774);
            vstd::arithmetic::div_mod::lemma_multiply_divide_le(
                411774 * cutoff_hz as int,
                sample_rate_hz as int,
                411774,
            );
            vstd::arithmetic::mul::lemma_mul_nonnegative(PI_FX as int * 2, cutoff_hz as int);
        }
        let mut coefficients: Vec<i64> = Vec::new();
        let mut k: usize = 0;
        while k < taps
            invariant
                0 <= k <= taps,
                1 <= taps <= 1025,
                mid == taps / 2,
                mid < taps,
                sample_rate_hz >= 1,
                wc as int == (2 * PI_FX as int * cutoff_hz as int) / sample_rate_hz as int,
                0 <= wc <= 411774,
                h0 as int == (131072 * cutoff_hz as int) / sample_rate_hz as int,
                0 <= h0 <= 131072,
                coefficients@.len() == k,
                forall|j: int|
                    0 <= j < k ==> #[trigger] coefficients@[j] as int == lp_coeff_spec(
                        cutoff_hz as int,
                        sample_rate_hz as int,
                        taps as int,
                        j,
                    ),
            decreases taps - k,
        {
            let m: u64 = if k >= mid {
                (k - mid) as u64
            } else {
                (mid - k) as u64
            };
            let w: i64 = 65536 - ((m * 65536) / (mid as u64 + 1)) as i64;
            proof {
                assert(m as int * 65536 <= 1025 * 65536) by (nonlinear_arith)
                    requires
                        0 <= m as int <= 1025,
                ;
                vstd::arithmetic::div_mod::lemma_div_pos_is_pos(
                    m as int * 65536,
                    mid as int + 1,
                );
                vstd::arithmetic::div_mod::lemma_div_is_ordered(
                    m as int * 65536,
                    1025int * 65536,
                    mid as int + 1,
                );
                vstd::arithmetic::div_mod::lemma_div_is_ordered_by_denominator(
                    1025int * 65536,
                    1,
                    mid as int + 1,
                );
            }
            let h: i64 = if m == 0 {
                h0
            } else {
                proof {
                    assert(0 <= (wc as int * m as int) && wc as int * m as int <= 411774
                        * 1025) by (nonlinear_arith)
                        requires
                            0 <= wc as int <= 411774,
                            0 <= m as int <= 1025,
                    ;
                }
                let s: i64 = sin_fx((wc * m) as i64);
                let denom: i64 = PI_FX * (m as i64);
                proof {
                    assert(PI_FX as int * m as int >= 205887) by (nonlinear_arith)
                        requires
                            m as int >= 1,
                    ;
                    assert(PI_FX as int * m as int <= 205887 * 1025) by (nonlinear_arith)
                        requires
                            m as int <= 1025,
                    ;
                }
                let q: i128 = crate::fixed::div_floor_i128(
                    (s as i128) * 65536,
                    denom as i128,
                );
                proof {
                    vstd::arithmetic::mul::lemma_mul_inequality(s as int, 65536, 65536);
                    vstd::arithmetic::mul::lemma_mul_inequality(-65536, s as int, 65536);
                    vstd::arithmetic::mul::lemma_mul_is_commutative(s as int, 65536);
                    vstd::arithmetic::div_mod::lemma_div_is_ordered(
                        s as int * 65536,
                        4294967296,
                        denom as int,
                    );
                    vstd::arithmetic::div_mod::lemma_div_is_ordered(
                        -4294967296,
                        s as int * 65536,
                        denom as int,
                    );
                    vstd::arithmetic::div_mod::lemma_fundamental_div_mod(
                        4294967296,
                        denom as int,
                    );
                    vstd::arithmetic::div_mod::lemma_mod_pos_bound(4294967296, denom as int);
                    assert(4294967296int / denom as int <= 65536) by (nonlinear_arith)
                        requires
                            denom as int >= 205887,
                            4294967296int == denom as int * (4294967296int / denom as int)
                                + 4294967296int % denom as int,
                            0 <= 4294967296int % denom as int,
                    ;
                    vstd::arithmetic::div_mod::lemma_fundamental_div_mod(
                        -4294967296,
                        denom as int,
                    );
                    vstd::arithmetic::div_mod::lemma_mod_bound(-4294967296, denom as int);
                    assert(-4294967296int / denom as int >= -65537) by (nonlinear_arith)
                        requires
                            denom as int >= 205887,
                            -4294967296int == denom as int * (-4294967296int / denom as int)
                                + (-4294967296int) % denom as int,
                            0 <= (-4294967296int) % denom as int && ((-4294967296int)
                                % denom as int) < denom as int,
                    ;
                }
                q as i64
            };
            proof {
                vstd::arithmetic::div_mod::lemma_fundamental_div_mod(taps as int, 2);
                assert(m as int <= mid as int + 1) by (nonlinear_arith)
                    requires
                        mid as int == taps as int / 2,
                        taps as int == 2 * (taps as int / 2) + taps as int % 2,
                        0 <= taps as int % 2 && (taps as int % 2) < 2,
                        (m as int == 0) || (0 <= m as int && m as int + mid as int
                            <= taps as int - 1) || (m as int <= mid as int),
                ;
                vstd::arithmetic::mul::lemma_mul_inequality(m as int, mid as int + 1, 65536);
                vstd::arithmetic::div_mod::lemma_multiply_divide_le(
                    m as int * 65536,
                    mid as int + 1,
                    65536,
                );
                assert(0 <= w as int <= 65536);
                assert(-131073 * 65536 <= (h as int * w as int) && (h as int * w as int)
                    <= 131073 * 65536) by (nonlinear_arith)
                    requires
                        -131073 <= h as int <= 131073,
                        0 <= w as int <= 65536,
                ;
                vstd::arithmetic::div_mod::lemma_div_is_ordered(
                    h as int * w as int,
                    131073int * 65536,
                    65536,
                );
                vstd::arithmetic::div_mod::lemma_div_is_ordered(
                    -131073 * 65536,
                    h as int * w as int,
                    65536,
                );
            }
            let cq: i128 = crate::fixed::div_floor_i128(
                (h as i128) * (w as i128),
                65536,
            );
            let c: i64 = cq as i64;
            coefficients.push(c);
            k += 1;
        }
        LowPassFilter { coefficients, cutoff_hz, sample_rate_hz }
    }
}

} // verus!

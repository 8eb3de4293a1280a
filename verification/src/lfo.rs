//! A low-frequency oscillator that reads one cycle of a waveform out of a
//! table, between its entries where the phase falls between them.

use vstd::prelude::*;
use crate::error::InvalidCapacity;
use crate::fixed::Fixed;
use crate::ring_buffer::RingBuffer;

verus! {

/// The parameters of the oscillator that can be changed.
#[derive(Debug, Clone, Copy, PartialEq, Eq, Structural)]
pub enum LfoParam {
    /// Cycles per second.
    ModFreq,
    /// What the table's values are multiplied by.
    Amplitude,
}

/// What an oscillator is: one cycle of its waveform, its settings, and the
/// place in the table where it stands, as a scaled integer.
pub struct LfoModel {
    pub table: Seq<Fixed>,
    pub sample_freq: int,
    pub mod_freq: Fixed,
    pub amplitude: Fixed,
    pub phase: int,
}

impl LfoModel {
    /// The longest table that an oscillator takes.
    pub open spec fn max_table() -> int {
        0x7fff_ffff
    }

    /// A table of a length that can be held, a positive sample rate, and a
    /// phase within one period.
    pub open spec fn wf(self) -> bool {
        &&& 1 <= self.table.len() <= Self::max_table()
        &&& self.sample_freq >= 1
        &&& 0 <= self.phase < self.period()
    }

    /// The length of the table as a scaled integer: where the phase wraps.
    pub open spec fn period(self) -> int {
        self.table.len() * Fixed::scale()
    }

    /// How far the phase goes in one sample, as a scaled integer: the
    /// frequency times the table's length over the sample rate, rounded down
    /// and taken within one period.
    pub open spec fn step(self) -> int {
        ((self.mod_freq@ * self.table.len()) / self.sample_freq) % self.period()
    }

    /// The phase `k` samples from now.
    pub open spec fn phase_at(self, k: int) -> int {
        (self.phase + k * self.step()) % self.period()
    }

    /// The waveform at a place in the table: between the entry at the floor
    /// of `position` and the next one, which after the last is the first.
    pub open spec fn table_at(self, position: int) -> Fixed {
        let whole = position / Fixed::scale();
        let part = Fixed { raw: (position % Fixed::scale()) as i64 };
        self.table[whole % (self.table.len() as int)].lerp_spec(
            self.table[(whole + 1) % (self.table.len() as int)],
            part,
        )
    }

    /// The value of the oscillator `k` samples from now.
    pub open spec fn value_at(self, k: int) -> Fixed {
        self.amplitude.mul_spec(self.table_at(self.phase_at(k)))
    }

    /// The oscillator `k` samples from now.
    pub open spec fn advanced(self, k: int) -> LfoModel {
        LfoModel { phase: self.phase_at(k), ..self }
    }

    /// The oscillator with `param` set to `value`.
    pub open spec fn with_param(self, param: LfoParam, value: Fixed) -> LfoModel {
        match param {
            LfoParam::ModFreq => LfoModel { mod_freq: value, ..self },
            LfoParam::Amplitude => LfoModel { amplitude: value, ..self },
        }
    }
}

/// The phase stays within one period, however far the oscillator goes.
pub proof fn lemma_phase_in_period(m: LfoModel, k: int)
    requires
        m.wf(),
    ensures
        0 <= m.phase_at(k) < m.period(),
        0 <= m.step() < m.period(),
        m.advanced(k).wf(),
{
    crate::modular::lemma_mod_range(m.phase + k * m.step(), m.period());
    crate::modular::lemma_mod_range((m.mod_freq@ * m.table.len()) / m.sample_freq, m.period());
}

/// Going `a` samples and then `b` samples is going `a + b` samples: the
/// oscillator ends in the same place and gives the same values on the way,
/// however a stream is cut into blocks.
pub proof fn lemma_advance_adds(m: LfoModel, a: int, b: int)
    requires
        m.wf(),
    ensures
        m.advanced(a).advanced(b) == m.advanced(a + b),
        m.advanced(a).value_at(b) == m.value_at(a + b),
        m.advanced(0) == m,
{
    let step: int = m.step();
    let period: int = m.period();
    assert(m.advanced(a).step() == step);
    assert((a + b) * step == a * step + b * step) by (nonlinear_arith);
    crate::modular::lemma_mod_add_left(m.phase + a * step, b * step, period);
    assert(0 * step == 0) by (nonlinear_arith);
    crate::modular::lemma_mod_small(m.phase, period);
}

/// A frequency together with the step of the phase that it comes to.
#[derive(Clone, Copy)]
struct Pace {
    mod_freq: Fixed,
    step: u64,
}

/// An oscillator over a table that holds one cycle of a waveform.
pub struct WaveTableLfo {
    wave_table: RingBuffer<Fixed>,
    pace: Pace,
    amplitude: Fixed,
    sample_freq: u32,
    phase: u64,
}

impl View for WaveTableLfo {
    type V = LfoModel;

    closed spec fn view(&self) -> LfoModel {
        LfoModel {
            table: self.wave_table@.slots,
            sample_freq: self.sample_freq as int,
            mod_freq: self.pace.mod_freq,
            amplitude: self.amplitude,
            phase: self.phase as int,
        }
    }
}

impl WaveTableLfo {
    #[verifier::type_invariant]
    spec fn inv(self) -> bool {
        &&& self@.wf()
        &&& self.wave_table@.wf()
        &&& self.wave_table@.read == 0
        &&& self.pace.step == self@.step()
    }

    /// An oscillator at the start of `wave_table`, which holds one cycle of
    /// the waveform.
    ///
    /// Refused: an empty table, one of more than `2^31 - 1` entries, and a
    /// sample rate of zero.
    pub fn new(sample_freq: u32, mod_freq: Fixed, amplitude: Fixed, wave_table: Vec<Fixed>) -> (r:
        Result<Self, InvalidCapacity>)
        ensures
            r is Ok <==> 1 <= wave_table@.len() <= LfoModel::max_table() && sample_freq >= 1,
            r matches Ok(lfo) ==> {
                &&& lfo@.wf()
                &&& lfo@.table == wave_table@
                &&& lfo@.sample_freq == sample_freq
                &&& lfo@.mod_freq == mod_freq
                &&& lfo@.amplitude == amplitude
                &&& lfo@.phase == 0
            },
    {
        let len: usize = wave_table.len();
        if len == 0 || len > 0x7fff_ffff || sample_freq == 0 {
            return Err(InvalidCapacity);
        }
        let mut table: RingBuffer<Fixed> = match RingBuffer::new(len) {
            Ok(table) => table,
            Err(e) => {
                return Err(e);
            },
        };
        let mut i: usize = 0;
        while i < len
            invariant
                i <= len,
                len == wave_table@.len(),
                1 <= len <= 0x7fff_ffff,
                table@.wf(),
                table@.capacity() == len,
                table@.write == (i as int) % (len as int),
                forall|j: int| 0 <= j < i ==> #[trigger] table@.slots[j] == wave_table@[j],
            decreases len - i,
        {
            proof {
                crate::modular::lemma_mod_small(i as int, len as int);
                crate::modular::lemma_mod_add_left(i as int, 1, len as int);
            }
            table.push(wave_table[i]);
            i = i + 1;
        }
        table.set_read_index(0);
        proof {
            crate::modular::lemma_mod_small(0, len as int);
            assert(table@.slots =~= wave_table@);
        }
        let step: u64 = Self::step_for(mod_freq, len, sample_freq);
        Ok(
            WaveTableLfo {
                wave_table: table,
                pace: Pace { mod_freq, step },
                amplitude,
                sample_freq,
                phase: 0,
            },
        )
    }

    /// The value `index` samples from now; the oscillator stays where it is.
    pub fn get_value_at_sample_index(&self, index: usize) -> (r: Fixed)
        ensures
            r == self@.value_at(index as int),
            self@.wf(),
    {
        proof {
            use_type_invariant(self);
        }
        let position: u64 = self.phase_after(index);
        let ghost table = self.wave_table@;
        let ghost whole: int = position as int / Fixed::scale();
        proof {
            let len: int = table.capacity();
            crate::modular::lemma_mod_add_left(whole, 1, len);
        }
        let value: Fixed = self.wave_table.get_fractional(Fixed::from_raw(position as i64));
        self.amplitude.saturating_mul(value)
    }

    /// The value now; the oscillator stays where it is.
    pub fn get_value(&self) -> (r: Fixed)
        ensures
            r == self@.value_at(0),
            self@.wf(),
    {
        self.get_value_at_sample_index(0)
    }

    /// The value now; the oscillator then goes one sample on.
    pub fn next(&mut self) -> (r: Fixed)
        ensures
            r == old(self)@.value_at(0),
            final(self)@ == old(self)@.advanced(1),
            final(self)@.wf(),
    {
        let value: Fixed = self.get_value_at_sample_index(0);
        self.update_phase(1);
        value
    }

    /// Takes the oscillator `processed_samples` samples on.
    pub fn update_phase(&mut self, processed_samples: usize)
        ensures
            final(self)@ == old(self)@.advanced(processed_samples as int),
            final(self)@.wf(),
    {
        proof {
            use_type_invariant(&*self);
            lemma_phase_in_period(self@, processed_samples as int);
        }
        let position: u64 = self.phase_after(processed_samples);
        self.phase = position;
    }

    /// Sets the frequency or the amplitude; the phase stays.
    pub fn set_value(&mut self, param: LfoParam, value: Fixed)
        ensures
            final(self)@ == old(self)@.with_param(param, value),
            final(self)@.wf(),
    {
        proof {
            use_type_invariant(&*self);
        }
        match param {
            LfoParam::ModFreq => {
                let step: u64 = Self::step_for(
                    value,
                    self.wave_table.capacity(),
                    self.sample_freq,
                );
                self.pace = Pace { mod_freq: value, step };
            },
            LfoParam::Amplitude => {
                self.amplitude = value;
            },
        }
    }

    /// The frequency or the amplitude.
    pub fn get_param(&self, param: LfoParam) -> (r: Fixed)
        ensures
            r == match param {
                LfoParam::ModFreq => self@.mod_freq,
                LfoParam::Amplitude => self@.amplitude,
            },
    {
        match param {
            LfoParam::ModFreq => self.pace.mod_freq,
            LfoParam::Amplitude => self.amplitude,
        }
    }

    /// The phase `count` samples from now.
    fn phase_after(&self, count: usize) -> (r: u64)
        ensures
            r == self@.phase_at(count as int),
            r < self@.period(),
            self@.period() <= 0x7fff_ffff_0000_0000,
    {
        proof {
            use_type_invariant(self);
            lemma_phase_in_period(self@, count as int);
        }
        let period: u128 = (self.wave_table.capacity() as u128) * 0x1_0000_0000;
        let far: u128 = count as u128;
        let step: u128 = self.pace.step as u128;
        proof {
            crate::fixed::lemma_product_bound(
                far as int,
                step as int,
                0xffff_ffff_ffff_ffff,
                0x7fff_ffff_0000_0000,
            );
        }
        let position: u128 = (self.phase as u128 + far * step) % period;
        position as u64
    }

    /// The step of the phase for a frequency, a table length and a sample
    /// rate.
    fn step_for(mod_freq: Fixed, len: usize, sample_freq: u32) -> (r: u64)
        requires
            1 <= len <= 0x7fff_ffff,
            sample_freq >= 1,
        ensures
            r == ((mod_freq@ * len) / (sample_freq as int)) % (len * Fixed::scale()),
    {
        let period: i128 = (len as i128) * 0x1_0000_0000;
        proof {
            crate::fixed::lemma_product_bound(
                mod_freq@,
                len as int,
                0x8000_0000_0000_0000,
                0x7fff_ffff,
            );
        }
        let turns: i128 = (mod_freq.raw() as i128) * (len as i128);
        let per_sample: i128 = crate::modular::div_floor(turns, sample_freq as i128);
        proof {
            crate::modular::lemma_div_monotone(
                -0x8000_0000_0000_0000 * 0x7fff_ffff,
                turns as int,
                sample_freq as int,
            );
            crate::modular::lemma_div_bound(
                -0x8000_0000_0000_0000 * 0x7fff_ffff,
                sample_freq as int,
            );
        }
        let step: i128 = crate::modular::mod_floor(per_sample, period);
        step as u64
    }
}

} // verus!

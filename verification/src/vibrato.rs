//! A vibrato: each channel goes through a delay line that is read at a
//! distance which an oscillator moves around a base delay.

use vstd::prelude::*;
use crate::block::Run;
use crate::error::Error;
use crate::fixed::Fixed;
use crate::lfo::LfoModel;
use crate::lfo::LfoParam;
use crate::lfo::WaveTableLfo;
use crate::ring_buffer::RingBuffer;

verus! {

/// The parameters that can be changed after construction.
#[derive(Debug, Clone, Copy, PartialEq, Eq, Structural)]
pub enum VibratoParam {
    /// Cycles of the modulation per second.
    Frequency,
    /// The furthest that the delay goes from the base delay, in seconds.
    Depth,
}

/// The longest base delay in samples that a vibrato takes.
pub open spec fn max_base() -> int {
    0x3fff_ffff
}

/// Whether every entry of a waveform lies between minus one and one.
pub open spec fn unit_table(table: Seq<Fixed>) -> bool {
    forall|i: int| 0 <= i < table.len() ==> -Fixed::scale() <= (#[trigger] table[i])@ <= Fixed::scale()
}

/// Where the delay line is read when the oscillator gives `swing`: at the
/// base delay plus the swing, in samples, counted back from the sample
/// written last, so as a negative number.
pub open spec fn read_offset(base: int, swing: Fixed) -> Fixed {
    Fixed::saturated(base * Fixed::scale()).add_spec(swing).neg_spec()
}

/// The sample at a fractional place `offset` (a scaled integer) from the end
/// of a history, which is ordered oldest first: between the sample at the
/// floor of `offset` and the next one, going round.
pub open spec fn read_at(history: Seq<Fixed>, offset: int) -> Fixed {
    let n = history.len() as int;
    let whole = offset / Fixed::scale();
    let part = Fixed { raw: (offset % Fixed::scale()) as i64 };
    history[(n - 1 + whole) % n].lerp_spec(history[(n - 1 + (whole + 1)) % n], part)
}

/// One channel run over `input`, sample by sample, from `history`: each
/// sample goes into the delay line, and the output is read behind it at the
/// distance that the oscillator gives for that sample.
pub open spec fn run(lfo: LfoModel, base: int, history: Seq<Fixed>, input: Seq<Fixed>) -> Run
    decreases input.len(),
{
    if input.len() == 0 {
        Run { history, output: Seq::empty() }
    } else {
        let before = run(lfo, base, history, input.drop_last());
        let held = before.history.drop_first().push(input.last());
        let y = read_at(held, read_offset(base, lfo.value_at(input.len() - 1))@);
        Run { history: held, output: before.output.push(y) }
    }
}

/// A run gives one output sample for each input sample, and leaves in the
/// delay line the most recent of what it held and what came in.
pub proof fn lemma_run_shape(lfo: LfoModel, base: int, history: Seq<Fixed>, input: Seq<Fixed>)
    requires
        history.len() >= 1,
    ensures
        run(lfo, base, history, input).output.len() == input.len(),
        run(lfo, base, history, input).history == crate::block::shifted(history, input),
    decreases input.len(),
{
    if input.len() == 0 {
        assert(crate::block::shifted(history, input) =~= history);
    } else {
        lemma_run_shape(lfo, base, history, input.drop_last());
        assert(run(lfo, base, history, input).history =~= crate::block::shifted(history, input));
    }
}

/// Processing a stream in two blocks gives what processing it in one gives:
/// the second block starts from the delay line that the first one left and
/// from the oscillator taken on by the length of the first.
pub proof fn lemma_block_split(
    lfo: LfoModel,
    base: int,
    history: Seq<Fixed>,
    first: Seq<Fixed>,
    second: Seq<Fixed>,
)
    requires
        lfo.wf(),
    ensures
        run(lfo, base, history, first + second).output == run(lfo, base, history, first).output
            + run(
            lfo.advanced(first.len() as int),
            base,
            run(lfo, base, history, first).history,
            second,
        ).output,
        run(lfo, base, history, first + second).history == run(
            lfo.advanced(first.len() as int),
            base,
            run(lfo, base, history, first).history,
            second,
        ).history,
    decreases second.len(),
{
    let head: Run = run(lfo, base, history, first);
    let later: LfoModel = lfo.advanced(first.len() as int);
    if second.len() == 0 {
        assert(first + second =~= first);
        assert(head.output + Seq::<Fixed>::empty() =~= head.output);
    } else {
        lemma_block_split(lfo, base, history, first, second.drop_last());
        assert((first + second).drop_last() =~= first + second.drop_last());
        assert((first + second).last() == second.last());
        crate::lfo::lemma_advance_adds(lfo, first.len() as int, second.len() - 1);
        let whole: Run = run(lfo, base, history, first + second);
        let tail: Run = run(later, base, head.history, second);
        assert(whole.output =~= head.output + tail.output);
    }
}

/// With no swing the delay line is read exactly `base` samples back.
pub proof fn lemma_read_at_base(history: Seq<Fixed>, base: int)
    requires
        0 <= base < history.len(),
        base <= max_base(),
    ensures
        read_at(history, read_offset(base, Fixed::zero_spec())@) == history[history.len() - 1 - base],
{
    let s: int = Fixed::scale();
    let n: int = history.len() as int;
    assert(-(base * s) == (-base) * s) by (nonlinear_arith);
    crate::modular::lemma_div_mod_unique(-(base * s), s, -base, 0);
    crate::modular::lemma_mod_small(n - 1 - base, n);
    crate::fixed::lemma_lerp_at_zero(history[n - 1 - base], history[(n - 1 + (-base + 1)) % n]);
}

/// With a depth of zero the output is the input delayed by the base delay:
/// sample `i` of the output is the input `base` samples earlier, and while
/// `i` is less than `base` it is what lay that far back in the delay line.
pub proof fn lemma_zero_depth(
    lfo: LfoModel,
    base: int,
    history: Seq<Fixed>,
    input: Seq<Fixed>,
    i: int,
)
    requires
        lfo.amplitude == Fixed::zero_spec(),
        0 <= base < history.len(),
        base <= max_base(),
        0 <= i < input.len(),
    ensures
        run(lfo, base, history, input).output[i] == if i >= base {
            input[i - base]
        } else {
            history[history.len() - base + i]
        },
    decreases input.len(),
{
    let front: Seq<Fixed> = input.drop_last();
    lemma_run_shape(lfo, base, history, front);
    if i < input.len() - 1 {
        lemma_zero_depth(lfo, base, history, front, i);
    } else {
        let before: Run = run(lfo, base, history, front);
        let held: Seq<Fixed> = before.history.drop_first().push(input.last());
        crate::fixed::lemma_mul_zero(lfo.table_at(lfo.phase_at(i)));
        lemma_read_at_base(held, base);
    }
}

/// With a waveform between minus one and one and a depth that in samples
/// is no more than the base delay, the delay line is read no nearer than
/// the sample written last and no further back than twice the base delay.
pub proof fn lemma_offset_in_range(lfo: LfoModel, base: int, k: int)
    requires
        lfo.wf(),
        unit_table(lfo.table),
        0 <= base <= max_base(),
        -(base * Fixed::scale()) <= lfo.amplitude@ <= base * Fixed::scale(),
    ensures
        -(2 * base * Fixed::scale()) <= read_offset(base, lfo.value_at(k))@ <= 0,
{
    let s: int = Fixed::scale();
    let position: int = lfo.phase_at(k);
    crate::lfo::lemma_phase_in_period(lfo, k);
    let len: int = lfo.table.len() as int;
    let whole: int = position / s;
    crate::modular::lemma_mod_range(whole, len);
    crate::modular::lemma_mod_range(whole + 1, len);
    crate::modular::lemma_mod_range(position, s);
    let from: Fixed = lfo.table[whole % len];
    let to: Fixed = lfo.table[(whole + 1) % len];
    let part: Fixed = Fixed { raw: (position % s) as i64 };
    crate::fixed::lemma_lerp_between(from, to, part);
    let wave: Fixed = lfo.table_at(position);
    assert(-s <= wave@ <= s);
    let a: int = lfo.amplitude@;
    let bound: int = base * s;
    assert(-(bound * s) <= a * wave@ <= bound * s) by (nonlinear_arith)
        requires
            -bound <= a <= bound,
            -s <= wave@ <= s,
            bound >= 0,
            s > 0,
    ;
    crate::modular::lemma_div_mod_unique(bound * s, s, bound, 0);
    assert(-(bound * s) == (-bound) * s) by (nonlinear_arith);
    crate::modular::lemma_div_mod_unique(-(bound * s), s, -bound, 0);
    crate::modular::lemma_div_monotone(-(bound * s), a * wave@, s);
    crate::modular::lemma_div_monotone(a * wave@, bound * s, s);
    assert(0 <= bound <= 0x3fff_ffff * 0x1_0000_0000) by (nonlinear_arith)
        requires
            bound == base * s,
            0 <= base <= 0x3fff_ffff,
            s == 0x1_0000_0000,
    ;
}

/// The first rule that a configuration breaks, if it breaks one.
pub open spec fn config_error(
    sample_rate_hz: u32,
    mod_depth_secs: Fixed,
    base_delay_secs: Fixed,
    num_channels: usize,
    wave_table: Seq<Fixed>,
) -> Option<Error<VibratoParam>> {
    if mod_depth_secs@ > base_delay_secs@ || mod_depth_secs@ < -base_delay_secs@ {
        Some(Error::InvalidValue { param: VibratoParam::Depth, value: mod_depth_secs })
    } else if sample_rate_hz == 0 || wave_table.len() == 0 || wave_table.len()
        > LfoModel::max_table() || !unit_table(wave_table) || Fixed::samples_spec(
        base_delay_secs@,
        sample_rate_hz as int,
    ) > max_base() {
        Some(Error::InvalidCapacity)
    } else if num_channels == 0 {
        Some(Error::ShapeMismatch)
    } else {
        None
    }
}

/// What a vibrato is: its settings, its oscillator, and for each channel the
/// samples in its delay line, oldest first.
pub struct VibratoModel {
    pub sample_rate_hz: int,
    pub delay: Fixed,
    pub depth: Fixed,
    pub lfo: LfoModel,
    pub lines: Seq<Seq<Fixed>>,
}

impl VibratoModel {
    /// The base delay in samples: the delay in seconds times the sample
    /// rate, to the nearest whole sample.
    pub open spec fn base_samples(self) -> int {
        Fixed::samples_spec(self.delay@, self.sample_rate_hz)
    }

    /// The furthest that the delay goes from the base delay, in samples: the
    /// depth times the sample rate, and no more than the base delay in
    /// samples where rounding has made that the smaller.
    pub open spec fn swing(self, depth: Fixed) -> Fixed {
        depth.times_spec(self.sample_rate_hz).limit_spec(
            Fixed::saturated(self.base_samples() * Fixed::scale()),
        )
    }

    /// The length of each delay line: twice the base delay and two more, so
    /// that the furthest read and its neighbour lie within it.
    pub open spec fn capacity(self) -> int {
        2 * self.base_samples() + 2
    }

    /// The settings are ones that the constructor accepts, the oscillator's
    /// amplitude is the depth in samples, and every delay line has the
    /// length that the base delay asks for.
    pub open spec fn wf(self) -> bool {
        &&& 1 <= self.sample_rate_hz <= u32::MAX
        &&& self.lfo.wf()
        &&& self.lfo.sample_freq == self.sample_rate_hz
        &&& unit_table(self.lfo.table)
        &&& -self.delay@ <= self.depth@ <= self.delay@
        &&& 0 <= self.base_samples() <= max_base()
        &&& self.lfo.amplitude == self.swing(self.depth)
        &&& self.lines.len() >= 1
        &&& forall|c: int|
            0 <= c < self.lines.len() ==> (#[trigger] self.lines[c]).len() == self.capacity()
    }

    /// Whether `set_param` accepts `value` for `param`.
    pub open spec fn accepts(self, param: VibratoParam, value: Fixed) -> bool {
        match param {
            VibratoParam::Frequency => true,
            VibratoParam::Depth => -self.delay@ <= value@ <= self.delay@,
        }
    }

    /// The vibrato with `param` set to an accepted `value`.
    pub open spec fn with_param(self, param: VibratoParam, value: Fixed) -> VibratoModel {
        match param {
            VibratoParam::Frequency => VibratoModel {
                lfo: self.lfo.with_param(LfoParam::ModFreq, value),
                ..self
            },
            VibratoParam::Depth => VibratoModel {
                depth: value,
                lfo: self.lfo.with_param(LfoParam::Amplitude, self.swing(value)),
                ..self
            },
        }
    }

    /// The value that `get_param` gives for `param`.
    pub open spec fn param(self, param: VibratoParam) -> Fixed {
        match param {
            VibratoParam::Frequency => self.lfo.mod_freq,
            VibratoParam::Depth => self.depth,
        }
    }

    /// Channel `c` run over `input` from its present history.
    pub open spec fn run_channel(self, c: int, input: Seq<Fixed>) -> Run {
        run(self.lfo, self.base_samples(), self.lines[c], input)
    }
}

/// The swing is no more than the base delay in samples, and none at all
/// for a depth of zero.
pub proof fn lemma_swing_within_base(v: VibratoModel, depth: Fixed)
    requires
        0 <= v.base_samples() <= max_base(),
    ensures
        -(v.base_samples() * Fixed::scale()) <= v.swing(depth)@ <= v.base_samples()
            * Fixed::scale(),
        depth == Fixed::zero_spec() ==> v.swing(depth) == Fixed::zero_spec(),
{
    let base: int = v.base_samples();
    assert(0 <= base * Fixed::scale() <= 0x3fff_ffff * 0x1_0000_0000) by (nonlinear_arith)
        requires
            0 <= base <= 0x3fff_ffff,
    ;
    assert(0 * v.sample_rate_hz == 0) by (nonlinear_arith);
}

/// In a well-formed vibrato the delay line is never read nearer than the
/// sample written last nor further back than twice the base delay, which is
/// two samples short of its length: every read and its neighbour lie within
/// the delay line, whatever the phase of the oscillator.
pub proof fn lemma_read_within_line(v: VibratoModel, k: int)
    requires
        v.wf(),
    ensures
        -((v.capacity() - 2) * Fixed::scale()) <= read_offset(
            v.base_samples(),
            v.lfo.value_at(k),
        )@ <= 0,
{
    lemma_swing_within_base(v, v.depth);
    lemma_offset_in_range(v.lfo, v.base_samples(), k);
    assert((2 * v.base_samples()) * Fixed::scale() == 2 * v.base_samples() * Fixed::scale());
}

/// With a depth of zero a well-formed vibrato gives the input delayed by
/// the base delay in samples.
pub proof fn lemma_zero_depth_delays(v: VibratoModel, c: int, input: Seq<Fixed>, i: int)
    requires
        v.wf(),
        v.depth == Fixed::zero_spec(),
        0 <= c < v.lines.len(),
        0 <= i < input.len(),
    ensures
        v.run_channel(c, input).output[i] == if i >= v.base_samples() {
            input[i - v.base_samples()]
        } else {
            v.lines[c][v.capacity() - v.base_samples() + i]
        },
{
    lemma_swing_within_base(v, v.depth);
    lemma_zero_depth(v.lfo, v.base_samples(), v.lines[c], input, i);
}

/// A vibrato over a fixed number of channels, which share one oscillator.
pub struct Vibrato {
    buffer: Vec<RingBuffer<Fixed>>,
    lfo: WaveTableLfo,
    sample_rate_hz: u32,
    depth: Fixed,
    delay: Fixed,
    base_samples: usize,
}

impl View for Vibrato {
    type V = VibratoModel;

    closed spec fn view(&self) -> VibratoModel {
        VibratoModel {
            sample_rate_hz: self.sample_rate_hz as int,
            delay: self.delay,
            depth: self.depth,
            lfo: self.lfo@,
            lines: Seq::new(self.buffer@.len(), |c: int| self.buffer@[c]@.history()),
        }
    }
}

impl Vibrato {
    /// The vibrato is as its constructor and its methods leave it: the model
    /// is well formed and every delay line has the length that it says.
    pub closed spec fn wf(&self) -> bool {
        &&& self@.wf()
        &&& self.base_samples == self@.base_samples()
        &&& forall|c: int|
            0 <= c < self.buffer@.len() ==> {
                &&& (#[trigger] self.buffer@[c])@.wf()
                &&& self.buffer@[c]@.capacity() == 2 * self.base_samples + 2
            }
    }

    /// A vibrato with silent delay lines and its oscillator at the start of
    /// `wave_table`, which holds one cycle of the modulation.
    ///
    /// Refused, first rule first: a depth that is more than the base delay,
    /// either way, as `InvalidValue`; a sample rate of zero, a table that is
    /// empty, too long or leaves the range from minus one to one, and a base
    /// delay of more than `2^30 - 1` samples, as `InvalidCapacity`; no
    /// channel, as `ShapeMismatch`.
    ///
    /// The base delay is brought to the nearest whole sample, and each delay
    /// line holds twice that and two samples more.
    pub fn new(
        sample_rate_hz: u32,
        mod_freq: Fixed,
        mod_depth_secs: Fixed,
        base_delay_secs: Fixed,
        num_channels: usize,
        wave_table: Vec<Fixed>,
    ) -> (r: Result<Self, Error<VibratoParam>>)
        ensures
            match r {
                Ok(v) => {
                    &&& config_error(
                        sample_rate_hz,
                        mod_depth_secs,
                        base_delay_secs,
                        num_channels,
                        wave_table@,
                    ) is None
                    &&& v.wf()
                    &&& v@.wf()
                    &&& v@.sample_rate_hz == sample_rate_hz
                    &&& v@.delay == base_delay_secs
                    &&& v@.depth == mod_depth_secs
                    &&& v@.lfo.table == wave_table@
                    &&& v@.lfo.mod_freq == mod_freq
                    &&& v@.lfo.phase == 0
                    &&& v@.lines.len() == num_channels
                    &&& forall|c: int, i: int|
                        0 <= c < num_channels && 0 <= i < v@.capacity() ==> #[trigger] v@.lines[c][i]
                            == Fixed::zero_spec()
                },
                Err(e) => config_error(
                    sample_rate_hz,
                    mod_depth_secs,
                    base_delay_secs,
                    num_channels,
                    wave_table@,
                ) == Some(e),
            },
    {
        if mod_depth_secs.raw() > base_delay_secs.raw() || (mod_depth_secs.raw() as i128) < -(
        base_delay_secs.raw() as i128) {
            return Err(Error::InvalidValue { param: VibratoParam::Depth, value: mod_depth_secs });
        }
        let base: u64 = base_delay_secs.to_samples(sample_rate_hz);
        if sample_rate_hz == 0 || wave_table.len() == 0 || wave_table.len() > 0x7fff_ffff
            || !Self::is_unit_table(&wave_table) || base > 0x3fff_ffff {
            return Err(Error::InvalidCapacity);
        }
        if num_channels == 0 {
            return Err(Error::ShapeMismatch);
        }
        let amplitude: Fixed = mod_depth_secs.saturating_times(sample_rate_hz).limit(
            Fixed::from_int(base as i32),
        );
        let ghost table: Seq<Fixed> = wave_table@;
        let lfo: WaveTableLfo = match WaveTableLfo::new(
            sample_rate_hz,
            mod_freq,
            amplitude,
            wave_table,
        ) {
            Ok(lfo) => lfo,
            Err(_) => {
                return Err(Error::InvalidCapacity);
            },
        };
        let capacity: usize = 2 * (base as usize) + 2;
        let mut buffer: Vec<RingBuffer<Fixed>> = Vec::with_capacity(num_channels);
        let mut c: usize = 0;
        while c < num_channels
            invariant
                c <= num_channels,
                capacity >= 1,
                buffer@.len() == c,
                forall|k: int|
                    0 <= k < c ==> {
                        &&& (#[trigger] buffer@[k])@.wf()
                        &&& buffer@[k]@.capacity() == capacity
                    },
                forall|k: int, i: int|
                    0 <= k < c && 0 <= i < capacity ==> #[trigger] buffer@[k]@.history()[i]
                        == Fixed::zero_spec(),
            decreases num_channels - c,
        {
            match RingBuffer::<Fixed>::new(capacity) {
                Ok(line) => {
                    proof {
                        assert forall|i: int| 0 <= i < capacity implies #[trigger] line@.history()[i]
                            == Fixed::zero_spec() by {
                            crate::modular::lemma_mod_range(line@.write + i, capacity as int);
                        }
                    }
                    buffer.push(line);
                },
                Err(_) => {
                    return Err(Error::InvalidCapacity);
                },
            }
            c = c + 1;
        }
        Ok(
            Vibrato {
                buffer,
                lfo,
                sample_rate_hz,
                depth: mod_depth_secs,
                delay: base_delay_secs,
                base_samples: base as usize,
            },
        )
    }

    /// Silences every delay line; the settings and the oscillator stay.
    pub fn reset(&mut self)
        requires
            old(self).wf(),
        ensures
            final(self).wf(),
            final(self)@.wf(),
            final(self)@.sample_rate_hz == old(self)@.sample_rate_hz,
            final(self)@.delay == old(self)@.delay,
            final(self)@.depth == old(self)@.depth,
            final(self)@.lfo == old(self)@.lfo,
            final(self)@.lines.len() == old(self)@.lines.len(),
            forall|c: int, i: int|
                0 <= c < final(self)@.lines.len() && 0 <= i < final(self)@.capacity()
                    ==> #[trigger] final(self)@.lines[c][i] == Fixed::zero_spec(),
    {
        let n: usize = self.buffer.len();
        let ghost capacity: int = 2 * self.base_samples + 2;
        let mut c: usize = 0;
        while c < n
            invariant
                c <= n,
                n == self.buffer@.len(),
                self.sample_rate_hz == old(self).sample_rate_hz,
                self.delay == old(self).delay,
                self.depth == old(self).depth,
                self.lfo == old(self).lfo,
                self.base_samples == old(self).base_samples,
                capacity == 2 * self.base_samples + 2,
                forall|k: int|
                    0 <= k < n ==> {
                        &&& (#[trigger] self.buffer@[k])@.wf()
                        &&& self.buffer@[k]@.capacity() == capacity
                    },
                forall|k: int, i: int|
                    0 <= k < c && 0 <= i < capacity ==> #[trigger] self.buffer@[k]@.history()[i]
                        == Fixed::zero_spec(),
            decreases n - c,
        {
            self.buffer[c].reset();
            proof {
                let line: RingBuffer<Fixed> = self.buffer@[c as int];
                assert forall|i: int| 0 <= i < capacity implies #[trigger] line@.history()[i]
                    == Fixed::zero_spec() by {
                    crate::modular::lemma_mod_range(line@.write + i, capacity);
                }
            }
            c = c + 1;
        }
    }

    /// Sets the frequency of the modulation, or its depth in seconds.
    ///
    /// A depth that is more than the base delay, either way, is refused,
    /// and nothing changes. Every frequency is taken.
    pub fn set_param(&mut self, param: VibratoParam, value: Fixed) -> (r: Result<
        (),
        Error<VibratoParam>,
    >)
        requires
            old(self).wf(),
        ensures
            final(self).wf(),
            final(self)@.wf(),
            match r {
                Ok(_) => {
                    &&& old(self)@.accepts(param, value)
                    &&& final(self)@ == old(self)@.with_param(param, value)
                },
                Err(e) => {
                    &&& !old(self)@.accepts(param, value)
                    &&& e == (Error::InvalidValue { param, value })
                    &&& final(self)@ == old(self)@
                },
            },
    {
        match param {
            VibratoParam::Frequency => {
                self.lfo.set_value(LfoParam::ModFreq, value);
                Ok(())
            },
            VibratoParam::Depth => {
                if value.raw() > self.delay.raw() || (value.raw() as i128) < -(
                self.delay.raw() as i128) {
                    return Err(Error::InvalidValue { param, value });
                }
                let amplitude: Fixed = value.saturating_times(self.sample_rate_hz).limit(
                    Fixed::from_int(self.base_samples as i32),
                );
                self.lfo.set_value(LfoParam::Amplitude, amplitude);
                self.depth = value;
                Ok(())
            },
        }
    }

    /// The frequency of the modulation, or its depth in seconds.
    pub fn get_param(&self, param: VibratoParam) -> (r: Fixed)
        ensures
            r == self@.param(param),
    {
        match param {
            VibratoParam::Frequency => self.lfo.get_param(LfoParam::ModFreq),
            VibratoParam::Depth => self.depth,
        }
    }

    /// Number of channels.
    pub fn num_channels(&self) -> (r: usize)
        ensures
            r == self@.lines.len(),
    {
        self.buffer.len()
    }

    /// Samples per second.
    pub fn sample_rate_hz(&self) -> (r: u32)
        ensures
            r == self@.sample_rate_hz,
    {
        self.sample_rate_hz
    }

    /// The base delay in samples.
    pub fn base_delay_samples(&self) -> (r: usize)
        requires
            self.wf(),
        ensures
            r == self@.base_samples(),
    {
        self.base_samples
    }

    /// Runs every channel over its block: each input sample goes into the
    /// channel's delay line, and the output sample is read behind it at the
    /// base delay plus what the oscillator gives for that sample. The
    /// oscillator then goes on by the length of the block.
    ///
    /// The block is refused, and nothing is touched, unless there are as
    /// many inputs and as many outputs as the vibrato has channels, all of
    /// one length.
    pub fn process(&mut self, input: &[&[Fixed]], output: &mut [&mut [Fixed]]) -> (r: Result<
        (),
        Error<VibratoParam>,
    >)
        requires
            old(self).wf(),
        ensures
            final(self).wf(),
            final(self)@.wf(),
            final(output)@.len() == old(output)@.len(),
            forall|c: int|
                0 <= c < old(output)@.len() ==> final(final(output)@[c])@ == final(old(output)@[c])@,
            r is Ok <==> crate::block::shape_ok(
                crate::block::samples_of(input@),
                crate::block::samples_in(old(output)@),
                old(self)@.lines.len() as int,
            ),
            r matches Err(e) ==> {
                &&& e == Error::<VibratoParam>::ShapeMismatch
                &&& final(self)@ == old(self)@
                &&& crate::block::samples_in(final(output)@) == crate::block::samples_in(
                    old(output)@,
                )
            },
            r is Ok ==> {
                &&& final(self)@.sample_rate_hz == old(self)@.sample_rate_hz
                &&& final(self)@.delay == old(self)@.delay
                &&& final(self)@.depth == old(self)@.depth
                &&& final(self)@.lfo == old(self)@.lfo.advanced(
                    crate::block::samples_of(input@)[0].len() as int,
                )
                &&& final(self)@.lines.len() == old(self)@.lines.len()
                &&& forall|c: int|
                    0 <= c < old(self)@.lines.len() ==> #[trigger] crate::block::samples_in(
                        final(output)@,
                    )[c] == old(self)@.run_channel(c, crate::block::samples_of(input@)[c]).output
                &&& forall|c: int|
                    0 <= c < old(self)@.lines.len() ==> #[trigger] final(self)@.lines[c] == old(
                        self,
                    )@.run_channel(c, crate::block::samples_of(input@)[c]).history
            },
    {
        let n: usize = self.buffer.len();
        if input.len() != n || output.len() != n {
            return Err(Error::ShapeMismatch);
        }
        let length: usize = input[0].len();
        let mut c: usize = 0;
        while c < n
            invariant
                c <= n,
                n == input@.len(),
                n == output@.len(),
                n == old(output)@.len(),
                n >= 1,
                n == self.buffer@.len(),
                length == input@[0]@.len(),
                self.wf(),
                *self == *old(self),
                forall|k: int| 0 <= k < n ==> output@[k]@ == old(output)@[k]@,
                forall|k: int| 0 <= k < n ==> final(output@[k])@ == final(old(output)@[k])@,
                forall|k: int| 0 <= k < c ==> input@[k]@.len() == length,
                forall|k: int| 0 <= k < c ==> output@[k]@.len() == length,
            decreases n - c,
        {
            if input[c].len() != length || output[c].len() != length {
                proof {
                    assert(crate::block::samples_of(input@)[c as int] == input@[c as int]@);
                    assert(crate::block::samples_in(old(output)@)[c as int] == old(
                        output,
                    )@[c as int]@);
                    assert(crate::block::samples_of(input@)[0] == input@[0]@);
                    assert(crate::block::samples_in(output@) =~= crate::block::samples_in(
                        old(output)@,
                    ));
                }
                return Err(Error::ShapeMismatch);
            }
            c = c + 1;
        }
        proof {
            assert(crate::block::samples_of(input@)[0] == input@[0]@);
            assert forall|k: int| 0 <= k < n implies (#[trigger] crate::block::samples_of(
                input@,
            )[k]).len() == length by {
                assert(crate::block::samples_of(input@)[k] == input@[k]@);
            }
            assert forall|k: int| 0 <= k < n implies (#[trigger] crate::block::samples_in(
                old(output)@,
            )[k]).len() == length by {
                assert(crate::block::samples_in(old(output)@)[k] == old(output)@[k]@);
                assert(output@[k]@ == old(output)@[k]@);
            }
        }
        c = 0;
        while c < n
            invariant
                c <= n,
                n == input@.len(),
                n == output@.len(),
                n == self.buffer@.len(),
                n == old(self).buffer@.len(),
                n == old(output)@.len(),
                self.wf(),
                self.sample_rate_hz == old(self).sample_rate_hz,
                self.delay == old(self).delay,
                self.depth == old(self).depth,
                self.lfo == old(self).lfo,
                self.base_samples == old(self).base_samples,
                forall|k: int| 0 <= k < n ==> final(output@[k])@ == final(old(output)@[k])@,
                forall|k: int| 0 <= k < n ==> input@[k]@.len() == output@[k]@.len(),
                forall|k: int| c <= k < n ==> self@.lines[k] == old(self)@.lines[k],
                forall|k: int|
                    0 <= k < c ==> output@[k]@ == old(self)@.run_channel(k, input@[k]@).output,
                forall|k: int|
                    0 <= k < c ==> self@.lines[k] == old(self)@.run_channel(k, input@[k]@).history,
            decreases n - c,
        {
            let ghost before: Seq<RingBuffer<Fixed>> = self.buffer@;
            let ghost lines: Seq<Seq<Fixed>> = self@.lines;
            let ghost written: Seq<&mut [Fixed]> = output@;
            proof {
                lemma_run_shape(
                    self@.lfo,
                    self.base_samples as int,
                    self@.lines[c as int],
                    input@[c as int]@,
                );
            }
            Self::process_mono(
                &mut self.buffer[c],
                &self.lfo,
                self.base_samples,
                input[c],
                output[c],
            );
            proof {
                assert(self.buffer@ == before.update(c as int, self.buffer@[c as int]));
                assert forall|k: int| 0 <= k < n && k != c implies output@[k] == written[k] by {}
                assert forall|k: int| 0 <= k < n && k != c implies self@.lines[k] == lines[k] by {
                    assert(self.buffer@[k] == before[k]);
                }
                assert(self@.lines[c as int] == old(self)@.run_channel(
                    c as int,
                    input@[c as int]@,
                ).history);
                assert forall|k: int| 0 <= k < c + 1 implies self@.lines[k] == old(
                    self,
                )@.run_channel(k, input@[k]@).history by {
                    if k < c {
                        assert(self@.lines[k] == lines[k]);
                    }
                }
            }
            c = c + 1;
        }
        self.lfo.update_phase(length);
        proof {
            assert forall|k: int| 0 <= k < n implies #[trigger] crate::block::samples_in(
                output@,
            )[k] == old(self)@.run_channel(k, crate::block::samples_of(input@)[k]).output by {
                assert(crate::block::samples_of(input@)[k] == input@[k]@);
                assert(crate::block::samples_in(output@)[k] == output@[k]@);
            }
            assert forall|k: int| 0 <= k < n implies #[trigger] self@.lines[k] == old(
                self,
            )@.run_channel(k, crate::block::samples_of(input@)[k]).history by {
                assert(crate::block::samples_of(input@)[k] == input@[k]@);
            }
        }
        Ok(())
    }

    /// One delay line run over a block.
    fn process_mono(
        delay_line: &mut RingBuffer<Fixed>,
        lfo: &WaveTableLfo,
        base: usize,
        input: &[Fixed],
        output: &mut [Fixed],
    )
        requires
            base <= max_base(),
            input@.len() == old(output)@.len(),
        ensures
            final(delay_line)@.wf(),
            final(delay_line)@.capacity() == old(delay_line)@.capacity(),
            final(delay_line)@.history() == run(
                lfo@,
                base as int,
                old(delay_line)@.history(),
                input@,
            ).history,
            final(output)@ == run(lfo@, base as int, old(delay_line)@.history(), input@).output,
    {
        let n: usize = input.len();
        let capacity: usize = delay_line.capacity();
        let ghost start: Seq<Fixed> = delay_line@.history();
        let reach: Fixed = Fixed::from_int(base as i32);
        let mut i: usize = 0;
        while i < n
            invariant
                i <= n,
                n == input@.len(),
                n == output@.len(),
                delay_line@.wf(),
                delay_line@.capacity() == capacity,
                base <= max_base(),
                reach == Fixed::saturated(base * Fixed::scale()),
                delay_line@.history() == run(lfo@, base as int, start, input@.take(i as int)).history,
                output@.take(i as int) == run(lfo@, base as int, start, input@.take(i as int)).output,
            decreases n - i,
        {
            let x: Fixed = input[i];
            proof {
                crate::ring_buffer::lemma_history_push(delay_line@, x);
            }
            delay_line.push(x);
            let write: usize = delay_line.get_write_index();
            let newest: usize = if write == 0 {
                capacity - 1
            } else {
                write - 1
            };
            delay_line.set_read_index(newest);
            let swing: Fixed = lfo.get_value_at_sample_index(i);
            let offset: Fixed = reach.saturating_add(swing).saturating_neg();
            let ghost m = delay_line@;
            proof {
                let len: int = capacity as int;
                crate::modular::lemma_mod_small(newest as int, len);
                crate::modular::lemma_mod_once(write + len - 1, len);
                let whole: int = offset@ / Fixed::scale();
                crate::ring_buffer::lemma_history_read(m, whole);
                crate::ring_buffer::lemma_history_read(m, whole + 1);
                assert(m.get_fractional(offset@) == read_at(m.history(), offset@));
            }
            let y: Fixed = delay_line.get_fractional(offset);
            let ghost out_before: Seq<Fixed> = output@;
            output[i] = y;
            proof {
                let head: Seq<Fixed> = input@.take(i as int);
                let more: Seq<Fixed> = input@.take(i + 1);
                assert(more.drop_last() =~= head);
                assert(more.last() == x);
                assert(more.len() - 1 == i);
                assert(output@.take(i + 1) =~= out_before.take(i as int).push(y));
            }
            i = i + 1;
        }
        proof {
            assert(input@.take(n as int) =~= input@);
            assert(output@.take(n as int) =~= output@);
        }
    }

    /// Whether every entry of `table` lies between minus one and one.
    fn is_unit_table(table: &Vec<Fixed>) -> (r: bool)
        ensures
            r == unit_table(table@),
    {
        let n: usize = table.len();
        let mut i: usize = 0;
        while i < n
            invariant
                i <= n,
                n == table@.len(),
                forall|j: int|
                    0 <= j < i ==> -Fixed::scale() <= (#[trigger] table@[j])@ <= Fixed::scale(),
            decreases n - i,
        {
            let raw: i64 = table[i].raw();
            if raw < -0x1_0000_0000 || raw > 0x1_0000_0000 {
                return false;
            }
            i = i + 1;
        }
        true
    }
}

} // verus!

//! A comb filter: each output sample is the input plus a scaled copy of a
//! sample that went through the channel's delay line some time before.

use vstd::prelude::*;
use crate::block::Run;
use crate::error::Error;
use crate::fixed::Fixed;
use crate::ring_buffer::RingBuffer;

verus! {

/// What the delay line is fed with.
#[derive(Debug, Clone, Copy, PartialEq, Eq, Structural)]
pub enum FilterType {
    /// Feedforward: the delay line holds past input.
    FIR,
    /// Feedback: the delay line holds past output.
    IIR,
}

/// The parameters that can be changed after construction.
#[derive(Debug, Clone, Copy, PartialEq, Eq, Structural)]
pub enum FilterParam {
    Gain,
    Delay,
}

/// A change of one parameter, as it is asked for between two blocks.
#[derive(Debug, Clone, Copy, PartialEq, Eq, Structural)]
pub struct Message {
    pub param: FilterParam,
    pub value: Fixed,
}

/// The sample that lies `delay` writes back in a history, which is ordered
/// oldest first. A delay of zero reads the oldest sample: the one that the
/// next write replaces.
pub open spec fn tap(history: Seq<Fixed>, delay: int) -> Fixed {
    history[(history.len() - delay) % (history.len() as int)]
}

/// The output for input `x` when the delay line gives `delayed`.
pub open spec fn mix(gain: Fixed, x: Fixed, delayed: Fixed) -> Fixed {
    x.add_spec(gain.mul_spec(delayed))
}

/// What goes into the delay line for input `x` and output `y`.
pub open spec fn fed(filter_type: FilterType, x: Fixed, y: Fixed) -> Fixed {
    match filter_type {
        FilterType::FIR => x,
        FilterType::IIR => y,
    }
}

/// One channel run over `input`, sample by sample, from `history`.
pub open spec fn run(
    filter_type: FilterType,
    gain: Fixed,
    delay: int,
    history: Seq<Fixed>,
    input: Seq<Fixed>,
) -> Run
    decreases input.len(),
{
    if input.len() == 0 {
        Run { history, output: Seq::empty() }
    } else {
        let before = run(filter_type, gain, delay, history, input.drop_last());
        let x = input.last();
        let y = mix(gain, x, tap(before.history, delay));
        Run {
            history: before.history.drop_first().push(fed(filter_type, x, y)),
            output: before.output.push(y),
        }
    }
}

/// A run gives one output sample for each input sample and keeps the length
/// of the history.
pub proof fn lemma_run_shape(
    filter_type: FilterType,
    gain: Fixed,
    delay: int,
    history: Seq<Fixed>,
    input: Seq<Fixed>,
)
    requires
        history.len() >= 1,
    ensures
        run(filter_type, gain, delay, history, input).output.len() == input.len(),
        run(filter_type, gain, delay, history, input).history.len() == history.len(),
    decreases input.len(),
{
    if input.len() > 0 {
        lemma_run_shape(filter_type, gain, delay, history, input.drop_last());
    }
}

/// Processing a stream in two blocks gives what processing it in one gives:
/// the second block starts from the history that the first one left, and the
/// outputs follow one another.
pub proof fn lemma_block_split(
    filter_type: FilterType,
    gain: Fixed,
    delay: int,
    history: Seq<Fixed>,
    first: Seq<Fixed>,
    second: Seq<Fixed>,
)
    ensures
        run(filter_type, gain, delay, history, first + second).output == run(
            filter_type,
            gain,
            delay,
            history,
            first,
        ).output + run(
            filter_type,
            gain,
            delay,
            run(filter_type, gain, delay, history, first).history,
            second,
        ).output,
        run(filter_type, gain, delay, history, first + second).history == run(
            filter_type,
            gain,
            delay,
            run(filter_type, gain, delay, history, first).history,
            second,
        ).history,
    decreases second.len(),
{
    let middle: Seq<Fixed> = run(filter_type, gain, delay, history, first).history;
    if second.len() == 0 {
        assert(first + second =~= first);
        assert(run(filter_type, gain, delay, history, first).output + Seq::<Fixed>::empty() =~= run(
            filter_type,
            gain,
            delay,
            history,
            first,
        ).output);
    } else {
        lemma_block_split(filter_type, gain, delay, history, first, second.drop_last());
        assert((first + second).drop_last() =~= first + second.drop_last());
        assert((first + second).last() == second.last());
        let whole: Run = run(filter_type, gain, delay, history, first + second);
        let head: Run = run(filter_type, gain, delay, history, first);
        let tail: Run = run(filter_type, gain, delay, middle, second);
        assert(whole.output =~= head.output + tail.output);
    }
}

/// How far back a delay reaches in a delay line of `capacity` samples: the
/// delay itself, and the whole line for a delay of zero.
pub open spec fn reach(delay: int, capacity: int) -> int {
    if delay == 0 {
        capacity
    } else {
        delay
    }
}

/// The sample that the delay line gives when sample `i` of a block comes
/// in: one that lay in the line before the block while `i` is less than the
/// reach of the delay, and after that what the line was fed with that many
/// samples earlier.
pub open spec fn delayed(
    filter_type: FilterType,
    gain: Fixed,
    delay: int,
    history: Seq<Fixed>,
    input: Seq<Fixed>,
    i: int,
) -> Fixed {
    let back = reach(delay, history.len() as int);
    if i < back {
        history[history.len() - back + i]
    } else {
        fed(
            filter_type,
            input[i - back],
            run(filter_type, gain, delay, history, input).output[i - back],
        )
    }
}

/// What the delay line was fed with during a run.
pub open spec fn written(
    filter_type: FilterType,
    gain: Fixed,
    delay: int,
    history: Seq<Fixed>,
    input: Seq<Fixed>,
) -> Seq<Fixed> {
    Seq::new(
        input.len(),
        |i: int| fed(filter_type, input[i], run(filter_type, gain, delay, history, input).output[i]),
    )
}

/// The difference equation of the filter: each output sample is the input
/// sample plus the gain times the delayed sample, and the delay line ends up
/// holding the last samples of what it held followed by what it was fed with.
pub proof fn lemma_difference_equation(
    filter_type: FilterType,
    gain: Fixed,
    delay: int,
    history: Seq<Fixed>,
    input: Seq<Fixed>,
)
    requires
        history.len() >= 1,
        0 <= delay < history.len(),
    ensures
        run(filter_type, gain, delay, history, input).output.len() == input.len(),
        forall|i: int|
            0 <= i < input.len() ==> #[trigger] run(filter_type, gain, delay, history, input).output[i]
                == mix(gain, input[i], delayed(filter_type, gain, delay, history, input, i)),
        run(filter_type, gain, delay, history, input).history == crate::block::shifted(
            history,
            written(filter_type, gain, delay, history, input),
        ),
    decreases input.len(),
{
    let n: int = history.len() as int;
    let len: int = input.len() as int;
    let whole: Run = run(filter_type, gain, delay, history, input);
    let fed_whole: Seq<Fixed> = written(filter_type, gain, delay, history, input);
    lemma_run_shape(filter_type, gain, delay, history, input);
    if len == 0 {
        assert((history + fed_whole).skip(0) =~= history);
    } else {
        let front: Seq<Fixed> = input.drop_last();
        let before: Run = run(filter_type, gain, delay, history, front);
        let fed_front: Seq<Fixed> = written(filter_type, gain, delay, history, front);
        lemma_difference_equation(filter_type, gain, delay, history, front);
        lemma_run_shape(filter_type, gain, delay, history, front);
        let x: Fixed = input.last();
        let y: Fixed = mix(gain, x, tap(before.history, delay));
        let back: int = reach(delay, n);
        assert(fed_whole =~= fed_front.push(fed(filter_type, x, y)));
        assert(whole.history =~= (history + fed_whole).skip(len));
        crate::modular::lemma_mod_once(n - delay, n);
        assert(tap(before.history, delay) == delayed(filter_type, gain, delay, history, input, len - 1));
        assert forall|i: int| 0 <= i < len implies #[trigger] whole.output[i] == mix(
            gain,
            input[i],
            delayed(filter_type, gain, delay, history, input, i),
        ) by {
            if i < len - 1 {
                assert(whole.output[i] == before.output[i]);
                assert(front[i] == input[i]);
                if i >= back {
                    assert(front[i - back] == input[i - back]);
                    assert(whole.output[i - back] == before.output[i - back]);
                }
                assert(delayed(filter_type, gain, delay, history, front, i) == delayed(
                    filter_type,
                    gain,
                    delay,
                    history,
                    input,
                    i,
                ));
            }
        }
    }
}

/// A block of `len` samples that is one at the start and zero after it.
pub open spec fn impulse(len: nat) -> Seq<Fixed> {
    Seq::new(
        len,
        |i: int|
            if i == 0 {
                Fixed::one_spec()
            } else {
                Fixed::zero_spec()
            },
    )
}

/// The impulse response of the feedforward filter: from silence, with a
/// delay of at least one sample, an impulse comes out as a one at the start,
/// the gain `delay` samples later, and zero everywhere else.
pub proof fn lemma_fir_impulse_response(gain: Fixed, delay: int, capacity: nat, len: nat, i: int)
    requires
        1 <= delay < capacity,
        0 <= i < len,
    ensures
        run(FilterType::FIR, gain, delay, crate::block::silence(capacity), impulse(len)).output[i] == if i == 0 {
            Fixed::one_spec()
        } else if i == delay {
            gain
        } else {
            Fixed::zero_spec()
        },
{
    lemma_difference_equation(FilterType::FIR, gain, delay, crate::block::silence(capacity), impulse(len));
    crate::fixed::lemma_mul_zero(gain);
    crate::fixed::lemma_mul_one(gain);
    crate::fixed::lemma_add_zero(gain);
    crate::fixed::lemma_add_zero(Fixed::one_spec());
    crate::fixed::lemma_add_zero(Fixed::zero_spec());
}

/// The impulse response of the feedback filter: from silence, an impulse
/// comes back every `delay` samples, each time multiplied by the gain once
/// more, with zero in between.
pub proof fn lemma_iir_impulse_response(gain: Fixed, delay: int, capacity: nat, len: nat, i: int)
    requires
        1 <= delay < capacity,
        0 <= i < len,
    ensures
        run(FilterType::IIR, gain, delay, crate::block::silence(capacity), impulse(len)).output[i] == if i % delay
            == 0 {
            Fixed::pow_spec(gain, (i / delay) as nat)
        } else {
            Fixed::zero_spec()
        },
    decreases i,
{
    lemma_difference_equation(FilterType::IIR, gain, delay, crate::block::silence(capacity), impulse(len));
    crate::fixed::lemma_mul_zero(gain);
    crate::fixed::lemma_add_zero(Fixed::one_spec());
    crate::fixed::lemma_add_zero(Fixed::zero_spec());
    if i < delay {
        crate::modular::lemma_div_mod_unique(i, delay, 0, i);
    } else {
        lemma_iir_impulse_response(gain, delay, capacity, len, i - delay);
        crate::modular::lemma_div_mod(i - delay, delay);
        let q: int = (i - delay) / delay;
        assert((q + 1) * delay == q * delay + delay) by (nonlinear_arith);
        crate::modular::lemma_div_mod_unique(i, delay, q + 1, (i - delay) % delay);
        crate::modular::lemma_div_mod_unique(0, delay, 0, 0);
        let earlier: Fixed = run(FilterType::IIR, gain, delay, crate::block::silence(capacity), impulse(len)).output[i
            - delay];
        crate::fixed::lemma_add_zero(gain.mul_spec(earlier));
        crate::modular::lemma_div_monotone(0, i - delay, delay);
    }
}

/// The first rule that a configuration breaks, if it breaks one.
pub open spec fn config_error(
    filter_type: FilterType,
    max_delay_secs: Fixed,
    sample_rate_hz: u32,
    num_channels: usize,
    gain: Fixed,
    delay_secs: Fixed,
) -> Option<Error<FilterParam>> {
    let most = Fixed::samples_spec(max_delay_secs@, sample_rate_hz as int);
    let delay = Fixed::samples_spec(delay_secs@, sample_rate_hz as int);
    if gain@ < 0 {
        Some(Error::InvalidValue { param: FilterParam::Gain, value: gain })
    } else if sample_rate_hz == 0 || max_delay_secs@ <= 0 || most >= usize::MAX {
        Some(Error::InvalidCapacity)
    } else if num_channels == 0 {
        Some(Error::ShapeMismatch)
    } else if delay > most || (delay == 0 && filter_type == FilterType::IIR) {
        Some(Error::InvalidValue { param: FilterParam::Delay, value: delay_secs })
    } else {
        None
    }
}

/// What a comb filter is: its configuration, and for each channel the samples
/// in its delay line, oldest first.
pub struct CombModel {
    pub filter_type: FilterType,
    pub sample_rate_hz: int,
    pub max_delay_secs: Fixed,
    pub gain: Fixed,
    pub delay_samples: int,
    pub lines: Seq<Seq<Fixed>>,
}

impl CombModel {
    /// The longest delay that can be set, in samples.
    pub open spec fn max_delay_samples(self) -> int {
        Fixed::samples_spec(self.max_delay_secs@, self.sample_rate_hz)
    }

    /// The configuration is one that the constructor accepts, and every
    /// delay line holds one sample more than the longest delay.
    pub open spec fn wf(self) -> bool {
        &&& self.sample_rate_hz > 0
        &&& self.max_delay_secs@ > 0
        &&& self.gain@ >= 0
        &&& 0 <= self.delay_samples <= self.max_delay_samples()
        &&& self.filter_type == FilterType::IIR ==> self.delay_samples >= 1
        &&& self.lines.len() >= 1
        &&& forall|c: int|
            0 <= c < self.lines.len() ==> (#[trigger] self.lines[c]).len() == self.max_delay_samples()
                + 1
    }

    /// The delay in samples that `set_param(Delay, value)` asks for.
    pub open spec fn delay_for(self, value: Fixed) -> int {
        Fixed::samples_spec(value@, self.sample_rate_hz)
    }

    /// Whether `set_param` accepts `value` for `param`.
    pub open spec fn accepts(self, param: FilterParam, value: Fixed) -> bool {
        match param {
            FilterParam::Gain => value@ >= 0,
            FilterParam::Delay => {
                &&& self.delay_for(value) <= self.max_delay_samples()
                &&& self.filter_type == FilterType::IIR ==> self.delay_for(value) >= 1
            },
        }
    }

    /// The filter with `param` set to an accepted `value`.
    pub open spec fn with_param(self, param: FilterParam, value: Fixed) -> CombModel {
        match param {
            FilterParam::Gain => CombModel { gain: value, ..self },
            FilterParam::Delay => CombModel { delay_samples: self.delay_for(value), ..self },
        }
    }

    /// The value that `get_param` gives for `param`.
    pub open spec fn param(self, param: FilterParam) -> Fixed {
        match param {
            FilterParam::Gain => self.gain,
            FilterParam::Delay => Fixed::seconds_spec(self.delay_samples, self.sample_rate_hz),
        }
    }

    /// Channel `c` run over `input` from its present history.
    pub open spec fn run_channel(self, c: int, input: Seq<Fixed>) -> Run {
        run(self.filter_type, self.gain, self.delay_samples, self.lines[c], input)
    }

    /// The filter after the first `count` of `messages` have been applied,
    /// one after the other.
    pub open spec fn after(self, messages: Seq<Message>, count: int) -> CombModel
        decreases count,
    {
        if count <= 0 {
            self
        } else {
            self.after(messages, count - 1).with_param(
                messages[count - 1].param,
                messages[count - 1].value,
            )
        }
    }

    /// Whether each of the first `count` of `messages` is accepted by the
    /// filter as the ones before it have left it.
    pub open spec fn all_accepted(self, messages: Seq<Message>, count: int) -> bool
        decreases count,
    {
        count <= 0 || (self.all_accepted(messages, count - 1) && self.after(
            messages,
            count - 1,
        ).accepts(messages[count - 1].param, messages[count - 1].value))
    }
}

/// A feedforward or feedback comb filter over a fixed number of channels.
pub struct CombFilter {
    filter_type: FilterType,
    max_delay_secs: Fixed,
    sample_rate_hz: u32,
    gain: Fixed,
    delay_samples: usize,
    max_delay_samples: usize,
    lines: Vec<RingBuffer<Fixed>>,
}

impl View for CombFilter {
    type V = CombModel;

    closed spec fn view(&self) -> CombModel {
        CombModel {
            filter_type: self.filter_type,
            sample_rate_hz: self.sample_rate_hz as int,
            max_delay_secs: self.max_delay_secs,
            gain: self.gain,
            delay_samples: self.delay_samples as int,
            lines: Seq::new(self.lines@.len(), |c: int| self.lines@[c]@.history()),
        }
    }
}

impl CombFilter {
    /// The filter is as its constructor and its methods leave it: the model
    /// is well formed and every delay line has the length that it says.
    pub closed spec fn wf(&self) -> bool {
        &&& self@.wf()
        &&& self.max_delay_samples == self@.max_delay_samples()
        &&& self.max_delay_samples < usize::MAX
        &&& forall|c: int|
            0 <= c < self.lines@.len() ==> {
                &&& (#[trigger] self.lines@[c])@.wf()
                &&& self.lines@[c]@.capacity() == self.max_delay_samples + 1
            }
    }

    /// A filter with silent delay lines of `round(max_delay_secs *
    /// sample_rate_hz) + 1` samples each.
    ///
    /// Refused, first rule first: a negative gain, as `InvalidValue`; a
    /// sample rate of zero, a longest delay that is not positive or too long
    /// to be held, as `InvalidCapacity`; no channel, as `ShapeMismatch`; a
    /// delay beyond the longest, or of zero samples for a feedback filter, as
    /// `InvalidValue`.
    pub fn new(
        filter_type: FilterType,
        max_delay_secs: Fixed,
        sample_rate_hz: u32,
        num_channels: usize,
        gain: Fixed,
        delay_secs: Fixed,
    ) -> (r: Result<Self, Error<FilterParam>>)
        ensures
            match r {
                Ok(f) => {
                    &&& config_error(
                        filter_type,
                        max_delay_secs,
                        sample_rate_hz,
                        num_channels,
                        gain,
                        delay_secs,
                    ) is None
                    &&& f.wf()
                    &&& f@.wf()
                    &&& f@.filter_type == filter_type
                    &&& f@.sample_rate_hz == sample_rate_hz
                    &&& f@.max_delay_secs == max_delay_secs
                    &&& f@.gain == gain
                    &&& f@.delay_samples == Fixed::samples_spec(delay_secs@, sample_rate_hz as int)
                    &&& f@.lines.len() == num_channels
                    &&& forall|c: int, i: int|
                        0 <= c < num_channels && 0 <= i < f@.max_delay_samples() + 1
                            ==> #[trigger] f@.lines[c][i] == Fixed::zero_spec()
                },
                Err(e) => config_error(
                    filter_type,
                    max_delay_secs,
                    sample_rate_hz,
                    num_channels,
                    gain,
                    delay_secs,
                ) == Some(e),
            },
    {
        if gain.is_negative() {
            return Err(Error::InvalidValue { param: FilterParam::Gain, value: gain });
        }
        let most: u64 = max_delay_secs.to_samples(sample_rate_hz);
        if sample_rate_hz == 0 || max_delay_secs.raw() <= 0 || most >= usize::MAX as u64 {
            return Err(Error::InvalidCapacity);
        }
        if num_channels == 0 {
            return Err(Error::ShapeMismatch);
        }
        let delay: u64 = delay_secs.to_samples(sample_rate_hz);
        let feedback: bool = match filter_type {
            FilterType::FIR => false,
            FilterType::IIR => true,
        };
        if delay > most || (delay == 0 && feedback) {
            return Err(Error::InvalidValue { param: FilterParam::Delay, value: delay_secs });
        }
        let capacity: usize = most as usize + 1;
        let mut lines: Vec<RingBuffer<Fixed>> = Vec::with_capacity(num_channels);
        let mut c: usize = 0;
        while c < num_channels
            invariant
                c <= num_channels,
                capacity >= 1,
                lines@.len() == c,
                forall|k: int|
                    0 <= k < c ==> {
                        &&& (#[trigger] lines@[k])@.wf()
                        &&& lines@[k]@.capacity() == capacity
                        &&& forall|i: int|
                            0 <= i < capacity ==> #[trigger] lines@[k]@.history()[i]
                                == Fixed::zero_spec()
                    },
            decreases num_channels - c,
        {
            match RingBuffer::<Fixed>::new(capacity) {
                Ok(line) => {
                    proof {
                        assert forall|i: int| 0 <= i < capacity implies #[trigger] line@.history()[i]
                            == Fixed::zero_spec() by {
                            crate::modular::lemma_mod_range(line@.write + i, capacity as int);
                        }
                    }
                    lines.push(line);
                },
                Err(_) => {
                    return Err(Error::InvalidCapacity);
                },
            }
            c = c + 1;
        }
        let f: CombFilter = CombFilter {
            filter_type,
            max_delay_secs,
            sample_rate_hz,
            gain,
            delay_samples: delay as usize,
            max_delay_samples: most as usize,
            lines,
        };
        Ok(f)
    }

    /// Silences every delay line; the parameters stay.
    pub fn reset(&mut self)
        requires
            old(self).wf(),
        ensures
            final(self).wf(),
            final(self)@.wf(),
            final(self)@.filter_type == old(self)@.filter_type,
            final(self)@.sample_rate_hz == old(self)@.sample_rate_hz,
            final(self)@.max_delay_secs == old(self)@.max_delay_secs,
            final(self)@.gain == old(self)@.gain,
            final(self)@.delay_samples == old(self)@.delay_samples,
            final(self)@.lines.len() == old(self)@.lines.len(),
            forall|c: int, i: int|
                0 <= c < final(self)@.lines.len() && 0 <= i < final(self)@.max_delay_samples() + 1
                    ==> #[trigger] final(self)@.lines[c][i] == Fixed::zero_spec(),
    {
        let n: usize = self.lines.len();
        let ghost capacity: int = self.max_delay_samples + 1;
        let mut c: usize = 0;
        while c < n
            invariant
                c <= n,
                n == self.lines@.len(),
                self.filter_type == old(self).filter_type,
                self.sample_rate_hz == old(self).sample_rate_hz,
                self.max_delay_secs == old(self).max_delay_secs,
                self.gain == old(self).gain,
                self.delay_samples == old(self).delay_samples,
                self.max_delay_samples == old(self).max_delay_samples,
                capacity == self.max_delay_samples + 1,
                forall|k: int|
                    0 <= k < n ==> {
                        &&& (#[trigger] self.lines@[k])@.wf()
                        &&& self.lines@[k]@.capacity() == capacity
                    },
                forall|k: int, i: int|
                    0 <= k < c && 0 <= i < capacity ==> #[trigger] self.lines@[k]@.history()[i]
                        == Fixed::zero_spec(),
            decreases n - c,
        {
            self.lines[c].reset();
            proof {
                let line: RingBuffer<Fixed> = self.lines@[c as int];
                assert forall|i: int| 0 <= i < capacity implies #[trigger] line@.history()[i]
                    == Fixed::zero_spec() by {
                    crate::modular::lemma_mod_range(line@.write + i, capacity);
                }
            }
            c = c + 1;
        }
    }

    /// Sets the gain, or the delay in seconds.
    ///
    /// A negative gain is refused, and so is a delay that comes to more
    /// samples than the longest delay, or to none for a feedback filter. A
    /// refusal changes nothing.
    pub fn set_param(&mut self, param: FilterParam, value: Fixed) -> (r: Result<
        (),
        Error<FilterParam>,
    >)
        requires
            old(self).wf(),
        ensures
            final(self).wf(),
            final(self)@.wf(),
            match r {
                Ok(_) => {
                    &&& old(self)@.accepts(param, value)
                    &&& final(self)@ == old(self)@.with_param(param, value)
                },
                Err(e) => {
                    &&& !old(self)@.accepts(param, value)
                    &&& e == (Error::InvalidValue { param, value })
                    &&& final(self)@ == old(self)@
                },
            },
    {
        match param {
            FilterParam::Gain => {
                if value.is_negative() {
                    return Err(Error::InvalidValue { param, value });
                }
                self.gain = value;
                Ok(())
            },
            FilterParam::Delay => {
                let delay: u64 = value.to_samples(self.sample_rate_hz);
                let feedback: bool = match self.filter_type {
                    FilterType::FIR => false,
                    FilterType::IIR => true,
                };
                if delay > self.max_delay_samples as u64 || (delay == 0 && feedback) {
                    return Err(Error::InvalidValue { param, value });
                }
                self.delay_samples = delay as usize;
                Ok(())
            },
        }
    }

    /// Applies the changes asked for since the last block, in the order in
    /// which they were asked for, up to the first that is refused.
    ///
    /// Gives the number of changes applied. Where that is less than the
    /// number of messages, the message at that place was refused as
    /// `set_param` refuses it, and it and those behind it changed nothing.
    pub fn apply_messages(&mut self, messages: &[Message]) -> (applied: usize)
        requires
            old(self).wf(),
        ensures
            final(self).wf(),
            final(self)@.wf(),
            applied <= messages@.len(),
            old(self)@.all_accepted(messages@, applied as int),
            final(self)@ == old(self)@.after(messages@, applied as int),
            applied < messages@.len() ==> !final(self)@.accepts(
                messages@[applied as int].param,
                messages@[applied as int].value,
            ),
    {
        let n: usize = messages.len();
        let mut i: usize = 0;
        while i < n
            invariant
                i <= n,
                n == messages@.len(),
                self.wf(),
                old(self)@.all_accepted(messages@, i as int),
                self@ == old(self)@.after(messages@, i as int),
            decreases n - i,
        {
            let message: Message = messages[i];
            match self.set_param(message.param, message.value) {
                Ok(_) => {},
                Err(_) => {
                    return i;
                },
            }
            i = i + 1;
        }
        n
    }

    /// The gain, or the delay in seconds: the delay in samples over the
    /// sample rate.
    pub fn get_param(&self, param: FilterParam) -> (r: Fixed)
        requires
            self.wf(),
        ensures
            r == self@.param(param),
    {
        match param {
            FilterParam::Gain => self.gain,
            FilterParam::Delay => Fixed::from_samples(self.delay_samples as u64, self.sample_rate_hz),
        }
    }

    /// Number of channels.
    pub fn num_channels(&self) -> (r: usize)
        ensures
            r == self@.lines.len(),
    {
        self.lines.len()
    }

    /// The delay in samples.
    pub fn delay_samples(&self) -> (r: usize)
        ensures
            r == self@.delay_samples,
    {
        self.delay_samples
    }

    /// Runs one channel over a block: `output[i]` is `input[i]` plus the gain
    /// times the sample that its delay line gives, and the delay line then
    /// takes the input (feedforward) or the output (feedback).
    ///
    /// A channel that the filter does not have, or an output that is not as
    /// long as the input, is refused, and nothing is touched.
    pub fn process_block(&mut self, channel: usize, input: &[Fixed], output: &mut [Fixed]) -> (r:
        Result<(), Error<FilterParam>>)
        requires
            old(self).wf(),
        ensures
            final(self).wf(),
            final(self)@.wf(),
            r is Ok <==> channel < old(self)@.lines.len() && input@.len() == old(output)@.len(),
            r matches Err(e) ==> {
                &&& e == Error::<FilterParam>::ShapeMismatch
                &&& final(self)@ == old(self)@
                &&& final(output)@ == old(output)@
            },
            final(output)@.len() == old(output)@.len(),
            r is Ok ==> {
                &&& final(output)@ == old(self)@.run_channel(channel as int, input@).output
                &&& final(self)@ == (CombModel {
                    lines: old(self)@.lines.update(
                        channel as int,
                        old(self)@.run_channel(channel as int, input@).history,
                    ),
                    ..old(self)@
                })
            },
    {
        if channel >= self.lines.len() || input.len() != output.len() {
            return Err(Error::ShapeMismatch);
        }
        let ghost before: Seq<RingBuffer<Fixed>> = self.lines@;
        proof {
            lemma_run_shape(
                self.filter_type,
                self.gain,
                self.delay_samples as int,
                self@.lines[channel as int],
                input@,
            );
        }
        Self::run_block(
            &mut self.lines[channel],
            self.filter_type,
            self.gain,
            self.delay_samples,
            input,
            output,
        );
        proof {
            assert(self.lines@ == before.update(channel as int, self.lines@[channel as int]));
            assert(self@.lines =~= old(self)@.lines.update(
                channel as int,
                old(self)@.run_channel(channel as int, input@).history,
            ));
        }
        Ok(())
    }

    /// Runs every channel over its block, as `process_block` does.
    ///
    /// The block is refused, and nothing is touched, unless there are as
    /// many inputs and as many outputs as the filter has channels, all of one
    /// length.
    pub fn process(&mut self, input: &[&[Fixed]], output: &mut [&mut [Fixed]]) -> (r: Result<
        (),
        Error<FilterParam>,
    >)
        requires
            old(self).wf(),
        ensures
            final(self).wf(),
            final(self)@.wf(),
            final(output)@.len() == old(output)@.len(),
            forall|c: int|
                0 <= c < old(output)@.len() ==> final(final(output)@[c])@ == final(old(output)@[c])@,
            r is Ok <==> crate::block::shape_ok(
                crate::block::samples_of(input@),
                crate::block::samples_in(old(output)@),
                old(self)@.lines.len() as int,
            ),
            r matches Err(e) ==> {
                &&& e == Error::<FilterParam>::ShapeMismatch
                &&& final(self)@ == old(self)@
                &&& crate::block::samples_in(final(output)@) == crate::block::samples_in(old(output)@)
            },
            r is Ok ==> {
                &&& final(self)@.filter_type == old(self)@.filter_type
                &&& final(self)@.sample_rate_hz == old(self)@.sample_rate_hz
                &&& final(self)@.max_delay_secs == old(self)@.max_delay_secs
                &&& final(self)@.gain == old(self)@.gain
                &&& final(self)@.delay_samples == old(self)@.delay_samples
                &&& final(self)@.lines.len() == old(self)@.lines.len()
                &&& forall|c: int|
                    0 <= c < old(self)@.lines.len() ==> #[trigger] crate::block::samples_in(final(output)@)[c]
                        == old(self)@.run_channel(c, crate::block::samples_of(input@)[c]).output
                &&& forall|c: int|
                    0 <= c < old(self)@.lines.len() ==> #[trigger] final(self)@.lines[c] == old(
                        self,
                    )@.run_channel(c, crate::block::samples_of(input@)[c]).history
            },
    {
        let n: usize = self.lines.len();
        if input.len() != n || output.len() != n {
            return Err(Error::ShapeMismatch);
        }
        let length: usize = input[0].len();
        let mut c: usize = 0;
        while c < n
            invariant
                c <= n,
                n == input@.len(),
                n == output@.len(),
                n >= 1,
                n == self.lines@.len(),
                length == input@[0]@.len(),
                self.wf(),
                *self == *old(self),
                forall|k: int| 0 <= k < n ==> output@[k]@ == old(output)@[k]@,
                forall|k: int| 0 <= k < n ==> final(output@[k])@ == final(old(output)@[k])@,
                forall|k: int| 0 <= k < c ==> input@[k]@.len() == length,
                forall|k: int| 0 <= k < c ==> output@[k]@.len() == length,
            decreases n - c,
        {
            if input[c].len() != length || output[c].len() != length {
                proof {
                    assert(crate::block::samples_of(input@)[c as int] == input@[c as int]@);
                    assert(crate::block::samples_in(old(output)@)[c as int] == old(output)@[c as int]@);
                    assert(crate::block::samples_of(input@)[0] == input@[0]@);
                    assert(crate::block::samples_in(output@) =~= crate::block::samples_in(old(output)@));
                }
                return Err(Error::ShapeMismatch);
            }
            c = c + 1;
        }
        proof {
            assert(crate::block::samples_of(input@)[0] == input@[0]@);
            assert forall|k: int| 0 <= k < n implies (#[trigger] crate::block::samples_of(input@)[k]).len()
                == length by {
                assert(crate::block::samples_of(input@)[k] == input@[k]@);
            }
            assert forall|k: int| 0 <= k < n implies (#[trigger] crate::block::samples_in(old(output)@)[k]).len()
                == length by {
                assert(crate::block::samples_in(old(output)@)[k] == old(output)@[k]@);
                assert(output@[k]@ == old(output)@[k]@);
            }
        }
        c = 0;
        while c < n
            invariant
                c <= n,
                n == input@.len(),
                n == output@.len(),
                n == self.lines@.len(),
                n == old(self).lines@.len(),
                n == old(output)@.len(),
                self.wf(),
                self.filter_type == old(self).filter_type,
                self.sample_rate_hz == old(self).sample_rate_hz,
                self.max_delay_secs == old(self).max_delay_secs,
                self.gain == old(self).gain,
                self.delay_samples == old(self).delay_samples,
                forall|k: int| 0 <= k < n ==> final(output@[k])@ == final(old(output)@[k])@,
                forall|k: int| 0 <= k < n ==> input@[k]@.len() == output@[k]@.len(),
                forall|k: int| c <= k < n ==> self@.lines[k] == old(self)@.lines[k],
                forall|k: int|
                    0 <= k < c ==> output@[k]@ == old(self)@.run_channel(k, input@[k]@).output,
                forall|k: int|
                    0 <= k < c ==> self@.lines[k] == old(self)@.run_channel(k, input@[k]@).history,
            decreases n - c,
        {
            let ghost model = self@;
            let ghost written: Seq<&mut [Fixed]> = output@;
            let done = self.process_block(c, input[c], output[c]);
            proof {
                assert(done is Ok);
                assert forall|k: int| 0 <= k < n && k != c implies output@[k] == written[k] by {}
                assert(model.run_channel(c as int, input@[c as int]@) == old(self)@.run_channel(
                    c as int,
                    input@[c as int]@,
                ));
            }
            c = c + 1;
        }
        proof {
            assert forall|k: int| 0 <= k < n implies #[trigger] crate::block::samples_in(output@)[k] == old(
                self,
            )@.run_channel(k, crate::block::samples_of(input@)[k]).output by {
                assert(crate::block::samples_of(input@)[k] == input@[k]@);
                assert(crate::block::samples_in(output@)[k] == output@[k]@);
            }
            assert forall|k: int| 0 <= k < n implies #[trigger] self@.lines[k] == old(
                self,
            )@.run_channel(k, crate::block::samples_of(input@)[k]).history by {
                assert(crate::block::samples_of(input@)[k] == input@[k]@);
            }
        }
        Ok(())
    }

    /// One delay line run over a block.
    fn run_block(
        line: &mut RingBuffer<Fixed>,
        filter_type: FilterType,
        gain: Fixed,
        delay: usize,
        input: &[Fixed],
        output: &mut [Fixed],
    )
        requires
            delay < old(line)@.capacity(),
            input@.len() == old(output)@.len(),
        ensures
            final(line)@.wf(),
            final(line)@.capacity() == old(line)@.capacity(),
            final(line)@.history() == run(
                filter_type,
                gain,
                delay as int,
                old(line)@.history(),
                input@,
            ).history,
            final(output)@ == run(
                filter_type,
                gain,
                delay as int,
                old(line)@.history(),
                input@,
            ).output,
    {
        let n: usize = input.len();
        let capacity: usize = line.capacity();
        let ghost start: Seq<Fixed> = line@.history();
        let mut i: usize = 0;
        while i < n
            invariant
                i <= n,
                n == input@.len(),
                n == output@.len(),
                line@.wf(),
                line@.capacity() == capacity,
                delay < capacity,
                line@.history() == run(filter_type, gain, delay as int, start, input@.take(i as int)).history,
                output@.take(i as int) == run(
                    filter_type,
                    gain,
                    delay as int,
                    start,
                    input@.take(i as int),
                ).output,
            decreases n - i,
        {
            let x: Fixed = input[i];
            let write: usize = line.get_write_index();
            let ghost m = line@;
            let at: usize = if delay <= write {
                write - delay
            } else {
                capacity - (delay - write)
            };
            line.set_read_index(at);
            proof {
                crate::ring_buffer::lemma_history_tap(m, delay as int);
                crate::modular::lemma_mod_congruent(
                    m.write + m.capacity() - delay,
                    at as int,
                    if delay <= write { 1 } else { 0 },
                    m.capacity(),
                );
                crate::ring_buffer::lemma_history_push(line@, fed(
                    filter_type,
                    x,
                    mix(gain, x, tap(m.history(), delay as int)),
                ));
            }
            let delayed: Fixed = line.peek();
            let y: Fixed = x.saturating_add(gain.saturating_mul(delayed));
            let ghost out_before: Seq<Fixed> = output@;
            output[i] = y;
            let feed: Fixed = match filter_type {
                FilterType::FIR => x,
                FilterType::IIR => y,
            };
            line.push(feed);
            proof {
                let head: Seq<Fixed> = input@.take(i as int);
                let more: Seq<Fixed> = input@.take(i + 1);
                assert(more.drop_last() =~= head);
                assert(more.last() == x);
                assert(output@.take(i + 1) =~= out_before.take(i as int).push(y));
            }
            i = i + 1;
        }
        proof {
            assert(input@.take(n as int) =~= input@);
            assert(output@.take(n as int) =~= output@);
        }
    }
}

} // verus!

use delay_effects::comb_filter::{CombFilter, FilterParam, FilterType, Message};
use delay_effects::error::Error;
use delay_effects::fixed::Fixed;

const ONE: i64 = 1 << 32;

fn fx(x: f64) -> Fixed {
    Fixed::from_raw((x * ONE as f64).round() as i64)
}

fn to_f64(x: Fixed) -> f64 {
    x.raw() as f64 / ONE as f64
}

fn whole(values: &[i32]) -> Vec<Fixed> {
    values.iter().map(|v| Fixed::from_int(*v)).collect()
}

fn run_mono(filter: &mut CombFilter, input: &[Fixed]) -> Vec<Fixed> {
    let mut output = vec![Fixed::zero(); input.len()];
    filter.process(&[input], &mut [&mut output[..]]).unwrap();
    output
}

fn impulse(len: usize) -> Vec<Fixed> {
    let mut block = vec![Fixed::zero(); len];
    block[0] = Fixed::one();
    block
}

#[test]
fn test_fir_output_zero_on_feedforward_freq() {
    let mut filter =
        CombFilter::new(FilterType::FIR, fx(1.0), 44100, 1, fx(0.5), fx(0.25)).expect("Failed to create CombFilter");
    let input = vec![vec![Fixed::zero(); 1024]; 1];
    let mut output = vec![vec![Fixed::zero(); 1024]; 1];
    filter
        .process(
            &input.iter().map(|x| &x[..]).collect::<Vec<_>>(),
            &mut output.iter_mut().map(|x| &mut x[..]).collect::<Vec<_>>(),
        )
        .unwrap();
    let is_zero_output = output.iter().flatten().all(|&sample| to_f64(sample).abs() < 1e-5);
    assert!(is_zero_output, "FIR filter test failed: Output is not zero.");
}

#[test]
fn test_iir_magnitude_change_on_feedback_freq() {
    let mut filter = CombFilter::new(FilterType::IIR, fx(32.0), 44100, 1, fx(0.5), fx(1.0 / 440.0))
        .expect("Failed to create CombFilter");
    assert_eq!(filter.delay_samples(), 100);
    let input = vec![vec![Fixed::one(); 1024]];
    let mut output = vec![vec![Fixed::zero(); 1024]];
    filter
        .process(
            &input.iter().map(|x| &x[..]).collect::<Vec<_>>(),
            &mut output.iter_mut().map(|x| &mut x[..]).collect::<Vec<_>>(),
        )
        .unwrap();
    let last_sample = to_f64(output[0][1023]);
    assert!(last_sample.abs() < 10.0, "IIR filter output did not stabilize as expected.");
    // Ten full delays have passed: 1 + 1/2 + ... + 1/2^10.
    assert_eq!(output[0][1023].raw(), 2 * ONE - ONE / 1024);
}

#[test]
fn test_varying_input_block_size() {
    let mut filter =
        CombFilter::new(FilterType::FIR, fx(1.0), 44100, 1, fx(0.5), fx(0.25)).expect("Failed to create CombFilter");
    let input_small = vec![vec![Fixed::one(); 512]; 1];
    let mut output_small = vec![vec![Fixed::zero(); 512]; 1];
    let input_large = vec![vec![Fixed::one(); 2048]; 1];
    let mut output_large = vec![vec![Fixed::zero(); 2048]; 1];
    filter
        .process(
            &input_small.iter().map(|x| &x[..]).collect::<Vec<_>>(),
            &mut output_small.iter_mut().map(|x| &mut x[..]).collect::<Vec<_>>(),
        )
        .unwrap();
    filter
        .process(
            &input_large.iter().map(|x| &x[..]).collect::<Vec<_>>(),
            &mut output_large.iter_mut().map(|x| &mut x[..]).collect::<Vec<_>>(),
        )
        .unwrap();
    assert!(output_small[0].iter().all(|&s| s == Fixed::one()));
    assert!(output_large[0].iter().all(|&s| s == Fixed::one()));
}

#[test]
fn test_processing_zero_input_signal() {
    let mut filter =
        CombFilter::new(FilterType::FIR, fx(1.0), 44100, 1, fx(0.5), fx(0.25)).expect("Failed to create CombFilter");
    let input_zero = vec![vec![Fixed::zero(); 1024]; 1];
    let mut output = vec![vec![Fixed::one(); 1024]; 1];
    filter
        .process(
            &input_zero.iter().map(|x| &x[..]).collect::<Vec<_>>(),
            &mut output.iter_mut().map(|x| &mut x[..]).collect::<Vec<_>>(),
        )
        .unwrap();
    let is_zero_output = output.iter().flatten().all(|&sample| sample == Fixed::zero());
    assert!(is_zero_output, "Processing Zero Input Signal test failed: Output is not zero.");
}

#[test]
fn test_buffer_length_greater_than_input_length() {
    let mut filter = CombFilter::new(FilterType::FIR, fx(1.0), 44100, 1, fx(0.5), fx(0.01)).unwrap();
    assert_eq!(filter.delay_samples(), 441);
    // A block shorter than the delay line is a block like any other.
    let input_signal = vec![vec![Fixed::from_int(3); 10]; 1];
    let mut output_signal = vec![vec![Fixed::zero(); 10]; 1];
    let done = filter.process(
        &input_signal.iter().map(|x| &x[..]).collect::<Vec<_>>(),
        &mut output_signal.iter_mut().map(|x| &mut x[..]).collect::<Vec<_>>(),
    );
    assert_eq!(done, Ok(()));
    assert_eq!(output_signal, input_signal);
}

#[test]
fn fir_adds_delayed_input() {
    let mut filter = CombFilter::new(FilterType::FIR, fx(32.0), 1, 1, fx(1.0), fx(3.0)).unwrap();
    filter.set_param(FilterParam::Gain, fx(1.0)).expect("Failed to set gain");
    filter.set_param(FilterParam::Delay, fx(3.0)).expect("Failed to set delay");
    let output = run_mono(&mut filter, &whole(&[7, 6, 5, 4, 3, 2, 1]));
    assert_eq!(output, whole(&[7, 6, 5, 11, 9, 7, 5]));
}

#[test]
fn iir_adds_delayed_output() {
    let mut filter = CombFilter::new(FilterType::IIR, fx(32.0), 1, 1, fx(1.0), fx(3.0)).unwrap();
    let output = run_mono(&mut filter, &whole(&[1, 1, 1, 1, 1, 1, 1]));
    assert_eq!(output, whole(&[1, 1, 1, 2, 2, 2, 3]));
}

#[test]
fn fir_impulse_response() {
    for delay in 1..6usize {
        let gain = fx(0.75);
        let mut filter =
            CombFilter::new(FilterType::FIR, fx(8.0), 1, 1, gain, Fixed::from_int(delay as i32)).unwrap();
        let output = run_mono(&mut filter, &impulse(20));
        for (i, &y) in output.iter().enumerate() {
            let expected = if i == 0 {
                Fixed::one()
            } else if i == delay {
                gain
            } else {
                Fixed::zero()
            };
            assert_eq!(y, expected, "delay {} sample {}", delay, i);
        }
    }
}

#[test]
fn fir_with_zero_delay_reads_the_oldest_sample() {
    // A delay of zero taps the slot that the next write replaces, which holds
    // the sample written one whole delay line earlier.
    let mut filter = CombFilter::new(FilterType::FIR, fx(2.0), 1, 1, fx(0.5), fx(0.0)).unwrap();
    assert_eq!(filter.delay_samples(), 0);
    let output = run_mono(&mut filter, &impulse(7));
    let expected: Vec<Fixed> = [1.0, 0.0, 0.0, 0.5, 0.0, 0.0, 0.0].iter().map(|v| fx(*v)).collect();
    assert_eq!(output, expected);
}

#[test]
fn iir_impulse_decays_geometrically() {
    let gain = fx(0.5);
    let delay = 4usize;
    let mut filter = CombFilter::new(FilterType::IIR, fx(8.0), 1, 1, gain, fx(4.0)).unwrap();
    let output = run_mono(&mut filter, &impulse(41));
    let mut power = Fixed::one();
    for (i, &y) in output.iter().enumerate() {
        if i % delay == 0 {
            assert_eq!(y, power);
            assert_eq!(y.raw(), ONE >> (i / delay));
            power = gain.saturating_mul(power);
        } else {
            assert_eq!(y, Fixed::zero());
        }
    }
}

#[test]
fn iir_with_gain_above_one_saturates() {
    let mut filter = CombFilter::new(FilterType::IIR, fx(1.0), 1, 1, Fixed::from_int(1 << 20), fx(1.0)).unwrap();
    let output = run_mono(&mut filter, &impulse(6));
    assert_eq!(output[0], Fixed::one());
    assert_eq!(output[1], Fixed::from_int(1 << 20));
    assert_eq!(output[2].raw(), i64::MAX);
    assert_eq!(output[5].raw(), i64::MAX);
}

#[test]
fn comb_block_size_does_not_change_the_output() {
    for filter_type in [FilterType::FIR, FilterType::IIR] {
        let stream: Vec<Fixed> = (0..2100).map(|i| fx(((i * 37) % 101) as f64 / 101.0 - 0.5)).collect();
        let make = || CombFilter::new(filter_type, fx(0.01), 4800, 1, fx(0.7), fx(0.005)).unwrap();
        let mut whole_filter = make();
        let expected = run_mono(&mut whole_filter, &stream);
        for block_size in [1usize, 7, 1024] {
            let mut filter = make();
            let mut output = Vec::new();
            for block in stream.chunks(block_size) {
                output.extend(run_mono(&mut filter, block));
            }
            assert_eq!(output, expected, "block size {}", block_size);
        }
    }
}

#[test]
fn channels_are_independent() {
    let mut filter = CombFilter::new(FilterType::FIR, fx(4.0), 1, 2, fx(1.0), fx(1.0)).unwrap();
    assert_eq!(filter.num_channels(), 2);
    let left = whole(&[1, 2, 3, 4]);
    let right = whole(&[10, 0, 0, 0]);
    let mut out_left = vec![Fixed::zero(); 4];
    let mut out_right = vec![Fixed::zero(); 4];
    filter
        .process(&[&left[..], &right[..]], &mut [&mut out_left[..], &mut out_right[..]])
        .unwrap();
    assert_eq!(out_left, whole(&[1, 3, 5, 7]));
    assert_eq!(out_right, whole(&[10, 10, 0, 0]));
}

#[test]
fn process_block_runs_one_channel() {
    let mut filter = CombFilter::new(FilterType::FIR, fx(4.0), 1, 2, fx(1.0), fx(2.0)).unwrap();
    let input = whole(&[1, 2, 3, 4]);
    let mut output = vec![Fixed::zero(); 4];
    assert_eq!(filter.process_block(1, &input, &mut output), Ok(()));
    assert_eq!(output, whole(&[1, 2, 4, 6]));
    // Channel 0 has seen nothing yet.
    assert_eq!(filter.process_block(0, &input, &mut output), Ok(()));
    assert_eq!(output, whole(&[1, 2, 4, 6]));
    assert_eq!(filter.process_block(2, &input, &mut output), Err(Error::ShapeMismatch));
    let mut short = vec![Fixed::zero(); 3];
    assert_eq!(filter.process_block(1, &input, &mut short), Err(Error::ShapeMismatch));
    assert_eq!(short, vec![Fixed::zero(); 3]);
}

#[test]
fn comb_reset_silences_the_delay_lines_only() {
    let mut filter = CombFilter::new(FilterType::IIR, fx(4.0), 1, 1, fx(0.5), fx(2.0)).unwrap();
    run_mono(&mut filter, &whole(&[8, 8, 8]));
    filter.reset();
    assert_eq!(filter.get_param(FilterParam::Gain), fx(0.5));
    assert_eq!(filter.get_param(FilterParam::Delay), fx(2.0));
    let output = run_mono(&mut filter, &impulse(5));
    let expected: Vec<Fixed> = [1.0, 0.0, 0.5, 0.0, 0.25].iter().map(|v| fx(*v)).collect();
    assert_eq!(output, expected);
}

#[test]
fn set_param_rejects_out_of_bound_values_and_keeps_the_old() {
    let max_delay_secs = 0.5;
    let mut filter = CombFilter::new(FilterType::FIR, fx(max_delay_secs), 44100, 1, fx(0.5), fx(0.25)).unwrap();
    assert_eq!(
        filter.set_param(FilterParam::Gain, fx(-1.0)),
        Err(Error::InvalidValue { param: FilterParam::Gain, value: fx(-1.0) })
    );
    let beyond = fx(max_delay_secs + 0.001);
    assert_eq!(
        filter.set_param(FilterParam::Delay, beyond),
        Err(Error::InvalidValue { param: FilterParam::Delay, value: beyond })
    );
    assert_eq!(filter.get_param(FilterParam::Gain), fx(0.5));
    assert_eq!(filter.delay_samples(), 11025);
    assert_eq!(filter.get_param(FilterParam::Delay), fx(0.25));
    // The longest delay itself is taken.
    assert_eq!(filter.set_param(FilterParam::Delay, fx(max_delay_secs)), Ok(()));
    assert_eq!(filter.delay_samples(), 22050);
    // One sample more is not.
    let one_more = Fixed::from_samples(22051, 44100);
    assert!(filter.set_param(FilterParam::Delay, one_more).is_err());
    assert_eq!(filter.delay_samples(), 22050);
}

#[test]
fn set_param_takes_values_within_bounds() {
    let mut filter = CombFilter::new(FilterType::FIR, fx(1.0), 48000, 1, fx(0.5), fx(0.25)).unwrap();
    assert_eq!(filter.set_param(FilterParam::Gain, Fixed::zero()), Ok(()));
    assert_eq!(filter.get_param(FilterParam::Gain), Fixed::zero());
    assert_eq!(filter.set_param(FilterParam::Gain, fx(3.5)), Ok(()));
    assert_eq!(filter.get_param(FilterParam::Gain), fx(3.5));
    assert_eq!(filter.set_param(FilterParam::Delay, fx(0.01)), Ok(()));
    assert_eq!(filter.delay_samples(), 480);
    assert_eq!(filter.get_param(FilterParam::Delay), Fixed::from_samples(480, 48000));
    assert_eq!(filter.set_param(FilterParam::Delay, fx(0.0)), Ok(()));
    assert_eq!(filter.delay_samples(), 0);
    assert_eq!(filter.set_param(FilterParam::Delay, fx(-3.0)), Ok(()));
    assert_eq!(filter.delay_samples(), 0);
}

#[test]
fn feedback_filter_rejects_zero_delay() {
    let made = CombFilter::new(FilterType::IIR, fx(1.0), 44100, 1, fx(0.5), fx(0.0));
    assert_eq!(made.err(), Some(Error::InvalidValue { param: FilterParam::Delay, value: fx(0.0) }));
    let mut filter = CombFilter::new(FilterType::IIR, fx(1.0), 44100, 1, fx(0.5), fx(0.5)).unwrap();
    let tiny = fx(0.000001);
    assert_eq!(
        filter.set_param(FilterParam::Delay, tiny),
        Err(Error::InvalidValue { param: FilterParam::Delay, value: tiny })
    );
    assert_eq!(filter.delay_samples(), 22050);
}

#[test]
fn comb_new_rejects_invalid_configurations() {
    let gain = CombFilter::new(FilterType::FIR, fx(1.0), 44100, 1, fx(-0.5), fx(0.25));
    assert_eq!(gain.err(), Some(Error::InvalidValue { param: FilterParam::Gain, value: fx(-0.5) }));
    let rate = CombFilter::new(FilterType::FIR, fx(1.0), 0, 1, fx(0.5), fx(0.25));
    assert_eq!(rate.err(), Some(Error::InvalidCapacity));
    let longest = CombFilter::new(FilterType::FIR, fx(0.0), 44100, 1, fx(0.5), fx(0.0));
    assert_eq!(longest.err(), Some(Error::InvalidCapacity));
    let channels = CombFilter::new(FilterType::FIR, fx(1.0), 44100, 0, fx(0.5), fx(0.25));
    assert_eq!(channels.err(), Some(Error::ShapeMismatch));
    let delay = CombFilter::new(FilterType::FIR, fx(1.0), 44100, 1, fx(0.5), fx(1.5));
    assert_eq!(delay.err(), Some(Error::InvalidValue { param: FilterParam::Delay, value: fx(1.5) }));
    // The first broken rule is the one reported.
    let both = CombFilter::new(FilterType::FIR, fx(1.0), 0, 0, fx(-0.5), fx(9.0));
    assert_eq!(both.err(), Some(Error::InvalidValue { param: FilterParam::Gain, value: fx(-0.5) }));
}

#[test]
fn comb_process_rejects_blocks_of_the_wrong_shape() {
    let mut filter = CombFilter::new(FilterType::FIR, fx(4.0), 1, 2, fx(1.0), fx(1.0)).unwrap();
    let a = whole(&[1, 2, 3]);
    let b = whole(&[4, 5, 6]);
    let short = whole(&[7, 8]);
    let mut x = whole(&[9, 9, 9]);
    let mut y = whole(&[9, 9, 9]);
    let mut z = whole(&[9, 9]);
    assert_eq!(filter.process(&[&a[..]], &mut [&mut x[..], &mut y[..]]), Err(Error::ShapeMismatch));
    assert_eq!(filter.process(&[&a[..], &b[..]], &mut [&mut x[..]]), Err(Error::ShapeMismatch));
    assert_eq!(
        filter.process(&[&a[..], &short[..]], &mut [&mut x[..], &mut y[..]]),
        Err(Error::ShapeMismatch)
    );
    assert_eq!(
        filter.process(&[&a[..], &b[..]], &mut [&mut x[..], &mut z[..]]),
        Err(Error::ShapeMismatch)
    );
    assert_eq!(x, whole(&[9, 9, 9]));
    assert_eq!(y, whole(&[9, 9, 9]));
    assert_eq!(z, whole(&[9, 9]));
    // Nothing went into the delay lines on the way.
    assert_eq!(filter.process(&[&a[..], &b[..]], &mut [&mut x[..], &mut y[..]]), Ok(()));
    assert_eq!(x, whole(&[1, 3, 5]));
    assert_eq!(y, whole(&[4, 9, 11]));
}

#[test]
fn messages_apply_in_order_up_to_the_first_refused() {
    let mut filter = CombFilter::new(FilterType::IIR, fx(1.0), 44100, 1, fx(1.0), fx(0.5)).unwrap();
    let messages = [
        Message { param: FilterParam::Delay, value: fx(0.2) },
        Message { param: FilterParam::Gain, value: fx(0.5) },
        Message { param: FilterParam::Gain, value: fx(0.25) },
    ];
    assert_eq!(filter.apply_messages(&messages), 3);
    assert_eq!(filter.delay_samples(), 8820);
    assert_eq!(filter.get_param(FilterParam::Gain), fx(0.25));
    let refused = [
        Message { param: FilterParam::Gain, value: fx(0.75) },
        Message { param: FilterParam::Delay, value: fx(0.0) },
        Message { param: FilterParam::Gain, value: fx(0.125) },
    ];
    assert_eq!(filter.apply_messages(&refused), 1);
    assert_eq!(filter.get_param(FilterParam::Gain), fx(0.75));
    assert_eq!(filter.delay_samples(), 8820);
    assert_eq!(filter.apply_messages(&[]), 0);
    assert_eq!(filter.get_param(FilterParam::Gain), fx(0.75));
}

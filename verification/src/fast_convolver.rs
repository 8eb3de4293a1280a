//! Convolution of a block with an impulse response, sample by sample.

use vstd::prelude::*;
use crate::error::ShapeMismatch;
use crate::fixed::Fixed;

verus! {

/// How a convolver works on its blocks.
#[derive(Debug, Clone, Copy)]
pub enum ConvolutionMode {
    /// Every input sample times every sample of the impulse response.
    TimeDomain,
    /// In blocks of `block_size` samples; a convolver in this mode leaves
    /// its output as it finds it.
    FrequencyDomain { block_size: usize },
}

/// `out` after `x` times each of the first `count` samples of `b` has been
/// added to it from place `at` on.
pub open spec fn row(x: Fixed, b: Seq<Fixed>, out: Seq<Fixed>, at: int, count: int) -> Seq<Fixed>
    decreases count,
{
    if count <= 0 {
        out
    } else {
        let before = row(x, b, out, at, count - 1);
        let place = at + count - 1;
        before.update(place, before[place].add_spec(x.mul_spec(b[count - 1])))
    }
}

/// `out` after the products of each of the first `rows` samples of `a` with
/// every sample of `b` have been added to it: the product of `a[i]` and
/// `b[j]` at place `i + j`, in the order of `i` and then of `j`.
pub open spec fn convolved(a: Seq<Fixed>, b: Seq<Fixed>, out: Seq<Fixed>, rows: int) -> Seq<Fixed>
    decreases rows,
{
    if rows <= 0 {
        out
    } else {
        row(a[rows - 1], b, convolved(a, b, out, rows - 1), rows - 1, b.len() as int)
    }
}

/// Whether an output of `out` samples takes the convolution of `a` samples
/// with `b` samples: it has a place for every sum of two indices.
pub open spec fn fits(a: int, b: int, out: int) -> bool {
    a == 0 || b == 0 || a + b - 1 <= out
}

/// Adding a row changes no length, and no place outside the row.
pub proof fn lemma_row_shape(x: Fixed, b: Seq<Fixed>, out: Seq<Fixed>, at: int, count: int)
    requires
        0 <= at,
        0 <= count <= b.len(),
        at + count <= out.len(),
    ensures
        row(x, b, out, at, count).len() == out.len(),
        forall|k: int|
            0 <= k < out.len() && !(at <= k < at + count) ==> #[trigger] row(x, b, out, at, count)[k]
                == out[k],
    decreases count,
{
    if count > 0 {
        lemma_row_shape(x, b, out, at, count - 1);
    }
}

/// A convolution changes no length.
pub proof fn lemma_convolved_shape(a: Seq<Fixed>, b: Seq<Fixed>, out: Seq<Fixed>, rows: int)
    requires
        0 <= rows <= a.len(),
        fits(a.len() as int, b.len() as int, out.len() as int),
    ensures
        convolved(a, b, out, rows).len() == out.len(),
    decreases rows,
{
    if rows > 0 {
        lemma_convolved_shape(a, b, out, rows - 1);
        if b.len() > 0 {
            lemma_row_shape(
                a[rows - 1],
                b,
                convolved(a, b, out, rows - 1),
                rows - 1,
                b.len() as int,
            );
        }
    }
}

/// Convolved with a single one, a block is added to the output as it is.
pub proof fn lemma_unit_response(a: Seq<Fixed>, out: Seq<Fixed>, rows: int, k: int)
    requires
        0 <= rows <= a.len(),
        a.len() <= out.len(),
        0 <= k < out.len(),
    ensures
        convolved(a, seq![Fixed::one_spec()], out, rows)[k] == if k < rows {
            out[k].add_spec(a[k])
        } else {
            out[k]
        },
    decreases rows,
{
    let b: Seq<Fixed> = seq![Fixed::one_spec()];
    if rows > 0 {
        let before: Seq<Fixed> = convolved(a, b, out, rows - 1);
        lemma_unit_response(a, out, rows - 1, k);
        lemma_unit_response(a, out, rows - 1, rows - 1);
        lemma_convolved_shape(a, b, out, rows - 1);
        crate::fixed::lemma_mul_one(a[rows - 1]);
        assert(row(a[rows - 1], b, before, rows - 1, 0) == before);
        assert(b[0] == Fixed::one_spec());
    }
}

/// A convolver that holds the impulse response it works with.
pub struct FastConvolver<'a> {
    impulse_response: &'a [Fixed],
    mode: ConvolutionMode,
}

impl<'a> FastConvolver<'a> {
    /// The impulse response that the convolver works with.
    pub closed spec fn response(&self) -> Seq<Fixed> {
        self.impulse_response@
    }

    /// Whether the convolver works in the time domain.
    pub closed spec fn in_time_domain(&self) -> bool {
        self.mode is TimeDomain
    }

    /// A convolver in `mode` for `impulse_response`.
    pub fn new(impulse_response: &'a [Fixed], mode: ConvolutionMode) -> (r: Self)
        ensures
            r.response() == impulse_response@,
            r.in_time_domain() == (mode is TimeDomain),
    {
        Self { impulse_response, mode }
    }

    /// In the time domain, adds to `output` the convolution of `input` with
    /// the impulse response; in the frequency domain, nothing.
    ///
    /// An output too short for the convolution is refused and left as it is.
    pub fn process(&mut self, input: &[Fixed], output: &mut [Fixed]) -> (r: Result<
        (),
        ShapeMismatch,
    >)
        ensures
            final(self).response() == old(self).response(),
            final(self).in_time_domain() == old(self).in_time_domain(),
            final(output)@.len() == old(output)@.len(),
            r is Ok <==> !old(self).in_time_domain() || fits(
                input@.len() as int,
                old(self).response().len() as int,
                old(output)@.len() as int,
            ),
            r is Err ==> final(output)@ == old(output)@,
            r is Ok ==> final(output)@ == if old(self).in_time_domain() {
                convolved(input@, old(self).response(), old(output)@, input@.len() as int)
            } else {
                old(output)@
            },
    {
        match self.mode {
            ConvolutionMode::TimeDomain => {
                let response: &[Fixed] = self.impulse_response;
                self.convolve(input, response, output)
            },
            ConvolutionMode::FrequencyDomain { block_size: _ } => Ok(()),
        }
    }

    /// Adds to `output`, at place `i + j`, the product of `input1[i]` and
    /// `input2[j]`, for every `i` and `j`.
    ///
    /// An output with no place for the last of these sums is refused and
    /// left as it is.
    pub fn convolve(&mut self, input1: &[Fixed], input2: &[Fixed], output: &mut [Fixed]) -> (r:
        Result<(), ShapeMismatch>)
        ensures
            final(self).response() == old(self).response(),
            final(self).in_time_domain() == old(self).in_time_domain(),
            final(output)@.len() == old(output)@.len(),
            r is Ok <==> fits(
                input1@.len() as int,
                input2@.len() as int,
                old(output)@.len() as int,
            ),
            r is Err ==> final(output)@ == old(output)@,
            r is Ok ==> final(output)@ == convolved(
                input1@,
                input2@,
                old(output)@,
                input1@.len() as int,
            ),
    {
        let n: usize = input1.len();
        let m: usize = input2.len();
        let room: usize = output.len();
        if n > 0 && m > 0 && (n > room || m - 1 > room - n) {
            return Err(ShapeMismatch);
        }
        let mut i: usize = 0;
        while i < n
            invariant
                i <= n,
                n == input1@.len(),
                m == input2@.len(),
                room == output@.len(),
                room == old(output)@.len(),
                fits(n as int, m as int, room as int),
                output@ == convolved(input1@, input2@, old(output)@, i as int),
            decreases n - i,
        {
            let x: Fixed = input1[i];
            let ghost start: Seq<Fixed> = output@;
            let mut j: usize = 0;
            while j < m
                invariant
                    j <= m,
                    i < n,
                    n == input1@.len(),
                    m == input2@.len(),
                    room == output@.len(),
                    room == start.len(),
                    m == 0 || n + m - 1 <= room,
                    x == input1@[i as int],
                    output@ == row(x, input2@, start, i as int, j as int),
                decreases m - j,
            {
                let sum: Fixed = output[i + j].saturating_add(x.saturating_mul(input2[j]));
                output[i + j] = sum;
                j = j + 1;
            }
            i = i + 1;
        }
        Ok(())
    }
}

} // verus!

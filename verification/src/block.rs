//! Blocks of samples as the effects take and give them: one sequence for each
//! channel, all of one length.

use vstd::prelude::*;
use crate::fixed::Fixed;

verus! {

/// A channel after a block: the samples in its delay line, oldest first, and
/// the output.
pub struct Run {
    pub history: Seq<Fixed>,
    pub output: Seq<Fixed>,
}

/// The samples of each channel of a block that is read.
pub open spec fn samples_of(block: Seq<&[Fixed]>) -> Seq<Seq<Fixed>> {
    Seq::new(block.len(), |c: int| block[c]@)
}

/// The samples of each channel of a block that is written.
pub open spec fn samples_in(block: Seq<&mut [Fixed]>) -> Seq<Seq<Fixed>> {
    Seq::new(block.len(), |c: int| block[c]@)
}

/// Whether a block has the shape that an effect of `channels` channels takes:
/// as many inputs and as many outputs as that, all of one length.
pub open spec fn shape_ok(input: Seq<Seq<Fixed>>, output: Seq<Seq<Fixed>>, channels: int) -> bool {
    &&& input.len() == channels
    &&& output.len() == channels
    &&& forall|c: int| 0 <= c < channels ==> (#[trigger] input[c]).len() == input[0].len()
    &&& forall|c: int| 0 <= c < channels ==> (#[trigger] output[c]).len() == input[0].len()
}

/// A delay line of `capacity` samples that holds silence.
pub open spec fn silence(capacity: nat) -> Seq<Fixed> {
    Seq::new(capacity, |i: int| Fixed::zero_spec())
}

/// What a delay line holds after `fed` has gone into it behind `history`: as
/// many samples as before, the most recent ones.
pub open spec fn shifted(history: Seq<Fixed>, fed: Seq<Fixed>) -> Seq<Fixed> {
    (history + fed).skip(fed.len() as int)
}

} // verus!

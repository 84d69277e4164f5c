use crate::amount::Amount;
use vstd::prelude::*;

verus! {

/// What every block of a network offers: it takes an input of a fixed width,
/// advances in time, shows an output and can be rewarded.
pub trait NeuralObject {
    /// The block is in a state on which every operation is defined.
    spec fn ready(&self) -> bool;

    /// The number of inputs the block takes.
    spec fn input_len(&self) -> nat;

    /// The number of inputs the block takes.
    fn input_size(&self) -> (r: usize)
        ensures
            r == self.input_len(),
    ;

    /// Adds `inputs` onto the block's input.
    fn apply_input(&mut self, inputs: &[Amount])
        requires
            old(self).ready(),
            inputs@.len() == old(self).input_len(),
        ensures
            final(self).ready(),
            final(self).input_len() == old(self).input_len(),
    ;

    /// Advances the block by `duration`.
    fn tick(&mut self, duration: Amount)
        requires
            old(self).ready(),
        ensures
            final(self).ready(),
            final(self).input_len() == old(self).input_len(),
    ;

    /// The block's output.
    fn get_output(&self) -> (r: &[Amount])
        requires
            self.ready(),
    ;

    /// Hands the block a reward.
    fn reward(&mut self, reward: Amount)
        requires
            old(self).ready(),
        ensures
            final(self).ready(),
            final(self).input_len() == old(self).input_len(),
    ;
}

} // verus!

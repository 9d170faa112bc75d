//! The bias unit: adds a loaded bias to each valid accumulator output.
use vstd::prelude::*;
use crate::types::PePsum;
use crate::word::{Word, Widen, wrapped};

verus! {

pub struct Bias<B = PePsum, P = PePsum> {
    bias: B,
    out_preact: P,
    valid_out: bool,
}

/// The registers of a bias unit.
pub struct BiasState<B, P> {
    pub bias: B,
    pub out_preact: P,
    pub valid_out: bool,
}

pub struct BiasStrobes {
    pub valid_in: bool,
    pub load_bias: bool,
    pub reset: bool,
}

pub struct BiasInputs<B = PePsum, P = PePsum> {
    pub bias: B,
    pub acc: P,
    pub strobes: BiasStrobes,
}

/// The bias unit never fails a cycle.
pub type BiasError = core::convert::Infallible;

impl<B, P> View for Bias<B, P> {
    type V = BiasState<B, P>;

    closed spec fn view(&self) -> BiasState<B, P> {
        BiasState { bias: self.bias, out_preact: self.out_preact, valid_out: self.valid_out }
    }
}

/// One clock edge: reset clears the output and keeps the bias; otherwise a
/// valid input latches `acc + bias` (with the bias held before the edge),
/// wrapped into the output word, and a bias load takes effect afterwards.
pub open spec fn bias_next<B: Widen<P>, P: Word>(
    pre: BiasState<B, P>,
    inputs: BiasInputs<B, P>,
    post: BiasState<B, P>,
) -> bool {
    if inputs.strobes.reset {
        &&& post.bias == pre.bias
        &&& post.out_preact.val() == 0
        &&& !post.valid_out
    } else {
        &&& if inputs.strobes.valid_in {
            &&& post.out_preact.val() == wrapped::<P>(inputs.acc.val() + pre.bias.val())
            &&& post.valid_out
        } else {
            &&& post.out_preact == pre.out_preact
            &&& !post.valid_out
        }
        &&& post.bias == if inputs.strobes.load_bias {
            inputs.bias
        } else {
            pre.bias
        }
    }
}

/// A bias loaded on any cycle without reset, whether or not an accumulator
/// output arrives on it, is the one added to the next valid input, provided
/// no other bias is loaded in between: after a load of `b`, a valid input
/// `acc` on the following cycle gives `acc + b`, wrapped.
pub proof fn lemma_load_then_add<B: Widen<P>, P: Word>(
    s0: BiasState<B, P>,
    i1: BiasInputs<B, P>,
    s1: BiasState<B, P>,
    i2: BiasInputs<B, P>,
    s2: BiasState<B, P>,
)
    requires
        bias_next(s0, i1, s1),
        i1.strobes.load_bias && !i1.strobes.reset,
        bias_next(s1, i2, s2),
        i2.strobes.valid_in && !i2.strobes.reset,
    ensures
        s1.bias == i1.bias,
        s2.out_preact.val() == wrapped::<P>(i2.acc.val() + i1.bias.val()),
        s2.valid_out,
{
}

impl<B: Widen<P>, P: Word> Bias<B, P> {
    pub fn new() -> (r: Result<Self, BiasError>)
        ensures
            r matches Ok(b) && b@.bias.val() == 0 && b@.out_preact.val() == 0 && !b@.valid_out,
    {
        Ok(Self { bias: B::zero(), out_preact: P::zero(), valid_out: false })
    }

    pub fn tick(&mut self, inputs: BiasInputs<B, P>) -> (r: Result<(), BiasError>)
        ensures
            r is Ok,
            bias_next(old(self)@, inputs, final(self)@),
            final(self)@.bias == if inputs.strobes.load_bias && !inputs.strobes.reset {
                inputs.bias
            } else {
                old(self)@.bias
            },
    {
        if inputs.strobes.reset {
            self.out_preact = P::zero();
            self.valid_out = false;
        } else {
            if inputs.strobes.valid_in {
                let bias: P = self.bias.widen();
                self.out_preact = inputs.acc.wrapping_add(bias);
                self.valid_out = true;
            } else {
                self.valid_out = false;
            }
            if inputs.strobes.load_bias {
                self.bias = inputs.bias;
            }
        }
        Ok(())
    }

    pub fn out_preact(&self) -> (r: P)
        ensures
            r == self@.out_preact,
    {
        self.out_preact
    }
}

} // verus!

//! A processing element of the systolic array: it holds a weight, and each
//! compute cycle multiplies the incoming activation by it and adds the
//! incoming partial sum.
use vstd::prelude::*;
use crate::types::{PeAct, PePsum};
use crate::word::{Word, Widen, wrapped, lemma_wrap_add};

verus! {

pub struct Pe<W = PeAct, A = PeAct, P = PePsum> {
    weight: W,
    out_act: A,
    out_psum: P,
}

/// The registers of a processing element.
pub struct PeState<W, A, P> {
    pub weight: W,
    pub out_act: A,
    pub out_psum: P,
}

pub struct PeStrobes {
    pub load_weight: bool,
    pub reset: bool,
}

pub struct PeInputs<W = PeAct, A = PeAct, P = PePsum> {
    pub weight: W,
    pub act: A,
    pub psum: P,
    pub strobes: PeStrobes,
}

/// A processing element never fails a cycle.
pub type PeError = core::convert::Infallible;

impl<W, A, P> View for Pe<W, A, P> {
    type V = PeState<W, A, P>;

    closed spec fn view(&self) -> PeState<W, A, P> {
        PeState { weight: self.weight, out_act: self.out_act, out_psum: self.out_psum }
    }
}

/// The registers after one clock edge: reset clears everything and takes
/// priority over loading a weight; otherwise a compute cycle latches the
/// activation and `act * weight + psum`, wrapped into the partial-sum word.
pub open spec fn pe_next<W: Widen<P>, A: Widen<P>, P: Word>(
    pre: PeState<W, A, P>,
    inputs: PeInputs<W, A, P>,
    post: PeState<W, A, P>,
) -> bool {
    pe_next_with(pre, inputs.weight, inputs.act, inputs.psum.val(), inputs.strobes, post)
}

/// `pe_next` with the incoming partial sum given by its value.
pub open spec fn pe_next_with<W: Widen<P>, A: Widen<P>, P: Word>(
    pre: PeState<W, A, P>,
    weight: W,
    act: A,
    psum: int,
    strobes: PeStrobes,
    post: PeState<W, A, P>,
) -> bool {
    if strobes.reset {
        &&& post.weight.val() == 0
        &&& post.out_act.val() == 0
        &&& post.out_psum.val() == 0
    } else if strobes.load_weight {
        &&& post.weight == weight
        &&& post.out_act == pre.out_act
        &&& post.out_psum == pre.out_psum
    } else {
        &&& post.weight == pre.weight
        &&& post.out_act == act
        &&& post.out_psum.val() == wrapped::<P>(act.val() * pre.weight.val() + psum)
    }
}

impl<W: Widen<P>, A: Widen<P>, P: Word> Pe<W, A, P> {
    pub fn new() -> (r: Result<Self, PeError>)
        ensures
            r matches Ok(pe) && pe@.weight.val() == 0 && pe@.out_act.val() == 0
                && pe@.out_psum.val() == 0,
    {
        Ok(Self { weight: W::zero(), out_act: A::zero(), out_psum: P::zero() })
    }

    pub fn tick(&mut self, inputs: PeInputs<W, A, P>) -> (r: Result<(), PeError>)
        ensures
            r is Ok,
            pe_next(old(self)@, inputs, final(self)@),
    {
        if inputs.strobes.reset {
            self.weight = W::zero();
            self.out_act = A::zero();
            self.out_psum = P::zero();
        } else if inputs.strobes.load_weight {
            self.weight = inputs.weight;
        } else {
            self.out_act = inputs.act;
            let act: P = inputs.act.widen();
            let weight: P = self.weight.widen();
            let product = act.wrapping_mul(weight);
            self.out_psum = product.wrapping_add(inputs.psum);
            proof {
                product.lemma_word(product);
                lemma_wrap_add(act.val() * weight.val(), inputs.psum.val(), P::min_val(), P::modulus());
            }
        }
        Ok(())
    }

    pub fn weight(&self) -> (r: W)
        ensures
            r == self@.weight,
    {
        self.weight
    }

    pub fn out_act(&self) -> (r: A)
        ensures
            r == self@.out_act,
    {
        self.out_act
    }

    pub fn out_psum(&self) -> (r: P)
        ensures
            r == self@.out_psum,
    {
        self.out_psum
    }
}

} // verus!

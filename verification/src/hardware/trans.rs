//! The activation unit: applies the selected transfer function to each valid
//! pre-activation.
use vstd::prelude::*;
use crate::types::PePsum;
use crate::word::{Word, wrapped};

verus! {

pub enum TransFn<P = PePsum> {
    ReLU,
    LeakyReLU(P),
}

impl<P> Default for TransFn<P> {
    fn default() -> (r: Self)
        ensures
            r == TransFn::<P>::ReLU,
    {
        TransFn::<P>::ReLU
    }
}

pub struct Trans<P = PePsum> {
    trans: TransFn<P>,
    out_act: P,
    out_valid: bool,
}

/// The registers of an activation unit.
pub struct TransState<P> {
    pub trans: TransFn<P>,
    pub out_act: P,
    pub out_valid: bool,
}

pub struct TransStrobes {
    pub valid: bool,
    pub switch_transfn: bool,
    pub reset: bool,
}

pub struct TransInputs<P = PePsum> {
    pub trans: TransFn<P>,
    pub preact: P,
    pub strobes: TransStrobes,
}

/// The activation unit never fails a cycle.
pub type TransError = core::convert::Infallible;

impl<P> View for Trans<P> {
    type V = TransState<P>;

    closed spec fn view(&self) -> TransState<P> {
        TransState { trans: self.trans, out_act: self.out_act, out_valid: self.out_valid }
    }
}

/// The value of the transfer function `f` at `x`: ReLU keeps positive inputs
/// and gives zero otherwise; leaky ReLU keeps non-negative inputs and scales
/// negative ones by the leak factor, wrapped into the word.
pub open spec fn transfer_value<P: Word>(f: TransFn<P>, x: P) -> int {
    match f {
        TransFn::ReLU => if x.val() > 0 {
            x.val()
        } else {
            0
        },
        TransFn::LeakyReLU(leak) => if x.val() >= 0 {
            x.val()
        } else {
            wrapped::<P>(x.val() * leak.val())
        },
    }
}

/// One clock edge: reset clears the output and keeps the function; otherwise
/// a valid input latches the transfer of the pre-activation under the
/// function selected before the edge, and a switch takes effect afterwards.
pub open spec fn trans_next<P: Word>(pre: TransState<P>, inputs: TransInputs<P>, post: TransState<P>) -> bool {
    if inputs.strobes.reset {
        &&& post.trans == pre.trans
        &&& post.out_act.val() == 0
        &&& !post.out_valid
    } else {
        &&& if inputs.strobes.valid {
            &&& post.out_act.val() == transfer_value(pre.trans, inputs.preact)
            &&& post.out_valid
        } else {
            &&& post.out_act == pre.out_act
            &&& !post.out_valid
        }
        &&& post.trans == if inputs.strobes.switch_transfn {
            inputs.trans
        } else {
            pre.trans
        }
    }
}

/// A transfer function switched in on any cycle without reset, whether or
/// not a pre-activation arrives on it, is the one applied to the next valid
/// input: after a switch to `f`, a valid pre-activation `x` on the following
/// cycle gives `f(x)`.
pub proof fn lemma_switch_then_apply<P: Word>(
    s0: TransState<P>,
    i1: TransInputs<P>,
    s1: TransState<P>,
    i2: TransInputs<P>,
    s2: TransState<P>,
)
    requires
        trans_next(s0, i1, s1),
        i1.strobes.switch_transfn && !i1.strobes.reset,
        trans_next(s1, i2, s2),
        i2.strobes.valid && !i2.strobes.reset,
    ensures
        s1.trans == i1.trans,
        s2.out_act.val() == transfer_value(i1.trans, i2.preact),
        s2.out_valid,
{
}

impl<P: Word> Trans<P> {
    pub fn new() -> (r: Result<Self, TransError>)
        ensures
            r matches Ok(t) && t@.trans == TransFn::<P>::ReLU && t@.out_act.val() == 0 && !t@.out_valid,
    {
        Ok(Self { trans: TransFn::default(), out_act: P::zero(), out_valid: false })
    }

    pub fn tick(&mut self, inputs: TransInputs<P>) -> (r: Result<(), TransError>)
        ensures
            r is Ok,
            trans_next(old(self)@, inputs, final(self)@),
            final(self)@.trans == if inputs.strobes.switch_transfn && !inputs.strobes.reset {
                inputs.trans
            } else {
                old(self)@.trans
            },
    {
        if inputs.strobes.reset {
            self.out_act = P::zero();
            self.out_valid = false;
        } else {
            if inputs.strobes.valid {
                match self.transform(inputs.preact) {
                    Ok(v) => self.out_act = v,
                    Err(e) => return Err(e),
                }
                self.out_valid = true;
            } else {
                self.out_valid = false;
            }
            if inputs.strobes.switch_transfn {
                self.trans = inputs.trans;
            }
        }
        Ok(())
    }

    fn transform(&self, input: P) -> (r: Result<P, TransError>)
        ensures
            r matches Ok(v) && v.val() == transfer_value(self.trans, input),
    {
        match self.trans {
            TransFn::ReLU => {
                if input.is_positive() {
                    Ok(input)
                } else {
                    Ok(P::zero())
                }
            },
            TransFn::LeakyReLU(leak_factor) => {
                if !input.is_negative() {
                    Ok(input)
                } else {
                    Ok(input.wrapping_mul(leak_factor))
                }
            },
        }
    }

    pub fn out_act(&self) -> (r: P)
        ensures
            r == self@.out_act,
    {
        self.out_act
    }

    pub fn out_valid(&self) -> (r: bool)
        ensures
            r == self@.out_valid,
    {
        self.out_valid
    }
}

} // verus!

//! A first-in first-out weight queue: weights are loaded at the back and
//! released from the front onto the output register.
use vstd::prelude::*;
use std::collections::VecDeque;
use crate::types::PePsum;
use crate::word::Word;

verus! {

pub struct Fifo<W = PePsum> {
    queue: VecDeque<W>,
    out_weight: W,
    out_valid: bool,
}

/// The state of a queue: the weights waiting, front first, and the output
/// register.
pub struct FifoState<W> {
    pub queue: Seq<W>,
    pub out_weight: W,
    pub out_valid: bool,
}

pub struct FifoStrobes {
    pub load_weight: bool,
    pub release_weight: bool,
    pub reset: bool,
}

pub struct FifoInputs<W = PePsum> {
    pub weight: W,
    pub strobes: FifoStrobes,
}

#[derive(Debug, PartialEq, Eq, Structural)]
pub enum FifoError {
    PopEmptyQueue,
}

/// One clock edge: reset empties the queue and clears the output; otherwise
/// loading (which takes priority over releasing) appends the weight and
/// deasserts the output, releasing moves the front weight onto the output,
/// and an idle cycle deasserts the output. Releasing from an empty queue is
/// refused, and then nothing changes.
pub open spec fn fifo_next<W: Word>(
    pre: FifoState<W>,
    weight: W,
    strobes: FifoStrobes,
    post: FifoState<W>,
    r: Result<(), FifoError>,
) -> bool {
    if strobes.reset {
        &&& r is Ok
        &&& post.queue == Seq::<W>::empty()
        &&& post.out_weight.val() == 0
        &&& !post.out_valid
    } else if strobes.load_weight {
        &&& r is Ok
        &&& post.queue == pre.queue.push(weight)
        &&& post.out_weight == pre.out_weight
        &&& !post.out_valid
    } else if strobes.release_weight {
        if pre.queue.len() > 0 {
            &&& r is Ok
            &&& post.queue == pre.queue.drop_first()
            &&& post.out_weight == pre.queue[0]
            &&& post.out_valid
        } else {
            &&& r == Err::<(), FifoError>(FifoError::PopEmptyQueue)
            &&& post == pre
        }
    } else {
        &&& r is Ok
        &&& post.queue == pre.queue
        &&& post.out_weight == pre.out_weight
        &&& !post.out_valid
    }
}

/// The weights loaded over a run of cycles, in order.
pub open spec fn loaded<W>(weights: Seq<W>, strobes: Seq<FifoStrobes>) -> Seq<W>
    decreases strobes.len(),
{
    if strobes.len() == 0 {
        Seq::empty()
    } else {
        let n = strobes.len() - 1;
        let before = loaded(weights.take(n), strobes.take(n));
        if strobes[n].load_weight {
            before.push(weights[n])
        } else {
            before
        }
    }
}

/// The weights released over a run of cycles, in order: the output after
/// each releasing cycle.
pub open spec fn released<W>(states: Seq<FifoState<W>>, strobes: Seq<FifoStrobes>) -> Seq<W>
    decreases strobes.len(),
{
    if strobes.len() == 0 {
        Seq::empty()
    } else {
        let n = strobes.len() - 1;
        let before = released(states.take(n + 1), strobes.take(n));
        if !strobes[n].load_weight && strobes[n].release_weight {
            before.push(states[n + 1].out_weight)
        } else {
            before
        }
    }
}

/// First in, first out: over any run of cycles without reset that the queue
/// accepts, the weights it started with followed by those loaded are the
/// weights released followed by those still queued.
pub proof fn lemma_fifo_order<W: Word>(states: Seq<FifoState<W>>, weights: Seq<W>, strobes: Seq<FifoStrobes>)
    requires
        states.len() == strobes.len() + 1,
        weights.len() == strobes.len(),
        forall|t: int| 0 <= t < strobes.len() ==> !(#[trigger] strobes[t]).reset,
        forall|t: int|
            0 <= t < strobes.len() ==> fifo_next(states[t], weights[t], #[trigger] strobes[t], states[t + 1], Ok(())),
    ensures
        states[0].queue + loaded(weights, strobes) == released(states, strobes) + states.last().queue,
    decreases strobes.len(),
{
    if strobes.len() > 0 {
        let n = strobes.len() - 1;
        let ps = states.take(n + 1);
        let pw = weights.take(n);
        let pt = strobes.take(n);
        assert forall|t: int| 0 <= t < pt.len() implies fifo_next(ps[t], pw[t], #[trigger] pt[t], ps[t + 1], Ok(())) by {
            assert(strobes[t] == pt[t]);
        }
        assert forall|t: int| 0 <= t < pt.len() implies !(#[trigger] pt[t]).reset by {
            assert(strobes[t] == pt[t]);
        }
        lemma_fifo_order(ps, pw, pt);
        assert(ps.last() == states[n]);
        assert(fifo_next(states[n], weights[n], strobes[n], states[n + 1], Ok(())));
        let q = states[n].queue;
        if strobes[n].load_weight {
            assert(states[0].queue + loaded(pw, pt).push(weights[n]) == (states[0].queue + loaded(pw, pt)).push(weights[n]));
            assert(released(ps, pt) + q.push(weights[n]) == (released(ps, pt) + q).push(weights[n]));
        } else if strobes[n].release_weight {
            assert(released(ps, pt).push(q[0]) + q.drop_first() == released(ps, pt) + q);
        }
    }
}

impl<W> View for Fifo<W> {
    type V = FifoState<W>;

    closed spec fn view(&self) -> FifoState<W> {
        FifoState { queue: self.queue@, out_weight: self.out_weight, out_valid: self.out_valid }
    }
}

impl<W: Word> Fifo<W> {
    pub fn new() -> (r: Result<Self, FifoError>)
        ensures
            r matches Ok(f) && f@.queue == Seq::<W>::empty() && f@.out_weight.val() == 0 && !f@.out_valid,
    {
        Ok(Self { queue: VecDeque::new(), out_weight: W::zero(), out_valid: false })
    }

    pub fn tick(&mut self, inputs: FifoInputs<W>) -> (r: Result<(), FifoError>)
        ensures
            fifo_next(old(self)@, inputs.weight, inputs.strobes, final(self)@, r),
    {
        if inputs.strobes.reset {
            self.queue.clear();
            self.out_weight = W::zero();
            self.out_valid = false;
        } else {
            if inputs.strobes.load_weight {
                self.queue.push_back(inputs.weight);
                self.out_valid = false;
            } else if inputs.strobes.release_weight {
                if let Some(weight) = self.queue.pop_front() {
                    self.out_weight = weight;
                    self.out_valid = true;
                } else {
                    return Err(FifoError::PopEmptyQueue);
                }
            } else {
                self.out_valid = false;
            }
        }
        Ok(())
    }

    pub fn out_weight(&self) -> (r: W)
        ensures
            r == self@.out_weight,
    {
        self.out_weight
    }

    pub fn out_valid(&self) -> (r: bool)
        ensures
            r == self@.out_valid,
    {
        self.out_valid
    }

    /// The number of weights waiting in the queue.
    pub fn queue_len(&self) -> (r: usize)
        ensures
            r == self@.queue.len(),
    {
        self.queue.len()
    }
}

} // verus!

//! One weight queue per systolic-array column, clocked together.
use vstd::prelude::*;
use crate::hardware::fifo::{Fifo, FifoError, FifoInputs, FifoState, FifoStrobes, fifo_next};
use crate::word::Word;

verus! {

pub struct WeightFifo<W, const CNT: usize> {
    fifos: Vec<Fifo<W>>,
    out_weights: [W; CNT],
    out_valids: [bool; CNT],
}

pub struct WeightFifoStrobes<const CNT: usize> {
    pub load_weight: [bool; CNT],
    pub release_weight: [bool; CNT],
    pub reset: bool,
}

pub struct WeightFifoInputs<W, const CNT: usize> {
    pub weights: [W; CNT],
    pub strobes: WeightFifoStrobes<CNT>,
}

#[derive(Debug, PartialEq, Eq, Structural)]
pub enum WeightFifoError {
    Fifo(FifoError),
}

/// The strobes that lane `i` sees.
pub open spec fn lane_strobes<const CNT: usize>(strobes: WeightFifoStrobes<CNT>, i: int) -> FifoStrobes {
    FifoStrobes {
        load_weight: strobes.load_weight@[i],
        release_weight: strobes.release_weight@[i],
        reset: strobes.reset,
    }
}

/// Lane `i` refuses the cycle: it is asked to release from an empty queue.
pub open spec fn lane_refuses<W, const CNT: usize>(
    lanes: Seq<FifoState<W>>,
    strobes: WeightFifoStrobes<CNT>,
    i: int,
) -> bool {
    !strobes.reset && !strobes.load_weight@[i] && strobes.release_weight@[i] && lanes[i].queue.len() == 0
}

/// The first of lanes `0..n` that refuses the cycle, or `n` where none does.
pub open spec fn first_refusal<W, const CNT: usize>(
    lanes: Seq<FifoState<W>>,
    strobes: WeightFifoStrobes<CNT>,
    n: int,
) -> int
    decreases n,
{
    if n <= 0 {
        0
    } else if first_refusal(lanes, strobes, n - 1) < n - 1 {
        first_refusal(lanes, strobes, n - 1)
    } else if lane_refuses(lanes, strobes, n - 1) {
        n - 1
    } else {
        n
    }
}

proof fn lemma_first_refusal<W, const CNT: usize>(lanes: Seq<FifoState<W>>, strobes: WeightFifoStrobes<CNT>, n: int)
    requires
        n >= 0,
    ensures
        0 <= first_refusal(lanes, strobes, n) <= n,
        forall|i: int| 0 <= i < first_refusal(lanes, strobes, n) ==> !lane_refuses(lanes, strobes, i),
        first_refusal(lanes, strobes, n) < n ==> lane_refuses(lanes, strobes, first_refusal(lanes, strobes, n)),
    decreases n,
{
    if n > 0 {
        lemma_first_refusal(lanes, strobes, n - 1);
    }
}

impl<W: Word, const CNT: usize> WeightFifo<W, CNT> {
    /// The state of each lane's queue.
    pub closed spec fn lanes(&self) -> Seq<FifoState<W>> {
        Seq::new(self.fifos@.len(), |i: int| self.fifos@[i]@)
    }

    pub closed spec fn spec_out_weights(&self) -> Seq<W> {
        self.out_weights@
    }

    pub closed spec fn spec_out_valids(&self) -> Seq<bool> {
        self.out_valids@
    }

    pub closed spec fn wf(&self) -> bool {
        self.fifos@.len() == CNT
    }

    /// A well-formed unit has one queue per lane.
    pub proof fn lemma_wf(&self)
        requires
            self.wf(),
        ensures
            self.lanes().len() == CNT,
            self.spec_out_weights().len() == CNT,
            self.spec_out_valids().len() == CNT,
    {
    }

    pub fn new() -> (r: Result<Self, WeightFifoError>)
        ensures
            r matches Ok(w) && {
                &&& w.wf()
                &&& w.lanes().len() == CNT
                &&& forall|i: int| 0 <= i < CNT ==> {
                    let l = #[trigger] w.lanes()[i];
                    l.queue == Seq::<W>::empty() && l.out_weight.val() == 0 && !l.out_valid
                }
                &&& forall|i: int| 0 <= i < CNT ==> (#[trigger] w.spec_out_weights()[i]).val() == 0
                &&& forall|i: int| 0 <= i < CNT ==> !(#[trigger] w.spec_out_valids()[i])
            },
    {
        let mut fifos: Vec<Fifo<W>> = Vec::new();
        let mut i: usize = 0;
        while i < CNT
            invariant
                i <= CNT,
                fifos@.len() == i,
                forall|k: int| 0 <= k < i ==> {
                    let l = (#[trigger] fifos@[k])@;
                    l.queue == Seq::<W>::empty() && l.out_weight.val() == 0 && !l.out_valid
                },
            decreases CNT - i,
        {
            match Fifo::new() {
                Ok(f) => fifos.push(f),
                Err(e) => return Err(WeightFifoError::Fifo(e)),
            }
            i = i + 1;
        }
        let zero = W::zero();
        Ok(Self { fifos, out_weights: [zero; CNT], out_valids: [false; CNT] })
    }

    /// Clocks every lane in turn. A lane asked to release from an empty queue
    /// stops the cycle there: the lanes before it have been clocked and the
    /// others are left as they were.
    pub fn tick(&mut self, inputs: WeightFifoInputs<W, CNT>) -> (r: Result<(), WeightFifoError>)
        requires
            old(self).wf(),
        ensures
            final(self).wf(),
            final(self).lanes().len() == CNT,
            ({
                let k = first_refusal(old(self).lanes(), inputs.strobes, CNT as int);
                &&& r == (if k < CNT {
                    Err(WeightFifoError::Fifo(FifoError::PopEmptyQueue))
                } else {
                    Ok::<(), WeightFifoError>(())
                })
                &&& forall|i: int| 0 <= i < k ==> {
                    &&& fifo_next(
                        old(self).lanes()[i],
                        inputs.weights@[i],
                        lane_strobes(inputs.strobes, i),
                        #[trigger] final(self).lanes()[i],
                        Ok(()),
                    )
                    &&& final(self).spec_out_weights()[i] == final(self).lanes()[i].out_weight
                    &&& final(self).spec_out_valids()[i] == final(self).lanes()[i].out_valid
                }
                &&& forall|i: int| k <= i < CNT ==> {
                    &&& #[trigger] final(self).lanes()[i] == old(self).lanes()[i]
                    &&& final(self).spec_out_weights()[i] == old(self).spec_out_weights()[i]
                    &&& final(self).spec_out_valids()[i] == old(self).spec_out_valids()[i]
                }
            }),
    {
        let ghost pre = self.lanes();
        let ghost pre_w = self.out_weights@;
        let ghost pre_v = self.out_valids@;
        proof {
            lemma_first_refusal(pre, inputs.strobes, CNT as int);
        }
        let ghost k = first_refusal(pre, inputs.strobes, CNT as int);
        let mut i: usize = 0;
        while i < CNT
            invariant
                i <= CNT,
                self.wf(),
                i <= k,
                k == first_refusal(pre, inputs.strobes, CNT as int),
                0 <= k <= CNT,
                forall|j: int| 0 <= j < k ==> !lane_refuses(pre, inputs.strobes, j),
                k < CNT ==> lane_refuses(pre, inputs.strobes, k),
                pre.len() == CNT,
                pre == old(self).lanes(),
                pre_w == old(self).spec_out_weights(),
                pre_v == old(self).spec_out_valids(),
                pre_w.len() == CNT,
                pre_v.len() == CNT,
                self.out_weights@.len() == CNT,
                self.out_valids@.len() == CNT,
                forall|j: int| 0 <= j < i ==> {
                    &&& fifo_next(pre[j], inputs.weights@[j], lane_strobes(inputs.strobes, j), #[trigger] self.lanes()[j], Ok(()))
                    &&& self.out_weights@[j] == self.lanes()[j].out_weight
                    &&& self.out_valids@[j] == self.lanes()[j].out_valid
                },
                forall|j: int| i <= j < CNT ==> #[trigger] self.lanes()[j] == pre[j],
                forall|j: int| i <= j < CNT ==> #[trigger] self.out_weights@[j] == pre_w[j],
                forall|j: int| i <= j < CNT ==> #[trigger] self.out_valids@[j] == pre_v[j],
            decreases CNT - i,
        {
            let ghost before = self.fifos@;
            let ghost before_lanes = self.lanes();
            assert(before_lanes[i as int] == pre[i as int]);
            assert(forall|j: int| i <= j < CNT ==> #[trigger] before_lanes[j] == pre[j]);
            let fifo_inputs = FifoInputs {
                weight: inputs.weights[i],
                strobes: FifoStrobes {
                    load_weight: inputs.strobes.load_weight[i],
                    release_weight: inputs.strobes.release_weight[i],
                    reset: inputs.strobes.reset,
                },
            };
            let res = self.fifos[i].tick(fifo_inputs);
            assert(forall|j: int| 0 <= j < CNT && j != i ==> #[trigger] self.fifos@[j] == before[j]);
            assert(forall|j: int| 0 <= j < CNT && j != i ==> #[trigger] self.lanes()[j] == before_lanes[j]);
            match res {
                Ok(()) => {},
                Err(e) => {
                    assert(self.lanes()[i as int] == pre[i as int]);
                    assert(lane_refuses(pre, inputs.strobes, i as int));
                    assert(i == k);
                    return Err(WeightFifoError::Fifo(e));
                },
            }
            assert(fifo_next(pre[i as int], inputs.weights@[i as int], lane_strobes(inputs.strobes, i as int), self.lanes()[i as int], Ok(())));
            let ghost after = self.lanes();
            let ghost w_before = self.out_weights@;
            let ghost v_before = self.out_valids@;
            let w = self.fifos[i].out_weight();
            self.out_weights[i] = w;
            let v = self.fifos[i].out_valid();
            self.out_valids[i] = v;
            assert(self.lanes() == after);
            assert(self.out_weights@ == w_before.update(i as int, after[i as int].out_weight));
            assert(self.out_valids@ == v_before.update(i as int, after[i as int].out_valid));
            i = i + 1;
        }
        Ok(())
    }

    /// The number of lanes.
    pub fn num_fifos(&self) -> (r: usize)
        ensures
            r == self.lanes().len(),
    {
        self.fifos.len()
    }

    pub fn out_weights(&self) -> (r: [W; CNT])
        ensures
            r@ == self.spec_out_weights(),
    {
        self.out_weights
    }

    pub fn out_valids(&self) -> (r: [bool; CNT])
        ensures
            r@ == self.spec_out_valids(),
    {
        self.out_valids
    }
}

} // verus!

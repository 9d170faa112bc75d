//! The accumulator buffer: de-skews the partial sums leaving the systolic
//! array, lane `i` delaying by `SIZE - 1 - i` load cycles so that a row of
//! results leaves together.
use vstd::prelude::*;
use std::collections::VecDeque;
use crate::hardware::skew_buffer::{load_lanes, delay_lanes_next, delay_run, delay_trace, delayed, lemma_delay_outputs, lemma_delay_run, loads_taken, skew_depth, zero_lane, zero_queue};

use crate::word::Word;

verus! {

pub struct Acc<P, const SIZE: usize> {
    buffer: Vec<VecDeque<P>>,
    out_data: [P; SIZE],
    out_valid: bool,
}

pub struct AccStrobes {
    pub load: bool,
    pub reset: bool,
}

pub struct AccInputs<P, const SIZE: usize> {
    pub in_data: [P; SIZE],
    pub strobes: AccStrobes,
}

/// The accumulator buffer never fails a cycle.
pub type AccError = core::convert::Infallible;

/// The delay of lane `i` of an accumulator buffer of `SIZE` lanes.
pub open spec fn acc_depth<const SIZE: usize>() -> spec_fn(int) -> int {
    |i: int| SIZE - 1 - i
}

/// An accumulator buffer fed a load every cycle from a reset outputs, on
/// lane `i` at load cycle `t`, the input given to lane `i` at cycle
/// `t - (SIZE - 1 - i)`, and zero before that.
pub proof fn lemma_acc_delay<P: Word, const SIZE: usize>(
    loads: Seq<Seq<P>>,
    lanes: Seq<Seq<Seq<P>>>,
    outs: Seq<Seq<P>>,
    valids: Seq<bool>,
)
    requires
        delay_trace(acc_depth::<SIZE>(), SIZE as int, loads, lanes, outs, valids),
    ensures
        forall|t: int, i: int|
            0 <= t < loads.len() && 0 <= i < SIZE && t >= SIZE - 1 - i ==> #[trigger] outs[t + 1][i]
                == loads[t - (SIZE - 1 - i)][i],
        forall|t: int, i: int|
            0 <= t < loads.len() && 0 <= i < SIZE && t < SIZE - 1 - i ==> (#[trigger] outs[t + 1][i]).val() == 0,
{
    lemma_delay_outputs(acc_depth::<SIZE>(), SIZE as int, loads, lanes, outs, valids);
    assert forall|t: int, i: int| 0 <= t < loads.len() && 0 <= i < SIZE implies #[trigger] delayed(
        loads,
        t,
        SIZE - 1 - i,
        i,
        0,
        outs[t + 1][i],
    ) by {
        assert(delayed(loads, t, acc_depth::<SIZE>()(i), i, 0, outs[t + 1][i]));
    }
}

/// An accumulator buffer run from a reset, with idle cycles allowed between
/// loads: an idle cycle keeps the lanes and the output data and deasserts the
/// output; a load cycle asserts the output and, when `m` loads came before
/// it, gives on lane `i` the input of the load numbered `m - (SIZE - 1 - i)`,
/// or zero while fewer than `SIZE - 1 - i` loads came before.
pub proof fn lemma_acc_run<P: Word, const SIZE: usize>(
    ins: Seq<Seq<P>>,
    load: Seq<bool>,
    lanes: Seq<Seq<Seq<P>>>,
    outs: Seq<Seq<P>>,
    valids: Seq<bool>,
)
    requires
        delay_run(acc_depth::<SIZE>(), SIZE as int, ins, load, lanes, outs, valids),
    ensures
        forall|t: int|
            0 <= t < ins.len() && !load[t] ==> #[trigger] lanes[t + 1] == lanes[t] && outs[t + 1] == outs[t]
                && !valids[t + 1],
        forall|t: int| 0 <= t < ins.len() && load[t] ==> #[trigger] valids[t + 1],
        forall|t: int, i: int|
            0 <= t < ins.len() && load[t] && 0 <= i < SIZE ==> {
                let m = loads_taken(ins, load, t).len() as int;
                if m >= SIZE - 1 - i {
                    #[trigger] outs[t + 1][i] == loads_taken(ins, load, t + 1)[m - (SIZE - 1 - i)][i]
                } else {
                    outs[t + 1][i].val() == 0
                }
            },
{
    lemma_delay_run(acc_depth::<SIZE>(), SIZE as int, ins, load, lanes, outs, valids);
    assert forall|t: int, i: int| 0 <= t < ins.len() && load[t] && 0 <= i < SIZE implies {
        let m = loads_taken(ins, load, t).len() as int;
        if m >= SIZE - 1 - i {
            #[trigger] outs[t + 1][i] == loads_taken(ins, load, t + 1)[m - (SIZE - 1 - i)][i]
        } else {
            outs[t + 1][i].val() == 0
        }
    } by {
        assert(delayed(
            loads_taken(ins, load, t + 1),
            loads_taken(ins, load, t).len() as int,
            acc_depth::<SIZE>()(i),
            i,
            0,
            outs[t + 1][i],
        ));
    }
}

/// Skewing then de-skewing: when every cycle's skew buffer outputs are loaded
/// into an accumulator buffer of the same size, each lane's word leaves the
/// accumulator buffer `SIZE - 1` load cycles after it entered the skew
/// buffer, the same delay on every lane.
pub proof fn lemma_skew_then_acc<P: Word, const SIZE: usize>(
    loads: Seq<Seq<P>>,
    skew_lanes: Seq<Seq<Seq<P>>>,
    skew_outs: Seq<Seq<P>>,
    skew_valids: Seq<bool>,
    acc_lanes: Seq<Seq<Seq<P>>>,
    acc_outs: Seq<Seq<P>>,
    acc_valids: Seq<bool>,
)
    requires
        delay_trace(skew_depth(), SIZE as int, loads, skew_lanes, skew_outs, skew_valids),
        delay_trace(acc_depth::<SIZE>(), SIZE as int, skew_outs.drop_first(), acc_lanes, acc_outs, acc_valids),
    ensures
        forall|t: int, i: int|
            0 <= t < loads.len() && 0 <= i < SIZE && t >= SIZE - 1 ==> #[trigger] acc_outs[t + 1][i]
                == loads[t - (SIZE - 1)][i],
{
    lemma_delay_outputs(skew_depth(), SIZE as int, loads, skew_lanes, skew_outs, skew_valids);
    lemma_delay_outputs(acc_depth::<SIZE>(), SIZE as int, skew_outs.drop_first(), acc_lanes, acc_outs, acc_valids);
    assert forall|t: int, i: int| 0 <= t < loads.len() && 0 <= i < SIZE && t >= SIZE - 1 implies #[trigger] acc_outs[t + 1][i]
        == loads[t - (SIZE - 1)][i] by {
        assert(delayed(skew_outs.drop_first(), t, acc_depth::<SIZE>()(i), i, 0, acc_outs[t + 1][i]));
        let u = t - (SIZE - 1 - i);
        assert(skew_outs.drop_first()[u] == skew_outs[u + 1]);
        assert(delayed(loads, u, skew_depth()(i), i, 0, skew_outs[u + 1][i]));
    }
}

impl<P: Word, const SIZE: usize> Acc<P, SIZE> {
    /// The contents of each delay lane, front first.
    pub closed spec fn lanes(&self) -> Seq<Seq<P>> {
        Seq::new(self.buffer@.len(), |i: int| self.buffer@[i]@)
    }

    pub closed spec fn spec_out_data(&self) -> Seq<P> {
        self.out_data@
    }

    pub closed spec fn spec_out_valid(&self) -> bool {
        self.out_valid
    }

    pub closed spec fn wf(&self) -> bool {
        &&& self.buffer@.len() == SIZE
        &&& forall|i: int| 0 <= i < SIZE ==> (#[trigger] self.buffer@[i])@.len() == SIZE - 1 - i
    }

    /// A well-formed buffer has one lane per output.
    pub proof fn lemma_wf(&self)
        requires
            self.wf(),
        ensures
            self.lanes().len() == SIZE,
            forall|i: int| 0 <= i < SIZE ==> (#[trigger] self.lanes()[i]).len() == SIZE - 1 - i,
            self.spec_out_data().len() == SIZE,
    {
    }

    /// Lane `i` holding `SIZE - 1 - i` zeros, for each lane.
    fn initial_lanes() -> (r: Vec<VecDeque<P>>)
        ensures
            r@.len() == SIZE,
            forall|i: int| 0 <= i < SIZE ==> zero_lane((#[trigger] r@[i])@, SIZE - 1 - i),
    {
        let mut lanes: Vec<VecDeque<P>> = Vec::new();
        let mut i: usize = 0;
        while i < SIZE
            invariant
                i <= SIZE,
                lanes@.len() == i,
                forall|j: int| 0 <= j < i ==> zero_lane((#[trigger] lanes@[j])@, SIZE - 1 - j),
            decreases SIZE - i,
        {
            lanes.push(zero_queue(SIZE - i - 1));
            i = i + 1;
        }
        lanes
    }

    pub fn new() -> (r: Result<Self, AccError>)
        ensures
            r matches Ok(b) && {
                &&& b.wf()
                &&& b.lanes().len() == SIZE
                &&& forall|i: int| 0 <= i < SIZE ==> zero_lane(#[trigger] b.lanes()[i], SIZE - 1 - i)
                &&& b.spec_out_data().len() == SIZE
                &&& forall|i: int| 0 <= i < SIZE ==> (#[trigger] b.spec_out_data()[i]).val() == 0
                &&& !b.spec_out_valid()
            },
    {
        let zero = P::zero();
        let b = Self { buffer: Self::initial_lanes(), out_data: [zero; SIZE], out_valid: false };
        Ok(b)
    }

    pub fn tick(&mut self, inputs: AccInputs<P, SIZE>) -> (r: Result<(), AccError>)
        requires
            old(self).wf(),
        ensures
            r is Ok,
            final(self).wf(),
            final(self).lanes().len() == SIZE,
            forall|i: int| 0 <= i < SIZE ==> (#[trigger] final(self).lanes()[i]).len() == SIZE - 1 - i,
            inputs.strobes.reset ==> forall|i: int, k: int|
                0 <= i < SIZE && 0 <= k < SIZE - 1 - i ==> (#[trigger] final(self).lanes()[i][k]).val() == 0,
            inputs.strobes.reset ==> forall|i: int|
                0 <= i < SIZE ==> (#[trigger] final(self).spec_out_data()[i]).val() == 0,
            delay_lanes_next(
                old(self).lanes(),
                old(self).spec_out_data(),
                inputs.in_data@,
                inputs.strobes.load,
                inputs.strobes.reset,
                acc_depth::<SIZE>(),
                final(self).lanes(),
                final(self).spec_out_data(),
                final(self).spec_out_valid(),
            ),
    {
        if inputs.strobes.reset {
            self.buffer = Self::initial_lanes();
            let zero = P::zero();
            self.out_data = [zero; SIZE];
            self.out_valid = false;
            assert(forall|i: int| 0 <= i < SIZE ==> zero_lane(#[trigger] self.lanes()[i], acc_depth::<SIZE>()(i)));
        } else if inputs.strobes.load {
            let ghost pre = self.buffer@;
            load_lanes(&mut self.buffer, &mut self.out_data, &inputs.in_data);
            self.out_valid = true;
            assert forall|i: int| 0 <= i < SIZE implies #[trigger] self.lanes()[i] == pre[i]@.push(
                inputs.in_data@[i],
            ).drop_first() by {
                assert(self.lanes()[i] == self.buffer@[i]@);
            }
        } else {
            self.out_valid = false;
        }
        Ok(())
    }

    pub fn out_data(&self) -> (r: [P; SIZE])
        ensures
            r@ == self.spec_out_data(),
    {
        self.out_data
    }

    pub fn out_valid(&self) -> (r: bool)
        ensures
            r == self.spec_out_valid(),
    {
        self.out_valid
    }

    /// The number of words waiting in lane `i`.
    pub fn lane_len(&self, i: usize) -> (r: usize)
        requires
            self.wf(),
            i < SIZE,
        ensures
            r == self.lanes()[i as int].len(),
            r == SIZE - 1 - i,
    {
        self.buffer[i].len()
    }
}

} // verus!

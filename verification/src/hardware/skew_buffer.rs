//! The skew buffer: staggers the activations entering the systolic array so
//! that lane `i` reaches the array `i` load cycles after it was loaded.
use vstd::prelude::*;
use std::collections::VecDeque;
use crate::word::Word;

verus! {

pub struct SkewBuffer<A, const SIZE: usize> {
    buffer: Vec<VecDeque<A>>,
    out_data: [A; SIZE],
    out_valid: bool,
}

pub struct SkewBufferStrobes {
    pub load: bool,
    pub reset: bool,
}

pub struct SkewBufferInputs<A, const SIZE: usize> {
    pub in_data: [A; SIZE],
    pub strobes: SkewBufferStrobes,
}

/// A skew buffer never fails a cycle.
pub type SkewBufferError = core::convert::Infallible;

/// `l` holds `n` zero words.
pub open spec fn zero_lane<A: Word>(l: Seq<A>, n: int) -> bool {
    &&& l.len() == n
    &&& forall|k: int| 0 <= k < n ==> (#[trigger] l[k]).val() == 0
}

/// Lanes delaying by `depth(i)` loads, one lane per output, after one clock
/// edge: reset refills each lane with `depth(i)` zeros and clears the output;
/// a load pushes each input onto the back of its lane and moves the front of
/// the lane to the output; an idle cycle deasserts the output.
pub open spec fn delay_lanes_next<A: Word>(
    pre_lanes: Seq<Seq<A>>,
    pre_out: Seq<A>,
    in_data: Seq<A>,
    load: bool,
    reset: bool,
    depth: spec_fn(int) -> int,
    post_lanes: Seq<Seq<A>>,
    post_out: Seq<A>,
    post_valid: bool,
) -> bool {
    let n = pre_lanes.len();
    &&& post_lanes.len() == n
    &&& post_out.len() == n
    &&& if reset {
        &&& forall|i: int| 0 <= i < n ==> zero_lane(#[trigger] post_lanes[i], depth(i))
        &&& forall|i: int| 0 <= i < n ==> (#[trigger] post_out[i]).val() == 0
        &&& !post_valid
    } else if load {
        &&& forall|i: int| 0 <= i < n ==> #[trigger] post_lanes[i] == pre_lanes[i].push(in_data[i]).drop_first()
        &&& forall|i: int| 0 <= i < n ==> #[trigger] post_out[i] == pre_lanes[i].push(in_data[i])[0]
        &&& post_valid
    } else {
        &&& post_lanes == pre_lanes
        &&& post_out == pre_out
        &&& !post_valid
    }
}

/// What position `k` of a lane of depth `d` holds after `t` loads from a
/// reset: the input of lane `i` loaded at cycle `t - d + k`, or zero where
/// that cycle precedes the first load.
pub open spec fn delayed<A: Word>(loads: Seq<Seq<A>>, t: int, d: int, i: int, k: int, v: A) -> bool {
    if t - d + k >= 0 {
        v == loads[t - d + k][i]
    } else {
        v.val() == 0
    }
}

/// The lanes of a delay buffer fed `loads` from a reset: `lanes[t]` and
/// `outs[t]` are its contents and outputs after `t` load cycles.
pub open spec fn delay_trace<A: Word>(
    depth: spec_fn(int) -> int,
    n: int,
    loads: Seq<Seq<A>>,
    lanes: Seq<Seq<Seq<A>>>,
    outs: Seq<Seq<A>>,
    valids: Seq<bool>,
) -> bool {
    &&& lanes.len() == loads.len() + 1
    &&& outs.len() == loads.len() + 1
    &&& valids.len() == loads.len() + 1
    &&& lanes[0].len() == n
    &&& outs[0].len() == n
    &&& forall|i: int| 0 <= i < n ==> depth(i) >= 0 && zero_lane(#[trigger] lanes[0][i], depth(i))
    &&& forall|t: int| 0 <= t < loads.len() ==> (#[trigger] loads[t]).len() == n
    &&& forall|t: int|
        0 <= t < loads.len() ==> #[trigger] delay_lanes_next(
            lanes[t],
            outs[t],
            loads[t],
            true,
            false,
            depth,
            lanes[t + 1],
            outs[t + 1],
            valids[t + 1],
        )
}

proof fn lemma_delay_contents<A: Word>(
    depth: spec_fn(int) -> int,
    n: int,
    loads: Seq<Seq<A>>,
    lanes: Seq<Seq<Seq<A>>>,
    outs: Seq<Seq<A>>,
    valids: Seq<bool>,
    t: int,
)
    requires
        delay_trace(depth, n, loads, lanes, outs, valids),
        0 <= t <= loads.len(),
    ensures
        lanes[t].len() == n,
        forall|i: int| 0 <= i < n ==> (#[trigger] lanes[t][i]).len() == depth(i),
        forall|i: int, k: int|
            0 <= i < n && 0 <= k < depth(i) ==> delayed(loads, t, depth(i), i, k, #[trigger] lanes[t][i][k]),
    decreases t,
{
    if t > 0 {
        lemma_delay_contents(depth, n, loads, lanes, outs, valids, t - 1);
        let p = t - 1;
        assert(delay_lanes_next(lanes[p], outs[p], loads[p], true, false, depth, lanes[p + 1], outs[p + 1], valids[p + 1]));
        assert forall|i: int, k: int| 0 <= i < n && 0 <= k < depth(i) implies delayed(
            loads,
            t,
            depth(i),
            i,
            k,
            #[trigger] lanes[t][i][k],
        ) by {
            let l = lanes[p][i].push(loads[p][i]);
            assert(lanes[t][i] == l.drop_first());
            assert(lanes[t][i][k] == l[k + 1]);
            if k + 1 < depth(i) {
                assert(delayed(loads, p, depth(i), i, k + 1, lanes[p][i][k + 1]));
            }
        }
    }
}

/// A delay buffer fed a load every cycle from a reset outputs, on lane `i`
/// at load cycle `t`, the input that lane `i` was given `depth(i)` load
/// cycles earlier, and zero before any such input exists.
pub proof fn lemma_delay_outputs<A: Word>(
    depth: spec_fn(int) -> int,
    n: int,
    loads: Seq<Seq<A>>,
    lanes: Seq<Seq<Seq<A>>>,
    outs: Seq<Seq<A>>,
    valids: Seq<bool>,
)
    requires
        delay_trace(depth, n, loads, lanes, outs, valids),
    ensures
        forall|t: int, i: int|
            0 <= t < loads.len() && 0 <= i < n ==> delayed(loads, t, depth(i), i, 0, #[trigger] outs[t + 1][i]),
{
    assert forall|t: int, i: int| 0 <= t < loads.len() && 0 <= i < n implies delayed(
        loads,
        t,
        depth(i),
        i,
        0,
        #[trigger] outs[t + 1][i],
    ) by {
        lemma_delay_contents(depth, n, loads, lanes, outs, valids, t);
        assert(delay_lanes_next(lanes[t], outs[t], loads[t], true, false, depth, lanes[t + 1], outs[t + 1], valids[t + 1]));
        if depth(i) > 0 {
            assert(delayed(loads, t, depth(i), i, 0, lanes[t][i][0]));
        }
    }
}

/// The inputs of the load cycles among the first `t` cycles of a run, in
/// order.
pub open spec fn loads_taken<A>(ins: Seq<Seq<A>>, load: Seq<bool>, t: int) -> Seq<Seq<A>>
    decreases t,
{
    if t <= 0 {
        Seq::empty()
    } else if load[t - 1] {
        loads_taken(ins, load, t - 1).push(ins[t - 1])
    } else {
        loads_taken(ins, load, t - 1)
    }
}

/// A run of clock edges of a delay buffer from a reset, with no further
/// reset: cycle `t` is given `ins[t]` and loads when `load[t]` holds, and
/// `lanes[t]`, `outs[t]`, `valids[t]` are the contents and outputs before
/// cycle `t`.
pub open spec fn delay_run<A: Word>(
    depth: spec_fn(int) -> int,
    n: int,
    ins: Seq<Seq<A>>,
    load: Seq<bool>,
    lanes: Seq<Seq<Seq<A>>>,
    outs: Seq<Seq<A>>,
    valids: Seq<bool>,
) -> bool {
    &&& load.len() == ins.len()
    &&& lanes.len() == ins.len() + 1
    &&& outs.len() == ins.len() + 1
    &&& valids.len() == ins.len() + 1
    &&& lanes[0].len() == n
    &&& outs[0].len() == n
    &&& forall|i: int| 0 <= i < n ==> depth(i) >= 0 && zero_lane(#[trigger] lanes[0][i], depth(i))
    &&& forall|t: int| 0 <= t < ins.len() ==> (#[trigger] ins[t]).len() == n
    &&& forall|t: int|
        0 <= t < ins.len() ==> #[trigger] delay_lanes_next(
            lanes[t],
            outs[t],
            ins[t],
            load[t],
            false,
            depth,
            lanes[t + 1],
            outs[t + 1],
            valids[t + 1],
        )
}

proof fn lemma_run_contents<A: Word>(
    depth: spec_fn(int) -> int,
    n: int,
    ins: Seq<Seq<A>>,
    load: Seq<bool>,
    lanes: Seq<Seq<Seq<A>>>,
    outs: Seq<Seq<A>>,
    valids: Seq<bool>,
    t: int,
)
    requires
        delay_run(depth, n, ins, load, lanes, outs, valids),
        0 <= t <= ins.len(),
    ensures
        lanes[t].len() == n,
        forall|i: int| 0 <= i < n ==> (#[trigger] lanes[t][i]).len() == depth(i),
        forall|i: int, k: int|
            0 <= i < n && 0 <= k < depth(i) ==> delayed(
                loads_taken(ins, load, t),
                loads_taken(ins, load, t).len() as int,
                depth(i),
                i,
                k,
                #[trigger] lanes[t][i][k],
            ),
    decreases t,
{
    if t > 0 {
        lemma_run_contents(depth, n, ins, load, lanes, outs, valids, t - 1);
        let p = t - 1;
        assert(delay_lanes_next(lanes[p], outs[p], ins[p], load[p], false, depth, lanes[p + 1], outs[p + 1], valids[p + 1]));
        let before = loads_taken(ins, load, p);
        let after = loads_taken(ins, load, t);
        if load[p] {
            assert(after == before.push(ins[p]));
            assert forall|i: int, k: int| 0 <= i < n && 0 <= k < depth(i) implies delayed(
                after,
                after.len() as int,
                depth(i),
                i,
                k,
                #[trigger] lanes[t][i][k],
            ) by {
                let l = lanes[p][i].push(ins[p][i]);
                assert(lanes[t][i] == l.drop_first());
                assert(lanes[t][i][k] == l[k + 1]);
                if k + 1 < depth(i) {
                    assert(delayed(before, before.len() as int, depth(i), i, k + 1, lanes[p][i][k + 1]));
                }
            }
        } else {
            assert(after == before);
        }
    }
}

/// Idle cycles between loads: over a run from a reset in which a delay
/// buffer loads on some cycles only, an idle cycle keeps the lanes and the
/// output data and deasserts the output, and a load cycle preceded by `m`
/// loads outputs, on lane `i`, the input of the load numbered
/// `m - depth(i)`, or zero where no such load exists.
pub proof fn lemma_delay_run<A: Word>(
    depth: spec_fn(int) -> int,
    n: int,
    ins: Seq<Seq<A>>,
    load: Seq<bool>,
    lanes: Seq<Seq<Seq<A>>>,
    outs: Seq<Seq<A>>,
    valids: Seq<bool>,
)
    requires
        delay_run(depth, n, ins, load, lanes, outs, valids),
    ensures
        forall|t: int|
            0 <= t < ins.len() && !load[t] ==> #[trigger] lanes[t + 1] == lanes[t] && outs[t + 1] == outs[t]
                && !valids[t + 1],
        forall|t: int| 0 <= t < ins.len() && load[t] ==> #[trigger] valids[t + 1],
        forall|t: int, i: int|
            0 <= t < ins.len() && load[t] && 0 <= i < n ==> delayed(
                loads_taken(ins, load, t + 1),
                loads_taken(ins, load, t).len() as int,
                depth(i),
                i,
                0,
                #[trigger] outs[t + 1][i],
            ),
{
    assert forall|t: int| #![trigger lanes[t + 1]] #![trigger valids[t + 1]] 0 <= t < ins.len() implies {
        &&& !load[t] ==> lanes[t + 1] == lanes[t] && outs[t + 1] == outs[t] && !valids[t + 1]
        &&& load[t] ==> valids[t + 1]
    } by {
        assert(delay_lanes_next(lanes[t], outs[t], ins[t], load[t], false, depth, lanes[t + 1], outs[t + 1], valids[t + 1]));
    }
    assert forall|t: int, i: int| 0 <= t < ins.len() && load[t] && 0 <= i < n implies delayed(
        loads_taken(ins, load, t + 1),
        loads_taken(ins, load, t).len() as int,
        depth(i),
        i,
        0,
        #[trigger] outs[t + 1][i],
    ) by {
        lemma_run_contents(depth, n, ins, load, lanes, outs, valids, t);
        assert(delay_lanes_next(lanes[t], outs[t], ins[t], load[t], false, depth, lanes[t + 1], outs[t + 1], valids[t + 1]));
        let before = loads_taken(ins, load, t);
        assert(loads_taken(ins, load, t + 1) == before.push(ins[t]));
        if depth(i) > 0 {
            assert(delayed(before, before.len() as int, depth(i), i, 0, lanes[t][i][0]));
        }
    }
}

/// A reset forgets everything loaded before it: whatever the lanes held,
/// after a reset cycle lane `i` holds `depth(i)` zero words, and over the
/// cycles that follow (loads, with idle cycles between them), the load
/// preceded by `m` loads since the reset outputs zero on lane `i` while
/// `m < depth(i)`, and otherwise the input of the load numbered
/// `m - depth(i)` since the reset.
pub proof fn lemma_reset_forgets<A: Word>(
    depth: spec_fn(int) -> int,
    pre_lanes: Seq<Seq<A>>,
    pre_out: Seq<A>,
    pre_in: Seq<A>,
    pre_load: bool,
    ins: Seq<Seq<A>>,
    load: Seq<bool>,
    lanes: Seq<Seq<Seq<A>>>,
    outs: Seq<Seq<A>>,
    valids: Seq<bool>,
)
    requires
        forall|i: int| 0 <= i < pre_lanes.len() ==> #[trigger] depth(i) >= 0,
        load.len() == ins.len(),
        lanes.len() == ins.len() + 1,
        outs.len() == ins.len() + 1,
        valids.len() == ins.len() + 1,
        delay_lanes_next(pre_lanes, pre_out, pre_in, pre_load, true, depth, lanes[0], outs[0], valids[0]),
        forall|t: int| 0 <= t < ins.len() ==> (#[trigger] ins[t]).len() == pre_lanes.len(),
        forall|t: int|
            0 <= t < ins.len() ==> #[trigger] delay_lanes_next(
                lanes[t],
                outs[t],
                ins[t],
                load[t],
                false,
                depth,
                lanes[t + 1],
                outs[t + 1],
                valids[t + 1],
            ),
    ensures
        forall|i: int| 0 <= i < pre_lanes.len() ==> (#[trigger] lanes[0][i]).len() == depth(i),
        forall|i: int, k: int|
            0 <= i < pre_lanes.len() && 0 <= k < depth(i) ==> (#[trigger] lanes[0][i][k]).val() == 0,
        forall|t: int, i: int|
            0 <= t < ins.len() && load[t] && 0 <= i < pre_lanes.len() ==> {
                let m = loads_taken(ins, load, t).len() as int;
                if m < depth(i) {
                    (#[trigger] outs[t + 1][i]).val() == 0
                } else {
                    outs[t + 1][i] == loads_taken(ins, load, t + 1)[m - depth(i)][i]
                }
            },
{
    let n = pre_lanes.len() as int;
    assert(delay_run(depth, n, ins, load, lanes, outs, valids));
    lemma_delay_run(depth, n, ins, load, lanes, outs, valids);
    assert forall|t: int, i: int| 0 <= t < ins.len() && load[t] && 0 <= i < n implies {
        let m = loads_taken(ins, load, t).len() as int;
        if m < depth(i) {
            (#[trigger] outs[t + 1][i]).val() == 0
        } else {
            outs[t + 1][i] == loads_taken(ins, load, t + 1)[m - depth(i)][i]
        }
    } by {
        assert(delayed(
            loads_taken(ins, load, t + 1),
            loads_taken(ins, load, t).len() as int,
            depth(i),
            i,
            0,
            outs[t + 1][i],
        ));
    }
}

/// The delay of lane `i` of a skew buffer: `i` loads.
pub open spec fn skew_depth() -> spec_fn(int) -> int {
    |i: int| i
}

/// A skew buffer fed a load every cycle from a reset outputs, on lane `i` at
/// load cycle `t`, the input given to lane `i` at cycle `t - i`, and zero for
/// the first `i` cycles: lane `i` lags by `i` cycles.
pub proof fn lemma_skew_buffer_delay<A: Word>(
    n: int,
    loads: Seq<Seq<A>>,
    lanes: Seq<Seq<Seq<A>>>,
    outs: Seq<Seq<A>>,
    valids: Seq<bool>,
)
    requires
        delay_trace(skew_depth(), n, loads, lanes, outs, valids),
    ensures
        forall|t: int, i: int|
            0 <= t < loads.len() && 0 <= i < n && t >= i ==> #[trigger] outs[t + 1][i] == loads[t - i][i],
        forall|t: int, i: int| 0 <= t < loads.len() && 0 <= i < n && t < i ==> (#[trigger] outs[t + 1][i]).val() == 0,
{
    lemma_delay_outputs(skew_depth(), n, loads, lanes, outs, valids);
    assert forall|t: int, i: int| 0 <= t < loads.len() && 0 <= i < n implies #[trigger] delayed(
        loads,
        t,
        i,
        i,
        0,
        outs[t + 1][i],
    ) by {
        assert(delayed(loads, t, skew_depth()(i), i, 0, outs[t + 1][i]));
    }
}

/// A lane of `n` zero words.
pub fn zero_queue<A: Word>(n: usize) -> (r: VecDeque<A>)
    ensures
        zero_lane(r@, n as int),
{
    let mut q: VecDeque<A> = VecDeque::new();
    let mut k: usize = 0;
    while k < n
        invariant
            k <= n,
            zero_lane(q@, k as int),
        decreases n - k,
    {
        q.push_back(A::zero());
        k = k + 1;
    }
    q
}

/// One load cycle of delay lanes: each input joins the back of its lane,
/// and the word at the front of the lane moves to the output.
pub(crate) fn load_lanes<A: Word, const SIZE: usize>(
    buffer: &mut Vec<VecDeque<A>>,
    out_data: &mut [A; SIZE],
    in_data: &[A; SIZE],
)
    requires
        old(buffer)@.len() == SIZE,
    ensures
        final(buffer)@.len() == SIZE,
        forall|j: int|
            0 <= j < SIZE ==> (#[trigger] final(buffer)@[j])@ == old(buffer)@[j]@.push(in_data@[j]).drop_first(),
        forall|j: int| 0 <= j < SIZE ==> #[trigger] final(out_data)@[j] == old(buffer)@[j]@.push(in_data@[j])[0],
{
    let ghost pre = buffer@;
    let mut i: usize = 0;
    while i < SIZE
        invariant
            i <= SIZE,
            pre.len() == SIZE,
            buffer@.len() == SIZE,
            out_data@.len() == SIZE,
            forall|j: int| 0 <= j < i ==> (#[trigger] buffer@[j])@ == pre[j]@.push(in_data@[j]).drop_first(),
            forall|j: int| 0 <= j < i ==> #[trigger] out_data@[j] == pre[j]@.push(in_data@[j])[0],
            forall|j: int| i <= j < SIZE ==> #[trigger] buffer@[j] == pre[j],
        decreases SIZE - i,
    {
        let ghost before = buffer@;
        buffer[i].push_back(in_data[i]);
        let front = buffer[i].pop_front();
        let value = match front {
            Some(x) => x,
            None => A::zero(),
        };
        assert(forall|j: int| 0 <= j < SIZE && j != i ==> #[trigger] buffer@[j] == before[j]);
        out_data[i] = value;
        i = i + 1;
    }
}

impl<A: Word, const SIZE: usize> SkewBuffer<A, SIZE> {
    /// The contents of each delay lane, front first.
    pub closed spec fn lanes(&self) -> Seq<Seq<A>> {
        Seq::new(self.buffer@.len(), |i: int| self.buffer@[i]@)
    }

    pub closed spec fn spec_out_data(&self) -> Seq<A> {
        self.out_data@
    }

    pub closed spec fn spec_out_valid(&self) -> bool {
        self.out_valid
    }

    pub closed spec fn wf(&self) -> bool {
        &&& self.buffer@.len() == SIZE
        &&& forall|i: int| 0 <= i < SIZE ==> (#[trigger] self.buffer@[i])@.len() == i
    }

    /// A well-formed buffer has one lane per output.
    pub proof fn lemma_wf(&self)
        requires
            self.wf(),
        ensures
            self.lanes().len() == SIZE,
            forall|i: int| 0 <= i < SIZE ==> (#[trigger] self.lanes()[i]).len() == i,
            self.spec_out_data().len() == SIZE,
    {
    }

    /// Lane `i` holding `i` zeros, for each lane.
    fn initial_lanes() -> (r: Vec<VecDeque<A>>)
        ensures
            r@.len() == SIZE,
            forall|i: int| 0 <= i < SIZE ==> zero_lane((#[trigger] r@[i])@, i),
    {
        let mut lanes: Vec<VecDeque<A>> = Vec::new();
        let mut i: usize = 0;
        while i < SIZE
            invariant
                i <= SIZE,
                lanes@.len() == i,
                forall|j: int| 0 <= j < i ==> zero_lane((#[trigger] lanes@[j])@, j),
            decreases SIZE - i,
        {
            lanes.push(zero_queue(i));
            i = i + 1;
        }
        lanes
    }

    pub fn new() -> (r: Result<Self, SkewBufferError>)
        ensures
            r matches Ok(b) && {
                &&& b.wf()
                &&& b.lanes().len() == SIZE
                &&& forall|i: int| 0 <= i < SIZE ==> zero_lane(#[trigger] b.lanes()[i], i)
                &&& b.spec_out_data().len() == SIZE
                &&& forall|i: int| 0 <= i < SIZE ==> (#[trigger] b.spec_out_data()[i]).val() == 0
                &&& !b.spec_out_valid()
            },
    {
        let zero = A::zero();
        let b = Self { buffer: Self::initial_lanes(), out_data: [zero; SIZE], out_valid: false };
        Ok(b)
    }

    pub fn tick(&mut self, inputs: SkewBufferInputs<A, SIZE>) -> (r: Result<(), SkewBufferError>)
        requires
            old(self).wf(),
        ensures
            r is Ok,
            final(self).wf(),
            final(self).lanes().len() == SIZE,
            forall|i: int| 0 <= i < SIZE ==> (#[trigger] final(self).lanes()[i]).len() == i,
            inputs.strobes.reset ==> forall|i: int, k: int|
                0 <= i < SIZE && 0 <= k < i ==> (#[trigger] final(self).lanes()[i][k]).val() == 0,
            inputs.strobes.reset ==> forall|i: int|
                0 <= i < SIZE ==> (#[trigger] final(self).spec_out_data()[i]).val() == 0,
            delay_lanes_next(
                old(self).lanes(),
                old(self).spec_out_data(),
                inputs.in_data@,
                inputs.strobes.load,
                inputs.strobes.reset,
                skew_depth(),
                final(self).lanes(),
                final(self).spec_out_data(),
                final(self).spec_out_valid(),
            ),
    {
        if inputs.strobes.reset {
            self.buffer = Self::initial_lanes();
            let zero = A::zero();
            self.out_data = [zero; SIZE];
            self.out_valid = false;
            assert(forall|i: int| 0 <= i < SIZE ==> zero_lane(#[trigger] self.lanes()[i], skew_depth()(i)));
        } else if inputs.strobes.load {
            let ghost pre = self.buffer@;
            load_lanes(&mut self.buffer, &mut self.out_data, &inputs.in_data);
            self.out_valid = true;
            assert forall|i: int| 0 <= i < SIZE implies #[trigger] self.lanes()[i] == pre[i]@.push(
                inputs.in_data@[i],
            ).drop_first() by {
                assert(self.lanes()[i] == self.buffer@[i]@);
            }
        } else {
            self.out_valid = false;
        }
        Ok(())
    }

    pub fn out_data(&self) -> (r: [A; SIZE])
        ensures
            r@ == self.spec_out_data(),
    {
        self.out_data
    }

    pub fn out_valid(&self) -> (r: bool)
        ensures
            r == self.spec_out_valid(),
    {
        self.out_valid
    }

    /// The number of words waiting in lane `i`.
    pub fn lane_len(&self, i: usize) -> (r: usize)
        requires
            self.wf(),
            i < SIZE,
        ensures
            r == self.lanes()[i as int].len(),
            r == i,
    {
        self.buffer[i].len()
    }
}

} // verus!

//! The matrix multiply unit: a grid of processing elements. Weights and
//! partial sums flow down the columns, activations flow right along the rows,
//! and the partial sums leaving the bottom row form the accumulator output.
use vstd::prelude::*;
use crate::hardware::pe::{Pe, PeError, PeInputs, PeState, PeStrobes, pe_next_with};

use crate::word::{Word, Widen, wrapped, lemma_wrap_add};

verus! {

pub struct Mmu<W, A, P, const ROWS: usize, const COLS: usize> {
    pes: Vec<Vec<Pe<W, A, P>>>,
    out_acc: [P; COLS],
}

pub struct MmuStrobes<const COLS: usize> {
    pub load_weight: [bool; COLS],
    pub reset: bool,
}

pub struct MmuInputs<W, A, const ROWS: usize, const COLS: usize> {
    pub weights: [W; COLS],
    pub acts: [A; ROWS],
    pub strobes: MmuStrobes<COLS>,
}

#[derive(Debug)]
pub enum MmuError {
    Pe(PeError),
}

/// The weight entering the processing element at `(i, j)`: the external
/// weight for the top row, else the weight held by the element above.
pub open spec fn mmu_weight_in<W, A, P, const ROWS: usize, const COLS: usize>(
    grid: Seq<Seq<PeState<W, A, P>>>,
    inputs: MmuInputs<W, A, ROWS, COLS>,
    i: int,
    j: int,
) -> W {
    if i == 0 {
        inputs.weights@[j]
    } else {
        grid[i - 1][j].weight
    }
}

/// The partial sum entering `(i, j)`: zero for the top row, else the partial
/// sum of the element above.
pub open spec fn mmu_psum_in<W, A, P: Word>(
    grid: Seq<Seq<PeState<W, A, P>>>,
    i: int,
    j: int,
) -> int {
    if i == 0 {
        0
    } else {
        grid[i - 1][j].out_psum.val()
    }
}

/// The activation entering `(i, j)`: the external activation for the left
/// column, else the activation held by the element to the left.
pub open spec fn mmu_act_in<W, A, P, const ROWS: usize, const COLS: usize>(
    grid: Seq<Seq<PeState<W, A, P>>>,
    inputs: MmuInputs<W, A, ROWS, COLS>,
    i: int,
    j: int,
) -> A {
    if j == 0 {
        inputs.acts@[i]
    } else {
        grid[i][j - 1].out_act
    }
}

/// One clock edge of the whole grid: every element steps from the registers
/// of its neighbours as they were before the edge.
pub open spec fn mmu_cell_next<W: Widen<P>, A: Widen<P>, P: Word, const ROWS: usize, const COLS: usize>(
    pre: Seq<Seq<PeState<W, A, P>>>,
    inputs: MmuInputs<W, A, ROWS, COLS>,
    i: int,
    j: int,
    post: PeState<W, A, P>,
) -> bool {
    pe_next_with(
        pre[i][j],
        mmu_weight_in(pre, inputs, i, j),
        mmu_act_in(pre, inputs, i, j),
        mmu_psum_in(pre, i, j),
        (PeStrobes { load_weight: inputs.strobes.load_weight@[j], reset: inputs.strobes.reset }),
        post,
    )
}

pub open spec fn grid_shaped<T>(g: Seq<Seq<T>>, rows: int, cols: int) -> bool {
    &&& g.len() == rows
    &&& forall|i: int| 0 <= i < rows ==> (#[trigger] g[i]).len() == cols
}

/// Weights load down the columns like a shift register: in a column that
/// loads every cycle, the element in row `i` holds, `t > i` cycles into the
/// loading, the weight fed to the column at cycle `t - 1 - i` (so after
/// `ROWS` cycles row 0 holds the latest weight and the bottom row the
/// first), while every activation and partial sum of the column stays as it
/// was.
pub proof fn lemma_mmu_weight_shift<W: Widen<P>, A: Widen<P>, P: Word, const ROWS: usize, const COLS: usize>(
    grids: Seq<Seq<Seq<PeState<W, A, P>>>>,
    inputs: Seq<MmuInputs<W, A, ROWS, COLS>>,
    j: int,
    t: int,
)
    requires
        grids.len() == inputs.len() + 1,
        0 <= j < COLS,
        0 <= t <= inputs.len(),
        forall|u: int|
            0 <= u < inputs.len() ==> !(#[trigger] inputs[u]).strobes.reset && inputs[u].strobes.load_weight@[j],
        forall|u: int, i: int|
            0 <= u < inputs.len() && 0 <= i < ROWS ==> mmu_cell_next(
                grids[u],
                inputs[u],
                i,
                j,
                #[trigger] grids[u + 1][i][j],
            ),
    ensures
        forall|i: int| 0 <= i < ROWS && i < t ==> (#[trigger] grids[t][i][j]).weight == inputs[t - 1 - i].weights@[j],
        forall|i: int| 0 <= i < ROWS ==> (#[trigger] grids[t][i][j]).out_act == grids[0][i][j].out_act,
        forall|i: int| 0 <= i < ROWS ==> (#[trigger] grids[t][i][j]).out_psum == grids[0][i][j].out_psum,
    decreases t,
{
    if t > 0 {
        lemma_mmu_weight_shift(grids, inputs, j, t - 1);
        assert forall|i: int| 0 <= i < ROWS implies {
            &&& i < t ==> (#[trigger] grids[t][i][j]).weight == inputs[t - 1 - i].weights@[j]
            &&& grids[t][i][j].out_act == grids[0][i][j].out_act
            &&& grids[t][i][j].out_psum == grids[0][i][j].out_psum
        } by {
            let p = t - 1;
            assert(mmu_cell_next(grids[p], inputs[p], i, j, grids[p + 1][i][j]));
            assert(grids[p][i][j].out_act == grids[0][i][j].out_act);
            if i > 0 && i < t {
                assert(grids[t - 1][i - 1][j].weight == inputs[t - 1 - 1 - (i - 1)].weights@[j]);
            }
        }
    }
}

/// The partial sum that row `i` of column `j` holds at cycle `t` of a run of
/// compute cycles, before wrapping: for each row `k <= i`, the activation fed
/// to row `k` at cycle `t - 1 - j - (i - k)` times the weight held at
/// `(k, j)`.
pub open spec fn column_sum<W: Widen<P>, A: Widen<P>, P: Word, const ROWS: usize, const COLS: usize>(
    g0: Seq<Seq<PeState<W, A, P>>>,
    inputs: Seq<MmuInputs<W, A, ROWS, COLS>>,
    i: int,
    j: int,
    t: int,
) -> int
    decreases i + 1,
{
    if i < 0 {
        0
    } else {
        column_sum(g0, inputs, i - 1, j, t - 1) + inputs[t - 1 - j].acts@[i].val() * g0[i][j].weight.val()
    }
}

/// A run of clock edges of the grid: `grids[u + 1]` follows from `grids[u]`
/// and `inputs[u]` in every element.
pub open spec fn mmu_trace<W: Widen<P>, A: Widen<P>, P: Word, const ROWS: usize, const COLS: usize>(
    grids: Seq<Seq<Seq<PeState<W, A, P>>>>,
    inputs: Seq<MmuInputs<W, A, ROWS, COLS>>,
) -> bool {
    &&& grids.len() == inputs.len() + 1
    &&& forall|u: int, i: int, j: int|
        0 <= u < inputs.len() && 0 <= i < ROWS && 0 <= j < COLS ==> mmu_cell_next(
            grids[u],
            inputs[u],
            i,
            j,
            #[trigger] grids[u + 1][i][j],
        )
}

/// The systolic dataflow. Over a run of compute cycles (no reset, no weight
/// load) the weights stay in place, activations move one column right per
/// cycle, and partial sums move one row down per cycle accumulating
/// activation times weight: once the run has lasted `1 + i + j` cycles, the
/// element `(i, j)` holds the wrapped dot product of column `j`'s weights in
/// rows `0..=i` with the activations that reached them.
pub proof fn lemma_mmu_dataflow<W: Widen<P>, A: Widen<P>, P: Word, const ROWS: usize, const COLS: usize>(
    grids: Seq<Seq<Seq<PeState<W, A, P>>>>,
    inputs: Seq<MmuInputs<W, A, ROWS, COLS>>,
    t: int,
)
    requires
        mmu_trace(grids, inputs),
        0 <= t <= inputs.len(),
        forall|u: int| 0 <= u < inputs.len() ==> !(#[trigger] inputs[u]).strobes.reset,
        forall|u: int, j: int|
            0 <= u < inputs.len() && 0 <= j < COLS ==> !(#[trigger] inputs[u].strobes.load_weight@[j]),
    ensures
        forall|i: int, j: int|
            0 <= i < ROWS && 0 <= j < COLS ==> (#[trigger] grids[t][i][j]).weight == grids[0][i][j].weight,
        forall|i: int, j: int|
            0 <= i < ROWS && 0 <= j < COLS && t > j ==> (#[trigger] grids[t][i][j]).out_act
                == inputs[t - 1 - j].acts@[i],
        forall|i: int, j: int|
            0 <= i < ROWS && 0 <= j < COLS && t >= 1 + i + j ==> (#[trigger] grids[t][i][j]).out_psum.val()
                == wrapped::<P>(column_sum(grids[0], inputs, i, j, t)),
    decreases t,
{
    if t > 0 {
        lemma_mmu_dataflow(grids, inputs, t - 1);
        let p = t - 1;
        assert forall|i: int, j: int| 0 <= i < ROWS && 0 <= j < COLS implies {
            &&& (#[trigger] grids[t][i][j]).weight == grids[0][i][j].weight
            &&& t > j ==> grids[t][i][j].out_act == inputs[t - 1 - j].acts@[i]
            &&& t >= 1 + i + j ==> grids[t][i][j].out_psum.val() == wrapped::<P>(
                column_sum(grids[0], inputs, i, j, t),
            )
        } by {
            assert(mmu_cell_next(grids[p], inputs[p], i, j, grids[p + 1][i][j]));
            assert(!inputs[p].strobes.reset && !inputs[p].strobes.load_weight@[j]);
            assert(grids[p][i][j].weight == grids[0][i][j].weight);
            if j > 0 && t > j {
                assert(grids[p][i][j - 1].out_act == inputs[p - 1 - (j - 1)].acts@[i]);
            }
            if t >= 1 + i + j {
                let a = inputs[t - 1 - j].acts@[i];
                let w = grids[0][i][j].weight;
                if i > 0 {
                    assert(grids[p][i - 1][j].out_psum.val() == wrapped::<P>(
                        column_sum(grids[0], inputs, i - 1, j, p),
                    ));
                    P::lemma_word(grids[p][i - 1][j].out_psum, grids[p][i - 1][j].out_psum);
                    lemma_wrap_add(column_sum(grids[0], inputs, i - 1, j, p), a.val() * w.val(), P::min_val(), P::modulus());
                } else {
                    assert(column_sum(grids[0], inputs, i - 1, j, p) == 0);
                }
            }
        }
    }
}

impl<W: Widen<P>, A: Widen<P>, P: Word, const ROWS: usize, const COLS: usize> Mmu<W, A, P, ROWS, COLS> {
    /// The registers of the processing elements, row by row.
    pub closed spec fn grid(&self) -> Seq<Seq<PeState<W, A, P>>> {
        Seq::new(self.pes@.len(), |i: int| Seq::new(self.pes@[i]@.len(), |j: int| self.pes@[i]@[j]@))
    }

    /// The accumulator outputs, one per column.
    pub closed spec fn acc(&self) -> Seq<P> {
        self.out_acc@
    }

    pub closed spec fn wf(&self) -> bool {
        &&& self.pes@.len() == ROWS
        &&& forall|i: int| 0 <= i < ROWS ==> (#[trigger] self.pes@[i])@.len() == COLS
    }

    /// A well-formed array has `ROWS` rows of `COLS` elements and one
    /// accumulator output per column.
    pub proof fn lemma_wf(&self)
        requires
            self.wf(),
        ensures
            grid_shaped(self.grid(), ROWS as int, COLS as int),
            self.acc().len() == COLS,
    {
    }

    pub fn new() -> (r: Result<Self, MmuError>)
        ensures
            r matches Ok(mmu) && {
                &&& mmu.wf()
                &&& grid_shaped(mmu.grid(), ROWS as int, COLS as int)
                &&& forall|i: int, j: int|
                    0 <= i < ROWS && 0 <= j < COLS ==> {
                        let s = #[trigger] mmu.grid()[i][j];
                        s.weight.val() == 0 && s.out_act.val() == 0 && s.out_psum.val() == 0
                    }
                &&& forall|j: int| 0 <= j < COLS ==> (#[trigger] mmu.acc()[j]).val() == 0
            },
    {
        let mut pes: Vec<Vec<Pe<W, A, P>>> = Vec::new();
        let mut i: usize = 0;
        while i < ROWS
            invariant
                i <= ROWS,
                pes@.len() == i,
                forall|k: int| 0 <= k < i ==> (#[trigger] pes@[k])@.len() == COLS,
                forall|k: int, l: int| 0 <= k < i && 0 <= l < COLS ==> {
                    let s = #[trigger] pes@[k]@[l]@;
                    s.weight.val() == 0 && s.out_act.val() == 0 && s.out_psum.val() == 0
                },
            decreases ROWS - i,
        {
            let mut row: Vec<Pe<W, A, P>> = Vec::new();
            let mut j: usize = 0;
            while j < COLS
                invariant
                    j <= COLS,
                    row@.len() == j,
                    forall|l: int| 0 <= l < j ==> {
                        let s = #[trigger] row@[l]@;
                        s.weight.val() == 0 && s.out_act.val() == 0 && s.out_psum.val() == 0
                    },
                decreases COLS - j,
            {
                match Pe::new() {
                    Ok(pe) => row.push(pe),
                    Err(e) => return Err(MmuError::Pe(e)),
                }
                j = j + 1;
            }
            pes.push(row);
            i = i + 1;
        }
        let out_acc = [P::zero(); COLS];
        let mmu = Self { pes, out_acc };
        assert(grid_shaped(mmu.grid(), ROWS as int, COLS as int));
        Ok(mmu)
    }

    pub fn tick(&mut self, inputs: MmuInputs<W, A, ROWS, COLS>) -> (r: Result<(), MmuError>)
        requires
            old(self).wf(),
            ROWS > 0 || COLS == 0,
        ensures
            r is Ok,
            final(self).wf(),
            grid_shaped(final(self).grid(), ROWS as int, COLS as int),
            forall|i: int, j: int|
                0 <= i < ROWS && 0 <= j < COLS ==> mmu_cell_next(
                    old(self).grid(),
                    inputs,
                    i,
                    j,
                    #[trigger] final(self).grid()[i][j],
                ),
            forall|j: int|
                0 <= j < COLS ==> #[trigger] final(self).acc()[j] == final(self).grid()[ROWS - 1][j].out_psum,
    {
        let ghost pre = self.grid();
        let mut i: usize = ROWS;
        while i > 0
            invariant
                i <= ROWS,
                self.wf(),
                grid_shaped(pre, ROWS as int, COLS as int),
                forall|k: int, l: int| 0 <= k < i && 0 <= l < COLS ==> #[trigger] self.grid()[k][l] == pre[k][l],
                forall|k: int, l: int|
                    i <= k < ROWS && 0 <= l < COLS ==> mmu_cell_next(pre, inputs, k, l, #[trigger] self.grid()[k][l]),
            decreases i,
        {
            i = i - 1;
            let mut j: usize = COLS;
            while j > 0
                invariant
                    i < ROWS,
                    j <= COLS,
                    self.wf(),
                    grid_shaped(pre, ROWS as int, COLS as int),
                    forall|k: int, l: int|
                        0 <= k < ROWS && 0 <= l < COLS && (k < i || (k == i && l < j)) ==> #[trigger] self.grid()[k][l] == pre[k][l],
                    forall|k: int, l: int|
                        0 <= k < ROWS && 0 <= l < COLS && (k > i || (k == i && l >= j)) ==> mmu_cell_next(pre, inputs, k, l, #[trigger] self.grid()[k][l]),
                decreases j,
            {
                j = j - 1;
                let weight: W = if i == 0 {
                    inputs.weights[j]
                } else {
                    self.pes[i - 1][j].weight()
                };
                let psum: P = if i == 0 {
                    P::zero()
                } else {
                    self.pes[i - 1][j].out_psum()
                };
                let act: A = if j == 0 {
                    inputs.acts[i]
                } else {
                    self.pes[i][j - 1].out_act()
                };
                let pe_inputs = PeInputs {
                    weight,
                    act,
                    psum,
                    strobes: PeStrobes { load_weight: inputs.strobes.load_weight[j], reset: inputs.strobes.reset },
                };
                proof {
                    if i > 0 {
                        assert(self.grid()[i - 1][j as int] == pre[i - 1][j as int]);
                    }
                    if j > 0 {
                        assert(self.grid()[i as int][j - 1] == pre[i as int][j - 1]);
                    }
                }
                let ghost before = self.pes@;
                let ghost before_grid = self.grid();
                assert(self.grid()[i as int][j as int] == pre[i as int][j as int]);
                match self.pes[i][j].tick(pe_inputs) {
                    Ok(()) => {},
                    Err(e) => return Err(MmuError::Pe(e)),
                }
                assert(forall|k: int| 0 <= k < ROWS && k != i ==> #[trigger] self.pes@[k] == before[k]);
                assert(forall|l: int| 0 <= l < COLS && l != j ==> #[trigger] self.pes@[i as int]@[l] == before[i as int]@[l]);
                assert forall|k: int, l: int|
                    0 <= k < ROWS && 0 <= l < COLS && !(k == i && l == j) implies #[trigger] self.grid()[k][l] == before_grid[k][l] by {
                    if k != i {
                        assert(self.pes@[k] == before[k]);
                    } else {
                        assert(self.pes@[k]@[l] == before[k]@[l]);
                    }
                }
                assert(mmu_cell_next(pre, inputs, i as int, j as int, self.grid()[i as int][j as int]));
            }
        }
        let ghost done = self.pes@;
        let ghost g2 = self.grid();
        let mut j: usize = 0;
        while j < COLS
            invariant
                ROWS > 0 || COLS == 0,
                self.pes@ == done,
                g2 == self.grid(),
                j <= COLS,
                self.wf(),
                forall|l: int| 0 <= l < j ==> #[trigger] self.acc()[l] == g2[ROWS - 1][l].out_psum,
            decreases COLS - j,
        {
            let ghost acc_before = self.acc();
            assert(forall|l: int| 0 <= l < j ==> #[trigger] acc_before[l] == g2[ROWS - 1][l].out_psum);
            assert(g2[ROWS - 1][j as int] == self.pes@[ROWS - 1]@[j as int]@);
            self.out_acc[j] = self.pes[ROWS - 1][j].out_psum();
            assert(self.out_acc@ == acc_before.update(j as int, g2[ROWS - 1][j as int].out_psum));
            assert(self.grid() == g2);
            j = j + 1;
        }
        Ok(())
    }

    /// The accumulator outputs.
    pub fn out_acc(&self) -> (r: [P; COLS])
        ensures
            r@ == self.acc(),
    {
        self.out_acc
    }

    /// The processing element at row `i`, column `j`.
    pub fn pe(&self, i: usize, j: usize) -> (r: &Pe<W, A, P>)
        requires
            self.wf(),
            i < ROWS,
            j < COLS,
        ensures
            r@ == self.grid()[i as int][j as int],
    {
        &self.pes[i][j]
    }
}

} // verus!

//! The simulator: runs a program's instructions on the TPU.
use vstd::prelude::*;
use crate::hardware::mmu::{Mmu, MmuError, grid_shaped};
use crate::word::Word;
use crate::isa::Instruction;
use crate::program::Program;
use crate::types::{PeAct, PePsum, MMU_ROWS, MMU_COLS};

verus! {

pub struct Tpu {
    mmu: Mmu<PeAct, PeAct, PePsum, MMU_ROWS, MMU_COLS>,
}

#[derive(Debug)]
pub enum TpuError {
    Mmu(MmuError),
}

/// What the simulator does with one instruction.
#[derive(Debug, Clone, Copy, PartialEq, Eq, Structural)]
pub enum Execution {
    /// A matrix multiply running for the given number of cycles.
    Matmul { cycles: u32 },
    /// An instruction that the simulator does not execute yet.
    NotImplemented,
}

/// How the simulator treats the instruction `i`.
pub open spec fn execution_of(i: Instruction) -> Execution {
    match i {
        Instruction::Matmul { cycles } => Execution::Matmul { cycles },
        _ => Execution::NotImplemented,
    }
}

impl Tpu {
    /// The matrix multiply unit of the simulator.
    pub closed spec fn spec_mmu(&self) -> Mmu<PeAct, PeAct, PePsum, MMU_ROWS, MMU_COLS> {
        self.mmu
    }

    /// A simulator whose matrix multiply unit has every register at zero.
    pub fn new() -> (r: Result<Self, TpuError>)
        ensures
            r matches Ok(tpu) && {
                let mmu = tpu.spec_mmu();
                &&& mmu.wf()
                &&& grid_shaped(mmu.grid(), MMU_ROWS as int, MMU_COLS as int)
                &&& forall|i: int, j: int|
                    0 <= i < MMU_ROWS && 0 <= j < MMU_COLS ==> {
                        let s = #[trigger] mmu.grid()[i][j];
                        s.weight.val() == 0 && s.out_act.val() == 0 && s.out_psum.val() == 0
                    }
                &&& forall|j: int| 0 <= j < MMU_COLS ==> (#[trigger] mmu.acc()[j]).val() == 0
            },
    {
        match Mmu::new() {
            Ok(mmu) => Ok(Self { mmu }),
            Err(e) => Err(TpuError::Mmu(e)),
        }
    }

    /// Runs the program's instructions in order, reporting what was done with
    /// each; the units are left as they were.
    pub fn run(&mut self, program: &Program) -> (r: Result<Vec<Execution>, TpuError>)
        ensures
            final(self).spec_mmu() == old(self).spec_mmu(),
            r matches Ok(trace) && trace@ == program.spec_instructions().map_values(
                |i: Instruction| execution_of(i),
            ),
    {
        let instructions = program.instructions();
        let mut trace: Vec<Execution> = Vec::new();
        let mut k: usize = 0;
        while k < instructions.len()
            invariant
                k <= instructions@.len(),
                instructions@ == program.spec_instructions(),
                trace@ == instructions@.take(k as int).map_values(|i: Instruction| execution_of(i)),
            decreases instructions@.len() - k,
        {
            let step = match &instructions[k] {
                Instruction::Matmul { cycles } => Execution::Matmul { cycles: *cycles },
                _ => Execution::NotImplemented,
            };
            trace.push(step);
            k = k + 1;
            assert(trace@ == instructions@.take(k as int).map_values(|i: Instruction| execution_of(i)));
        }
        assert(instructions@.take(k as int) == instructions@);
        Ok(trace)
    }

    /// One clock cycle of the simulator; the units are not yet driven by it.
    fn tick(&mut self) -> (r: Result<(), TpuError>)
        ensures
            r is Ok,
            final(self).spec_mmu() == old(self).spec_mmu(),
    {
        Ok(())
    }
}

} // verus!

use vstd::prelude::*;
use crate::consts::{WHITE_PIXEL, BLACK_PIXEL, WIDTH, HEIGHT};
use crate::cpu::{CPU, CpuState, Fault, aged, initial_state, loaded_mem, reset_state, step_outcome,
    MEMORY_SIZE, PROGRAM_OFFSET};

verus! {

/// The whole machine as the host drives it: one CPU with its memory,
/// display and key set.
pub struct Emulator {
    pub cpu: CPU,
}

impl View for Emulator {
    type V = CpuState;

    open spec fn view(&self) -> CpuState {
        self.cpu@
    }
}

impl Emulator {
    /// The machine's containers have their proper sizes.
    pub open spec fn wf(&self) -> bool {
        self.cpu.wf()
    }

    /// A fresh machine, fully zeroed.
    pub fn new() -> (e: Emulator)
        ensures
            e.wf(),
            e@ == initial_state(),
    {
        Emulator { cpu: CPU::new() }
    }

    /// Replaces the pressed-key set wholesale with the canonical key codes
    /// the host mapped from its physical keys.
    pub fn set_keys(&mut self, keys: Vec<u8>)
        requires
            old(self).wf(),
        ensures
            final(self).wf(),
            final(self)@ == (CpuState { keys: keys@, ..old(self)@ }),
    {
        self.cpu.keys = keys;
        proof {
            assert(self@ =~= (CpuState { keys: self.cpu.keys@, ..old(self)@ }));
        }
    }

    /// One host tick: ages the delay timer, then executes one instruction.
    pub fn run(&mut self) -> (r: Result<(), Fault>)
        requires
            old(self).wf(),
        ensures
            final(self).wf(),
            exists|b: u8| step_outcome(aged(old(self)@), final(self)@, b, r),
    {
        self.cpu.run_timers();
        let ghost mid = self.cpu@;
        let r = self.cpu.execute();
        proof {
            let b = choose|b: u8| step_outcome(mid, self.cpu@, b, r);
            assert(step_outcome(aged(old(self)@), self@, b, r));
        }
        r
    }

    /// Executes one instruction without touching the delay timer.
    pub fn execute(&mut self) -> (r: Result<(), Fault>)
        requires
            old(self).wf(),
        ensures
            final(self).wf(),
            exists|b: u8| step_outcome(old(self)@, final(self)@, b, r),
    {
        let ghost pre = self.cpu@;
        let r = self.cpu.execute();
        proof {
            let b = choose|b: u8| step_outcome(pre, self.cpu@, b, r);
            assert(step_outcome(old(self)@, self@, b, r));
        }
        r
    }

    /// Reinitializes the machine to its post-reset state.
    pub fn reset(&mut self)
        requires
            old(self).wf(),
        ensures
            final(self).wf(),
            final(self)@ == reset_state(old(self)@),
    {
        self.cpu.reset();
    }

    /// Copies a program into memory at the program offset; the host must
    /// already have rejected anything longer than the space above it.
    pub fn load_program(&mut self, program: &[u8])
        requires
            old(self).wf(),
            program@.len() <= MEMORY_SIZE - PROGRAM_OFFSET,
        ensures
            final(self).wf(),
            final(self)@ == (CpuState { mem: loaded_mem(old(self)@.mem, program@), ..old(self)@ }),
    {
        self.cpu.load_program(program);
    }

    /// Read-only view of the rendered display buffer: one colour word per
    /// cell, the lit colour exactly where the logical cell is on.
    pub fn get_display_buffer(&self) -> (r: &[u32])
        requires
            self.wf(),
        ensures
            r@.len() == WIDTH * HEIGHT,
            forall|k: int| 0 <= k < r@.len() ==> (r@[k] == WHITE_PIXEL) == self@.disp[k],
            forall|k: int|
                0 <= k < r@.len() ==> (r@[k] == WHITE_PIXEL || r@[k] == BLACK_PIXEL),
    {
        self.cpu.display.get_buffer()
    }
}

} // verus!

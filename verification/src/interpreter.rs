//! The executable interpreter, proved to follow the model in `machine`.

use vstd::prelude::*;
use crate::machine::{
    cell, combine, fetch, fresh, grow, load, modes_of, opcode_of, read_operand, run_loop, run_spec,
    step, step_adjust, step_combine, step_input, step_jump, step_output, store, valid_address,
    write_operand, Effect, Fault, Machine,
};

verus! {

/// The number of instructions after which `run` gives up.
pub const STEP_LIMIT: u64 = 0xffff_ffff_ffff_ffff;

/// A resumable interpreter. `memory` is open to the caller, who may patch
/// cells before a run and read them after it.
pub struct Intcode {
    pub memory: Vec<i64>,
    eip: usize,
    is_done: bool,
    rel_base: i64,
}

impl View for Intcode {
    type V = Machine;

    closed spec fn view(&self) -> Machine {
        Machine {
            mem: self.memory@,
            ip: self.eip as int,
            rel_base: self.rel_base as int,
            halted: self.is_done,
        }
    }
}

/// `b` differs from `a` by decoding alone: the pointer may have moved and the
/// memory may have grown, and no cell that `a` holds has changed.
pub open spec fn extends(a: Machine, b: Machine) -> bool {
    &&& a.mem.len() <= b.mem.len()
    &&& forall|i: int| 0 <= i < a.mem.len() ==> #[trigger] b.mem[i] == a.mem[i]
    &&& b.rel_base == a.rel_base
    &&& b.halted == a.halted
}

/// Whether the exec result `res` and the state `after` are what `expected`
/// says of a successful instruction, and `res` the fault that it says of a
/// failed one.
pub open spec fn follows(
    expected: Result<(Effect, Machine), Fault>,
    res: Result<Effect, Fault>,
    after: Machine,
) -> bool {
    match expected {
        Ok((e, m)) => res == Ok::<Effect, Fault>(e) && after == m,
        Err(f) => res == Err::<Effect, Fault>(f),
    }
}

/// A fault leaves behind a machine that `extends` the one before.
pub open spec fn extends_on_fault(before: Machine, after: Machine, res: Result<Effect, Fault>) -> bool {
    res is Err ==> extends(before, after)
}

impl Clone for Intcode {
    /// An independent copy in the same state.
    fn clone(&self) -> (res: Self)
        ensures
            res@ == self@,
    {
        let memory = self.memory.clone();
        proof {
            assert(memory@ =~= self.memory@);
        }
        Intcode { memory, eip: self.eip, is_done: self.is_done, rel_base: self.rel_base }
    }
}

impl Intcode {
    /// An interpreter at the start of `state`, which it copies.
    pub fn new(state: &Vec<i64>) -> (res: Self)
        ensures
            res@ == fresh(state@),
    {
        let memory = state.clone();
        proof {
            assert(memory@ =~= state@);
        }
        Intcode { memory, eip: 0, is_done: false, rel_base: 0 }
    }

    /// The value that address `pos` reads as, without growing the memory.
    pub fn memory_at(&self, pos: usize) -> (res: i64)
        ensures
            res == cell(self@.mem, pos as int),
    {
        if pos < self.memory.len() {
            self.memory[pos]
        } else {
            0
        }
    }

    /// Stores `value` at address `pos`, growing the memory to hold it.
    pub fn set_memory(&mut self, pos: usize, value: i64)
        requires
            valid_address(pos as int),
        ensures
            final(self)@ == store(
                Machine { mem: grow(old(self)@.mem, pos as int), ..old(self)@ },
                pos as int,
                value,
            ),
    {
        self.ensure_memory_available(pos);
        self.set_memory_at(pos, value);
    }

    /// Whether the halt instruction has ever been executed.
    pub fn is_done(&self) -> (res: bool)
        ensures
            res == self@.halted,
    {
        self.is_done
    }

    /// Whether the pointer designates a cell that memory can hold.
    fn pointer_is_valid(&self) -> (res: bool)
        ensures
            res == valid_address(self@.ip),
    {
        (self.eip as u64) < (isize::MAX as u64) / 8
    }

    /// Consumes the cell at the pointer.
    fn fetch_cell(&mut self) -> (res: Result<i64, Fault>)
        ensures
            extends(old(self)@, final(self)@),
            match fetch(old(self)@) {
                Ok((v, m)) => res == Ok::<i64, Fault>(v) && final(self)@ == m,
                Err(f) => res == Err::<i64, Fault>(f) && final(self)@ == old(self)@,
            },
    {
        if !self.pointer_is_valid() {
            return Err(Fault::InvalidAddress);
        }
        let v = self.get_memory_at(self.eip);
        self.eip = self.eip + 1;
        Ok(v)
    }

    /// Consumes the cell at the pointer and splits the lowest digit off
    /// `modes`; returns the cell and the digit.
    fn get_param_val_and_mode(&mut self, modes: &mut u64) -> (res: Result<(i64, u64), Fault>)
        ensures
            *final(modes) == *old(modes) / 10,
            extends(old(self)@, final(self)@),
            match fetch(old(self)@) {
                Ok((v, m)) => {
                    &&& res == Ok::<(i64, u64), Fault>((v, *old(modes) % 10))
                    &&& final(self)@ == m
                },
                Err(f) => res == Err::<(i64, u64), Fault>(f) && final(self)@ == old(self)@,
            },
    {
        let mode = *modes % 10;
        *modes = *modes / 10;
        match self.fetch_cell() {
            Ok(v) => Ok((v, mode)),
            Err(f) => Err(f),
        }
    }

    /// Grows the memory with zeroes until it holds a cell at `pos`.
    fn ensure_memory_available(&mut self, pos: usize)
        requires
            valid_address(pos as int),
        ensures
            final(self)@ == (Machine { mem: grow(old(self)@.mem, pos as int), ..old(self)@ }),
            extends(old(self)@, final(self)@),
            pos < final(self).memory.len(),
    {
        if pos >= self.memory.len() {
            self.memory.resize(pos + 1, 0);
            proof {
                assert(self@.mem =~= grow(old(self)@.mem, pos as int));
            }
        }
    }

    /// The cell at `pos`, which is zero where the memory did not reach.
    fn get_memory_at(&mut self, pos: usize) -> (res: i64)
        requires
            valid_address(pos as int),
        ensures
            load(old(self)@, pos as int) == Ok::<(i64, Machine), Fault>((res, final(self)@)),
            extends(old(self)@, final(self)@),
    {
        self.ensure_memory_available(pos);
        self.memory[pos]
    }

    /// Stores `value` in the cell at `pos`, which the memory holds.
    fn set_memory_at(&mut self, pos: usize, value: i64)
        requires
            pos < old(self).memory.len(),
        ensures
            final(self)@ == store(old(self)@, pos as int, value),
    {
        self.memory[pos] = value;
    }

    /// The address that an operand `v` designates in position mode (`mode`
    /// 0) or relative mode, if memory can hold it.
    fn resolve(&self, v: i64, mode: u64) -> (res: Option<usize>)
        ensures
            ({
                let a = if mode == 0 { v as int } else { v + self@.rel_base };
                match res {
                    Some(pos) => valid_address(a) && pos == a,
                    None => !valid_address(a),
                }
            }),
    {
        let a = if mode == 0 {
            Some(v)
        } else {
            v.checked_add(self.rel_base)
        };
        match a {
            Some(a) => {
                if a >= 0 && (a as u64) < (isize::MAX as u64) / 8 {
                    Some(a as usize)
                } else {
                    None
                }
            },
            None => None,
        }
    }

    /// Decodes one operand that is read.
    fn get_param_value(&mut self, modes: &mut u64) -> (res: Result<i64, Fault>)
        ensures
            *final(modes) == *old(modes) / 10,
            extends(old(self)@, final(self)@),
            match read_operand(old(self)@, *old(modes) as int) {
                Ok((v, m)) => res == Ok::<i64, Fault>(v) && final(self)@ == m,
                Err(f) => res == Err::<i64, Fault>(f),
            },
    {
        let (v, mode) = match self.get_param_val_and_mode(modes) {
            Ok(pair) => pair,
            Err(f) => { return Err(f); },
        };
        if mode == 1 {
            return Ok(v);
        }
        if mode != 0 && mode != 2 {
            return Err(Fault::InvalidMode(mode as i64));
        }
        match self.resolve(v, mode) {
            Some(pos) => {
                let r = self.get_memory_at(pos);
                Ok(r)
            },
            None => Err(Fault::InvalidAddress),
        }
    }

    /// Decodes one operand that is written: returns the address of the cell,
    /// which the memory holds afterwards.
    fn get_outptr(&mut self, modes: &mut u64) -> (res: Result<usize, Fault>)
        ensures
            *final(modes) == *old(modes) / 10,
            extends(old(self)@, final(self)@),
            match write_operand(old(self)@, *old(modes) as int) {
                Ok((a, m)) => {
                    &&& res == Ok::<usize, Fault>(a as usize)
                    &&& a == a as usize
                    &&& a < m.mem.len()
                    &&& final(self)@ == m
                },
                Err(f) => res == Err::<usize, Fault>(f),
            },
    {
        let (v, mode) = match self.get_param_val_and_mode(modes) {
            Ok(pair) => pair,
            Err(f) => { return Err(f); },
        };
        if mode == 1 {
            return Err(Fault::ImmediateWrite);
        }
        if mode != 0 && mode != 2 {
            return Err(Fault::InvalidMode(mode as i64));
        }
        match self.resolve(v, mode) {
            Some(pos) => {
                self.ensure_memory_available(pos);
                Ok(pos)
            },
            None => Err(Fault::InvalidAddress),
        }
    }

    /// Opcodes 1, 2, 7 and 8.
    fn exec_combine(&mut self, op: i64, modes: u64) -> (res: Result<Effect, Fault>)
        requires
            op == 1 || op == 2 || op == 7 || op == 8,
        ensures
            extends_on_fault(old(self)@, final(self)@, res),
            follows(step_combine(old(self)@, op as int, modes as int), res, final(self)@),
    {
        let mut modes = modes;
        let a = match self.get_param_value(&mut modes) {
            Ok(v) => v,
            Err(f) => { return Err(f); },
        };
        let b = match self.get_param_value(&mut modes) {
            Ok(v) => v,
            Err(f) => { return Err(f); },
        };
        let target = match self.get_outptr(&mut modes) {
            Ok(pos) => pos,
            Err(f) => { return Err(f); },
        };
        let value = if op == 1 {
            a.checked_add(b)
        } else if op == 2 {
            a.checked_mul(b)
        } else if op == 7 {
            Some(if a < b { 1i64 } else { 0i64 })
        } else {
            Some(if a == b { 1i64 } else { 0i64 })
        };
        assert(value == combine(op as int, a, b));
        match value {
            Some(v) => {
                self.set_memory_at(target, v);
                Ok(Effect::Advance)
            },
            None => Err(Fault::Overflow),
        }
    }

    /// Opcode 3, entered with the pointer just past the opcode word.
    fn exec_input(&mut self, modes: u64, input: Option<i64>) -> (res: Result<Effect, Fault>)
        requires
            old(self)@.ip >= 1,
        ensures
            extends_on_fault(old(self)@, final(self)@, res),
            follows(step_input(old(self)@, modes as int, input), res, final(self)@),
    {
        let mut modes = modes;
        match input {
            None => {
                self.eip = self.eip - 1;
                Ok(Effect::Block)
            },
            Some(v) => {
                let target = match self.get_outptr(&mut modes) {
                    Ok(pos) => pos,
                    Err(f) => { return Err(f); },
                };
                self.set_memory_at(target, v);
                Ok(Effect::Consume)
            },
        }
    }

    /// Opcode 4.
    fn exec_output(&mut self, modes: u64) -> (res: Result<Effect, Fault>)
        ensures
            extends_on_fault(old(self)@, final(self)@, res),
            follows(step_output(old(self)@, modes as int), res, final(self)@),
    {
        let mut modes = modes;
        match self.get_param_value(&mut modes) {
            Ok(v) => Ok(Effect::Emit(v)),
            Err(f) => Err(f),
        }
    }

    /// Opcodes 5 (`if_true`) and 6.
    fn exec_jump(&mut self, modes: u64, if_true: bool) -> (res: Result<Effect, Fault>)
        ensures
            extends_on_fault(old(self)@, final(self)@, res),
            follows(step_jump(old(self)@, modes as int, if_true), res, final(self)@),
    {
        let mut modes = modes;
        let c = match self.get_param_value(&mut modes) {
            Ok(v) => v,
            Err(f) => { return Err(f); },
        };
        if (c != 0) == if_true {
            let target = match self.get_param_value(&mut modes) {
                Ok(v) => v,
                Err(f) => { return Err(f); },
            };
            if target >= 0 && (target as u64) < (isize::MAX as u64) / 8 {
                self.eip = target as usize;
                Ok(Effect::Advance)
            } else {
                Err(Fault::InvalidAddress)
            }
        } else if self.pointer_is_valid() {
            self.eip = self.eip + 1;
            Ok(Effect::Advance)
        } else {
            Err(Fault::InvalidAddress)
        }
    }

    /// Opcode 9.
    fn exec_adjust(&mut self, modes: u64) -> (res: Result<Effect, Fault>)
        ensures
            extends_on_fault(old(self)@, final(self)@, res),
            follows(step_adjust(old(self)@, modes as int), res, final(self)@),
    {
        let mut modes = modes;
        let v = match self.get_param_value(&mut modes) {
            Ok(v) => v,
            Err(f) => { return Err(f); },
        };
        match self.rel_base.checked_add(v) {
            Some(base) => {
                self.rel_base = base;
                Ok(Effect::Advance)
            },
            None => Err(Fault::Overflow),
        }
    }

    /// Decodes and executes one instruction. A fault may leave the pointer
    /// moved and the memory grown.
    fn execute(&mut self, input: Option<i64>) -> (res: Result<Effect, Fault>)
        ensures
            extends_on_fault(old(self)@, final(self)@, res),
            follows(step(old(self)@, input), res, final(self)@),
    {
        let word = match self.fetch_cell() {
            Ok(v) => v,
            Err(f) => { return Err(f); },
        };
        let op = match word.checked_rem(100) {
            Some(r) => r,
            None => 0,
        };
        assert(op == opcode_of(word));
        if word <= 0 {
            return Err(Fault::UnknownOpcode(op));
        }
        let modes: u64 = (word as u64) / 100;
        assert(modes == modes_of(word));
        if op == 1 || op == 2 || op == 7 || op == 8 {
            self.exec_combine(op, modes)
        } else if op == 3 {
            self.exec_input(modes, input)
        } else if op == 4 {
            self.exec_output(modes)
        } else if op == 5 {
            self.exec_jump(modes, true)
        } else if op == 6 {
            self.exec_jump(modes, false)
        } else if op == 9 {
            self.exec_adjust(modes)
        } else if op == 99 {
            self.is_done = true;
            Ok(Effect::Halt)
        } else {
            Err(Fault::UnknownOpcode(op))
        }
    }

    /// Executes one instruction; a fault leaves the interpreter as it was.
    fn step(&mut self, input: Option<i64>) -> (res: Result<Effect, Fault>)
        ensures
            follows(step(old(self)@, input), res, final(self)@),
            res is Err ==> final(self)@ == old(self)@,
    {
        let eip = self.eip;
        let len = self.memory.len();
        let res = self.execute(input);
        if res.is_err() {
            self.eip = eip;
            self.memory.truncate(len);
            assert(self@.mem =~= old(self)@.mem);
        }
        res
    }

    /// Runs until the program halts, blocks on an input instruction that finds
    /// `inputs` used up, or faults, for at most `max_steps` instructions. A
    /// halted interpreter stays as it is and returns no output.
    pub fn run_for(&mut self, inputs: &[i64], max_steps: u64) -> (res: Result<Vec<i64>, Fault>)
        ensures
            final(self)@ == run_spec(old(self)@, inputs@, max_steps as nat).machine,
            match run_spec(old(self)@, inputs@, max_steps as nat).fault {
                Some(f) => res == Err::<Vec<i64>, Fault>(f),
                None => res is Ok && res->Ok_0@ == run_spec(
                    old(self)@,
                    inputs@,
                    max_steps as nat,
                ).output,
            },
    {
        let ghost goal = run_spec(self@, inputs@, max_steps as nat);
        let mut input_pos: usize = 0;
        let mut output: Vec<i64> = Vec::new();
        let mut steps: u64 = max_steps;
        loop
            invariant
                input_pos <= inputs.len(),
                goal == run_spec(old(self)@, inputs@, max_steps as nat),
                run_loop(self@, inputs@, input_pos as nat, output@, steps as nat) == goal,
            decreases steps,
        {
            if self.is_done {
                return Ok(output);
            }
            if steps == 0 {
                return Err(Fault::StepLimit);
            }
            let input = if input_pos < inputs.len() {
                Some(inputs[input_pos])
            } else {
                None
            };
            match self.step(input) {
                Err(f) => { return Err(f); },
                Ok(Effect::Block) => { return Ok(output); },
                Ok(Effect::Halt) => { return Ok(output); },
                Ok(Effect::Emit(v)) => { output.push(v); },
                Ok(Effect::Consume) => { input_pos = input_pos + 1; },
                Ok(Effect::Advance) => {},
            }
            steps = steps - 1;
        }
    }

    /// Runs until the program halts, blocks on an input instruction that finds
    /// `inputs` used up, or faults, and returns the output of this call.
    pub fn run(&mut self, inputs: &[i64]) -> (res: Result<Vec<i64>, Fault>)
        ensures
            final(self)@ == run_spec(old(self)@, inputs@, STEP_LIMIT as nat).machine,
            match run_spec(old(self)@, inputs@, STEP_LIMIT as nat).fault {
                Some(f) => res == Err::<Vec<i64>, Fault>(f),
                None => res is Ok && res->Ok_0@ == run_spec(
                    old(self)@,
                    inputs@,
                    STEP_LIMIT as nat,
                ).output,
            },
    {
        self.run_for(inputs, STEP_LIMIT)
    }
}

} // verus!

//! The mathematical model of the virtual machine: its state, the meaning of
//! one instruction, and the meaning of a bounded run.

use vstd::prelude::*;

verus! {

/// Why a program cannot be executed any further.
#[derive(Clone, Copy, Debug, PartialEq, Eq, Structural)]
pub enum Fault {
    /// The low two decimal digits of the instruction word select no operation.
    UnknownOpcode(i64),
    /// An operand's mode digit is none of 0, 1 and 2.
    InvalidMode(i64),
    /// An operand that designates a write target is in immediate mode.
    ImmediateWrite,
    /// An operand, a jump or the instruction pointer designates a cell that no
    /// memory can hold: the address is negative, or larger than the machine
    /// lets a memory be.
    InvalidAddress,
    /// A sum, a product or the new relative base does not fit in 64 bits.
    Overflow,
    /// The run used up its budget of instructions.
    StepLimit,
}

/// What one successfully executed instruction did, as far as the caller of
/// `run` is concerned.
#[derive(Clone, Copy, Debug, PartialEq, Eq, Structural)]
pub enum Effect {
    /// Memory, pointer or relative base changed; nothing was read or emitted.
    Advance,
    /// The next input value was stored.
    Consume,
    /// A value was appended to the output.
    Emit(i64),
    /// The halt instruction was executed.
    Halt,
    /// An input instruction found no input: nothing changed.
    Block,
}

/// The state of an interpreter as a mathematical value.
pub struct Machine {
    /// The memory image; every address at or past its length reads as zero.
    pub mem: Seq<i64>,
    /// The address of the next cell to decode.
    pub ip: int,
    /// The offset added to relative-mode operands.
    pub rel_base: int,
    /// Whether the halt instruction has been executed.
    pub halted: bool,
}

/// A machine at the start of `program`.
pub open spec fn fresh(program: Seq<i64>) -> Machine {
    Machine { mem: program, ip: 0, rel_base: 0, halted: false }
}

/// The value that address `a` reads as: zero past the end of `mem`.
pub open spec fn cell(mem: Seq<i64>, a: int) -> i64 {
    if 0 <= a < mem.len() {
        mem[a]
    } else {
        0
    }
}

/// What a bounded run leaves behind.
pub struct Run {
    /// The machine after the run.
    pub machine: Machine,
    /// The values emitted, in order.
    pub output: Seq<i64>,
    /// How many input values were stored.
    pub consumed: nat,
    /// The fault that ended the run, if one did.
    pub fault: Option<Fault>,
}

/// The operation that an instruction word selects: its low two decimal digits,
/// with the sign of the word.
pub open spec fn opcode_of(word: i64) -> int {
    if word >= 0 {
        word as int % 100
    } else {
        -((-(word as int)) % 100)
    }
}

/// The mode digits of an instruction word, the first operand's digit lowest.
pub open spec fn modes_of(word: i64) -> int {
    word as int / 100
}

/// Whether `op` is one of the ten operations.
pub open spec fn known_opcode(op: int) -> bool {
    1 <= op <= 9 || op == 99
}

/// Whether memory can be extended to hold a cell at address `a`: the address
/// is not negative, and a memory of `a + 1` cells of eight bytes each is no
/// larger than the machine lets one allocation be.
pub open spec fn valid_address(a: int) -> bool {
    0 <= a && (a + 1) * 8 <= isize::MAX
}

/// `mem`, extended with zeroes as far as needed to hold a cell at address `a`.
pub open spec fn grow(mem: Seq<i64>, a: int) -> Seq<i64> {
    if a < mem.len() {
        mem
    } else {
        mem + Seq::new((a + 1 - mem.len()) as nat, |i: int| 0i64)
    }
}

/// Reads the cell at address `a`, growing the memory to hold it.
pub open spec fn load(m: Machine, a: int) -> Result<(i64, Machine), Fault> {
    if valid_address(a) {
        let mem = grow(m.mem, a);
        Ok((mem[a], Machine { mem, ..m }))
    } else {
        Err(Fault::InvalidAddress)
    }
}

/// Consumes the cell at the instruction pointer, which is read as any other
/// cell is: past the end of the memory it is zero, and the memory grows to
/// hold it.
pub open spec fn fetch(m: Machine) -> Result<(i64, Machine), Fault> {
    match load(m, m.ip) {
        Err(f) => Err(f),
        Ok((v, grown)) => Ok((v, Machine { ip: m.ip + 1, ..grown })),
    }
}

/// Decodes one operand that is read: consumes a cell and applies the lowest
/// digit of `modes` to it.
pub open spec fn read_operand(m: Machine, modes: int) -> Result<(i64, Machine), Fault> {
    match fetch(m) {
        Err(f) => Err(f),
        Ok((v, next)) => {
            let mode = modes % 10;
            if mode == 0 {
                load(next, v as int)
            } else if mode == 1 {
                Ok((v, next))
            } else if mode == 2 {
                load(next, v + m.rel_base)
            } else {
                Err(Fault::InvalidMode(mode as i64))
            }
        },
    }
}

/// Decodes one operand that is written: consumes a cell, applies the lowest
/// digit of `modes` to it and grows the memory to hold the designated cell,
/// whose address is the result.
pub open spec fn write_operand(m: Machine, modes: int) -> Result<(int, Machine), Fault> {
    match fetch(m) {
        Err(f) => Err(f),
        Ok((v, next)) => {
            let mode = modes % 10;
            let a = if mode == 0 { v as int } else { v + m.rel_base };
            if mode == 1 {
                Err(Fault::ImmediateWrite)
            } else if mode != 0 && mode != 2 {
                Err(Fault::InvalidMode(mode as i64))
            } else if !valid_address(a) {
                Err(Fault::InvalidAddress)
            } else {
                Ok((a, Machine { mem: grow(next.mem, a), ..next }))
            }
        },
    }
}

/// `m` with `v` stored at address `a`.
pub open spec fn store(m: Machine, a: int, v: i64) -> Machine {
    Machine { mem: m.mem.update(a, v), ..m }
}

/// The value that a three-operand instruction stores, if it fits in 64 bits.
pub open spec fn combine(op: int, a: i64, b: i64) -> Option<i64> {
    let r: int = if op == 1 {
        a + b
    } else if op == 2 {
        a * b
    } else if op == 7 {
        if a < b { 1 } else { 0 }
    } else {
        if a == b { 1 } else { 0 }
    };
    if i64::MIN <= r <= i64::MAX {
        Some(r as i64)
    } else {
        None
    }
}

/// Opcodes 1, 2, 7 and 8: two operands read, one written.
pub open spec fn step_combine(m: Machine, op: int, modes: int) -> Result<(Effect, Machine), Fault> {
    match read_operand(m, modes) {
        Err(f) => Err(f),
        Ok((a, m1)) => match read_operand(m1, modes / 10) {
            Err(f) => Err(f),
            Ok((b, m2)) => match write_operand(m2, modes / 10 / 10) {
                Err(f) => Err(f),
                Ok((target, m3)) => match combine(op, a, b) {
                    None => Err(Fault::Overflow),
                    Some(v) => Ok((Effect::Advance, store(m3, target, v))),
                },
            },
        },
    }
}

/// Opcode 3: stores the next input, or blocks where there is none.
pub open spec fn step_input(m: Machine, modes: int, input: Option<i64>) -> Result<
    (Effect, Machine),
    Fault,
> {
    match input {
        None => Ok((Effect::Block, Machine { ip: m.ip - 1, ..m })),
        Some(v) => match write_operand(m, modes) {
            Err(f) => Err(f),
            Ok((target, m1)) => Ok((Effect::Consume, store(m1, target, v))),
        },
    }
}

/// Opcode 4: emits one operand.
pub open spec fn step_output(m: Machine, modes: int) -> Result<(Effect, Machine), Fault> {
    match read_operand(m, modes) {
        Err(f) => Err(f),
        Ok((v, m1)) => Ok((Effect::Emit(v), m1)),
    }
}

/// Opcodes 5 and 6: jumps to the second operand where the first one is nonzero
/// (`if_true`) or zero; otherwise passes over the second operand's cell
/// without reading it.
pub open spec fn step_jump(m: Machine, modes: int, if_true: bool) -> Result<
    (Effect, Machine),
    Fault,
> {
    match read_operand(m, modes) {
        Err(f) => Err(f),
        Ok((c, m1)) => if (c != 0) == if_true {
            match read_operand(m1, modes / 10) {
                Err(f) => Err(f),
                Ok((target, m2)) => if valid_address(target as int) {
                    Ok((Effect::Advance, Machine { ip: target as int, ..m2 }))
                } else {
                    Err(Fault::InvalidAddress)
                },
            }
        } else if valid_address(m1.ip) {
            Ok((Effect::Advance, Machine { ip: m1.ip + 1, ..m1 }))
        } else {
            Err(Fault::InvalidAddress)
        },
    }
}

/// Opcode 9: adds one operand to the relative base.
pub open spec fn step_adjust(m: Machine, modes: int) -> Result<(Effect, Machine), Fault> {
    match read_operand(m, modes) {
        Err(f) => Err(f),
        Ok((v, m1)) => if i64::MIN <= m1.rel_base + v <= i64::MAX {
            Ok((Effect::Advance, Machine { rel_base: m1.rel_base + v, ..m1 }))
        } else {
            Err(Fault::Overflow)
        },
    }
}

/// The instruction whose opcode word has just been consumed from `m`.
pub open spec fn dispatch(m: Machine, word: i64, input: Option<i64>) -> Result<
    (Effect, Machine),
    Fault,
> {
    let op = opcode_of(word);
    let modes = modes_of(word);
    if op == 1 || op == 2 || op == 7 || op == 8 {
        step_combine(m, op, modes)
    } else if op == 3 {
        step_input(m, modes, input)
    } else if op == 4 {
        step_output(m, modes)
    } else if op == 5 {
        step_jump(m, modes, true)
    } else if op == 6 {
        step_jump(m, modes, false)
    } else if op == 9 {
        step_adjust(m, modes)
    } else if op == 99 {
        Ok((Effect::Halt, Machine { halted: true, ..m }))
    } else {
        Err(Fault::UnknownOpcode(op as i64))
    }
}

/// One instruction of a machine that has not halted: the effect and the
/// machine after it, or the fault that the instruction runs into. `input` is
/// the next input value, if one is left. The cells are consumed one by one, in
/// the order in which the operands are decoded, each read growing the memory
/// before the next cell is consumed.
pub open spec fn step(m: Machine, input: Option<i64>) -> Result<(Effect, Machine), Fault> {
    match fetch(m) {
        Err(f) => Err(f),
        Ok((word, m1)) => dispatch(m1, word, input),
    }
}

/// The input value at position `used`, if the batch reaches that far.
pub open spec fn next_input(inputs: Seq<i64>, used: nat) -> Option<i64> {
    if used < inputs.len() {
        Some(inputs[used as int])
    } else {
        None
    }
}

/// Runs `m` for at most `fuel` instructions, starting with `used` inputs
/// consumed and `out` emitted. The run ends at a halt, at an input instruction
/// that finds the batch used up, at a fault, which leaves the machine as it
/// stood before the faulting instruction, or when the fuel is spent.
pub open spec fn run_loop(m: Machine, inputs: Seq<i64>, used: nat, out: Seq<i64>, fuel: nat) -> Run
    decreases fuel,
{
    if m.halted {
        Run { machine: m, output: out, consumed: used, fault: None }
    } else if fuel == 0 {
        Run { machine: m, output: out, consumed: used, fault: Some(Fault::StepLimit) }
    } else {
        match step(m, next_input(inputs, used)) {
            Err(f) => Run { machine: m, output: out, consumed: used, fault: Some(f) },
            Ok((Effect::Block, _)) => Run { machine: m, output: out, consumed: used, fault: None },
            Ok((Effect::Halt, next)) => Run {
                machine: next,
                output: out,
                consumed: used,
                fault: None,
            },
            Ok((Effect::Emit(v), next)) => run_loop(next, inputs, used, out.push(v), (fuel - 1) as nat),
            Ok((Effect::Consume, next)) => run_loop(next, inputs, used + 1, out, (fuel - 1) as nat),
            Ok((Effect::Advance, next)) => run_loop(next, inputs, used, out, (fuel - 1) as nat),
        }
    }
}

/// A run of `m` on a fresh batch of inputs, for at most `fuel` instructions.
pub open spec fn run_spec(m: Machine, inputs: Seq<i64>, fuel: nat) -> Run {
    run_loop(m, inputs, 0, Seq::empty(), fuel)
}

} // verus!

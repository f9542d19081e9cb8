//! What holds of every run of the machine.

use vstd::prelude::*;
use crate::machine::{
    cell, fetch, grow, known_opcode, modes_of, next_input, opcode_of, read_operand, run_loop, run_spec,
    step, step_combine, step_jump, valid_address, write_operand, Effect, Fault, Machine, Run,
};

verus! {

/// Whether a run stopped at an input instruction for want of input: no fault,
/// and the machine has not halted.
pub open spec fn blocked(r: Run) -> bool {
    r.fault is None && !r.machine.halted
}

/// A run that follows an earlier one, seen as the rest of a single run: its
/// output comes after `before`, and its inputs after the `skipped` ones.
pub open spec fn continued(before: Seq<i64>, skipped: nat, r: Run) -> Run {
    Run {
        machine: r.machine,
        output: before + r.output,
        consumed: skipped + r.consumed,
        fault: r.fault,
    }
}

/// Only an input instruction looks at the input: an instruction that does not
/// block without input does the same whatever the input is.
pub proof fn lemma_step_ignores_input(m: Machine, input: Option<i64>)
    requires
        !(step(m, None) matches Ok((Effect::Block, _))),
    ensures
        step(m, input) == step(m, None),
{
}

/// An instruction blocks only where there is no input, and consumes only
/// where there is some.
pub proof fn lemma_step_input_use(m: Machine, input: Option<i64>)
    ensures
        step(m, input) matches Ok((Effect::Block, _)) ==> input is None,
        step(m, input) matches Ok((Effect::Consume, _)) ==> input is Some,
{
}

/// A run that ended for another reason than its budget is the same under
/// every larger budget.
pub proof fn lemma_more_fuel(
    m: Machine,
    inputs: Seq<i64>,
    used: nat,
    out: Seq<i64>,
    fuel: nat,
    more: nat,
)
    requires
        run_loop(m, inputs, used, out, fuel).fault != Some(Fault::StepLimit),
        fuel <= more,
    ensures
        run_loop(m, inputs, used, out, more) == run_loop(m, inputs, used, out, fuel),
    decreases fuel,
{
    if !m.halted && fuel > 0 {
        match step(m, next_input(inputs, used)) {
            Ok((Effect::Emit(v), next)) => {
                lemma_more_fuel(next, inputs, used, out.push(v), (fuel - 1) as nat, (more - 1) as nat);
            },
            Ok((Effect::Consume, next)) => {
                lemma_more_fuel(next, inputs, used + 1, out, (fuel - 1) as nat, (more - 1) as nat);
            },
            Ok((Effect::Advance, next)) => {
                lemma_more_fuel(next, inputs, used, out, (fuel - 1) as nat, (more - 1) as nat);
            },
            _ => {},
        }
    }
}

/// A run on the batch `b` is the tail of a run on `a + b` that has consumed
/// all of `a` and emitted `before`.
proof fn lemma_shift(
    m: Machine,
    a: Seq<i64>,
    b: Seq<i64>,
    before: Seq<i64>,
    used: nat,
    out: Seq<i64>,
    fuel: nat,
)
    ensures
        run_loop(m, a + b, a.len() + used, before + out, fuel) == continued(
            before,
            a.len(),
            run_loop(m, b, used, out, fuel),
        ),
    decreases fuel,
{
    assert(next_input(a + b, a.len() + used) == next_input(b, used));
    if !m.halted && fuel > 0 {
        match step(m, next_input(b, used)) {
            Ok((Effect::Emit(v), next)) => {
                assert((before + out).push(v) =~= before + out.push(v));
                lemma_shift(next, a, b, before, used, out.push(v), (fuel - 1) as nat);
            },
            Ok((Effect::Consume, next)) => {
                lemma_shift(next, a, b, before, used + 1, out, (fuel - 1) as nat);
            },
            Ok((Effect::Advance, next)) => {
                lemma_shift(next, a, b, before, used, out, (fuel - 1) as nat);
            },
            _ => {},
        }
    }
}

/// A run on `a` that blocks has consumed all of `a`, and a run on `a + b`
/// passes through the state in which it blocked.
proof fn lemma_through_block(
    m: Machine,
    a: Seq<i64>,
    b: Seq<i64>,
    used: nat,
    out: Seq<i64>,
    fuel: nat,
    more: nat,
)
    requires
        used <= a.len(),
        blocked(run_loop(m, a, used, out, fuel)),
        run_loop(
            run_loop(m, a, used, out, fuel).machine,
            a + b,
            a.len(),
            run_loop(m, a, used, out, fuel).output,
            more,
        ).fault != Some(Fault::StepLimit),
    ensures
        run_loop(m, a, used, out, fuel).consumed == a.len(),
        run_loop(m, a + b, used, out, fuel + more) == run_loop(
            run_loop(m, a, used, out, fuel).machine,
            a + b,
            a.len(),
            run_loop(m, a, used, out, fuel).output,
            more,
        ),
    decreases fuel,
{
    let input = next_input(a, used);
    lemma_step_input_use(m, input);
    if step(m, input) matches Ok((Effect::Block, _)) {
        lemma_more_fuel(m, a + b, used, out, more, fuel + more);
    } else {
        if used < a.len() {
            assert(next_input(a + b, used) == input);
        } else {
            lemma_step_ignores_input(m, next_input(a + b, used));
        }
        match step(m, input) {
            Ok((Effect::Emit(v), next)) => {
                lemma_through_block(next, a, b, used, out.push(v), (fuel - 1) as nat, more);
            },
            Ok((Effect::Consume, next)) => {
                lemma_through_block(next, a, b, used + 1, out, (fuel - 1) as nat, more);
            },
            Ok((Effect::Advance, next)) => {
                lemma_through_block(next, a, b, used, out, (fuel - 1) as nat, more);
            },
            _ => {},
        }
    }
}

/// Resumption. Where a run on the inputs `a` blocks, and a second run from
/// the state it left, on the inputs `b`, ends for another reason than its
/// budget, the two together are one run on `a` followed by `b`: the same final
/// machine and fault, the outputs one after the other, and every input
/// consumed once. The first run has consumed all of `a`.
pub proof fn lemma_resume(m: Machine, a: Seq<i64>, b: Seq<i64>, fuel: nat, more: nat)
    requires
        blocked(run_spec(m, a, fuel)),
        run_spec(run_spec(m, a, fuel).machine, b, more).fault != Some(Fault::StepLimit),
    ensures
        run_spec(m, a, fuel).consumed == a.len(),
        run_spec(m, a + b, fuel + more) == continued(
            run_spec(m, a, fuel).output,
            a.len(),
            run_spec(run_spec(m, a, fuel).machine, b, more),
        ),
{
    let first = run_spec(m, a, fuel);
    lemma_shift(first.machine, a, b, first.output, 0, Seq::empty(), more);
    assert(first.output + Seq::<i64>::empty() =~= first.output);
    lemma_through_block(m, a, b, 0, Seq::empty(), fuel, more);
}

/// A run without input that starts at an input instruction returns at once:
/// no output, nothing consumed, the machine as it was.
pub proof fn lemma_blocks_at_once(m: Machine, fuel: nat)
    requires
        !m.halted,
        fuel > 0,
        step(m, None) matches Ok((Effect::Block, _)),
    ensures
        run_spec(m, Seq::empty(), fuel) == (Run {
            machine: m,
            output: Seq::empty(),
            consumed: 0,
            fault: None,
        }),
{
}

/// A fault of an instruction that is no input instruction is reported on every
/// run, whatever inputs are supplied, and leaves the machine as it was.
pub proof fn lemma_fault_repeats(m: Machine, f: Fault, inputs: Seq<i64>, fuel: nat)
    requires
        !m.halted,
        fuel > 0,
        step(m, None) == Err::<(Effect, Machine), Fault>(f),
    ensures
        run_spec(m, inputs, fuel) == (Run {
            machine: m,
            output: Seq::empty(),
            consumed: 0,
            fault: Some(f),
        }),
{
    lemma_step_ignores_input(m, next_input(inputs, 0));
}

/// A machine whose pointer stands on a word that selects no operation reports
/// that opcode on every run, whatever inputs are supplied, and stays as it
/// was.
pub proof fn lemma_unknown_opcode(m: Machine, inputs: Seq<i64>, fuel: nat)
    requires
        !m.halted,
        fuel > 0,
        valid_address(m.ip),
        !known_opcode(opcode_of(cell(m.mem, m.ip))),
    ensures
        run_spec(m, inputs, fuel) == (Run {
            machine: m,
            output: Seq::empty(),
            consumed: 0,
            fault: Some(Fault::UnknownOpcode(opcode_of(cell(m.mem, m.ip)) as i64)),
        }),
{
    lemma_fault_repeats(m, Fault::UnknownOpcode(opcode_of(cell(m.mem, m.ip)) as i64), inputs, fuel);
}

/// A halted machine stays as it is: a run returns at once, with no output.
pub proof fn lemma_halted_stays(m: Machine, inputs: Seq<i64>, fuel: nat)
    requires
        m.halted,
    ensures
        run_spec(m, inputs, fuel) == (Run {
            machine: m,
            output: Seq::empty(),
            consumed: 0,
            fault: None,
        }),
{
}

/// Copies are independent. A copy is a machine of its own in the state that
/// the machine copied was in. What it does on the inputs `b` is what that
/// machine would have done on them then, whether or not that machine has
/// since run on other inputs `a`: a run reads and changes nothing but its own
/// machine.
pub proof fn lemma_copy_runs_alone(source: Machine, copy: Machine, a: Seq<i64>, b: Seq<i64>, fuel: nat)
    requires
        copy == source,
    ensures
        run_spec(copy, b, fuel) == run_spec(source, b, fuel),
        run_spec(run_spec(source, a, fuel).machine, b, fuel) == run_spec(
            run_spec(copy, a, fuel).machine,
            b,
            fuel,
        ),
{
}

/// Decoding an operand never shrinks the memory.
proof fn lemma_operands_keep_memory(m: Machine, modes: int)
    ensures
        fetch(m) matches Ok((_, next)) ==> next.mem.len() >= m.mem.len(),
        read_operand(m, modes) matches Ok((_, next)) ==> next.mem.len() >= m.mem.len(),
        write_operand(m, modes) matches Ok((a, next)) ==> next.mem.len() >= m.mem.len() && 0 <= a
            < next.mem.len(),
{
}

/// The instructions with three operands never shrink the memory.
proof fn lemma_combine_keeps_memory(m: Machine, op: int, modes: int)
    ensures
        step_combine(m, op, modes) matches Ok((_, next)) ==> next.mem.len() >= m.mem.len(),
{
    lemma_operands_keep_memory(m, modes);
    if let Ok((_, m1)) = read_operand(m, modes) {
        lemma_operands_keep_memory(m1, modes / 10);
        if let Ok((_, m2)) = read_operand(m1, modes / 10) {
            lemma_operands_keep_memory(m2, modes / 10 / 10);
        }
    }
}

/// The jumps never shrink the memory.
proof fn lemma_jump_keeps_memory(m: Machine, modes: int, if_true: bool)
    ensures
        step_jump(m, modes, if_true) matches Ok((_, next)) ==> next.mem.len() >= m.mem.len(),
{
    lemma_operands_keep_memory(m, modes);
    if let Ok((_, m1)) = read_operand(m, modes) {
        lemma_operands_keep_memory(m1, modes / 10);
    }
}

/// An instruction never shrinks the memory.
pub proof fn lemma_step_keeps_memory(m: Machine, input: Option<i64>)
    ensures
        step(m, input) matches Ok((_, next)) ==> next.mem.len() >= m.mem.len(),
{
    lemma_operands_keep_memory(m, 0);
    if let Ok((word, m1)) = fetch(m) {
        let op = opcode_of(word);
        let modes = modes_of(word);
        lemma_operands_keep_memory(m1, modes);
        lemma_combine_keeps_memory(m1, op, modes);
        lemma_jump_keeps_memory(m1, modes, true);
        lemma_jump_keeps_memory(m1, modes, false);
    }
}

/// A run never shrinks the memory: a cell that the machine holds stays
/// addressable.
pub proof fn lemma_memory_never_shrinks(
    m: Machine,
    inputs: Seq<i64>,
    used: nat,
    out: Seq<i64>,
    fuel: nat,
)
    ensures
        run_loop(m, inputs, used, out, fuel).machine.mem.len() >= m.mem.len(),
    decreases fuel,
{
    if !m.halted && fuel > 0 {
        lemma_step_keeps_memory(m, next_input(inputs, used));
        match step(m, next_input(inputs, used)) {
            Ok((Effect::Emit(v), next)) => {
                lemma_memory_never_shrinks(next, inputs, used, out.push(v), (fuel - 1) as nat);
            },
            Ok((Effect::Consume, next)) => {
                lemma_memory_never_shrinks(next, inputs, used + 1, out, (fuel - 1) as nat);
            },
            Ok((Effect::Advance, next)) => {
                lemma_memory_never_shrinks(next, inputs, used, out, (fuel - 1) as nat);
            },
            _ => {},
        }
    }
}

/// The halted flag is never reset, and a run that ends without a fault ends
/// halted or blocked at an input instruction with every input consumed.
pub proof fn lemma_run_ends(m: Machine, inputs: Seq<i64>, used: nat, out: Seq<i64>, fuel: nat)
    requires
        used <= inputs.len(),
    ensures
        m.halted ==> run_loop(m, inputs, used, out, fuel).machine.halted,
        run_loop(m, inputs, used, out, fuel).consumed <= inputs.len(),
        used <= run_loop(m, inputs, used, out, fuel).consumed,
        blocked(run_loop(m, inputs, used, out, fuel)) ==> {
            &&& run_loop(m, inputs, used, out, fuel).consumed == inputs.len()
            &&& step(run_loop(m, inputs, used, out, fuel).machine, None) matches Ok(
                (Effect::Block, _),
            )
        },
    decreases fuel,
{
    if !m.halted && fuel > 0 {
        lemma_step_input_use(m, next_input(inputs, used));
        match step(m, next_input(inputs, used)) {
            Ok((Effect::Emit(v), next)) => {
                lemma_run_ends(next, inputs, used, out.push(v), (fuel - 1) as nat);
            },
            Ok((Effect::Consume, next)) => {
                lemma_run_ends(next, inputs, used + 1, out, (fuel - 1) as nat);
            },
            Ok((Effect::Advance, next)) => {
                lemma_run_ends(next, inputs, used, out, (fuel - 1) as nat);
            },
            _ => {},
        }
    }
}

/// Growing the memory changes nothing that can be read: every address reads
/// as it did before, the new cells as zero.
pub proof fn lemma_grow_reads_alike(mem: Seq<i64>, a: int, x: int)
    requires
        0 <= a,
    ensures
        cell(grow(mem, a), x) == cell(mem, x),
        grow(mem, a).len() > a,
        grow(mem, a).len() >= mem.len(),
{
}

} // verus!

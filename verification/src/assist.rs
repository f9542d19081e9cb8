//! Running a program with two of its cells patched, and the search for the
//! pair of values that makes it leave a wanted result.

use vstd::prelude::*;
use crate::interpreter::{Intcode, STEP_LIMIT};
use crate::machine::{cell, fresh, run_spec, Fault};

verus! {

/// The number of values tried for each of the two cells.
pub const RANGE: i64 = 100;

/// What cell 0 holds after `program` has run with `noun` in cell 1 and `verb`
/// in cell 2, or the fault that the run ends in.
pub open spec fn outcome(program: Seq<i64>, noun: i64, verb: i64) -> Result<i64, Fault> {
    let run = run_spec(fresh(program.update(1, noun).update(2, verb)), Seq::empty(), STEP_LIMIT as nat);
    match run.fault {
        Some(f) => Err(f),
        None => Ok(cell(run.machine.mem, 0)),
    }
}

/// The first pair from the `k`-th on, in the order (0, 0), (0, 1), ..., whose
/// outcome is `target`, if there is one; a fault on the way ends the search.
pub open spec fn search_from(program: Seq<i64>, target: i64, k: int) -> Result<
    Option<(i64, i64)>,
    Fault,
>
    decreases RANGE * RANGE - k,
{
    if k < 0 || k >= RANGE * RANGE {
        Ok(None)
    } else {
        match outcome(program, (k / 100) as i64, (k % 100) as i64) {
            Err(f) => Err(f),
            Ok(v) => if v == target {
                Ok(Some(((k / 100) as i64, (k % 100) as i64)))
            } else {
                search_from(program, target, k + 1)
            },
        }
    }
}

/// Runs `state` with `noun` in cell 1 and `verb` in cell 2 and returns what
/// cell 0 holds at the end.
pub fn run_with(state: &Vec<i64>, noun: i64, verb: i64) -> (res: Result<i64, Fault>)
    requires
        state@.len() >= 3,
    ensures
        res == outcome(state@, noun, verb),
{
    let mut memory = state.clone();
    proof {
        assert(memory@ =~= state@);
    }
    memory[1] = noun;
    memory[2] = verb;
    let mut intcode = Intcode::new(&memory);
    let empty: Vec<i64> = Vec::new();
    match intcode.run(empty.as_slice()) {
        Ok(_) => Ok(intcode.memory_at(0)),
        Err(f) => Err(f),
    }
}

/// The first pair of values below 100, in the order (0, 0), (0, 1), ..., with
/// which `state` leaves `target` in cell 0.
pub fn find_inputs(state: &Vec<i64>, target: i64) -> (res: Result<Option<(i64, i64)>, Fault>)
    requires
        state@.len() >= 3,
    ensures
        res == search_from(state@, target, 0),
{
    let mut noun: i64 = 0;
    while noun < RANGE
        invariant
            0 <= noun <= RANGE,
            state@.len() >= 3,
            search_from(state@, target, noun * 100) == search_from(state@, target, 0),
        decreases RANGE - noun,
    {
        let mut verb: i64 = 0;
        while verb < RANGE
            invariant
                0 <= noun < RANGE,
                0 <= verb <= RANGE,
                state@.len() >= 3,
                search_from(state@, target, noun * 100 + verb) == search_from(state@, target, 0),
            decreases RANGE - verb,
        {
            match run_with(state, noun, verb) {
                Err(f) => { return Err(f); },
                Ok(v) => {
                    if v == target {
                        return Ok(Some((noun, verb)));
                    }
                },
            }
            verb = verb + 1;
        }
        noun = noun + 1;
    }
    Ok(None)
}

} // verus!

//! Running a diagnostic program on one input and reading its report.

use vstd::prelude::*;
use crate::interpreter::{Intcode, STEP_LIMIT};
use crate::machine::{fresh, run_spec, Fault};

verus! {

/// The diagnostic code of a report: its last value, where every value before
/// it, the results of the tests, is 0.
pub open spec fn code_of(output: Seq<i64>) -> Option<i64> {
    if output.len() > 0 && forall|i: int| 0 <= i < output.len() - 1 ==> output[i] == 0 {
        Some(output.last())
    } else {
        None
    }
}

/// The diagnostic code of a report, where all tests have passed.
pub fn diagnostic_code(output: &Vec<i64>) -> (res: Option<i64>)
    ensures
        res == code_of(output@),
{
    if output.len() == 0 {
        return None;
    }
    let mut i: usize = 0;
    while i < output.len() - 1
        invariant
            output@.len() > 0,
            i <= output@.len() - 1,
            forall|k: int| 0 <= k < i ==> output@[k] == 0,
        decreases output.len() - i,
    {
        if output[i] != 0 {
            return None;
        }
        i = i + 1;
    }
    Some(output[output.len() - 1])
}

/// Runs the program `state` on the single input `system` and returns all
/// that it emits.
pub fn run_on(state: &Vec<i64>, system: i64) -> (res: Result<Vec<i64>, Fault>)
    ensures
        match run_spec(fresh(state@), seq![system], STEP_LIMIT as nat).fault {
            Some(f) => res == Err::<Vec<i64>, Fault>(f),
            None => res is Ok && res->Ok_0@ == run_spec(
                fresh(state@),
                seq![system],
                STEP_LIMIT as nat,
            ).output,
        },
{
    let mut intcode = Intcode::new(state);
    let inputs: Vec<i64> = vec![system];
    proof {
        assert(inputs@ =~= seq![system]);
    }
    intcode.run(inputs.as_slice())
}

} // verus!

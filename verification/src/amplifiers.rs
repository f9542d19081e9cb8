//! A chain of five amplifiers, each an interpreter running the same program.

use itertools::Itertools;
use vstd::prelude::*;
use crate::interpreter::{Intcode, STEP_LIMIT};
use crate::machine::{fresh, run_spec, Fault, Machine};

verus! {

/// Why a chain of amplifiers gives no signal.
#[derive(Clone, Copy, Debug, PartialEq, Eq, Structural)]
pub enum AmpError {
    /// An amplifier's program faulted.
    Fault(Fault),
    /// An amplifier halted on its phase setting alone.
    HaltedEarly,
    /// The chain's output is not a single value.
    BadOutput,
    /// The feedback loop used up its budget of passes.
    RoundLimit,
}

/// The state of a chain and what it has to show for a pass.
pub struct Pass {
    pub machines: Seq<Machine>,
    pub result: Result<Seq<i64>, Fault>,
}

/// The views of a chain's interpreters.
pub open spec fn machines_of(amps: Seq<Intcode>) -> Seq<Machine> {
    amps.map_values(|a: Intcode| a@)
}

/// One pass of a signal through the amplifiers from the `k`-th on: each runs
/// on the output of the one before. A fault ends the pass.
pub open spec fn pass_from(machines: Seq<Machine>, k: nat, signal: Seq<i64>) -> Pass
    decreases machines.len() - k,
{
    if k >= machines.len() {
        Pass { machines, result: Ok(signal) }
    } else {
        let run = run_spec(machines[k as int], signal, STEP_LIMIT as nat);
        let next = machines.update(k as int, run.machine);
        match run.fault {
            Some(f) => Pass { machines: next, result: Err(f) },
            None => pass_from(next, k + 1, run.output),
        }
    }
}

/// Sends `inputs` through the five amplifiers in turn and returns what the
/// last one emits.
pub fn run_amps(amps: &mut Vec<Intcode>, inputs: &[i64]) -> (res: Result<Vec<i64>, Fault>)
    requires
        old(amps)@.len() == 5,
    ensures
        final(amps)@.len() == 5,
        machines_of(final(amps)@) == pass_from(machines_of(old(amps)@), 0, inputs@).machines,
        match pass_from(machines_of(old(amps)@), 0, inputs@).result {
            Ok(out) => res is Ok && res->Ok_0@ == out,
            Err(f) => res == Err::<Vec<i64>, Fault>(f),
        },
{
    let ghost goal = pass_from(machines_of(amps@), 0, inputs@);
    let mut signal: Vec<i64> = Vec::new();
    let mut k: usize = 0;
    let mut i: usize = 0;
    while i < inputs.len()
        invariant
            i <= inputs.len(),
            signal@ == inputs@.take(i as int),
        decreases inputs.len() - i,
    {
        signal.push(inputs[i]);
        i = i + 1;
        proof {
            assert(signal@ =~= inputs@.take(i as int));
        }
    }
    proof {
        assert(inputs@.take(i as int) =~= inputs@);
    }
    while k < 5
        invariant
            k <= 5,
            amps@.len() == 5,
            goal == pass_from(machines_of(old(amps)@), 0, inputs@),
            pass_from(machines_of(amps@), k as nat, signal@) == goal,
        decreases 5 - k,
    {
        let ghost before = machines_of(amps@);
        match amps[k].run(signal.as_slice()) {
            Ok(out) => {
                signal = out;
            },
            Err(f) => {
                proof {
                    assert(machines_of(amps@) =~= before.update(k as int, amps@[k as int]@));
                }
                return Err(f);
            },
        }
        proof {
            assert(machines_of(amps@) =~= before.update(k as int, amps@[k as int]@));
        }
        k = k + 1;
    }
    Ok(signal)
}

/// Why an amplifier that is given `phase` alone is not ready for a signal, if
/// it is not.
pub open spec fn prime_check(program: Seq<i64>, phase: i64) -> Option<AmpError> {
    let run = run_spec(fresh(program), seq![phase], STEP_LIMIT as nat);
    match run.fault {
        Some(f) => Some(AmpError::Fault(f)),
        None => if run.machine.halted {
            Some(AmpError::HaltedEarly)
        } else {
            None
        },
    }
}

/// The first failure among the amplifiers from the `k`-th on, if there is one.
pub open spec fn priming_error(program: Seq<i64>, phases: Seq<i64>, k: nat) -> Option<AmpError>
    decreases phases.len() - k,
{
    if k >= phases.len() {
        None
    } else {
        match prime_check(program, phases[k as int]) {
            Some(e) => Some(e),
            None => priming_error(program, phases, k + 1),
        }
    }
}

/// The amplifiers after each has been given its phase.
pub open spec fn primed(program: Seq<i64>, phases: Seq<i64>) -> Seq<Machine> {
    Seq::new(
        phases.len(),
        |i: int| run_spec(fresh(program), seq![phases[i]], STEP_LIMIT as nat).machine,
    )
}

/// Five amplifiers that run the program `state`, each given its phase
/// setting. An amplifier that faults or halts on its phase is an error: the
/// first such amplifier decides which.
pub fn new_amps(state: &Vec<i64>, phases: &[i64]) -> (res: Result<Vec<Intcode>, AmpError>)
    requires
        phases@.len() == 5,
    ensures
        match priming_error(state@, phases@, 0) {
            Some(e) => res == Err::<Vec<Intcode>, AmpError>(e),
            None => res is Ok && machines_of(res->Ok_0@) == primed(state@, phases@),
        },
{
    let mut amps: Vec<Intcode> = Vec::new();
    let mut i: usize = 0;
    while i < 5
        invariant
            i <= 5,
            phases@.len() == 5,
            amps@.len() == i,
            priming_error(state@, phases@, i as nat) == priming_error(state@, phases@, 0),
            forall|k: int| 0 <= k < i ==> (#[trigger] amps@[k])@ == primed(state@, phases@)[k],
        decreases 5 - i,
    {
        let mut amp = Intcode::new(state);
        let phase: Vec<i64> = vec![phases[i]];
        proof {
            assert(phase@ =~= seq![phases@[i as int]]);
        }
        match amp.run(phase.as_slice()) {
            Ok(_) => {},
            Err(f) => { return Err(AmpError::Fault(f)); },
        }
        if amp.is_done() {
            return Err(AmpError::HaltedEarly);
        }
        amps.push(amp);
        i = i + 1;
    }
    proof {
        assert(machines_of(amps@) =~= primed(state@, phases@));
    }
    Ok(amps)
}

/// The signal that one pass through freshly primed amplifiers turns 0 into.
pub open spec fn single_pass(program: Seq<i64>, phases: Seq<i64>) -> Result<i64, AmpError> {
    match priming_error(program, phases, 0) {
        Some(e) => Err(e),
        None => match pass_from(primed(program, phases), 0, seq![0i64]).result {
            Err(f) => Err(AmpError::Fault(f)),
            Ok(out) => if out.len() == 1 {
                Ok(out[0])
            } else {
                Err(AmpError::BadOutput)
            },
        },
    }
}

/// Primes five amplifiers with `phases` and sends the signal 0 through them
/// once.
pub fn thruster_signal(state: &Vec<i64>, phases: &[i64]) -> (res: Result<i64, AmpError>)
    requires
        phases@.len() == 5,
    ensures
        res == single_pass(state@, phases@),
{
    let mut amps = match new_amps(state, phases) {
        Ok(amps) => amps,
        Err(e) => { return Err(e); },
    };
    let zero: Vec<i64> = vec![0i64];
    proof {
        assert(zero@ =~= seq![0i64]);
    }
    match run_amps(&mut amps, zero.as_slice()) {
        Err(f) => Err(AmpError::Fault(f)),
        Ok(out) => if out.len() == 1 {
            Ok(out[0])
        } else {
            Err(AmpError::BadOutput)
        },
    }
}

/// Whether one of the machines has halted.
pub open spec fn any_halted(machines: Seq<Machine>) -> bool {
    exists|i: int| 0 <= i < machines.len() && (#[trigger] machines[i]).halted
}

/// The signal that is left when passes are repeated, each on the output of
/// the one before, until an amplifier has halted, for at most `rounds` passes.
pub open spec fn feedback_from(machines: Seq<Machine>, signal: Seq<i64>, rounds: nat) -> Result<
    Seq<i64>,
    AmpError,
>
    decreases rounds,
{
    if any_halted(machines) {
        Ok(signal)
    } else if rounds == 0 {
        Err(AmpError::RoundLimit)
    } else {
        let pass = pass_from(machines, 0, signal);
        match pass.result {
            Err(f) => Err(AmpError::Fault(f)),
            Ok(out) => feedback_from(pass.machines, out, (rounds - 1) as nat),
        }
    }
}

/// The signal that freshly primed amplifiers in a feedback loop turn 0 into.
pub open spec fn feedback(program: Seq<i64>, phases: Seq<i64>, rounds: nat) -> Result<
    i64,
    AmpError,
> {
    match priming_error(program, phases, 0) {
        Some(e) => Err(e),
        None => match feedback_from(primed(program, phases), seq![0i64], rounds) {
            Err(e) => Err(e),
            Ok(out) => if out.len() == 1 {
                Ok(out[0])
            } else {
                Err(AmpError::BadOutput)
            },
        },
    }
}

/// Whether one of the amplifiers has halted.
fn any_done(amps: &Vec<Intcode>) -> (res: bool)
    ensures
        res == any_halted(machines_of(amps@)),
{
    let mut i: usize = 0;
    while i < amps.len()
        invariant
            i <= amps.len(),
            forall|k: int| 0 <= k < i ==> !(#[trigger] machines_of(amps@)[k]).halted,
        decreases amps.len() - i,
    {
        if amps[i].is_done() {
            proof {
                assert(machines_of(amps@)[i as int].halted);
            }
            return true;
        }
        i = i + 1;
    }
    false
}

/// Primes five amplifiers with `phases` and sends the signal 0 round the
/// loop until an amplifier has halted, for at most `max_rounds` passes.
pub fn feedback_signal(state: &Vec<i64>, phases: &[i64], max_rounds: u64) -> (res: Result<
    i64,
    AmpError,
>)
    requires
        phases@.len() == 5,
    ensures
        res == feedback(state@, phases@, max_rounds as nat),
{
    let mut amps = match new_amps(state, phases) {
        Ok(amps) => amps,
        Err(e) => { return Err(e); },
    };
    let mut signal: Vec<i64> = vec![0i64];
    proof {
        assert(signal@ =~= seq![0i64]);
    }
    let mut rounds = max_rounds;
    let ghost goal = feedback_from(primed(state@, phases@), seq![0i64], max_rounds as nat);
    loop
        invariant
            amps@.len() == 5,
            priming_error(state@, phases@, 0) is None,
            goal == feedback_from(primed(state@, phases@), seq![0i64], max_rounds as nat),
            feedback_from(machines_of(amps@), signal@, rounds as nat) == goal,
        ensures
            goal == Ok::<Seq<i64>, AmpError>(signal@),
        decreases rounds,
    {
        if any_done(&amps) {
            break ;
        }
        if rounds == 0 {
            return Err(AmpError::RoundLimit);
        }
        match run_amps(&mut amps, signal.as_slice()) {
            Err(f) => { return Err(AmpError::Fault(f)); },
            Ok(out) => { signal = out; },
        }
        rounds = rounds - 1;
    }
    if signal.len() == 1 {
        Ok(signal[0])
    } else {
        Err(AmpError::BadOutput)
    }
}

/// The signal for one choice of phases: after a single pass, or, with
/// `rounds`, after a feedback loop of at most that many passes.
pub open spec fn signal_for(program: Seq<i64>, phases: Seq<i64>, rounds: Option<u64>) -> Result<
    i64,
    AmpError,
> {
    match rounds {
        None => single_pass(program, phases),
        Some(r) => feedback(program, phases, r as nat),
    }
}

/// The largest signal over `settings`, taken in order; the first error ends
/// the search.
pub open spec fn best_of(program: Seq<i64>, settings: Seq<Seq<i64>>, rounds: Option<u64>) -> Result<
    Option<i64>,
    AmpError,
>
    decreases settings.len(),
{
    if settings.len() == 0 {
        Ok(None)
    } else {
        match best_of(program, settings.drop_last(), rounds) {
            Err(e) => Err(e),
            Ok(best) => match signal_for(program, settings.last(), rounds) {
                Err(e) => Err(e),
                Ok(v) => Ok(
                    Some(
                        match best {
                            Some(b) if b >= v => b,
                            _ => v,
                        },
                    ),
                ),
            },
        }
    }
}

/// The contents of a list of lists.
pub open spec fn rows_of(rows: Seq<Vec<i64>>) -> Seq<Seq<i64>> {
    rows.map_values(|r: Vec<i64>| r@)
}

/// The largest signal that any of `settings` gives, each a choice of five
/// phases; `None` where there is no setting.
pub fn best_signal(state: &Vec<i64>, settings: &Vec<Vec<i64>>, rounds: Option<u64>) -> (res: Result<
    Option<i64>,
    AmpError,
>)
    requires
        forall|i: int| 0 <= i < settings@.len() ==> (#[trigger] settings@[i])@.len() == 5,
    ensures
        res == best_of(state@, rows_of(settings@), rounds),
{
    let mut best: Option<i64> = None;
    let mut i: usize = 0;
    while i < settings.len()
        invariant
            i <= settings.len(),
            forall|i: int| 0 <= i < settings@.len() ==> (#[trigger] settings@[i])@.len() == 5,
            best_of(state@, rows_of(settings@).take(i as int), rounds) == Ok::<
                Option<i64>,
                AmpError,
            >(best),
        ensures
            i == settings.len(),
        decreases settings.len() - i,
    {
        let ghost rows = rows_of(settings@);
        proof {
            assert(rows.take(i + 1).drop_last() =~= rows.take(i as int));
            assert(rows.take(i + 1).last() == settings@[i as int]@);
        }
        let phases = settings[i].as_slice();
        let signal = match rounds {
            None => thruster_signal(state, phases),
            Some(r) => feedback_signal(state, phases, r),
        };
        match signal {
            Err(e) => {
                proof {
                    lemma_error_stays(state@, rows, i + 1, rounds);
                }
                return Err(e);
            },
            Ok(v) => {
                best = match best {
                    Some(b) if b >= v => Some(b),
                    _ => Some(v),
                };
            },
        }
        i = i + 1;
    }
    proof {
        assert(rows_of(settings@).take(i as int) =~= rows_of(settings@));
    }
    Ok(best)
}

/// An error among the first `k` settings is the error of the whole search.
proof fn lemma_error_stays(program: Seq<i64>, settings: Seq<Seq<i64>>, k: int, rounds: Option<u64>)
    requires
        0 <= k <= settings.len(),
        best_of(program, settings.take(k), rounds) is Err,
    ensures
        best_of(program, settings, rounds) == best_of(program, settings.take(k), rounds),
    decreases settings.len() - k,
{
    if k < settings.len() {
        assert(settings.take(k + 1).drop_last() =~= settings.take(k));
        lemma_error_stays(program, settings, k + 1, rounds);
    } else {
        assert(settings.take(k) =~= settings);
    }
}

/// The arrangements of `k` of `items`, in the order in which the `itertools`
/// crate produces them.
pub uninterp spec fn permutations_of(items: Seq<i64>, k: nat) -> Seq<Seq<i64>>;

/// Calls `Itertools::permutations` on the items and collects what it yields.
/// The result is named, not described; all that is stated besides is that
/// each arrangement has `k` entries.
#[verifier::external_body]
fn permutations(items: &Vec<i64>, k: usize) -> (res: Vec<Vec<i64>>)
    ensures
        rows_of(res@) == permutations_of(items@, k as nat),
        forall|i: int| 0 <= i < res@.len() ==> (#[trigger] res@[i])@.len() == k,
{
    items.iter().copied().permutations(k).collect()
}

/// The largest signal that a single pass gives over every arrangement of the
/// phases 0 to 4.
pub fn max_thruster_signal(state: &Vec<i64>) -> (res: Result<Option<i64>, AmpError>)
    ensures
        res == best_of(state@, permutations_of(seq![0i64, 1i64, 2i64, 3i64, 4i64], 5), None),
{
    let phases: Vec<i64> = vec![0i64, 1i64, 2i64, 3i64, 4i64];
    proof {
        assert(phases@ =~= seq![0i64, 1i64, 2i64, 3i64, 4i64]);
    }
    let settings = permutations(&phases, 5);
    best_signal(state, &settings, None)
}

/// The largest signal that a feedback loop of at most `max_rounds` passes
/// gives over every arrangement of the phases 5 to 9.
pub fn max_feedback_signal(state: &Vec<i64>, max_rounds: u64) -> (res: Result<
    Option<i64>,
    AmpError,
>)
    ensures
        res == best_of(
            state@,
            permutations_of(seq![5i64, 6i64, 7i64, 8i64, 9i64], 5),
            Some(max_rounds),
        ),
{
    let phases: Vec<i64> = vec![5i64, 6i64, 7i64, 8i64, 9i64];
    proof {
        assert(phases@ =~= seq![5i64, 6i64, 7i64, 8i64, 9i64]);
    }
    let settings = permutations(&phases, 5);
    best_signal(state, &settings, Some(max_rounds))
}

} // verus!

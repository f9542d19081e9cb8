//! The fuel that a module needs for its mass, and for the fuel itself.

use vstd::prelude::*;

verus! {

/// A third of `weight`, rounded towards zero, less two.
pub open spec fn fuel_weight(weight: int) -> int {
    (if weight >= 0 { weight / 3 } else { -((-weight) / 3) }) - 2
}

/// The fuel for `weight`, the fuel for that fuel, and so on while the amounts
/// are positive.
pub open spec fn total_weight(weight: int) -> int
    decreases weight,
{
    if fuel_weight(weight) <= 0 {
        0
    } else {
        fuel_weight(weight) + total_weight(fuel_weight(weight))
    }
}

/// The fuel for a mass of `weight`.
pub fn compute_fuel_weight(weight: i32) -> (res: i32)
    ensures
        res == fuel_weight(weight as int),
{
    weight / 3 - 2
}

/// The total is never negative and at most half the weight.
pub proof fn lemma_total_weight_bound(weight: int)
    ensures
        0 <= total_weight(weight),
        weight >= 0 ==> 2 * total_weight(weight) <= weight,
    decreases weight,
{
    if fuel_weight(weight) > 0 {
        lemma_total_weight_bound(fuel_weight(weight));
    }
}

/// The fuel for a mass of `weight` and for the fuel itself.
pub fn compute_total_weight(weight: i32) -> (res: i32)
    ensures
        res == total_weight(weight as int),
{
    let start = weight;
    let mut weight = weight;
    let mut acc: i32 = 0;
    proof {
        lemma_total_weight_bound(start as int);
    }
    loop
        invariant
            acc >= 0,
            total_weight(start as int) <= i32::MAX,
            acc + total_weight(weight as int) == total_weight(start as int),
        ensures
            acc == total_weight(start as int),
        decreases weight,
    {
        let next = compute_fuel_weight(weight);
        if next <= 0 {
            break ;
        }
        proof {
            lemma_total_weight_bound(next as int);
        }
        acc = acc + next;
        weight = next;
    }
    acc
}

/// The sum of the fuel for each mass alone.
pub open spec fn sum_fuel(modules: Seq<i32>) -> int
    decreases modules.len(),
{
    if modules.len() == 0 {
        0
    } else {
        sum_fuel(modules.drop_last()) + fuel_weight(modules.last() as int)
    }
}

/// The sum of the fuel for each mass and for the fuel itself.
pub open spec fn sum_total(modules: Seq<i32>) -> int
    decreases modules.len(),
{
    if modules.len() == 0 {
        0
    } else {
        sum_total(modules.drop_last()) + total_weight(modules.last() as int)
    }
}

/// Whether the sum of the fuel for each mass alone fits in 32 bits after each
/// module.
pub open spec fn fuel_sums_fit(modules: Seq<i32>) -> bool {
    forall|k: int|
        0 <= k <= modules.len() ==> i32::MIN <= #[trigger] sum_fuel(modules.take(k)) <= i32::MAX
}

/// Whether the sum of all fuel fits in 32 bits after each module.
pub open spec fn total_sums_fit(modules: Seq<i32>) -> bool {
    forall|k: int| 0 <= k <= modules.len() ==> #[trigger] sum_total(modules.take(k)) <= i32::MAX
}

/// The fuel for all modules, each taken alone; `None` where a sum on the way
/// does not fit in 32 bits.
pub fn total_fuel(modules: &Vec<i32>) -> (res: Option<i32>)
    ensures
        res is Some <==> fuel_sums_fit(modules@),
        res is Some ==> res->Some_0 == sum_fuel(modules@),
{
    let mut total: i32 = 0;
    let mut i: usize = 0;
    while i < modules.len()
        invariant
            i <= modules.len(),
            total == sum_fuel(modules@.take(i as int)),
            forall|k: int|
                0 <= k <= i ==> i32::MIN <= #[trigger] sum_fuel(modules@.take(k)) <= i32::MAX,
        decreases modules.len() - i,
    {
        let fuel = compute_fuel_weight(modules[i]);
        proof {
            assert(modules@.take(i + 1).drop_last() =~= modules@.take(i as int));
        }
        match total.checked_add(fuel) {
            Some(sum) => { total = sum; },
            None => {
                assert(!(i32::MIN <= sum_fuel(modules@.take(i + 1)) <= i32::MAX));
                return None;
            },
        }
        i = i + 1;
    }
    proof {
        assert(modules@.take(i as int) =~= modules@);
    }
    Some(total)
}

/// The fuel for all modules and for the fuel itself; `None` where a sum on
/// the way does not fit in 32 bits.
pub fn total_fuel_with_fuel(modules: &Vec<i32>) -> (res: Option<i32>)
    ensures
        res is Some <==> total_sums_fit(modules@),
        res is Some ==> res->Some_0 == sum_total(modules@),
{
    let mut total: i32 = 0;
    let mut i: usize = 0;
    while i < modules.len()
        invariant
            i <= modules.len(),
            0 <= total == sum_total(modules@.take(i as int)),
            forall|k: int| 0 <= k <= i ==> #[trigger] sum_total(modules@.take(k)) <= i32::MAX,
        decreases modules.len() - i,
    {
        let fuel = compute_total_weight(modules[i]);
        proof {
            assert(modules@.take(i + 1).drop_last() =~= modules@.take(i as int));
            lemma_total_weight_bound(modules[i as int] as int);
        }
        match total.checked_add(fuel) {
            Some(sum) => { total = sum; },
            None => {
                assert(!(sum_total(modules@.take(i + 1)) <= i32::MAX));
                return None;
            },
        }
        i = i + 1;
    }
    proof {
        assert(modules@.take(i as int) =~= modules@);
    }
    Some(total)
}

} // verus!

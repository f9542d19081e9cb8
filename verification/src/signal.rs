//! The flawed frequency transmission: one digit of a phase, a whole phase,
//! and the number that a run of digits spells.

use vstd::prelude::*;

verus! {

/// The factor that level `lvl` puts on the digit at `idx`: the pattern
/// 0, 1, 0, -1, each entry repeated `lvl + 1` times, its first entry skipped.
pub open spec fn factor(idx: int, lvl: int) -> int {
    let at = ((idx + 1) / (lvl + 1)) % 4;
    if at == 1 {
        1
    } else if at == 3 {
        -1
    } else {
        0
    }
}

/// The sum of the first `k` digits of `input`, each times its factor.
pub open spec fn weighted_sum(input: Seq<u32>, lvl: int, k: int) -> int
    decreases k,
{
    if k <= 0 {
        0
    } else {
        weighted_sum(input, lvl, k - 1) + input[k - 1] * factor(k - 1, lvl)
    }
}

/// The last digit of the weighted sum of all of `input`, without its sign.
pub open spec fn fft_digit(input: Seq<u32>, lvl: int) -> int {
    let sum = weighted_sum(input, lvl, input.len() as int);
    (if sum >= 0 { sum } else { -sum }) % 10
}

/// The digit that level `lvl` of a phase makes of `input`.
pub fn apply_fft(input: &Vec<u32>, lvl: usize) -> (res: u32)
    ensures
        res == fft_digit(input@, lvl as int),
{
    let mut acc: i128 = 0;
    let mut idx: usize = 0;
    while idx < input.len()
        invariant
            idx <= input.len(),
            acc == weighted_sum(input@, lvl as int, idx as int),
            -(idx * 0x1_0000_0000) <= acc <= idx * 0x1_0000_0000,
        decreases input.len() - idx,
    {
        let at = ((idx as u128 + 1) / (lvl as u128 + 1)) % 4;
        let v = input[idx] as i128;
        if at == 1 {
            acc = acc + v;
        } else if at == 3 {
            acc = acc - v;
        }
        idx = idx + 1;
    }
    let sum = if acc >= 0 { acc } else { -acc };
    (sum % 10) as u32
}

/// One phase: level `i` of the result is the digit that level `i` makes of
/// `input`.
pub fn phase(input: &Vec<u32>) -> (res: Vec<u32>)
    ensures
        res@.len() == input@.len(),
        forall|i: int| 0 <= i < input@.len() ==> #[trigger] res@[i] == fft_digit(input@, i),
{
    let mut res: Vec<u32> = Vec::new();
    let mut idx: usize = 0;
    while idx < input.len()
        invariant
            idx <= input.len(),
            res@.len() == idx,
            forall|i: int| 0 <= i < idx ==> #[trigger] res@[i] == fft_digit(input@, i),
        decreases input.len() - idx,
    {
        res.push(apply_fft(input, idx));
        idx = idx + 1;
    }
    res
}

/// The digits after `rounds` phases.
pub open spec fn after_phases(input: Seq<u32>, rounds: nat) -> Seq<u32>
    decreases rounds,
{
    if rounds == 0 {
        input
    } else {
        let before = after_phases(input, (rounds - 1) as nat);
        Seq::new(before.len(), |i: int| fft_digit(before, i) as u32)
    }
}

/// Applies `rounds` phases to `input`.
pub fn run_phases(input: Vec<u32>, rounds: u32) -> (res: Vec<u32>)
    ensures
        res@ == after_phases(input@, rounds as nat),
{
    let mut input = input;
    let ghost start = input@;
    let mut done: u32 = 0;
    while done < rounds
        invariant
            done <= rounds,
            input@ == after_phases(start, done as nat),
        decreases rounds - done,
    {
        let next = phase(&input);
        proof {
            assert(next@ =~= after_phases(start, (done + 1) as nat));
        }
        input = next;
        done = done + 1;
    }
    input
}

/// The number that the digits `tab` spell, the first digit highest.
pub open spec fn number(tab: Seq<u32>) -> int
    decreases tab.len(),
{
    if tab.len() == 0 {
        0
    } else {
        number(tab.drop_last()) * 10 + tab.last()
    }
}

/// A number does not shrink as digits are added.
pub proof fn lemma_number_grows(tab: Seq<u32>, k: int)
    requires
        0 <= k <= tab.len(),
    ensures
        0 <= number(tab.take(k)) <= number(tab),
    decreases tab.len() - k,
{
    if k < tab.len() {
        assert(tab.take(k + 1).drop_last() =~= tab.take(k));
        lemma_number_grows(tab, k + 1);
        if k > 0 {
            assert(tab.take(k).drop_last() =~= tab.take(k - 1));
        }
        lemma_number_pos(tab.take(k));
    } else {
        assert(tab.take(k) =~= tab);
        lemma_number_pos(tab);
    }
}

/// A number is never negative.
pub proof fn lemma_number_pos(tab: Seq<u32>)
    ensures
        0 <= number(tab),
    decreases tab.len(),
{
    if tab.len() > 0 {
        lemma_number_pos(tab.drop_last());
    }
}

/// The number that the digits `tab` spell; `None` where it does not fit the
/// machine's word.
pub fn vec_to_u32(tab: &[u32]) -> (res: Option<usize>)
    ensures
        res is Some <==> number(tab@) <= usize::MAX,
        res is Some ==> res->Some_0 == number(tab@),
{
    let mut acc: usize = 0;
    let mut i: usize = 0;
    while i < tab.len()
        invariant
            i <= tab.len(),
            acc == number(tab@.take(i as int)),
        decreases tab.len() - i,
    {
        proof {
            assert(tab@.take(i + 1).drop_last() =~= tab@.take(i as int));
            lemma_number_grows(tab@, i + 1);
        }
        let digit = tab[i] as u128;
        let next = acc as u128 * 10 + digit;
        if next > usize::MAX as u128 {
            return None;
        }
        acc = next as usize;
        i = i + 1;
    }
    proof {
        assert(tab@.take(i as int) =~= tab@);
    }
    Some(acc)
}

/// The last `len` digits of the signal `orig` repeated without end, the
/// last digit first.
pub open spec fn tail_of(orig: Seq<u32>, len: nat) -> Seq<u32> {
    Seq::new(len, |j: int| orig[orig.len() - 1 - (j % orig.len() as int)])
}

/// The sum of the first `k` of `input`.
pub open spec fn prefix_sum(input: Seq<u32>, k: int) -> int
    decreases k,
{
    if k <= 0 {
        0
    } else {
        prefix_sum(input, k - 1) + input[k - 1]
    }
}

/// Each digit replaced by the last digit of the sum of the digits up to it.
pub open spec fn summed(input: Seq<u32>) -> Seq<u32> {
    Seq::new(input.len(), |j: int| (prefix_sum(input, j + 1) % 10) as u32)
}

/// The digits after `rounds` rounds of `summed`.
pub open spec fn summed_often(input: Seq<u32>, rounds: nat) -> Seq<u32>
    decreases rounds,
{
    if rounds == 0 {
        input
    } else {
        summed(summed_often(input, (rounds - 1) as nat))
    }
}

/// The up to eight last of `input`, the last one first.
pub open spec fn last_eight(input: Seq<u32>) -> Seq<u32> {
    Seq::new(if input.len() < 8 { input.len() } else { 8 }, |j: int| input[input.len() - 1 - j])
}

/// The message that lies in the signal `orig` repeated 10000 times, as far
/// in as the first seven digits say, after `rounds` phases, worked out from
/// the end of the signal, where a phase is a running sum. `None` where the
/// signal has fewer than seven digits or is shorter than they say, or a
/// number does not fit the machine's word.
pub open spec fn message_of(orig: Seq<u32>, rounds: nat) -> Option<int> {
    let offset = number(orig.take(7));
    let rest = orig.len() * 10000 - offset;
    if orig.len() < 7 || orig.len() * 10000 > usize::MAX || offset > orig.len() * 10000 {
        None
    } else if number(last_eight(summed_often(tail_of(orig, rest as nat), rounds))) > usize::MAX {
        None
    } else {
        Some(number(last_eight(summed_often(tail_of(orig, rest as nat), rounds))))
    }
}

/// One round of running sums over `input`.
fn sum_round(input: &mut Vec<u32>)
    ensures
        final(input)@ == summed(old(input)@),
{
    let mut acc: u128 = 0;
    let mut j: usize = 0;
    while j < input.len()
        invariant
            j <= input.len(),
            input@.len() == old(input)@.len(),
            acc == prefix_sum(old(input)@, j as int),
            acc <= j * 0xffff_ffff,
            forall|k: int| 0 <= k < j ==> #[trigger] input@[k] == summed(old(input)@)[k],
            forall|k: int| j <= k < input@.len() ==> #[trigger] input@[k] == old(input)@[k],
        decreases input.len() - j,
    {
        acc = acc + input[j] as u128;
        input[j] = (acc % 10) as u32;
        j = j + 1;
    }
    proof {
        assert(input@ =~= summed(old(input)@));
    }
}

/// The message that lies deep in the repeated signal; see `message_of`.
pub fn embedded_message(orig: &Vec<u32>, rounds: u32) -> (res: Option<usize>)
    ensures
        match message_of(orig@, rounds as nat) {
            Some(m) => res == Some(m as usize) && m <= usize::MAX,
            None => res is None,
        },
{
    if orig.len() < 7 {
        return None;
    }
    let full_len = match orig.len().checked_mul(10000) {
        Some(len) => len,
        None => { return None; },
    };
    let mut head: Vec<u32> = Vec::new();
    let mut k: usize = 0;
    while k < 7
        invariant
            k <= 7,
            orig@.len() >= 7,
            head@ == orig@.take(k as int),
        decreases 7 - k,
    {
        head.push(orig[k]);
        k = k + 1;
        proof {
            assert(head@ =~= orig@.take(k as int));
        }
    }
    let offset = match vec_to_u32(head.as_slice()) {
        Some(offset) => offset,
        None => {
            return None;
        },
    };
    if offset > full_len {
        return None;
    }
    let rest_len = full_len - offset;
    let mut input: Vec<u32> = Vec::new();
    let mut i: usize = 1;
    let mut n: usize = 0;
    while n < rest_len
        invariant
            n <= rest_len,
            orig@.len() >= 7,
            1 <= i <= orig@.len(),
            i - 1 == n as int % orig@.len() as int,
            input@ == tail_of(orig@, n as nat),
        decreases rest_len - n,
    {
        input.push(orig[orig.len() - i]);
        proof {
            lemma_next_slot(n as int, orig@.len() as int);
            assert(input@ =~= tail_of(orig@, (n + 1) as nat));
        }
        i = if i == orig.len() {
            1
        } else {
            i + 1
        };
        n = n + 1;
    }
    let mut done: u32 = 0;
    let ghost start = input@;
    while done < rounds
        invariant
            done <= rounds,
            input@ == summed_often(start, done as nat),
        decreases rounds - done,
    {
        sum_round(&mut input);
        done = done + 1;
    }
    let mut tail: Vec<u32> = Vec::new();
    let mut j: usize = 0;
    while j < 8 && j < input.len()
        invariant
            j <= 8,
            j <= input@.len(),
            tail@.len() == j,
            forall|k: int| 0 <= k < j ==> #[trigger] tail@[k] == input@[input@.len() - 1 - k],
        decreases 8 - j,
    {
        tail.push(input[input.len() - 1 - j]);
        j = j + 1;
    }
    proof {
        assert(tail@ =~= last_eight(input@));
    }
    vec_to_u32(tail.as_slice())
}

proof fn lemma_next_slot(n: int, len: int)
    by (nonlinear_arith)
    requires
        n >= 0,
        len >= 1,
    ensures
        n % len + 1 == len ==> (n + 1) % len == 0,
        n % len + 1 < len ==> (n + 1) % len == n % len + 1,
        0 <= n % len < len,
{
}

} // verus!

//! Which numbers can be the password: digits that never decrease, and two
//! equal digits side by side.

use vstd::prelude::*;

verus! {

/// The decimal digits of `val`, the lowest first; none for 0.
pub open spec fn digits(val: nat) -> Seq<nat>
    decreases val,
{
    if val == 0 {
        Seq::empty()
    } else {
        seq![val % 10] + digits(val / 10)
    }
}

/// Whether the digits `d`, the lowest first, never decrease when read from
/// the highest to the lowest.
pub open spec fn never_decrease(d: Seq<nat>) -> bool {
    forall|i: int| 0 <= i < d.len() - 1 ==> d[i + 1] <= #[trigger] d[i]
}

/// Whether the digits of `val`, read from the left, never decrease.
pub open spec fn increasing_digits(val: nat) -> bool {
    never_decrease(digits(val))
}

/// Whether the digits at `i` and `i + 1` are equal.
pub open spec fn pair_at(d: Seq<nat>, i: int) -> bool {
    0 <= i < d.len() - 1 && d[i] == d[i + 1]
}

/// Whether the digits at `i` and `i + 1` are a group of exactly two equal
/// digits: the digits before and after them, where there are any, differ.
pub open spec fn lone_pair_at(d: Seq<nat>, i: int) -> bool {
    &&& pair_at(d, i)
    &&& (i == 0 || d[i - 1] != d[i])
    &&& (i + 2 >= d.len() || d[i + 2] != d[i])
}

/// Whether `val` holds two equal digits side by side: in a group of any
/// length with `larger`, in a group of exactly two without it.
pub open spec fn same_adjacent_digits(val: nat, larger: bool) -> bool {
    if larger {
        exists|i: int| pair_at(digits(val), i)
    } else {
        exists|i: int| lone_pair_at(digits(val), i)
    }
}

/// Whether `val` can be the password.
pub open spec fn possible(val: nat, larger: bool) -> bool {
    same_adjacent_digits(val, larger) && increasing_digits(val)
}

/// How many of the numbers from `lo` up to, not including, `hi` can be the
/// password.
pub open spec fn count_possible(lo: nat, hi: nat, larger: bool) -> nat
    decreases hi,
{
    if hi <= lo {
        0
    } else {
        count_possible(lo, (hi - 1) as nat, larger) + if possible((hi - 1) as nat, larger) {
            1nat
        } else {
            0nat
        }
    }
}

/// The digits of a number are its lowest digit and the digits of the rest.
proof fn lemma_digits_step(done: Seq<nat>, rest: nat)
    requires
        rest > 0,
    ensures
        done + digits(rest) == done.push(rest % 10) + digits(rest / 10),
        digits(rest).len() > 0,
        digits(rest)[0] == rest % 10,
{
    assert(done + (seq![rest % 10] + digits(rest / 10)) =~= done.push(rest % 10) + digits(rest / 10));
}

/// Whether `val` holds two equal digits side by side; see
/// `same_adjacent_digits`.
pub fn has_same_adjacent_digits(val: u32, larger_group_allowed: bool) -> (res: bool)
    ensures
        res == same_adjacent_digits(val as nat, larger_group_allowed),
{
    let ghost all = digits(val as nat);
    let ghost mut done: Seq<nat> = Seq::empty();
    let mut rest = val;
    let mut last_digit: Option<u32> = None;
    let mut group_len: u64 = 1;
    proof {
        assert(done + digits(rest as nat) =~= all);
    }
    while rest > 0
        invariant
            all == digits(val as nat),
            all == done + digits(rest as nat),
            group_len + rest <= 0x1_0000_0000,
            last_digit is None <==> done.len() == 0,
            last_digit is Some ==> done.last() == last_digit->Some_0,
            done.len() == 0 ==> group_len == 1,
            1 <= group_len,
            done.len() > 0 ==> group_len <= done.len(),
            forall|j: int|
                0 <= j && done.len() - group_len <= j < done.len() ==> #[trigger] done[j]
                    == done.last(),
            larger_group_allowed ==> group_len == 1,
            done.len() > group_len ==> done[done.len() - group_len - 1] != done.last(),
            larger_group_allowed ==> forall|i: int| !pair_at(done, i),
            !larger_group_allowed ==> forall|i: int|
                0 <= i < done.len() - group_len ==> !lone_pair_at(all, i),
        decreases rest,
    {
        let digit = rest % 10;
        proof {
            lemma_digits_step(done, rest as nat);
        }
        let ghost next = done.push(digit as nat);
        if let Some(prev) = last_digit {
            if prev == digit {
                if larger_group_allowed {
                    proof {
                        assert(all[done.len() - 1] == done[done.len() - 1]);
                        assert(all[done.len() as int] == digit);
                        assert(pair_at(all, done.len() - 1));
                    }
                    return true;
                }
                group_len = group_len + 1;
            } else {
                if group_len == 2 {
                    proof {
                        let i = done.len() - 2;
                        assert(all[i] == done[i]);
                        assert(all[i + 1] == done[i + 1]);
                        assert(all[i + 2] == digit);
                        if i > 0 {
                            assert(all[i - 1] == done[i - 1]);
                        }
                        assert(lone_pair_at(all, i));
                    }
                    return true;
                }
                proof {
                    assert forall|i: int|
                        !larger_group_allowed && 0 <= i < next.len() - 1 implies !lone_pair_at(
                        all,
                        i,
                    ) by {
                        if i >= done.len() - group_len {
                            assert(all[i] == done[i]);
                            if i + 1 < done.len() {
                                assert(all[i + 1] == done[i + 1]);
                                if group_len >= 3 {
                                    if i + 2 < done.len() {
                                        assert(all[i + 2] == done[i + 2]);
                                    } else {
                                        assert(all[i - 1] == done[i - 1]);
                                    }
                                }
                            } else {
                                assert(all[i + 1] == digit);
                            }
                        }
                    }
                }
                group_len = 1;
            }
        }
        proof {
            assert forall|j: int| 0 <= j < done.len() implies next[j] == done[j] by {}
            if larger_group_allowed {
                assert forall|i: int| !pair_at(next, i) by {
                    if pair_at(next, i) {
                        if i + 1 < done.len() {
                            assert(pair_at(done, i));
                        }
                    }
                }
            }
        }
        last_digit = Some(digit);
        rest = rest / 10;
        proof {
            done = next;
        }
    }
    proof {
        assert(digits(0) =~= Seq::<nat>::empty());
        assert(all =~= done);
        if larger_group_allowed {
            assert(!same_adjacent_digits(val as nat, true));
        } else if group_len == 2 {
            assert(lone_pair_at(all, done.len() - 2));
        } else {
            assert forall|i: int| !lone_pair_at(all, i) by {
                if lone_pair_at(all, i) && i >= done.len() - group_len {
                    if group_len >= 3 {
                        if i + 2 < done.len() {
                            assert(all[i + 2] == all[i]);
                        } else {
                            assert(all[i - 1] == all[i]);
                        }
                    }
                }
            }
        }
    }
    group_len == 2
}

/// Whether the digits of `val`, read from the left, never decrease.
pub fn has_increasing_digits(val: u32) -> (res: bool)
    ensures
        res == increasing_digits(val as nat),
{
    let ghost all = digits(val as nat);
    let ghost mut done: Seq<nat> = Seq::empty();
    let mut rest = val;
    let mut last_digit: Option<u32> = None;
    proof {
        assert(done + digits(rest as nat) =~= all);
    }
    while rest > 0
        invariant
            all == digits(val as nat),
            all == done + digits(rest as nat),
            last_digit is None <==> done.len() == 0,
            last_digit is Some ==> done.last() == last_digit->Some_0,
            never_decrease(done),
        decreases rest,
    {
        let digit = rest % 10;
        proof {
            lemma_digits_step(done, rest as nat);
        }
        if let Some(prev) = last_digit {
            if prev < digit {
                proof {
                    let i = done.len() - 1;
                    assert(all[i] == done[i]);
                    assert(all[i + 1] == digit);
                }
                return false;
            }
        }
        proof {
            let next = done.push(digit as nat);
            assert forall|i: int| 0 <= i < next.len() - 1 implies next[i + 1] <= #[trigger] next[i] by {
                if i + 1 < done.len() {
                    assert(done[i + 1] <= done[i]);
                }
            }
            done = next;
        }
        last_digit = Some(digit);
        rest = rest / 10;
    }
    proof {
        assert(digits(0) =~= Seq::<nat>::empty());
        assert(all =~= done);
    }
    true
}

/// How many of the numbers from `minval` to `maxval`, both included, can be
/// the password.
pub fn count_passwords(minval: u32, maxval: u32, larger_group_allowed: bool) -> (res: u32)
    requires
        maxval < u32::MAX,
    ensures
        res == count_possible(minval as nat, maxval as nat + 1, larger_group_allowed),
{
    let mut count: u32 = 0;
    let mut val = minval;
    while val < maxval + 1
        invariant
            maxval < u32::MAX,
            minval <= val,
            count <= val - minval,
            val <= maxval + 1 || val == minval,
            count == count_possible(minval as nat, val as nat, larger_group_allowed),
        decreases maxval + 1 - val,
    {
        if has_same_adjacent_digits(val, larger_group_allowed) && has_increasing_digits(val) {
            count = count + 1;
        }
        val = val + 1;
    }
    count
}

} // verus!

//! A map of asteroids: which of them one can see from another, and the best
//! place for a base.

use vstd::prelude::*;
use crate::moons::{gcd_of, lemma_gcd_zero, magnitude};

verus! {

/// A place on the map.
#[derive(Clone, Copy, Debug, PartialEq, Eq, Structural)]
pub struct Pos {
    pub x: i32,
    pub y: i32,
}

/// A quotient rounded towards zero.
pub open spec fn quotient(a: int, b: int) -> int {
    if (a >= 0) == (b >= 0) {
        magnitude(a) / magnitude(b)
    } else {
        -(magnitude(a) / magnitude(b))
    }
}

/// Whether the map holds a row `y` with a column `x`, both of them 32-bit
/// values, as the coordinates of a place are.
pub open spec fn on_map(map: Seq<Vec<bool>>, x: int, y: int) -> bool {
    0 <= y < map.len() && 0 <= x < map[y]@.len() && x <= i32::MAX && y <= i32::MAX
}

/// The vector from `a` to `b`, where it fits in 32 bits.
pub fn get_movement_vector(a: &Pos, b: &Pos) -> (res: (i32, i32))
    requires
        i32::MIN <= b.x - a.x <= i32::MAX,
        i32::MIN <= b.y - a.y <= i32::MAX,
    ensures
        res.0 == b.x - a.x,
        res.1 == b.y - a.y,
{
    (b.x - a.x, b.y - a.y)
}

/// The greatest common divisor of the absolute values of `a` and `b`.
pub fn gcd(a: i32, b: i32) -> (res: i32)
    requires
        a > i32::MIN,
        b > i32::MIN,
    ensures
        res == gcd_of(magnitude(a as int) as nat, magnitude(b as int) as nat),
        res >= 0,
{
    let mut x: i32 = if a >= 0 { a } else { -a };
    let mut y: i32 = if b >= 0 { b } else { -b };
    while x != 0
        invariant
            x >= 0,
            y >= 0,
            gcd_of(x as nat, y as nat) == gcd_of(
                magnitude(a as int) as nat,
                magnitude(b as int) as nat,
            ),
        decreases x,
    {
        let t = x;
        x = y % x;
        y = t;
    }
    y
}

/// Divides both parts of the vector by their greatest common divisor.
pub fn normalize_vector(vec: &mut (i32, i32))
    requires
        old(vec).0 > i32::MIN,
        old(vec).1 > i32::MIN,
        old(vec).0 != 0 || old(vec).1 != 0,
    ensures
        final(vec).0 == quotient(
            old(vec).0 as int,
            gcd_of(magnitude(old(vec).0 as int) as nat, magnitude(old(vec).1 as int) as nat) as int,
        ),
        final(vec).1 == quotient(
            old(vec).1 as int,
            gcd_of(magnitude(old(vec).0 as int) as nat, magnitude(old(vec).1 as int) as nat) as int,
        ),
        final(vec).0 != i32::MIN,
        final(vec).1 != i32::MIN,
{
    let c = gcd(vec.0, vec.1);
    proof {
        lemma_gcd_zero(magnitude(vec.0 as int) as nat, magnitude(vec.1 as int) as nat);
    }
    let x = vec.0 / c;
    let y = vec.1 / c;
    proof {
        lemma_quotient_bound(vec.0 as int, c as int);
        lemma_quotient_bound(vec.1 as int, c as int);
    }
    *vec = (x, y);
}

/// The length of row `y`, and 0 where the map has no such row.
pub open spec fn row_len(map: Seq<Vec<bool>>, y: int) -> int {
    if 0 <= y < map.len() {
        map[y]@.len() as int
    } else {
        0
    }
}

/// How many steps in direction `v` a walk from `at` can take at most
/// before it leaves the map.
pub open spec fn room(map: Seq<Vec<bool>>, at: (int, int), v: (int, int)) -> nat {
    let left = if v.1 > 0 {
        map.len() - at.1
    } else if v.1 < 0 {
        at.1 + 1
    } else if v.0 > 0 {
        row_len(map, at.1) - at.0
    } else {
        at.0 + 1
    };
    if left > 0 {
        left as nat
    } else {
        0
    }
}

/// The rank of `to` on the walk from `at` in steps of `v`: `rank`, and one
/// more for each asteroid passed before `to`. `None` where the walk leaves
/// the map, or does not move, before it comes to `to`.
pub open spec fn rank_from(
    map: Seq<Vec<bool>>,
    at: (int, int),
    to: (int, int),
    v: (int, int),
    rank: nat,
) -> Option<nat>
    decreases room(map, at, v),
{
    let next = (at.0 + v.0, at.1 + v.1);
    if next == to {
        Some(rank)
    } else if !on_map(map, next.0, next.1) || v == (0int, 0int) {
        None
    } else {
        rank_from(
            map,
            next,
            to,
            v,
            if map[next.1]@[next.0] {
                rank + 1
            } else {
                rank
            },
        )
    }
}

/// The vector `v` brought to lowest terms.
pub open spec fn lowest_terms(v: (i32, i32)) -> (int, int) {
    let c = gcd_of(magnitude(v.0 as int) as nat, magnitude(v.1 as int) as nat) as int;
    (quotient(v.0 as int, c), quotient(v.1 as int, c))
}

/// How far a walk in direction `v` has come from `from` to `at`, along the
/// axis that `room` counts on.
pub open spec fn travel(from: (int, int), at: (int, int), v: (int, int)) -> int {
    if v.1 > 0 {
        at.1 - from.1
    } else if v.1 < 0 {
        from.1 - at.1
    } else if v.0 > 0 {
        at.0 - from.0
    } else {
        from.0 - at.0
    }
}

/// The rank of `to` as seen from `from`, in whose direction `vec` points: 1
/// where nothing lies between them, and one more for each asteroid that does.
/// `None` where a walk from `from` in steps of `vec`, brought to lowest terms,
/// leaves the map before it comes to `to`.
pub fn get_vision_rank(map: &Vec<Vec<bool>>, from: &Pos, to: &Pos, vec: (i32, i32)) -> (res: Option<
    u32,
>)
    requires
        on_map(map@, from.x as int, from.y as int),
        vec.0 > i32::MIN,
        vec.1 > i32::MIN,
        vec.0 != 0 || vec.1 != 0,
    ensures
        res is Some == rank_from(map@, (from.x as int, from.y as int), (to.x as int, to.y as int), lowest_terms(vec), 1) is Some,
        res is Some ==> res->Some_0 == rank_from(
            map@,
            (from.x as int, from.y as int),
            (to.x as int, to.y as int),
            lowest_terms(vec),
            1,
        )->Some_0,
{
    let mut step = vec;
    let ghost start = (from.x as int, from.y as int);
    let ghost goal = (to.x as int, to.y as int);
    normalize_vector(&mut step);
    let ghost v = (step.0 as int, step.1 as int);
    let mut at = Pos { x: from.x, y: from.y };
    let mut rank: u32 = 1;
    loop
        invariant
            v == (step.0 as int, step.1 as int),
            v == lowest_terms(vec),
            start == (from.x as int, from.y as int),
            goal == (to.x as int, to.y as int),
            on_map(map@, at.x as int, at.y as int),
            start.0 >= 0 && start.1 >= 0,
            0 <= travel(start, (at.x as int, at.y as int), v),
            rank <= 1 + travel(start, (at.x as int, at.y as int), v),
            rank_from(map@, (at.x as int, at.y as int), goal, v, rank as nat) == rank_from(
                map@,
                start,
                goal,
                v,
                1,
            ),
        decreases room(map@, (at.x as int, at.y as int), v),
    {
        let x = at.x as i64 + step.0 as i64;
        let y = at.y as i64 + step.1 as i64;
        if x == to.x as i64 && y == to.y as i64 {
            return Some(rank);
        }
        if step.0 == 0 && step.1 == 0 {
            return None;
        }
        if y < 0 || y > i32::MAX as i64 || y as u64 >= map.len() as u64 {
            return None;
        }
        if x < 0 || x > i32::MAX as i64 || x as u64 >= map[y as usize].len() as u64 {
            return None;
        }
        at = Pos { x: x as i32, y: y as i32 };
        if map[y as usize][x as usize] {
            rank = rank + 1;
        }
    }
}

/// Whether nothing lies between `from` and `to`.
pub fn is_visible(map: &Vec<Vec<bool>>, from: &Pos, to: &Pos, vec: (i32, i32)) -> (res: bool)
    requires
        on_map(map@, from.x as int, from.y as int),
        vec.0 > i32::MIN,
        vec.1 > i32::MIN,
        vec.0 != 0 || vec.1 != 0,
    ensures
        res == (rank_from(
            map@,
            (from.x as int, from.y as int),
            (to.x as int, to.y as int),
            lowest_terms(vec),
            1,
        ) == Some(1nat)),
{
    match get_vision_rank(map, from, to, vec) {
        Some(rank) => rank == 1,
        None => false,
    }
}

/// Whether `to` is another place than `from` with nothing between them.
pub open spec fn sees(map: Seq<Vec<bool>>, from: Pos, to: Pos) -> bool {
    from != to && rank_from(
        map,
        (from.x as int, from.y as int),
        (to.x as int, to.y as int),
        lowest_terms(((to.x - from.x) as i32, (to.y - from.y) as i32)),
        1,
    ) == Some(1nat)
}

/// How many of the first `k` asteroids `base` sees.
pub open spec fn visible_count(map: Seq<Vec<bool>>, asteroids: Seq<Pos>, base: Pos, k: int) -> nat
    decreases k,
{
    if k <= 0 {
        0
    } else {
        visible_count(map, asteroids, base, k - 1) + if sees(map, base, asteroids[k - 1]) {
            1nat
        } else {
            0nat
        }
    }
}

/// Among the first `k` asteroids, the largest number of asteroids that one
/// of them sees, and the first of them that sees so many; 0 and `None` where
/// none of them sees any.
pub open spec fn best_base(map: Seq<Vec<bool>>, asteroids: Seq<Pos>, k: int) -> (nat, Option<Pos>)
    decreases k,
{
    if k <= 0 {
        (0, None)
    } else {
        let before = best_base(map, asteroids, k - 1);
        let visible = visible_count(map, asteroids, asteroids[k - 1], asteroids.len() as int);
        if visible > before.0 {
            (visible, Some(asteroids[k - 1]))
        } else {
            before
        }
    }
}

/// Whether every asteroid lies on the map.
pub open spec fn all_on_map(map: Seq<Vec<bool>>, asteroids: Seq<Pos>) -> bool {
    forall|i: int|
        0 <= i < asteroids.len() ==> on_map(map, (#[trigger] asteroids[i]).x as int, asteroids[i].y as int)
}

/// How many of the asteroids `base` sees.
pub fn count_visible(map: &Vec<Vec<bool>>, asteroids: &Vec<Pos>, base: &Pos) -> (res: usize)
    requires
        all_on_map(map@, asteroids@),
        on_map(map@, base.x as int, base.y as int),
    ensures
        res == visible_count(map@, asteroids@, *base, asteroids@.len() as int),
{
    let mut visible: usize = 0;
    let mut i: usize = 0;
    while i < asteroids.len()
        invariant
            i <= asteroids.len(),
            all_on_map(map@, asteroids@),
            on_map(map@, base.x as int, base.y as int),
            visible <= i,
            visible == visible_count(map@, asteroids@, *base, i as int),
        decreases asteroids.len() - i,
    {
        let asteroid = asteroids[i];
        proof {
            assert(on_map(map@, asteroids@[i as int].x as int, asteroids@[i as int].y as int));
        }
        let vec = get_movement_vector(base, &asteroid);
        if !(base.x == asteroid.x && base.y == asteroid.y) {
            if is_visible(map, base, &asteroid, vec) {
                visible = visible + 1;
            }
        }
        i = i + 1;
    }
    visible
}

/// The first of the asteroids that see the most others, and how many it
/// sees; `None` where no asteroid sees another.
pub fn find_base(map: &Vec<Vec<bool>>, asteroids: &Vec<Pos>) -> (res: (usize, Option<Pos>))
    requires
        all_on_map(map@, asteroids@),
    ensures
        res.0 == best_base(map@, asteroids@, asteroids@.len() as int).0,
        res.1 == best_base(map@, asteroids@, asteroids@.len() as int).1,
{
    let mut max_visible: usize = 0;
    let mut best: Option<Pos> = None;
    let mut i: usize = 0;
    while i < asteroids.len()
        invariant
            i <= asteroids.len(),
            all_on_map(map@, asteroids@),
            (max_visible as nat, best) == best_base(map@, asteroids@, i as int),
        decreases asteroids.len() - i,
    {
        let base = asteroids[i];
        proof {
            assert(on_map(map@, asteroids@[i as int].x as int, asteroids@[i as int].y as int));
        }
        let visible = count_visible(map, asteroids, &base);
        if visible > max_visible {
            max_visible = visible;
            best = Some(base);
        }
        i = i + 1;
    }
    (max_visible, best)
}

proof fn lemma_quotient_bound(a: int, c: int)
    by (nonlinear_arith)
    requires
        c >= 1,
    ensures
        a >= 0 ==> 0 <= a / c <= a,
        a < 0 ==> 0 <= (-a) / c <= -a,
{
}

} // verus!

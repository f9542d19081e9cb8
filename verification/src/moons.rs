//! Moons that pull on each other: velocities, positions, energy, and the
//! arithmetic of cycle lengths.

use vstd::prelude::*;

verus! {

/// A vector of three 32-bit coordinates.
#[derive(Clone, Copy, Debug, PartialEq, Eq, Structural)]
pub struct Vec3 {
    pub x: i32,
    pub y: i32,
    pub z: i32,
}

/// A moon.
#[derive(Clone, Copy, Debug, PartialEq, Eq, Structural)]
pub struct Planet {
    pub position: Vec3,
    pub velocity: Vec3,
}

/// One of the three axes.
#[derive(Clone, Copy, Debug, PartialEq, Eq, Structural)]
pub enum Coord {
    X,
    Y,
    Z,
}

/// A vector of three integers.
pub struct Triple {
    pub x: int,
    pub y: int,
    pub z: int,
}

impl Triple {
    /// The sum of two vectors.
    pub open spec fn plus(self, other: Triple) -> Triple {
        Triple { x: self.x + other.x, y: self.y + other.y, z: self.z + other.z }
    }

    /// Whether each coordinate is a 32-bit value.
    pub open spec fn fits(self) -> bool {
        &&& i32::MIN <= self.x <= i32::MAX
        &&& i32::MIN <= self.y <= i32::MAX
        &&& i32::MIN <= self.z <= i32::MAX
    }
}

impl View for Vec3 {
    type V = Triple;

    open spec fn view(&self) -> Triple {
        Triple { x: self.x as int, y: self.y as int, z: self.z as int }
    }
}

/// The pull along one axis on a body at `a` from a body at `b`.
pub open spec fn pull(a: int, b: int) -> int {
    if a < b {
        1
    } else if a > b {
        -1
    } else {
        0
    }
}

/// The pull on a body at `a` from a body at `b`.
pub open spec fn pull3(a: Triple, b: Triple) -> Triple {
    Triple { x: pull(a.x, b.x), y: pull(a.y, b.y), z: pull(a.z, b.z) }
}

/// The absolute value.
pub open spec fn magnitude(v: int) -> int {
    if v >= 0 {
        v
    } else {
        -v
    }
}

/// The sum of the coordinates' absolute values.
pub open spec fn energy(v: Triple) -> int {
    magnitude(v.x) + magnitude(v.y) + magnitude(v.z)
}

/// The pull along one axis on a body at `a` from a body at `b`.
pub fn compute_gravity_on_axis(a: i32, b: i32) -> (res: i32)
    ensures
        res == pull(a as int, b as int),
{
    if a < b {
        1
    } else if a > b {
        -1
    } else {
        0
    }
}

/// The pull on a body at `a` from a body at `b`.
pub fn compute_gravity(a: &Vec3, b: &Vec3) -> (res: Vec3)
    ensures
        res@ == pull3(a@, b@),
{
    let x = compute_gravity_on_axis(a.x, b.x);
    let y = compute_gravity_on_axis(a.y, b.y);
    let z = compute_gravity_on_axis(a.z, b.z);
    Vec3 { x, y, z }
}

impl Vec3 {
    /// Adds `other` to this vector; the sum fits.
    pub fn add(&mut self, other: &Vec3)
        requires
            old(self)@.plus(other@).fits(),
        ensures
            final(self)@ == old(self)@.plus(other@),
    {
        self.x = self.x + other.x;
        self.y = self.y + other.y;
        self.z = self.z + other.z;
    }

    /// Subtracts `other` from this vector; the difference fits.
    pub fn sub(&mut self, other: &Vec3)
        requires
            (Triple {
                x: old(self)@.x - other@.x,
                y: old(self)@.y - other@.y,
                z: old(self)@.z - other@.z,
            }).fits(),
        ensures
            final(self)@ == (Triple {
                x: old(self)@.x - other@.x,
                y: old(self)@.y - other@.y,
                z: old(self)@.z - other@.z,
            }),
    {
        self.x = self.x - other.x;
        self.y = self.y - other.y;
        self.z = self.z - other.z;
    }

    /// The sum of the coordinates' absolute values.
    pub fn get_energy(&self) -> (res: i64)
        ensures
            res == energy(self@),
            0 <= res <= 3 * 0x8000_0000,
    {
        let x = self.x as i64;
        let y = self.y as i64;
        let z = self.z as i64;
        (if x >= 0 { x } else { -x }) + (if y >= 0 { y } else { -y }) + (if z >= 0 { z } else { -z })
    }
}

impl Planet {
    /// The product of the energies of position and velocity.
    pub open spec fn energy(self) -> int {
        energy(self.position@) * energy(self.velocity@)
    }

    /// The product of the energies of position and velocity.
    pub fn get_energy(&self) -> (res: i128)
        ensures
            res == self.energy(),
            0 <= res <= 9 * 0x4000_0000_0000_0000,
    {
        let p = self.position.get_energy() as i128;
        let v = self.velocity.get_energy() as i128;
        assert(0 <= p * v <= 9 * 0x4000_0000_0000_0000) by (nonlinear_arith)
            requires
                0 <= p <= 3 * 0x8000_0000,
                0 <= v <= 3 * 0x8000_0000,
        ;
        p * v
    }
}

/// The sum of the pulls on moon `i` from the first `k` moons.
pub open spec fn pull_on(planets: Seq<Planet>, i: int, k: int) -> Triple
    decreases k,
{
    if k <= 0 {
        Triple { x: 0, y: 0, z: 0 }
    } else {
        pull_on(planets, i, k - 1).plus(pull3(planets[i].position@, planets[k - 1].position@))
    }
}

/// The velocity of moon `i` after all moons have pulled on it.
pub open spec fn new_velocity(planets: Seq<Planet>, i: int) -> Triple {
    planets[i].velocity@.plus(pull_on(planets, i, planets.len() as int))
}

/// Whether every moon's new velocity fits in 32 bits.
pub open spec fn velocities_fit(planets: Seq<Planet>) -> bool {
    forall|i: int| 0 <= i < planets.len() ==> (#[trigger] new_velocity(planets, i)).fits()
}

/// Whether every moon's position, moved by its velocity, fits in 32 bits.
pub open spec fn positions_fit(planets: Seq<Planet>) -> bool {
    forall|i: int|
        0 <= i < planets.len() ==> (#[trigger] planets[i]).position@.plus(planets[i].velocity@).fits()
}

/// The vector of 32-bit coordinates that `t` fits in.
pub open spec fn vec3_of(t: Triple) -> Vec3 {
    Vec3 { x: t.x as i32, y: t.y as i32, z: t.z as i32 }
}

/// The moons with each velocity replaced by the new one.
pub open spec fn after_pull(planets: Seq<Planet>) -> Seq<Planet> {
    Seq::new(
        planets.len(),
        |i: int|
            Planet { position: planets[i].position, velocity: vec3_of(new_velocity(planets, i)) },
    )
}

/// The moons with each position moved by the velocity.
pub open spec fn after_drift(planets: Seq<Planet>) -> Seq<Planet> {
    Seq::new(
        planets.len(),
        |i: int|
            Planet {
                position: vec3_of(planets[i].position@.plus(planets[i].velocity@)),
                velocity: planets[i].velocity,
            },
    )
}

/// Whether a step of time keeps every velocity and position in 32 bits.
pub open spec fn step_fits(planets: Seq<Planet>) -> bool {
    velocities_fit(planets) && positions_fit(after_pull(planets))
}

/// The moons after one step of time.
pub open spec fn after_step(planets: Seq<Planet>) -> Seq<Planet> {
    after_drift(after_pull(planets))
}

/// The velocity of moon `i` after all moons have pulled on it, if it fits.
fn pulled_velocity(planets: &Vec<Planet>, i: usize) -> (res: Option<Vec3>)
    requires
        i < planets@.len(),
    ensures
        res is Some <==> new_velocity(planets@, i as int).fits(),
        res is Some ==> res->Some_0@ == new_velocity(planets@, i as int),
{
    let mut x: i128 = 0;
    let mut y: i128 = 0;
    let mut z: i128 = 0;
    let p = planets[i].position;
    let mut j: usize = 0;
    while j < planets.len()
        invariant
            j <= planets.len(),
            i < planets@.len(),
            p == planets@[i as int].position,
            (Triple { x: x as int, y: y as int, z: z as int }) == pull_on(planets@, i as int, j as int),
            -j <= x <= j,
            -j <= y <= j,
            -j <= z <= j,
        decreases planets.len() - j,
    {
        let g = compute_gravity(&p, &planets[j].position);
        x = x + g.x as i128;
        y = y + g.y as i128;
        z = z + g.z as i128;
        j = j + 1;
    }
    let v = planets[i].velocity;
    let nx = v.x as i128 + x;
    let ny = v.y as i128 + y;
    let nz = v.z as i128 + z;
    if nx < i32::MIN as i128 || nx > i32::MAX as i128 || ny < i32::MIN as i128 || ny > i32::MAX as i128
        || nz < i32::MIN as i128 || nz > i32::MAX as i128 {
        None
    } else {
        Some(Vec3 { x: nx as i32, y: ny as i32, z: nz as i32 })
    }
}

/// Lets every moon pull on every other: each velocity changes by one, per
/// axis, towards each moon that lies to that side. Where a new velocity does
/// not fit in 32 bits, nothing changes and the result is `false`.
pub fn update_velocities(planets: &mut Vec<Planet>) -> (res: bool)
    ensures
        res == velocities_fit(old(planets)@),
        res ==> final(planets)@ == after_pull(old(planets)@),
        !res ==> final(planets)@ == old(planets)@,
{
    let n = planets.len();
    let mut next: Vec<Vec3> = Vec::new();
    let mut i: usize = 0;
    while i < n
        invariant
            i <= n,
            n == planets@.len(),
            planets@ == old(planets)@,
            next@.len() == i,
            forall|k: int|
                0 <= k < i ==> (#[trigger] new_velocity(planets@, k)).fits() && next@[k]@
                    == new_velocity(planets@, k),
        decreases n - i,
    {
        match pulled_velocity(planets, i) {
            Some(v) => { next.push(v); },
            None => { return false; },
        }
        i = i + 1;
    }
    let mut i: usize = 0;
    while i < n
        invariant
            i <= n,
            n == planets@.len(),
            n == old(planets)@.len(),
            next@.len() == n,
            velocities_fit(old(planets)@),
            forall|k: int| 0 <= k < n ==> (#[trigger] next@[k])@ == new_velocity(old(planets)@, k),
            forall|k: int|
                0 <= k < n ==> (#[trigger] planets@[k]).position == old(planets)@[k].position,
            forall|k: int| 0 <= k < i ==> (#[trigger] planets@[k]).velocity == next@[k],
            forall|k: int| i <= k < n ==> (#[trigger] planets@[k]) == old(planets)@[k],
        decreases n - i,
    {
        let position = planets[i].position;
        planets[i] = Planet { position, velocity: next[i] };
        i = i + 1;
    }
    proof {
        assert(planets@ =~= after_pull(old(planets)@));
    }
    true
}

/// One step of time: the moons pull on each other, then each moves by its
/// velocity. Where a velocity or a position would not fit in 32 bits, the
/// result is `false`, and the moons are left before the step or between its
/// two halves.
pub fn advance_time(planets: &mut Vec<Planet>) -> (res: bool)
    ensures
        res == step_fits(old(planets)@),
        res ==> final(planets)@ == after_step(old(planets)@),
        !res ==> final(planets)@ == (if velocities_fit(old(planets)@) {
            after_pull(old(planets)@)
        } else {
            old(planets)@
        }),
{
    if !update_velocities(planets) {
        return false;
    }
    let ghost mid = planets@;
    let n = planets.len();
    let mut i: usize = 0;
    while i < n
        invariant
            i <= n,
            n == planets@.len(),
            planets@ == mid,
            velocities_fit(old(planets)@),
            mid == after_pull(old(planets)@),
            forall|k: int|
                0 <= k < i ==> (#[trigger] planets@[k]).position@.plus(planets@[k].velocity@).fits(),
        decreases n - i,
    {
        let p = planets[i];
        let x = p.position.x as i64 + p.velocity.x as i64;
        let y = p.position.y as i64 + p.velocity.y as i64;
        let z = p.position.z as i64 + p.velocity.z as i64;
        if x < i32::MIN as i64 || x > i32::MAX as i64 || y < i32::MIN as i64 || y > i32::MAX as i64
            || z < i32::MIN as i64 || z > i32::MAX as i64 {
            proof {
                assert(!planets@[i as int].position@.plus(planets@[i as int].velocity@).fits());
            }
            return false;
        }
        i = i + 1;
    }
    let mut i: usize = 0;
    while i < n
        invariant
            i <= n,
            n == planets@.len(),
            n == mid.len(),
            mid == after_pull(old(planets)@),
            velocities_fit(old(planets)@),
            positions_fit(mid),
            forall|k: int| 0 <= k < n ==> (#[trigger] planets@[k]).velocity == mid[k].velocity,
            forall|k: int|
                0 <= k < i ==> (#[trigger] planets@[k]).position@ == mid[k].position@.plus(
                    mid[k].velocity@,
                ),
            forall|k: int| i <= k < n ==> (#[trigger] planets@[k]) == mid[k],
        decreases n - i,
    {
        let mut p = planets[i];
        proof {
            assert(mid[i as int].position@.plus(mid[i as int].velocity@).fits());
        }
        p.position.add(&p.velocity);
        planets[i] = p;
        i = i + 1;
    }
    proof {
        assert(planets@ =~= after_drift(mid));
    }
    true
}

/// A moon's position and velocity along one axis.
pub open spec fn along(p: Planet, coord: Coord) -> (int, int) {
    match coord {
        Coord::X => (p.position.x as int, p.velocity.x as int),
        Coord::Y => (p.position.y as int, p.velocity.y as int),
        Coord::Z => (p.position.z as int, p.velocity.z as int),
    }
}

/// Whether the moons of both lists agree along `coord`, pair by pair, as far
/// as the shorter list goes.
pub fn on_same_state(planets: &Vec<Planet>, planets2: &Vec<Planet>, coord: &Coord) -> (res: bool)
    ensures
        res == forall|i: int|
            0 <= i < planets@.len() && i < planets2@.len() ==> along(#[trigger] planets@[i], *coord)
                == along(planets2@[i], *coord),
{
    let mut i: usize = 0;
    while i < planets.len() && i < planets2.len()
        invariant
            forall|k: int| 0 <= k < i ==> along(#[trigger] planets@[k], *coord) == along(planets2@[k], *coord),
        decreases planets.len() - i,
    {
        let a = planets[i];
        let b = planets2[i];
        let differ = match coord {
            Coord::X => a.position.x != b.position.x || a.velocity.x != b.velocity.x,
            Coord::Y => a.position.y != b.position.y || a.velocity.y != b.velocity.y,
            Coord::Z => a.position.z != b.position.z || a.velocity.z != b.velocity.z,
        };
        if differ {
            return false;
        }
        i = i + 1;
    }
    true
}

/// The moons after `n` steps of time, if every step fits in 32 bits.
pub open spec fn after_steps(planets: Seq<Planet>, n: nat) -> Option<Seq<Planet>>
    decreases n,
{
    if n == 0 {
        Some(planets)
    } else {
        match after_steps(planets, (n - 1) as nat) {
            Some(before) if step_fits(before) => Some(after_step(before)),
            _ => None,
        }
    }
}

/// Whether the moons of both lists agree along `coord`, pair by pair, as far
/// as the shorter list goes.
pub open spec fn same_on(a: Seq<Planet>, b: Seq<Planet>, coord: Coord) -> bool {
    forall|i: int| 0 <= i < a.len() && i < b.len() ==> along(#[trigger] a[i], coord) == along(b[i], coord)
}

/// The first number of steps from `k` on, among `fuel` candidates, after
/// which the moons stand along `coord` as they do after twice as many steps;
/// `None` where a step on the way does not fit.
pub open spec fn meeting(initial: Seq<Planet>, coord: Coord, k: nat, fuel: nat) -> Option<nat>
    decreases fuel,
{
    if fuel == 0 {
        None
    } else {
        match (after_steps(initial, k), after_steps(initial, 2 * k)) {
            (Some(slow), Some(fast)) => if same_on(slow, fast, coord) {
                Some(k)
            } else {
                meeting(initial, coord, k + 1, (fuel - 1) as nat)
            },
            _ => None,
        }
    }
}

/// The first number of steps from `m` on, among `fuel` candidates, after
/// which the moons stand along `coord` as `target` does; `None` where a step
/// on the way does not fit.
pub open spec fn returning(
    initial: Seq<Planet>,
    target: Seq<Planet>,
    coord: Coord,
    m: nat,
    fuel: nat,
) -> Option<nat>
    decreases fuel,
{
    if fuel == 0 {
        None
    } else {
        match after_steps(initial, m) {
            Some(state) => if same_on(target, state, coord) {
                Some(m)
            } else {
                returning(initial, target, coord, m + 1, (fuel - 1) as nat)
            },
            None => None,
        }
    }
}

/// The length of the cycle along `coord`, as the search by a slow and a fast
/// copy finds it within `fuel` steps of each.
pub open spec fn cycle_len(initial: Seq<Planet>, coord: Coord, fuel: nat) -> Option<nat> {
    match meeting(initial, coord, 1, fuel) {
        Some(k) => returning(initial, after_steps(initial, k)->Some_0, coord, 1, fuel),
        None => None,
    }
}

/// Advances the moons by `steps` steps of time; `false` where a step does not
/// fit in 32 bits.
pub fn simulate(planets: &mut Vec<Planet>, steps: u32) -> (res: bool)
    ensures
        res == after_steps(old(planets)@, steps as nat) is Some,
        res ==> final(planets)@ == after_steps(old(planets)@, steps as nat)->Some_0,
{
    let mut done: u32 = 0;
    while done < steps
        invariant
            done <= steps,
            after_steps(old(planets)@, done as nat) == Some(planets@),
        decreases steps - done,
    {
        if !advance_time(planets) {
            proof {
                lemma_stays_none(old(planets)@, done as nat + 1, steps as nat);
            }
            return false;
        }
        done = done + 1;
    }
    true
}

/// Once a step does not fit, no later state exists.
pub proof fn lemma_stays_none(planets: Seq<Planet>, n: nat, later: nat)
    requires
        after_steps(planets, n) is None,
        n <= later,
    ensures
        after_steps(planets, later) is None,
    decreases later,
{
    if n < later {
        lemma_stays_none(planets, n, (later - 1) as nat);
    }
}

/// The sum of the energies of the first `k` moons.
pub open spec fn energy_sum(planets: Seq<Planet>, k: int) -> int
    decreases k,
{
    if k <= 0 {
        0
    } else {
        energy_sum(planets, k - 1) + planets[k - 1].energy()
    }
}

/// A sum of energies does not shrink as moons are added.
pub proof fn lemma_energy_sum_grows(planets: Seq<Planet>, a: int, b: int)
    requires
        0 <= a <= b,
    ensures
        0 <= energy_sum(planets, a) <= energy_sum(planets, b),
    decreases b,
{
    if b > 0 {
        assert(planets[b - 1].energy() >= 0) by (nonlinear_arith)
            requires
                energy(planets[b - 1].position@) >= 0,
                energy(planets[b - 1].velocity@) >= 0,
                planets[b - 1].energy() == energy(planets[b - 1].position@) * energy(
                    planets[b - 1].velocity@,
                ),
        ;
        if a < b {
            lemma_energy_sum_grows(planets, a, b - 1);
        } else {
            lemma_energy_sum_grows(planets, a - 1, b - 1);
        }
    }
}

/// The sum of the energies of all moons; `None` where it does not fit in 128
/// bits.
pub fn total_energy(planets: &Vec<Planet>) -> (res: Option<i128>)
    ensures
        res is Some <==> energy_sum(planets@, planets@.len() as int) <= i128::MAX,
        res is Some ==> res->Some_0 == energy_sum(planets@, planets@.len() as int),
{
    let mut total: i128 = 0;
    let mut i: usize = 0;
    while i < planets.len()
        invariant
            i <= planets.len(),
            0 <= total == energy_sum(planets@, i as int),
        decreases planets.len() - i,
    {
        proof {
            lemma_energy_sum_grows(planets@, i + 1, planets@.len() as int);
        }
        match total.checked_add(planets[i].get_energy()) {
            Some(sum) => { total = sum; },
            None => { return None; },
        }
        i = i + 1;
    }
    Some(total)
}

/// The length of the cycle in which the moons move along `coord`: a slow and
/// a fast copy run until they agree, then a third copy runs until it agrees
/// with the slow one. Each search gives up after `max_steps` steps.
pub fn compute_cycle_len(initial_planets: &Vec<Planet>, coord: &Coord, max_steps: u64) -> (res:
    Option<u64>)
    ensures
        match cycle_len(initial_planets@, *coord, max_steps as nat) {
            Some(m) => res == Some(m as u64) && m <= u64::MAX,
            None => res is None,
        },
{
    let ghost initial = initial_planets@;
    let mut planets_slow = initial_planets.clone();
    let mut planets_fast = initial_planets.clone();
    proof {
        assert(planets_slow@ =~= initial);
        assert(planets_fast@ =~= initial);
    }
    let mut k: u64 = 0;
    loop
        invariant_except_break
            meeting(initial, *coord, k as nat + 1, (max_steps - k) as nat) == meeting(
                initial,
                *coord,
                1,
                max_steps as nat,
            ),
        invariant
            initial == initial_planets@,
            k <= max_steps,
            after_steps(initial, k as nat) == Some(planets_slow@),
            after_steps(initial, 2 * (k as nat)) == Some(planets_fast@),
        ensures
            k <= max_steps,
            meeting(initial, *coord, 1, max_steps as nat) == Some(k as nat),
            after_steps(initial, k as nat) == Some(planets_slow@),
        decreases max_steps - k,
    {
        if k == max_steps {
            return None;
        }
        let ghost two = 2 * (k as nat);
        if !advance_time(&mut planets_slow) {
            return None;
        }
        if !advance_time(&mut planets_fast) {
            proof {
                lemma_stays_none(initial, two + 1, two + 2);
            }
            return None;
        }
        proof {
            assert(after_steps(initial, two + 1) == Some(planets_fast@));
        }
        if !advance_time(&mut planets_fast) {
            return None;
        }
        k = k + 1;
        proof {
            assert(after_steps(initial, two + 2) == Some(planets_fast@));
            assert(two + 2 == 2 * (k as nat));
        }
        if on_same_state(&planets_slow, &planets_fast, coord) {
            break ;
        }
    }
    planets_fast = initial_planets.clone();
    proof {
        assert(planets_fast@ =~= initial);
    }
    let mut loop_size: u64 = 0;
    loop
        invariant_except_break
            returning(
                initial,
                planets_slow@,
                *coord,
                loop_size as nat + 1,
                (max_steps - loop_size) as nat,
            ) == cycle_len(initial, *coord, max_steps as nat),
        invariant
            initial == initial_planets@,
            loop_size <= max_steps,
            after_steps(initial, loop_size as nat) == Some(planets_fast@),
        ensures
            cycle_len(initial, *coord, max_steps as nat) == Some(loop_size as nat),
        decreases max_steps - loop_size,
    {
        if loop_size == max_steps {
            return None;
        }
        if !advance_time(&mut planets_fast) {
            return None;
        }
        loop_size = loop_size + 1;
        if on_same_state(&planets_slow, &planets_fast, coord) {
            break ;
        }
    }
    Some(loop_size)
}

/// The greatest common divisor, by Euclid's steps.
pub open spec fn gcd_of(a: nat, b: nat) -> nat
    decreases a,
{
    if a == 0 {
        b
    } else {
        gcd_of(b % a, a)
    }
}

/// The product of `d` and `k`.
pub open spec fn times(d: nat, k: nat) -> nat {
    d * k
}

/// Whether `n` is a multiple of `d`.
pub open spec fn divides(d: nat, n: nat) -> bool {
    exists|k: nat| #[trigger] times(d, k) == n
}

/// The greatest common divisor divides both numbers.
pub proof fn lemma_gcd_divides(a: nat, b: nat)
    ensures
        divides(gcd_of(a, b), a),
        divides(gcd_of(a, b), b),
    decreases a,
{
    let g = gcd_of(a, b);
    if a == 0 {
        assert(times(g, 0) == a);
        assert(times(g, 1) == b);
    } else {
        lemma_gcd_divides(b % a, a);
        let k1 = choose|k: nat| #[trigger] times(g, k) == b % a;
        let k2 = choose|k: nat| #[trigger] times(g, k) == a;
        let q = b / a;
        assert(b == g * (k2 * q + k1)) by (nonlinear_arith)
            requires
                b % a == g * k1,
                a == g * k2,
                q == b / a,
                a > 0,
        ;
        assert(times(g, k2 * q + k1) == b);
        assert(times(g, k2) == a);
    }
}

/// Every common divisor divides the greatest common divisor.
pub proof fn lemma_gcd_greatest(a: nat, b: nat, d: nat)
    requires
        divides(d, a),
        divides(d, b),
    ensures
        divides(d, gcd_of(a, b)),
    decreases a,
{
    if a != 0 {
        let k1 = choose|k: nat| #[trigger] times(d, k) == a;
        let k2 = choose|k: nat| #[trigger] times(d, k) == b;
        let q = b / a;
        assert(k2 >= k1 * q && b % a == d * (k2 - k1 * q)) by (nonlinear_arith)
            requires
                a == d * k1,
                b == d * k2,
                q == b / a,
                a > 0,
        ;
        assert(times(d, (k2 - k1 * q) as nat) == b % a);
        lemma_gcd_greatest(b % a, a, d);
    }
}

/// The greatest common divisor is 0 only of 0 and 0.
pub proof fn lemma_gcd_zero(a: nat, b: nat)
    ensures
        gcd_of(a, b) == 0 ==> a == 0 && b == 0,
    decreases a,
{
    if a != 0 {
        lemma_gcd_zero(b % a, a);
    }
}

/// The greatest common divisor of `a` and `b`.
pub fn gcd(a: u64, b: u64) -> (res: u64)
    ensures
        res == gcd_of(a as nat, b as nat),
{
    let mut x = a;
    let mut y = b;
    while x != 0
        invariant
            gcd_of(x as nat, y as nat) == gcd_of(a as nat, b as nat),
        decreases x,
    {
        let t = x;
        x = y % x;
        y = t;
    }
    y
}

/// The least common multiple of `a` and `b`, not both zero, whose product
/// fits in 64 bits.
pub fn lcm(a: u64, b: u64) -> (res: u64)
    requires
        a != 0 || b != 0,
        a * b <= u64::MAX,
    ensures
        res == (a * b) / gcd_of(a as nat, b as nat) as int,
{
    proof {
        lemma_gcd_zero(a as nat, b as nat);
    }
    (a * b) / gcd(a, b)
}

} // verus!

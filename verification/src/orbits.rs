//! A map of orbits: how deep each object lies below the objects that orbit
//! nothing, and how far it is from one object to another.

use vstd::prelude::*;

verus! {

/// One line of the map: `satellite` orbits `center`.
pub struct Orbit {
    pub center: String,
    pub satellite: String,
}

/// An object and its depth.
pub struct Level {
    pub name: String,
    pub level: u32,
}

/// An orbit as a mathematical value: the centre, then the satellite.
pub type Link = (Seq<char>, Seq<char>);

/// The views of a list of orbits.
pub open spec fn links_of(orbits: Seq<Orbit>) -> Seq<Link> {
    orbits.map_values(|o: Orbit| (o.center@, o.satellite@))
}

/// The views of a list of names.
pub open spec fn names_of(names: Seq<String>) -> Seq<Seq<char>> {
    names.map_values(|n: String| n@)
}

/// The views of a list of levels.
pub open spec fn depths_of(levels: Seq<Level>) -> Seq<(Seq<char>, u32)> {
    levels.map_values(|l: Level| (l.name@, l.level))
}

/// The satellites of `name` among the first `k` orbits, in order.
pub open spec fn children(orbits: Seq<Link>, name: Seq<char>, k: int) -> Seq<Seq<char>>
    decreases k,
{
    if k <= 0 {
        Seq::empty()
    } else if orbits[k - 1].0 == name {
        children(orbits, name, k - 1).push(orbits[k - 1].1)
    } else {
        children(orbits, name, k - 1)
    }
}

/// The satellites of the first `k` of `todo`, in order.
pub open spec fn next_todo(orbits: Seq<Link>, todo: Seq<Seq<char>>, k: int) -> Seq<Seq<char>>
    decreases k,
{
    if k <= 0 {
        Seq::empty()
    } else {
        next_todo(orbits, todo, k - 1) + children(orbits, todo[k - 1], orbits.len() as int)
    }
}

/// The place of the first entry for `name` in `levels`, from place `from` on.
pub open spec fn place_of(levels: Seq<(Seq<char>, u32)>, name: Seq<char>, from: int) -> Option<int>
    decreases levels.len() - from,
{
    if from < 0 || from >= levels.len() {
        None
    } else if levels[from].0 == name {
        Some(from)
    } else {
        place_of(levels, name, from + 1)
    }
}

/// `levels` with `name` at depth `level`: its entry changed, or a new entry at
/// the end.
pub open spec fn noted(levels: Seq<(Seq<char>, u32)>, name: Seq<char>, level: u32) -> Seq<
    (Seq<char>, u32),
> {
    match place_of(levels, name, 0) {
        Some(i) => levels.update(i, (name, level)),
        None => levels.push((name, level)),
    }
}

/// `levels` with the first `k` of `todo` noted at depth `level`.
pub open spec fn noted_all(
    levels: Seq<(Seq<char>, u32)>,
    todo: Seq<Seq<char>>,
    level: u32,
    k: int,
) -> Seq<(Seq<char>, u32)>
    decreases k,
{
    if k <= 0 {
        levels
    } else {
        noted(noted_all(levels, todo, level, k - 1), todo[k - 1], level)
    }
}

/// The depths after a search in breadth from `todo`, which lie at depth
/// `level`, over at most `fuel` further depths; `None` where the map goes
/// deeper.
pub open spec fn searched(
    orbits: Seq<Link>,
    todo: Seq<Seq<char>>,
    levels: Seq<(Seq<char>, u32)>,
    level: u32,
    fuel: nat,
) -> Option<Seq<(Seq<char>, u32)>>
    decreases fuel,
{
    if todo.len() == 0 {
        Some(levels)
    } else if fuel == 0 || level == u32::MAX {
        None
    } else {
        searched(
            orbits,
            next_todo(orbits, todo, todo.len() as int),
            noted_all(levels, todo, level, todo.len() as int),
            (level + 1) as u32,
            (fuel - 1) as nat,
        )
    }
}

/// The place of the first entry for `name` in `levels`.
fn find_level(levels: &Vec<Level>, name: &String) -> (res: Option<usize>)
    ensures
        res is None ==> place_of(depths_of(levels@), name@, 0) is None,
        res is Some ==> place_of(depths_of(levels@), name@, 0) == Some(res->Some_0 as int)
            && res->Some_0 < levels@.len(),
{
    let mut i: usize = 0;
    while i < levels.len()
        invariant
            i <= levels.len(),
            place_of(depths_of(levels@), name@, 0) == place_of(depths_of(levels@), name@, i as int),
        decreases levels.len() - i,
    {
        proof {
            assert(depths_of(levels@)[i as int] == (levels@[i as int].name@, levels@[i as int].level));
        }
        if levels[i].name == *name {
            return Some(i);
        }
        i = i + 1;
    }
    None
}

/// Notes `name` at depth `level`.
fn note_level(levels: &mut Vec<Level>, name: &String, level: u32)
    ensures
        depths_of(final(levels)@) == noted(depths_of(old(levels)@), name@, level),
{
    match find_level(levels, name) {
        Some(i) => {
            levels[i] = Level { name: name.clone(), level };
            proof {
                assert(depths_of(levels@) =~= depths_of(old(levels)@).update(
                    i as int,
                    (name@, level),
                ));
            }
        },
        None => {
            levels.push(Level { name: name.clone(), level });
            proof {
                assert(depths_of(levels@) =~= depths_of(old(levels)@).push((name@, level)));
            }
        },
    }
}

/// Puts the satellites of `name` at the end of `next`.
fn push_children(orbits: &Vec<Orbit>, name: &String, next: &mut Vec<String>)
    ensures
        names_of(final(next)@) == names_of(old(next)@) + children(
            links_of(orbits@),
            name@,
            orbits@.len() as int,
        ),
{
    let mut k: usize = 0;
    proof {
        assert(names_of(next@) + Seq::<Seq<char>>::empty() =~= names_of(next@));
    }
    while k < orbits.len()
        invariant
            k <= orbits.len(),
            names_of(next@) == names_of(old(next)@) + children(links_of(orbits@), name@, k as int),
        decreases orbits.len() - k,
    {
        let ghost before = names_of(next@);
        proof {
            assert(links_of(orbits@)[k as int] == (orbits@[k as int].center@, orbits@[k as int].satellite@));
        }
        if orbits[k].center == *name {
            next.push(orbits[k].satellite.clone());
            proof {
                assert(names_of(next@) =~= before.push(orbits@[k as int].satellite@));
                assert(names_of(old(next)@) + children(links_of(orbits@), name@, k as int).push(
                    orbits@[k as int].satellite@,
                ) =~= before.push(orbits@[k as int].satellite@));
            }
        }
        k = k + 1;
    }
}

/// The depth of every object that can be reached from `sources`, which lie at
/// depth 0, found by a search in breadth over at most `max_levels` depths. An
/// object reached twice keeps the later depth.
pub fn compute_graph_levels(orbits: &Vec<Orbit>, sources: &Vec<String>, max_levels: u32) -> (res:
    Option<Vec<Level>>)
    ensures
        match searched(links_of(orbits@), names_of(sources@), Seq::empty(), 0, max_levels as nat) {
            Some(levels) => res is Some && depths_of(res->Some_0@) == levels,
            None => res is None,
        },
{
    let ghost goal = searched(
        links_of(orbits@),
        names_of(sources@),
        Seq::empty(),
        0,
        max_levels as nat,
    );
    let mut todo: Vec<String> = sources.clone();
    let mut levels: Vec<Level> = Vec::new();
    let mut level: u32 = 0;
    let mut left = max_levels;
    proof {
        assert(names_of(todo@) =~= names_of(sources@)) by {
            assert(todo@.len() == sources@.len());
            assert forall|i: int| 0 <= i < todo@.len() implies todo@[i]@ == sources@[i]@ by {
                assert(cloned(sources@[i], todo@[i]));
            }
        }
        assert(depths_of(levels@) =~= Seq::<(Seq<char>, u32)>::empty());
    }
    while todo.len() > 0
        invariant
            goal == searched(
                links_of(orbits@),
                names_of(sources@),
                Seq::empty(),
                0,
                max_levels as nat,
            ),
            searched(
                links_of(orbits@),
                names_of(todo@),
                depths_of(levels@),
                level,
                left as nat,
            ) == goal,
        decreases left,
    {
        if left == 0 || level == u32::MAX {
            return None;
        }
        let mut next: Vec<String> = Vec::new();
        let ghost start = depths_of(levels@);
        let mut k: usize = 0;
        proof {
            assert(names_of(next@) =~= Seq::<Seq<char>>::empty());
        }
        while k < todo.len()
            invariant
                k <= todo.len(),
                names_of(next@) == next_todo(links_of(orbits@), names_of(todo@), k as int),
                depths_of(levels@) == noted_all(start, names_of(todo@), level, k as int),
            decreases todo.len() - k,
        {
            proof {
                assert(names_of(todo@)[k as int] == todo@[k as int]@);
            }
            note_level(&mut levels, &todo[k], level);
            push_children(orbits, &todo[k], &mut next);
            k = k + 1;
        }
        todo = next;
        level = level + 1;
        left = left - 1;
    }
    Some(levels)
}

/// The sum of the depths of the first `k` entries.
pub open spec fn depth_sum(levels: Seq<(Seq<char>, u32)>, k: int) -> int
    decreases k,
{
    if k <= 0 {
        0
    } else {
        depth_sum(levels, k - 1) + levels[k - 1].1
    }
}

/// The number of direct and indirect orbits: the sum of all depths.
pub fn total_orbits(levels: &Vec<Level>) -> (res: u128)
    ensures
        res == depth_sum(depths_of(levels@), levels@.len() as int),
{
    let mut total: u128 = 0;
    let mut i: usize = 0;
    while i < levels.len()
        invariant
            i <= levels.len(),
            total == depth_sum(depths_of(levels@), i as int),
            total <= i * 0xffff_ffff,
        decreases levels.len() - i,
    {
        proof {
            assert(depths_of(levels@)[i as int].1 == levels@[i as int].level);
        }
        total = total + levels[i].level as u128;
        i = i + 1;
    }
    total
}

/// The centre of the last orbit, among the first `k`, whose satellite is
/// `name`.
pub open spec fn parent_of(orbits: Seq<Link>, name: Seq<char>, k: int) -> Option<Seq<char>>
    decreases k,
{
    if k <= 0 {
        None
    } else if orbits[k - 1].1 == name {
        Some(orbits[k - 1].0)
    } else {
        parent_of(orbits, name, k - 1)
    }
}

/// The objects that `name` orbits, directly or not, the nearest first;
/// `None` where there are more than `fuel`.
pub open spec fn ancestors(orbits: Seq<Link>, name: Seq<char>, fuel: nat) -> Option<
    Seq<Seq<char>>,
>
    decreases fuel,
{
    match parent_of(orbits, name, orbits.len() as int) {
        None => Some(Seq::empty()),
        Some(p) => if fuel == 0 {
            None
        } else {
            match ancestors(orbits, p, (fuel - 1) as nat) {
                Some(rest) => Some(seq![p] + rest),
                None => None,
            }
        },
    }
}

/// The nearest of the objects that `name` orbits that is one of `visited`;
/// `None` where there is none among the nearest `fuel`.
pub open spec fn meeting(orbits: Seq<Link>, visited: Seq<Seq<char>>, name: Seq<char>, fuel: nat) -> Option<
    Seq<char>,
>
    decreases fuel,
{
    match parent_of(orbits, name, orbits.len() as int) {
        None => None,
        Some(p) => if visited.contains(p) {
            Some(p)
        } else if fuel == 0 {
            None
        } else {
            meeting(orbits, visited, p, (fuel - 1) as nat)
        },
    }
}

/// The depth noted for `name`.
pub open spec fn depth_of(levels: Seq<(Seq<char>, u32)>, name: Seq<char>) -> Option<u32> {
    match place_of(levels, name, 0) {
        Some(i) => Some(levels[i].1),
        None => None,
    }
}

/// The number of transfers between the objects that `from` and `to` orbit:
/// the steps from each up to the nearest object that both orbit. `None` where
/// they have none in common within `fuel` steps, a depth is missing, or the
/// depths do not lie as those of a tree do.
pub open spec fn distance(
    orbits: Seq<Link>,
    levels: Seq<(Seq<char>, u32)>,
    from: Seq<char>,
    to: Seq<char>,
    fuel: nat,
) -> Option<u32> {
    match ancestors(orbits, from, fuel) {
        None => None,
        Some(visited) => match meeting(orbits, visited, to, fuel) {
            None => None,
            Some(p) => match (depth_of(levels, from), depth_of(levels, to), depth_of(levels, p)) {
                (Some(a), Some(b), Some(c)) => if a > c && b > c && (a - c - 1) + (b - c - 1)
                    <= u32::MAX {
                    Some(((a - c - 1) + (b - c - 1)) as u32)
                } else {
                    None
                },
                _ => None,
            },
        },
    }
}

/// The centre of the last orbit whose satellite is `name`.
fn find_parent(orbits: &Vec<Orbit>, name: &String) -> (res: Option<usize>)
    ensures
        res is None ==> parent_of(links_of(orbits@), name@, orbits@.len() as int) is None,
        res is Some ==> res->Some_0 < orbits@.len() && parent_of(
            links_of(orbits@),
            name@,
            orbits@.len() as int,
        ) == Some(orbits@[res->Some_0 as int].center@),
{
    let mut i: usize = orbits.len();
    while i > 0
        invariant
            i <= orbits.len(),
            parent_of(links_of(orbits@), name@, orbits@.len() as int) == parent_of(
                links_of(orbits@),
                name@,
                i as int,
            ),
        decreases i,
    {
        proof {
            assert(links_of(orbits@)[i - 1] == (orbits@[i - 1].center@, orbits@[i - 1].satellite@));
        }
        if orbits[i - 1].satellite == *name {
            return Some(i - 1);
        }
        i = i - 1;
    }
    None
}

/// Whether `name` is one of `names`.
fn contains_name(names: &Vec<String>, name: &String) -> (res: bool)
    ensures
        res == names_of(names@).contains(name@),
{
    let mut i: usize = 0;
    while i < names.len()
        invariant
            i <= names.len(),
            forall|k: int| 0 <= k < i ==> names_of(names@)[k] != name@,
        decreases names.len() - i,
    {
        proof {
            assert(names_of(names@)[i as int] == names@[i as int]@);
        }
        if names[i] == *name {
            return true;
        }
        i = i + 1;
    }
    false
}

/// The depth noted for `name`.
fn level_of(levels: &Vec<Level>, name: &String) -> (res: Option<u32>)
    ensures
        res == depth_of(depths_of(levels@), name@),
{
    match find_level(levels, name) {
        Some(i) => {
            proof {
                assert(depths_of(levels@)[i as int] == (levels@[i as int].name@, levels@[i as int].level));
            }
            Some(levels[i].level)
        },
        None => None,
    }
}

/// The number of transfers between the objects that `from` and `to` orbit;
/// see `distance`. Each walk up the map takes at most `max_steps` steps.
pub fn orbital_transfers(
    orbits: &Vec<Orbit>,
    levels: &Vec<Level>,
    from: &String,
    to: &String,
    max_steps: u32,
) -> (res: Option<u32>)
    ensures
        res == distance(links_of(orbits@), depths_of(levels@), from@, to@, max_steps as nat),
{
    let ghost links = links_of(orbits@);
    let ghost goal = ancestors(links, from@, max_steps as nat);
    let mut visited: Vec<String> = Vec::new();
    let mut obj: String = from.clone();
    let mut left = max_steps;
    proof {
        assert(names_of(visited@) =~= Seq::<Seq<char>>::empty());
    }
    loop
        invariant_except_break
            match ancestors(links, obj@, left as nat) {
                Some(rest) => goal == Some(names_of(visited@) + rest),
                None => goal is None,
            },
        invariant
            links == links_of(orbits@),
            goal == ancestors(links, from@, max_steps as nat),
        ensures
            goal == Some(names_of(visited@)),
        decreases left,
    {
        let parent = match find_parent(orbits, &obj) {
            Some(i) => orbits[i].center.clone(),
            None => {
                proof {
                    assert(names_of(visited@) + Seq::<Seq<char>>::empty() =~= names_of(visited@));
                }
                break ;
            },
        };
        if left == 0 {
            return None;
        }
        let ghost before = names_of(visited@);
        visited.push(parent.clone());
        proof {
            assert(names_of(visited@) =~= before.push(parent@));
            let rest = ancestors(links, parent@, (left - 1) as nat);
            if rest is Some {
                assert(before + (seq![parent@] + rest->Some_0) =~= before.push(parent@)
                    + rest->Some_0);
            }
        }
        obj = parent;
        left = left - 1;
    }
    let ghost target = meeting(links, names_of(visited@), to@, max_steps as nat);
    let mut obj: String = to.clone();
    let mut left = max_steps;
    loop
        invariant
            links == links_of(orbits@),
            goal == ancestors(links, from@, max_steps as nat),
            goal == Some(names_of(visited@)),
            target == meeting(links, names_of(visited@), to@, max_steps as nat),
            meeting(links, names_of(visited@), obj@, left as nat) == target,
        decreases left,
    {
        let parent = match find_parent(orbits, &obj) {
            Some(i) => orbits[i].center.clone(),
            None => { return None; },
        };
        if contains_name(&visited, &parent) {
            let a = level_of(levels, from);
            let b = level_of(levels, to);
            let c = level_of(levels, &parent);
            return match (a, b, c) {
                (Some(a), Some(b), Some(c)) => {
                    if a > c && b > c {
                        (a - c - 1).checked_add(b - c - 1)
                    } else {
                        None
                    }
                },
                _ => None,
            };
        }
        if left == 0 {
            return None;
        }
        obj = parent;
        left = left - 1;
    }
}

} // verus!

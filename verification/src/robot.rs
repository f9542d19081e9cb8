//! The hull-painting robot: a program that is told the colour under the
//! robot and answers with a colour to paint and a turn to take.

use vstd::prelude::*;
use crate::interpreter::{Intcode, STEP_LIMIT};
use crate::machine::{fresh, run_spec, Fault, Machine};
use crate::text::string_of;

verus! {

/// Why the robot gives no picture.
#[derive(Clone, Copy, Debug, PartialEq, Eq, Structural)]
pub enum RobotError {
    /// The program faulted.
    Fault(Fault),
    /// The program answered with fewer than two values.
    BadOutput,
    /// The robot walked off the plane of 32-bit coordinates.
    OffMap,
    /// The robot used up its budget of rounds.
    RoundLimit,
}

/// A panel that has been painted, and its colour.
#[derive(Clone, Copy, Debug, PartialEq, Eq, Structural)]
pub struct Panel {
    pub x: i32,
    pub y: i32,
    pub color: i64,
}

/// A place on the hull.
#[derive(Clone, Copy, Debug, PartialEq, Eq, Structural)]
pub struct Pos {
    pub x: i32,
    pub y: i32,
}

/// The corners of the painted part of the hull.
#[derive(Clone, Copy, Debug, PartialEq, Eq, Structural)]
pub struct Bounds {
    pub min: Pos,
    pub max: Pos,
}

/// The place of the panel at (`x`, `y`) in `painted`.
pub open spec fn place_of(painted: Seq<Panel>, x: i32, y: i32) -> Option<int>
    decreases painted.len(),
{
    if painted.len() == 0 {
        None
    } else if painted[0].x == x && painted[0].y == y {
        Some(0)
    } else {
        match place_of(painted.drop_first(), x, y) {
            Some(i) => Some(i + 1),
            None => None,
        }
    }
}

/// The colour at (`x`, `y`): black, 0, where nothing has been painted.
pub open spec fn color_at(painted: Seq<Panel>, x: i32, y: i32) -> i64 {
    match place_of(painted, x, y) {
        Some(i) => painted[i].color,
        None => 0,
    }
}

/// `painted` with the panel at (`x`, `y`) painted in `color`: its entry
/// changed, or a new entry at the end.
pub open spec fn repainted(painted: Seq<Panel>, x: i32, y: i32, color: i64) -> Seq<Panel> {
    match place_of(painted, x, y) {
        Some(i) => painted.update(i, Panel { x, y, color }),
        None => painted.push(Panel { x, y, color }),
    }
}

/// The step that the robot takes when it faces direction `dir`, one of 0 to
/// 3: a turn by `turned` with answer 0 leads from each to the next.
pub open spec fn heading(dir: int) -> (int, int) {
    if dir == 0 {
        (0, 1)
    } else if dir == 1 {
        (-1, 0)
    } else if dir == 2 {
        (0, -1)
    } else {
        (1, 0)
    }
}

/// The direction after the turn that the program's second answer asks for.
pub open spec fn turned(dir: int, turn: i64) -> int {
    if turn == 0 {
        (dir + 1) % 4
    } else {
        (dir + 3) % 4
    }
}

/// The panels painted when the robot goes on from machine `m` at (`x`, `y`)
/// facing `dir`: each round it tells the program the colour under it, paints
/// with the first answer, turns by the second and steps forward, until the
/// program has halted, for at most `rounds` rounds.
pub open spec fn paint_from(
    m: Machine,
    painted: Seq<Panel>,
    x: i32,
    y: i32,
    dir: int,
    rounds: nat,
) -> Result<Seq<Panel>, RobotError>
    decreases rounds,
{
    let run = run_spec(m, seq![color_at(painted, x, y)], STEP_LIMIT as nat);
    let next_dir = turned(dir, run.output[1]);
    let nx = x + heading(next_dir).0;
    let ny = y + heading(next_dir).1;
    if rounds == 0 {
        Err(RobotError::RoundLimit)
    } else if run.fault is Some {
        Err(RobotError::Fault(run.fault->Some_0))
    } else if run.output.len() < 2 {
        Err(RobotError::BadOutput)
    } else if nx < i32::MIN || nx > i32::MAX || ny < i32::MIN || ny > i32::MAX {
        Err(RobotError::OffMap)
    } else if run.machine.halted {
        Ok(repainted(painted, x, y, run.output[0]))
    } else {
        paint_from(
            run.machine,
            repainted(painted, x, y, run.output[0]),
            nx as i32,
            ny as i32,
            next_dir,
            (rounds - 1) as nat,
        )
    }
}

proof fn lemma_place_of(painted: Seq<Panel>, x: i32, y: i32, i: int)
    requires
        0 <= i <= painted.len(),
        forall|k: int| 0 <= k < i ==> !((#[trigger] painted[k]).x == x && painted[k].y == y),
        i == painted.len() || (painted[i].x == x && painted[i].y == y),
    ensures
        place_of(painted, x, y) == (if i < painted.len() {
            Some(i)
        } else {
            None
        }),
    decreases painted.len(),
{
    if painted.len() > 0 && !(painted[0].x == x && painted[0].y == y) {
        let tail = painted.drop_first();
        assert forall|k: int| 0 <= k < i - 1 implies !((#[trigger] tail[k]).x == x && tail[k].y
            == y) by {
            assert(tail[k] == painted[k + 1]);
        }
        lemma_place_of(tail, x, y, i - 1);
    }
}

/// The place of the panel at (`x`, `y`) in `painted`.
fn find_panel(painted: &Vec<Panel>, x: i32, y: i32) -> (res: Option<usize>)
    ensures
        res is None ==> place_of(painted@, x, y) is None,
        res is Some ==> place_of(painted@, x, y) == Some(res->Some_0 as int) && res->Some_0
            < painted@.len(),
{
    let mut i: usize = 0;
    while i < painted.len()
        invariant
            i <= painted.len(),
            forall|k: int| 0 <= k < i ==> !((#[trigger] painted@[k]).x == x && painted@[k].y == y),
        decreases painted.len() - i,
    {
        if painted[i].x == x && painted[i].y == y {
            proof {
                lemma_place_of(painted@, x, y, i as int);
            }
            return Some(i);
        }
        i = i + 1;
    }
    proof {
        lemma_place_of(painted@, x, y, i as int);
    }
    None
}

/// Runs the painting program `state` with the robot on a panel of colour
/// `init_color`, for at most `max_rounds` rounds, and returns the panels
/// painted, in the order in which they were first painted.
pub fn run_robot(state: &Vec<i64>, init_color: i64, max_rounds: u64) -> (res: Result<
    Vec<Panel>,
    RobotError,
>)
    ensures
        match paint_from(
            fresh(state@),
            seq![Panel { x: 0, y: 0, color: init_color }],
            0,
            0,
            1,
            max_rounds as nat,
        ) {
            Ok(painted) => res is Ok && res->Ok_0@ == painted,
            Err(e) => res is Err && res->Err_0 == e,
        },
{
    let ghost goal = paint_from(
        fresh(state@),
        seq![Panel { x: 0, y: 0, color: init_color }],
        0,
        0,
        1,
        max_rounds as nat,
    );
    let mut robot = Intcode::new(state);
    let mut painted: Vec<Panel> = Vec::new();
    let mut x: i32 = 0;
    let mut y: i32 = 0;
    let mut dir_pos: u8 = 1;
    let mut rounds = max_rounds;
    painted.push(Panel { x: 0, y: 0, color: init_color });
    proof {
        assert(painted@ =~= seq![Panel { x: 0, y: 0, color: init_color }]);
    }
    loop
        invariant
            dir_pos < 4,
            goal == paint_from(
                fresh(state@),
                seq![Panel { x: 0, y: 0, color: init_color }],
                0,
                0,
                1,
                max_rounds as nat,
            ),
            paint_from(robot@, painted@, x, y, dir_pos as int, rounds as nat) == goal,
        decreases rounds,
    {
        if rounds == 0 {
            return Err(RobotError::RoundLimit);
        }
        let place = find_panel(&painted, x, y);
        let color = match place {
            Some(i) => painted[i].color,
            None => 0,
        };
        let inputs: Vec<i64> = vec![color];
        proof {
            assert(inputs@ =~= seq![color]);
        }
        let outputs = match robot.run(inputs.as_slice()) {
            Ok(outputs) => outputs,
            Err(f) => { return Err(RobotError::Fault(f)); },
        };
        if outputs.len() < 2 {
            return Err(RobotError::BadOutput);
        }
        match place {
            Some(i) => { painted[i] = Panel { x, y, color: outputs[0] }; },
            None => { painted.push(Panel { x, y, color: outputs[0] }); },
        }
        if outputs[1] == 0 {
            dir_pos = (dir_pos + 1) % 4;
        } else {
            dir_pos = (dir_pos + 3) % 4;
        }
        let (dx, dy): (i64, i64) = if dir_pos == 0 {
            (0, 1)
        } else if dir_pos == 1 {
            (-1, 0)
        } else if dir_pos == 2 {
            (0, -1)
        } else {
            (1, 0)
        };
        let nx = x as i64 + dx;
        let ny = y as i64 + dy;
        if nx < i32::MIN as i64 || nx > i32::MAX as i64 || ny < i32::MIN as i64 || ny > i32::MAX as i64 {
            return Err(RobotError::OffMap);
        }
        if robot.is_done() {
            return Ok(painted);
        }
        x = nx as i32;
        y = ny as i32;
        rounds = rounds - 1;
    }
}

/// The corners of the smallest rectangle around the origin and the first `k`
/// panels.
pub open spec fn bounds_of(painted: Seq<Panel>, k: int) -> Bounds
    decreases k,
{
    if k <= 0 {
        Bounds { min: Pos { x: 0, y: 0 }, max: Pos { x: 0, y: 0 } }
    } else {
        let b = bounds_of(painted, k - 1);
        let p = painted[k - 1];
        Bounds {
            min: Pos {
                x: if p.x < b.min.x { p.x } else { b.min.x },
                y: if p.y < b.min.y { p.y } else { b.min.y },
            },
            max: Pos {
                x: if p.x > b.max.x { p.x } else { b.max.x },
                y: if p.y > b.max.y { p.y } else { b.max.y },
            },
        }
    }
}

/// The corners of the smallest rectangle around the origin and all panels.
pub fn get_bounds(painted: &Vec<Panel>) -> (res: Bounds)
    ensures
        res == bounds_of(painted@, painted@.len() as int),
{
    let mut bounds = Bounds { min: Pos { x: 0, y: 0 }, max: Pos { x: 0, y: 0 } };
    let mut i: usize = 0;
    while i < painted.len()
        invariant
            i <= painted.len(),
            bounds == bounds_of(painted@, i as int),
        decreases painted.len() - i,
    {
        let c = painted[i];
        if c.x < bounds.min.x {
            bounds.min.x = c.x;
        }
        if c.x > bounds.max.x {
            bounds.max.x = c.x;
        }
        if c.y < bounds.min.y {
            bounds.min.y = c.y;
        }
        if c.y > bounds.max.y {
            bounds.max.y = c.y;
        }
        i = i + 1;
    }
    bounds
}

/// The character that shows the panel at (`x`, `y`): an `X` where it is
/// white, 1, and a blank where it is not.
pub open spec fn glyph(painted: Seq<Panel>, x: int, y: int) -> char {
    if color_at(painted, x as i32, y as i32) == 1 {
        'X'
    } else {
        ' '
    }
}

/// The panels of column `x` from row `from` up to, not including, row `to`.
pub open spec fn column_text(painted: Seq<Panel>, x: int, from: int, to: int) -> Seq<char>
    decreases to - from,
{
    if to <= from {
        Seq::empty()
    } else {
        column_text(painted, x, from, to - 1).push(glyph(painted, x, to - 1))
    }
}

/// The columns from `from` up to, not including, `to`, each a line of the
/// panels between the rows of `bounds`, followed by a line break.
pub open spec fn hull_text(painted: Seq<Panel>, bounds: Bounds, from: int, to: int) -> Seq<char>
    decreases to - from,
{
    if to <= from {
        Seq::empty()
    } else {
        hull_text(painted, bounds, from, to - 1) + column_text(
            painted,
            to - 1,
            bounds.min.y as int,
            bounds.max.y + 1,
        ).push('\n')
    }
}

/// The painted hull within `bounds` as text: one line for each column.
pub fn render(painted: &Vec<Panel>, bounds: &Bounds) -> (res: String)
    ensures
        res@ == hull_text(painted@, *bounds, bounds.min.x as int, bounds.max.x + 1),
{
    let mut out: Vec<char> = Vec::new();
    let mut x: i64 = bounds.min.x as i64;
    let x_end: i64 = bounds.max.x as i64 + 1;
    let y_end: i64 = bounds.max.y as i64 + 1;
    while x < x_end
        invariant
            x_end == bounds.max.x + 1,
            y_end == bounds.max.y + 1,
            bounds.min.x <= x,
            x <= x_end || x == bounds.min.x,
            out@ == hull_text(painted@, *bounds, bounds.min.x as int, x as int),
        decreases x_end - x,
    {
        let ghost before = out@;
        let mut y: i64 = bounds.min.y as i64;
        proof {
            assert(before + column_text(painted@, x as int, bounds.min.y as int, y as int) =~= before);
        }
        while y < y_end
            invariant
                y_end == bounds.max.y + 1,
                bounds.min.x <= x < x_end,
                x_end == bounds.max.x + 1,
                bounds.min.y <= y,
                y <= y_end || y == bounds.min.y,
                out@ == before + column_text(painted@, x as int, bounds.min.y as int, y as int),
            decreases y_end - y,
        {
            let color = match find_panel(painted, x as i32, y as i32) {
                Some(i) => painted[i].color,
                None => 0,
            };
            out.push(if color == 1 { 'X' } else { ' ' });
            y = y + 1;
            proof {
                assert(out@ =~= before + column_text(
                    painted@,
                    x as int,
                    bounds.min.y as int,
                    y as int,
                ));
            }
        }
        out.push('\n');
        x = x + 1;
        proof {
            assert(out@ =~= hull_text(painted@, *bounds, bounds.min.x as int, x as int));
        }
    }
    string_of(&out)
}

} // verus!

//! The repair droid: a map that is drawn as copies of the droid's program
//! try each direction, and the spread of oxygen over it.

use vstd::prelude::*;
use crate::interpreter::{Intcode, STEP_LIMIT};
use crate::machine::{fresh, run_spec, Fault, Machine};
use crate::text::string_of;

verus! {

/// What the droid knows of a cell.
#[derive(Clone, Copy, Debug, PartialEq, Eq, Structural)]
pub enum TileType {
    Unknown,
    Empty,
    Wall,
    OxygenSystem,
}

/// Why an exploration gives no result.
#[derive(Clone, Copy, Debug, PartialEq, Eq, Structural)]
pub enum DroidError {
    /// The program faulted.
    Fault(Fault),
    /// The program's answer to a movement is none of 0, 1 and 2.
    BadStatus,
    /// The droid came to the edge of the map.
    OffMap,
    /// A distance does not fit in 32 bits.
    TooFar,
    /// The search used up its budget of steps.
    StepLimit,
}

/// The droid's map, with each cell's distance from the start.
pub struct Grid {
    pub map: Vec<TileType>,
    pub distance: Vec<u32>,
    pub w: usize,
    pub h: usize,
    pub oxygen_x: usize,
    pub oxygen_y: usize,
}

/// A copy of the droid's program that stands on the cell (`x`, `y`).
pub struct Continuation {
    pub pgm: Intcode,
    pub x: usize,
    pub y: usize,
}

/// The side of the square map.
pub const SIDE: usize = 50;

/// The column on which the droid starts.
pub const DROID_X: usize = 25;

/// The row on which the droid starts.
pub const DROID_Y: usize = 25;

/// A map as a mathematical value.
pub struct Chart {
    pub map: Seq<TileType>,
    pub distance: Seq<u32>,
    pub w: int,
    pub h: int,
    pub oxygen: (int, int),
}

impl Chart {
    /// Whether (`x`, `y`) is a cell of the map.
    pub open spec fn holds(self, x: int, y: int) -> bool {
        0 <= x < self.w && 0 <= y < self.h
    }

    /// The tile at (`x`, `y`).
    pub open spec fn tile(self, x: int, y: int) -> TileType {
        self.map[y * self.w + x]
    }

    /// The distance noted at (`x`, `y`).
    pub open spec fn dist(self, x: int, y: int) -> u32 {
        self.distance[y * self.w + x]
    }

    /// Whether a droid that comes to (`x`, `y`) after `distance` steps has
    /// nothing to learn there: the cell is a wall or the oxygen system, or an
    /// empty cell reached before in as few steps.
    pub open spec fn settled(self, x: int, y: int, distance: u32) -> bool {
        match self.tile(x, y) {
            TileType::Wall => true,
            TileType::OxygenSystem => true,
            TileType::Empty => self.dist(x, y) <= distance,
            TileType::Unknown => false,
        }
    }

    /// The map with `tile` and `distance` noted at (`x`, `y`), and the oxygen
    /// system's place where the tile is that.
    pub open spec fn noted(self, x: int, y: int, tile: TileType, distance: u32) -> Chart {
        Chart {
            map: self.map.update(y * self.w + x, tile),
            distance: self.distance.update(y * self.w + x, distance),
            oxygen: if tile == TileType::OxygenSystem {
                (x, y)
            } else {
                self.oxygen
            },
            ..self
        }
    }
}

impl View for Grid {
    type V = Chart;

    open spec fn view(&self) -> Chart {
        Chart {
            map: self.map@,
            distance: self.distance@,
            w: self.w as int,
            h: self.h as int,
            oxygen: (self.oxygen_x as int, self.oxygen_y as int),
        }
    }
}

/// The tile that the program's answer `status` stands for.
pub open spec fn tile_of(status: i64) -> Option<TileType> {
    if status == 0 {
        Some(TileType::Wall)
    } else if status == 1 {
        Some(TileType::Empty)
    } else if status == 2 {
        Some(TileType::OxygenSystem)
    } else {
        None
    }
}

/// What a droid in state `m` finds when it is told to move by `input`: the
/// tile, or why there is none.
pub open spec fn probe(m: Machine, input: i64) -> Result<TileType, DroidError> {
    let run = run_spec(m, seq![input], STEP_LIMIT as nat);
    match run.fault {
        Some(f) => Err(DroidError::Fault(f)),
        None => if run.output.len() == 0 || tile_of(run.output[0]) is None {
            Err(DroidError::BadStatus)
        } else {
            Ok(tile_of(run.output[0])->Some_0)
        },
    }
}

proof fn lemma_cell(x: int, y: int, w: int, h: int)
    by (nonlinear_arith)
    requires
        0 <= x < w,
        0 <= y < h,
    ensures
        0 <= y * w + x < w * h,
        0 <= y * w,
{
}

impl Grid {
    /// Whether both lists hold `w` times `h` cells.
    pub open spec fn wf(&self) -> bool {
        self.map@.len() == self.w * self.h && self.distance@.len() == self.w * self.h
    }

    /// A map of 50 by 50 unknown cells, each as far away as can be.
    pub fn new() -> (res: Self)
        ensures
            res.wf(),
            res.w == SIDE,
            res.h == SIDE,
            res.oxygen_x == 0 && res.oxygen_y == 0,
            forall|i: int| 0 <= i < SIDE * SIDE ==> #[trigger] res.map@[i] == TileType::Unknown,
            forall|i: int| 0 <= i < SIDE * SIDE ==> #[trigger] res.distance@[i] == u32::MAX,
    {
        let w = SIDE;
        let h = SIDE;
        Grid {
            map: vec![TileType::Unknown; w * h],
            distance: vec![u32::MAX; w * h],
            w,
            h,
            oxygen_x: 0,
            oxygen_y: 0,
        }
    }

    /// The place of (`x`, `y`) in the lists.
    fn index_of(&self, x: usize, y: usize) -> (res: usize)
        requires
            self.wf(),
            self@.holds(x as int, y as int),
        ensures
            res == y * self.w + x,
            res < self.map@.len(),
            res < self.distance@.len(),
    {
        let n = self.map.len();
        proof {
            lemma_cell(x as int, y as int, self.w as int, self.h as int);
        }
        y * self.w + x
    }

    /// The tile at (`x`, `y`).
    pub fn at(&self, x: usize, y: usize) -> (res: &TileType)
        requires
            self.wf(),
            self@.holds(x as int, y as int),
        ensures
            *res == self@.tile(x as int, y as int),
    {
        &self.map[self.index_of(x, y)]
    }

    /// Notes `tile` at (`x`, `y`).
    pub fn set_at(&mut self, x: usize, y: usize, tile: TileType)
        requires
            old(self).wf(),
            old(self)@.holds(x as int, y as int),
        ensures
            final(self).wf(),
            final(self)@ == (Chart { map: old(self)@.map.update(y * old(self).w + x, tile), ..old(self)@ }),
    {
        let i = self.index_of(x, y);
        self.map[i] = tile;
    }

    /// The distance noted at (`x`, `y`).
    pub fn get_distance(&self, x: usize, y: usize) -> (res: u32)
        requires
            self.wf(),
            self@.holds(x as int, y as int),
        ensures
            res == self@.dist(x as int, y as int),
    {
        self.distance[self.index_of(x, y)]
    }

    /// Notes `distance` at (`x`, `y`).
    pub fn set_distance(&mut self, x: usize, y: usize, distance: u32)
        requires
            old(self).wf(),
            old(self)@.holds(x as int, y as int),
        ensures
            final(self).wf(),
            final(self)@ == (Chart {
                distance: old(self)@.distance.update(y * old(self).w + x, distance),
                ..old(self)@
            }),
    {
        let i = self.index_of(x, y);
        self.distance[i] = distance;
    }

    /// The place of the oxygen system, (0, 0) until it is found.
    pub fn get_oxygen_position(&self) -> (res: (usize, usize))
        ensures
            res == (self.oxygen_x, self.oxygen_y),
    {
        (self.oxygen_x, self.oxygen_y)
    }

    /// Notes the place of the oxygen system.
    pub fn set_oxygen_position(&mut self, x: usize, y: usize)
        ensures
            final(self)@ == (Chart { oxygen: (x as int, y as int), ..old(self)@ }),
            final(self).wf() == old(self).wf(),
    {
        self.oxygen_x = x;
        self.oxygen_y = y;
    }
}

/// Lets a copy of the droid `pgm` try the movement `input`, which leads to
/// the cell (`x`, `y`) after `distance` steps, unless the map has nothing to
/// learn there. Notes what the copy finds, and keeps the copy for later where
/// it has moved to an empty cell.
pub fn run_continuation(
    pgm: &Intcode,
    x: usize,
    y: usize,
    input: i64,
    distance: u32,
    grid: &mut Grid,
    conts: &mut Vec<Continuation>,
) -> (res: Result<(), DroidError>)
    requires
        old(grid).wf(),
        old(grid)@.holds(x as int, y as int),
    ensures
        final(grid).wf(),
        old(grid)@.settled(x as int, y as int, distance) ==> res is Ok && final(grid)@ == old(grid)@
            && final(conts)@ == old(conts)@,
        !old(grid)@.settled(x as int, y as int, distance) ==> match probe(pgm@, input) {
            Err(e) => res == Err::<(), DroidError>(e) && final(grid)@ == old(grid)@ && final(conts)@
                == old(conts)@,
            Ok(tile) => {
                &&& res is Ok
                &&& final(grid)@ == old(grid)@.noted(x as int, y as int, tile, distance)
                &&& tile != TileType::Empty ==> final(conts)@ == old(conts)@
                &&& tile == TileType::Empty ==> {
                    &&& final(conts)@.len() == old(conts)@.len() + 1
                    &&& final(conts)@.drop_last() == old(conts)@
                    &&& final(conts)@.last().x == x
                    &&& final(conts)@.last().y == y
                    &&& final(conts)@.last().pgm@ == run_spec(
                        pgm@,
                        seq![input],
                        STEP_LIMIT as nat,
                    ).machine
                }
            },
        },
{
    match grid.at(x, y) {
        TileType::Wall => { return Ok(()); },
        TileType::OxygenSystem => { return Ok(()); },
        TileType::Empty => {
            if grid.get_distance(x, y) <= distance {
                return Ok(());
            }
        },
        TileType::Unknown => {},
    }
    let mut copy = pgm.clone();
    let inputs: Vec<i64> = vec![input];
    proof {
        assert(inputs@ =~= seq![input]);
    }
    let output = match copy.run(inputs.as_slice()) {
        Ok(output) => output,
        Err(f) => { return Err(DroidError::Fault(f)); },
    };
    if output.len() == 0 {
        return Err(DroidError::BadStatus);
    }
    let status = output[0];
    let tile = if status == 0 {
        TileType::Wall
    } else if status == 1 {
        TileType::Empty
    } else if status == 2 {
        TileType::OxygenSystem
    } else {
        return Err(DroidError::BadStatus);
    };
    grid.set_at(x, y, tile);
    grid.set_distance(x, y, distance);
    if status == 1 {
        conts.push(Continuation { pgm: copy, x, y });
        proof {
            assert(conts@.drop_last() =~= old(conts)@);
        }
    }
    if status == 2 {
        grid.set_oxygen_position(x, y);
    }
    Ok(())
}

/// Puts (`x`, `y`) on the stack where it is an empty cell that the oxygen
/// can reach in fewer than the steps noted there.
pub fn add_empty_tile(x: usize, y: usize, distance: u32, grid: &Grid, stack: &mut Vec<(usize, usize)>)
    requires
        grid.wf(),
        grid@.holds(x as int, y as int),
    ensures
        final(stack)@ == (if grid@.dist(x as int, y as int) > distance && grid@.tile(
            x as int,
            y as int,
        ) == TileType::Empty {
            old(stack)@.push((x, y))
        } else {
            old(stack)@
        }),
{
    if grid.get_distance(x, y) <= distance {
        return ;
    }
    if let TileType::Empty = grid.at(x, y) {
        stack.push((x, y));
    }
}

/// A copy of the droid's program on its cell, as a mathematical value.
pub struct Spot {
    pub m: Machine,
    pub x: int,
    pub y: int,
}

/// The views of a stack of continuations.
pub open spec fn spots_of(conts: Seq<Continuation>) -> Seq<Spot> {
    conts.map_values(|c: Continuation| Spot { m: c.pgm@, x: c.x as int, y: c.y as int })
}

/// What one try of a movement does to the map and the stack; see
/// `run_continuation`. A cell off the map is an error.
pub open spec fn visit(
    chart: Chart,
    stack: Seq<Spot>,
    m: Machine,
    x: int,
    y: int,
    input: i64,
    distance: u32,
) -> Result<(Chart, Seq<Spot>), DroidError> {
    if !chart.holds(x, y) {
        Err(DroidError::OffMap)
    } else if chart.settled(x, y, distance) {
        Ok((chart, stack))
    } else {
        match probe(m, input) {
            Err(e) => Err(e),
            Ok(tile) => Ok(
                (
                    chart.noted(x, y, tile, distance),
                    if tile == TileType::Empty {
                        stack.push(
                            Spot { m: run_spec(m, seq![input], STEP_LIMIT as nat).machine, x, y },
                        )
                    } else {
                        stack
                    },
                ),
            ),
        }
    }
}

/// A try of the movement `input` after the tries before it, which may have
/// failed.
pub open spec fn then_visit(
    before: Result<(Chart, Seq<Spot>), DroidError>,
    m: Machine,
    x: int,
    y: int,
    input: i64,
    distance: u32,
) -> Result<(Chart, Seq<Spot>), DroidError> {
    match before {
        Err(e) => Err(e),
        Ok((chart, stack)) => visit(chart, stack, m, x, y, input, distance),
    }
}

/// What the copy `c` does to the map and the stack: it tries north, south,
/// west and east, in this order, each one step further than its own cell.
pub open spec fn expand(chart: Chart, stack: Seq<Spot>, c: Spot) -> Result<
    (Chart, Seq<Spot>),
    DroidError,
> {
    if !chart.holds(c.x, c.y) {
        Err(DroidError::OffMap)
    } else if chart.dist(c.x, c.y) == u32::MAX {
        Err(DroidError::TooFar)
    } else {
        let d = (chart.dist(c.x, c.y) + 1) as u32;
        then_visit(
            then_visit(
                then_visit(visit(chart, stack, c.m, c.x, c.y - 1, 1, d), c.m, c.x, c.y + 1, 2, d),
                c.m,
                c.x - 1,
                c.y,
                3,
                d,
            ),
            c.m,
            c.x + 1,
            c.y,
            4,
            d,
        )
    }
}

/// The map after the copies on the stack, and those that they leave behind,
/// have all had their turn, the top of the stack first, in at most `fuel`
/// turns.
pub open spec fn explored(chart: Chart, stack: Seq<Spot>, fuel: nat) -> Result<Chart, DroidError>
    decreases fuel,
{
    if stack.len() == 0 {
        Ok(chart)
    } else if fuel == 0 {
        Err(DroidError::StepLimit)
    } else {
        match expand(chart, stack.drop_last(), stack.last()) {
            Err(e) => Err(e),
            Ok((next, rest)) => explored(next, rest, (fuel - 1) as nat),
        }
    }
}

/// The map before the droid has moved: its own cell is empty, at distance 0.
pub open spec fn started(chart: Chart) -> Chart {
    Chart {
        map: chart.map.update(DROID_Y * chart.w + DROID_X, TileType::Empty),
        distance: chart.distance.update(DROID_Y * chart.w + DROID_X, 0),
        ..chart
    }
}

/// The distance from the droid's cell to the oxygen system on the map that
/// the program `program` lets the droid draw on `chart`.
pub open spec fn oxygen_distance(program: Seq<i64>, chart: Chart, fuel: nat) -> Result<
    (Chart, u32),
    DroidError,
> {
    match explored(
        started(chart),
        seq![Spot { m: fresh(program), x: DROID_X as int, y: DROID_Y as int }],
        fuel,
    ) {
        Err(e) => Err(e),
        Ok(done) => if done.holds(done.oxygen.0, done.oxygen.1) {
            Ok((done, done.dist(done.oxygen.0, done.oxygen.1)))
        } else {
            Err(DroidError::OffMap)
        },
    }
}

/// One try of a movement; see `visit`.
fn try_move(
    pgm: &Intcode,
    x: usize,
    y: usize,
    input: i64,
    distance: u32,
    grid: &mut Grid,
    conts: &mut Vec<Continuation>,
) -> (res: Result<(), DroidError>)
    requires
        old(grid).wf(),
    ensures
        final(grid).wf(),
        match visit(old(grid)@, spots_of(old(conts)@), pgm@, x as int, y as int, input, distance) {
            Err(e) => res == Err::<(), DroidError>(e),
            Ok((chart, stack)) => res is Ok && final(grid)@ == chart && spots_of(final(conts)@)
                == stack,
        },
{
    if x >= grid.w || y >= grid.h {
        return Err(DroidError::OffMap);
    }
    let res = run_continuation(pgm, x, y, input, distance, grid, conts);
    proof {
        if res is Ok && conts@.len() == old(conts)@.len() + 1 {
            assert(spots_of(conts@).drop_last() =~= spots_of(conts@.drop_last()));
            assert(spots_of(conts@) =~= spots_of(old(conts)@).push(
                Spot { m: conts@.last().pgm@, x: x as int, y: y as int },
            ));
        }
    }
    res
}

/// Lets the droid that runs `state` draw the map on `grid`, over at most
/// `max_steps` cells left, and returns the distance from its own cell to the
/// oxygen system.
pub fn explore(state: &Vec<i64>, grid: &mut Grid, max_steps: u64) -> (res: Result<u32, DroidError>)
    requires
        old(grid).wf(),
        old(grid)@.holds(DROID_X as int, DROID_Y as int),
    ensures
        final(grid).wf(),
        match oxygen_distance(state@, old(grid)@, max_steps as nat) {
            Err(e) => res == Err::<u32, DroidError>(e),
            Ok((chart, distance)) => res == Ok::<u32, DroidError>(distance) && final(grid)@
                == chart,
        },
{
    let mut stack: Vec<Continuation> = Vec::new();
    grid.set_at(DROID_X, DROID_Y, TileType::Empty);
    grid.set_distance(DROID_X, DROID_Y, 0);
    stack.push(Continuation { pgm: Intcode::new(state), x: DROID_X, y: DROID_Y });
    proof {
        assert(grid@ == started(old(grid)@));
        assert(spots_of(stack@) =~= seq![
            Spot { m: fresh(state@), x: DROID_X as int, y: DROID_Y as int },
        ]);
    }
    let ghost goal = explored(grid@, spots_of(stack@), max_steps as nat);
    let mut left = max_steps;
    while stack.len() > 0
        invariant
            grid.wf(),
            goal == explored(
                started(old(grid)@),
                seq![Spot { m: fresh(state@), x: DROID_X as int, y: DROID_Y as int }],
                max_steps as nat,
            ),
            explored(grid@, spots_of(stack@), left as nat) == goal,
        decreases left,
    {
        if left == 0 {
            return Err(DroidError::StepLimit);
        }
        let ghost all = spots_of(stack@);
        let c = match stack.pop() {
            Some(c) => c,
            None => { return Err(DroidError::StepLimit); },
        };
        proof {
            assert(spots_of(stack@) =~= all.drop_last());
            assert(all.last() == (Spot { m: c.pgm@, x: c.x as int, y: c.y as int }));
        }
        if c.x >= grid.w || c.y >= grid.h {
            return Err(DroidError::OffMap);
        }
        let here = grid.get_distance(c.x, c.y);
        if here == u32::MAX {
            return Err(DroidError::TooFar);
        }
        let distance = here + 1;
        if c.y == 0 {
            return Err(DroidError::OffMap);
        }
        match try_move(&c.pgm, c.x, c.y - 1, 1, distance, grid, &mut stack) {
            Err(e) => { return Err(e); },
            Ok(_) => {},
        }
        match try_move(&c.pgm, c.x, c.y + 1, 2, distance, grid, &mut stack) {
            Err(e) => { return Err(e); },
            Ok(_) => {},
        }
        if c.x == 0 {
            return Err(DroidError::OffMap);
        }
        match try_move(&c.pgm, c.x - 1, c.y, 3, distance, grid, &mut stack) {
            Err(e) => { return Err(e); },
            Ok(_) => {},
        }
        match try_move(&c.pgm, c.x + 1, c.y, 4, distance, grid, &mut stack) {
            Err(e) => { return Err(e); },
            Ok(_) => {},
        }
        left = left - 1;
    }
    let (x, y) = grid.get_oxygen_position();
    if x >= grid.w || y >= grid.h {
        return Err(DroidError::OffMap);
    }
    Ok(grid.get_distance(x, y))
}

/// The views of a stack of cells.
pub open spec fn cells_of(stack: Seq<(usize, usize)>) -> Seq<(int, int)> {
    stack.map_values(|c: (usize, usize)| (c.0 as int, c.1 as int))
}

/// The stack `next` with the cell (`x`, `y`) on it where the cell is empty
/// and noted as further away than `distance`; see `add_empty_tile`. A cell
/// off the map is an error.
pub open spec fn reached(chart: Chart, next: Seq<(int, int)>, x: int, y: int, distance: u32) -> Result<
    Seq<(int, int)>,
    DroidError,
> {
    if !chart.holds(x, y) {
        Err(DroidError::OffMap)
    } else if chart.dist(x, y) > distance && chart.tile(x, y) == TileType::Empty {
        Ok(next.push((x, y)))
    } else {
        Ok(next)
    }
}

/// The same after an earlier step, which may have failed.
pub open spec fn then_reached(
    before: Result<Seq<(int, int)>, DroidError>,
    chart: Chart,
    x: int,
    y: int,
    distance: u32,
) -> Result<Seq<(int, int)>, DroidError> {
    match before {
        Err(e) => Err(e),
        Ok(next) => reached(chart, next, x, y, distance),
    }
}

/// The oxygen's step from the cells on `stack`, which it reaches after
/// `distance` minutes: each is noted with that distance, the top of the stack
/// first, and its neighbours to the north, south, west and east are put on
/// `next` where the oxygen has yet to come. The result is the map and `next`.
pub open spec fn layer(chart: Chart, stack: Seq<(int, int)>, next: Seq<(int, int)>, distance: u32) -> Result<
    (Chart, Seq<(int, int)>),
    DroidError,
>
    decreases stack.len(),
{
    if stack.len() == 0 {
        Ok((chart, next))
    } else {
        let c = stack.last();
        let marked = Chart { distance: chart.distance.update(c.1 * chart.w + c.0, distance), ..chart };
        if !chart.holds(c.0, c.1) {
            Err(DroidError::OffMap)
        } else if distance == u32::MAX {
            Err(DroidError::TooFar)
        } else {
            let d = (distance + 1) as u32;
            match then_reached(
                then_reached(
                    then_reached(reached(marked, next, c.0, c.1 - 1, d), marked, c.0, c.1 + 1, d),
                    marked,
                    c.0 - 1,
                    c.1,
                    d,
                ),
                marked,
                c.0 + 1,
                c.1,
                d,
            ) {
                Err(e) => Err(e),
                Ok(next1) => layer(marked, stack.drop_last(), next1, distance),
            }
        }
    }
}

/// The minutes after which the oxygen has come everywhere, and the map with
/// the minute noted at each cell: the oxygen goes on from `stack` at minute
/// `distance`, for at most `fuel` minutes more.
pub open spec fn spread(chart: Chart, stack: Seq<(int, int)>, distance: u32, fuel: nat) -> Result<
    (Chart, u32),
    DroidError,
>
    decreases fuel,
{
    if stack.len() == 0 {
        Ok((chart, (distance - 1) as u32))
    } else if fuel == 0 {
        Err(DroidError::StepLimit)
    } else {
        match layer(chart, stack, Seq::empty(), distance) {
            Err(e) => Err(e),
            Ok((next_chart, next)) => spread(next_chart, next, (distance + 1) as u32, (fuel - 1) as nat),
        }
    }
}

/// The map with every cell noted as far away as can be.
pub open spec fn cleared(chart: Chart) -> Chart {
    Chart { distance: Seq::new(chart.distance.len(), |i: int| u32::MAX), ..chart }
}

/// Puts a neighbour on the stack where the oxygen has yet to come; see
/// `reached`.
fn reach(x: usize, y: usize, distance: u32, grid: &Grid, stack: &mut Vec<(usize, usize)>) -> (res:
    Result<(), DroidError>)
    requires
        grid.wf(),
    ensures
        match reached(grid@, cells_of(old(stack)@), x as int, y as int, distance) {
            Err(e) => res == Err::<(), DroidError>(e),
            Ok(next) => res is Ok && cells_of(final(stack)@) == next,
        },
{
    if x >= grid.w || y >= grid.h {
        return Err(DroidError::OffMap);
    }
    add_empty_tile(x, y, distance, grid, stack);
    proof {
        assert(cells_of(stack@) =~= (if grid@.dist(x as int, y as int) > distance && grid@.tile(
            x as int,
            y as int,
        ) == TileType::Empty {
            cells_of(old(stack)@).push((x as int, y as int))
        } else {
            cells_of(old(stack)@)
        }));
    }
    Ok(())
}

/// Lets the oxygen spread from the oxygen system over the empty cells, for at
/// most `max_minutes` minutes, noting at each cell the minute in which the
/// oxygen comes to it, and returns the minute in which it has come
/// everywhere.
pub fn spread_oxygen(grid: &mut Grid, max_minutes: u32) -> (res: Result<u32, DroidError>)
    requires
        old(grid).wf(),
    ensures
        final(grid).wf(),
        match spread(
            cleared(old(grid)@),
            seq![old(grid)@.oxygen],
            0,
            max_minutes as nat,
        ) {
            Err(e) => res == Err::<u32, DroidError>(e),
            Ok((chart, minutes)) => res == Ok::<u32, DroidError>(minutes) && final(grid)@ == chart,
        },
{
    let mut i: usize = 0;
    while i < grid.distance.len()
        invariant
            grid.wf(),
            i <= grid.distance@.len(),
            grid@.map == old(grid)@.map,
            grid@.w == old(grid)@.w,
            grid@.h == old(grid)@.h,
            grid@.oxygen == old(grid)@.oxygen,
            grid@.distance.len() == old(grid)@.distance.len(),
            forall|k: int| 0 <= k < i ==> #[trigger] grid@.distance[k] == u32::MAX,
        decreases grid.distance@.len() - i,
    {
        grid.distance[i] = u32::MAX;
        i = i + 1;
    }
    proof {
        assert(grid@.distance =~= cleared(old(grid)@).distance);
    }
    let ghost goal = spread(
        cleared(old(grid)@),
        seq![old(grid)@.oxygen],
        0,
        max_minutes as nat,
    );
    let mut stack: Vec<(usize, usize)> = Vec::new();
    let mut distance: u32 = 0;
    let mut left = max_minutes;
    stack.push(grid.get_oxygen_position());
    proof {
        assert(cells_of(stack@) =~= seq![old(grid)@.oxygen]);
    }
    while stack.len() > 0
        invariant
            grid.wf(),
            distance + left == max_minutes,
            distance > 0 || stack@.len() > 0,
            goal == spread(cleared(old(grid)@), seq![old(grid)@.oxygen], 0, max_minutes as nat),
            spread(grid@, cells_of(stack@), distance, left as nat) == goal,
        decreases left,
    {
        if left == 0 {
            return Err(DroidError::StepLimit);
        }
        let mut new_stack: Vec<(usize, usize)> = Vec::new();
        let ghost target = layer(grid@, cells_of(stack@), Seq::empty(), distance);
        proof {
            assert(cells_of(new_stack@) =~= Seq::<(int, int)>::empty());
        }
        while stack.len() > 0
            invariant
                grid.wf(),
                distance < u32::MAX,
                left > 0,
                goal == spread(cleared(old(grid)@), seq![old(grid)@.oxygen], 0, max_minutes as nat),
                goal == (match target {
                    Err(e) => Err(e),
                    Ok((chart, next)) => spread(
                        chart,
                        next,
                        (distance + 1) as u32,
                        (left - 1) as nat,
                    ),
                }),
                layer(grid@, cells_of(stack@), cells_of(new_stack@), distance) == target,
            decreases stack.len(),
        {
            let ghost all = cells_of(stack@);
            let (x, y) = match stack.pop() {
                Some(c) => c,
                None => { return Err(DroidError::StepLimit); },
            };
            proof {
                assert(cells_of(stack@) =~= all.drop_last());
                assert(all.last() == (x as int, y as int));
            }
            if x >= grid.w || y >= grid.h {
                return Err(DroidError::OffMap);
            }
            grid.set_distance(x, y, distance);
            if y == 0 {
                return Err(DroidError::OffMap);
            }
            match reach(x, y - 1, distance + 1, grid, &mut new_stack) {
                Err(e) => { return Err(e); },
                Ok(_) => {},
            }
            match reach(x, y + 1, distance + 1, grid, &mut new_stack) {
                Err(e) => { return Err(e); },
                Ok(_) => {},
            }
            if x == 0 {
                return Err(DroidError::OffMap);
            }
            match reach(x - 1, y, distance + 1, grid, &mut new_stack) {
                Err(e) => { return Err(e); },
                Ok(_) => {},
            }
            match reach(x + 1, y, distance + 1, grid, &mut new_stack) {
                Err(e) => { return Err(e); },
                Ok(_) => {},
            }
        }
        stack = new_stack;
        distance = distance + 1;
        left = left - 1;
    }
    Ok(distance - 1)
}

/// The character that shows the cell (`x`, `y`): `D` for the droid's own
/// cell, else a blank for an unknown cell, a dot for an empty one, `#` for a
/// wall and `O` for the oxygen system.
pub open spec fn glyph(chart: Chart, x: int, y: int) -> char {
    if x == DROID_X && y == DROID_Y {
        'D'
    } else {
        match chart.tile(x, y) {
            TileType::Unknown => ' ',
            TileType::Empty => '.',
            TileType::Wall => '#',
            TileType::OxygenSystem => 'O',
        }
    }
}

/// The first `k` characters of row `y` of the map.
pub open spec fn row_text(chart: Chart, y: int, k: int) -> Seq<char>
    decreases k,
{
    if k <= 0 {
        Seq::empty()
    } else {
        row_text(chart, y, k - 1).push(glyph(chart, k - 1, y))
    }
}

/// The first `rows` rows of the map, each followed by a line break.
pub open spec fn map_text(chart: Chart, rows: int) -> Seq<char>
    decreases rows,
{
    if rows <= 0 {
        Seq::empty()
    } else {
        map_text(chart, rows - 1) + row_text(chart, rows - 1, chart.w).push('\n')
    }
}

impl Grid {
    /// The map as text: row by row, each followed by a line break.
    pub fn to_string(&self) -> (res: String)
        requires
            self.wf(),
        ensures
            res@ == map_text(self@, self.h as int),
    {
        let mut out: Vec<char> = Vec::new();
        let mut y: usize = 0;
        while y < self.h
            invariant
                y <= self.h,
                self.wf(),
                out@ == map_text(self@, y as int),
            decreases self.h - y,
        {
            let ghost above = out@;
            let mut x: usize = 0;
            proof {
                assert(above + row_text(self@, y as int, 0) =~= above);
            }
            while x < self.w
                invariant
                    x <= self.w,
                    y < self.h,
                    self.wf(),
                    out@ == above + row_text(self@, y as int, x as int),
                decreases self.w - x,
            {
                let c = if x == DROID_X && y == DROID_Y {
                    'D'
                } else {
                    match self.at(x, y) {
                        TileType::Unknown => ' ',
                        TileType::Empty => '.',
                        TileType::Wall => '#',
                        TileType::OxygenSystem => 'O',
                    }
                };
                out.push(c);
                x = x + 1;
                proof {
                    assert(out@ =~= above + row_text(self@, y as int, x as int));
                }
            }
            out.push('\n');
            y = y + 1;
            proof {
                assert(out@ =~= map_text(self@, y as int));
            }
        }
        string_of(&out)
    }
}

} // verus!

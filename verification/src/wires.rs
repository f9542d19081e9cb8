//! Two wires on a grid: the extent of their circuits, the chart that one of
//! them is drawn on, and where the other one crosses it.

use vstd::prelude::*;
use vstd::string::StringSliceAdditionalSpecFns;
use crate::text::{is_number, parse_decimal, value_of};

verus! {

/// The four directions in which a wire runs.
#[derive(Clone, Copy, Debug, PartialEq, Eq, Structural)]
pub enum Direction {
    Up,
    Down,
    Left,
    Right,
}

/// A straight run of `unit` cells in one direction.
#[derive(Clone, Copy, Debug, PartialEq, Eq, Structural)]
pub struct Movement {
    pub direction: Direction,
    pub unit: u32,
}

/// The direction that a letter stands for: U, D, L or R.
pub open spec fn direction_of(letter: u8) -> Option<Direction> {
    if letter == 85 {
        Some(Direction::Up)
    } else if letter == 68 {
        Some(Direction::Down)
    } else if letter == 76 {
        Some(Direction::Left)
    } else if letter == 82 {
        Some(Direction::Right)
    } else {
        None
    }
}

/// The digits of a movement's text: what follows the letter and a plus sign,
/// where there is one.
pub open spec fn unit_digits(text: Seq<u8>) -> Seq<u8> {
    if text.len() >= 2 && text[1] == 43 {
        text.subrange(2, text.len() as int)
    } else if text.len() >= 1 {
        text.subrange(1, text.len() as int)
    } else {
        text
    }
}

/// The movement that `text` spells: a letter for the direction, then the
/// number of cells in decimal digits, which fits in 32 bits.
pub open spec fn movement_of(text: Seq<u8>) -> Option<Movement> {
    if text.len() == 0 || direction_of(text[0]) is None || !is_number(unit_digits(text)) || value_of(
        unit_digits(text),
    ) > u32::MAX {
        None
    } else {
        Some(
            Movement {
                direction: direction_of(text[0])->Some_0,
                unit: value_of(unit_digits(text)) as u32,
            },
        )
    }
}

impl Movement {
    /// Reads a movement such as `R75`; `None` where `s` spells none.
    pub fn from_str(s: &str) -> (res: Option<Movement>)
        ensures
            res == movement_of(s.spec_bytes()),
    {
        let bytes = s.as_bytes();
        if bytes.len() == 0 {
            return None;
        }
        let letter = bytes[0];
        let direction = if letter == 85 {
            Direction::Up
        } else if letter == 68 {
            Direction::Down
        } else if letter == 76 {
            Direction::Left
        } else if letter == 82 {
            Direction::Right
        } else {
            return None;
        };
        let from: usize = if bytes.len() >= 2 && bytes[1] == 43 {
            2
        } else {
            1
        };
        match parse_decimal(bytes, from, bytes.len()) {
            Some(unit) => {
                if unit > u32::MAX as u64 {
                    None
                } else {
                    Some(Movement { direction, unit: unit as u32 })
                }
            },
            None => None,
        }
    }
}

/// A cell of the grid.
#[derive(Clone, Copy, Debug, PartialEq, Eq, Structural)]
pub struct Pos {
    pub x: i32,
    pub y: i32,
}

impl View for Pos {
    type V = (int, int);

    open spec fn view(&self) -> (int, int) {
        (self.x as int, self.y as int)
    }
}

/// The cell `k` steps from `p` in direction `d`.
pub open spec fn shift(p: (int, int), d: Direction, k: int) -> (int, int) {
    match d {
        Direction::Up => (p.0, p.1 + k),
        Direction::Down => (p.0, p.1 - k),
        Direction::Left => (p.0 - k, p.1),
        Direction::Right => (p.0 + k, p.1),
    }
}

/// The cell where a movement from `p` ends.
pub open spec fn moved(p: (int, int), m: Movement) -> (int, int) {
    shift(p, m.direction, m.unit as int)
}

/// The cells that a movement from `p` passes, `p` itself left out.
pub open spec fn segment(p: (int, int), m: Movement) -> Seq<(int, int)> {
    Seq::new(m.unit as nat, |i: int| shift(p, m.direction, i + 1))
}

/// The cell where a circuit from `p` ends.
pub open spec fn end_of(p: (int, int), circuit: Seq<Movement>) -> (int, int)
    decreases circuit.len(),
{
    if circuit.len() == 0 {
        p
    } else {
        moved(end_of(p, circuit.drop_last()), circuit.last())
    }
}

/// The cells that a circuit from `p` passes, in order, `p` itself left out.
pub open spec fn path(p: (int, int), circuit: Seq<Movement>) -> Seq<(int, int)>
    decreases circuit.len(),
{
    if circuit.len() == 0 {
        Seq::empty()
    } else {
        path(p, circuit.drop_last()) + segment(end_of(p, circuit.drop_last()), circuit.last())
    }
}

/// Whether both coordinates of `p` are 32-bit values.
pub open spec fn fits(p: (int, int)) -> bool {
    i32::MIN <= p.0 <= i32::MAX && i32::MIN <= p.1 <= i32::MAX
}

/// Whether every corner of a circuit from `p` has 32-bit coordinates.
pub open spec fn corners_fit(p: (int, int), circuit: Seq<Movement>) -> bool {
    forall|k: int| 0 <= k <= circuit.len() ==> fits(#[trigger] end_of(p, circuit.take(k)))
}

/// The views of a list of cells.
pub open spec fn cells_of(cells: Seq<Pos>) -> Seq<(int, int)> {
    cells.map_values(|p: Pos| p@)
}

proof fn lemma_take_next<T>(s: Seq<T>, i: int)
    requires
        0 <= i < s.len(),
    ensures
        s.take(i + 1).drop_last() == s.take(i),
        s.take(i + 1).last() == s[i],
        s.take(s.len() as int) == s,
{
    assert(s.take(i + 1).drop_last() =~= s.take(i));
    assert(s.take(s.len() as int) =~= s);
}

impl Pos {
    /// Walks the movement cell by cell and returns the cells passed, in
    /// order; the position ends on the last of them.
    pub fn apply_movement(&mut self, mov: &Movement) -> (cells: Vec<Pos>)
        requires
            fits(moved(old(self)@, *mov)),
        ensures
            final(self)@ == moved(old(self)@, *mov),
            cells_of(cells@) == segment(old(self)@, *mov),
    {
        let mut cells: Vec<Pos> = Vec::new();
        let mut i: u32 = 0;
        while i < mov.unit
            invariant
                i <= mov.unit,
                fits(moved(old(self)@, *mov)),
                self@ == shift(old(self)@, mov.direction, i as int),
                cells@.len() == i,
                forall|k: int| 0 <= k < i ==> (#[trigger] cells@[k])@ == shift(old(self)@, mov.direction, k + 1),
            decreases mov.unit - i,
        {
            match mov.direction {
                Direction::Up => { self.y = self.y + 1; },
                Direction::Down => { self.y = self.y - 1; },
                Direction::Left => { self.x = self.x - 1; },
                Direction::Right => { self.x = self.x + 1; },
            }
            cells.push(Pos { x: self.x, y: self.y });
            i = i + 1;
        }
        proof {
            assert(cells_of(cells@) =~= segment(old(self)@, *mov));
        }
        cells
    }
}

/// The smallest axis-parallel rectangle around some cells, as integers.
pub struct Extent {
    pub x_min: int,
    pub x_max: int,
    pub y_min: int,
    pub y_max: int,
}

impl Extent {
    /// The extent grown to hold `p`.
    pub open spec fn grown_to(self, p: (int, int)) -> Extent {
        Extent {
            x_min: if p.0 < self.x_min { p.0 } else { self.x_min },
            x_max: if p.0 > self.x_max { p.0 } else { self.x_max },
            y_min: if p.1 < self.y_min { p.1 } else { self.y_min },
            y_max: if p.1 > self.y_max { p.1 } else { self.y_max },
        }
    }

    /// Whether the extent holds the cell that every circuit starts from.
    pub open spec fn holds_origin(self) -> bool {
        self.x_min <= 0 <= self.x_max && self.y_min <= 0 <= self.y_max
    }

    /// The number of columns.
    pub open spec fn width(self) -> int {
        self.x_max - self.x_min + 1
    }

    /// The number of rows.
    pub open spec fn height(self) -> int {
        self.y_max - self.y_min + 1
    }
}

/// The extent `e` grown to hold every corner of a circuit from the origin.
pub open spec fn extent_after(e: Extent, circuit: Seq<Movement>) -> Extent
    decreases circuit.len(),
{
    if circuit.len() == 0 {
        e
    } else {
        extent_after(e, circuit.drop_last()).grown_to(end_of((0, 0), circuit))
    }
}

/// The extent of the circuits added so far. It always holds the origin.
pub struct Bounds {
    x_min: i32,
    x_max: i32,
    y_min: i32,
    y_max: i32,
}

impl View for Bounds {
    type V = Extent;

    closed spec fn view(&self) -> Extent {
        Extent {
            x_min: self.x_min as int,
            x_max: self.x_max as int,
            y_min: self.y_min as int,
            y_max: self.y_max as int,
        }
    }
}

impl Bounds {
    /// The invariant: the origin lies within the bounds, and the bounds are
    /// 32-bit values.
    pub open spec fn wf(&self) -> bool {
        &&& self@.holds_origin()
        &&& fits((self@.x_min, self@.y_min))
        &&& fits((self@.x_max, self@.y_max))
    }

    /// The bounds of the origin alone.
    pub fn new() -> (res: Self)
        ensures
            res.wf(),
            res@ == (Extent { x_min: 0, x_max: 0, y_min: 0, y_max: 0 }),
    {
        Bounds { x_min: 0, x_max: 0, y_min: 0, y_max: 0 }
    }

    /// Grows the bounds to hold every corner of `circuit`, which starts at the
    /// origin.
    pub fn add_circuit(&mut self, circuit: &Vec<Movement>)
        requires
            old(self).wf(),
            corners_fit((0, 0), circuit@),
        ensures
            final(self).wf(),
            final(self)@ == extent_after(old(self)@, circuit@),
    {
        let mut x_pos: i32 = 0;
        let mut y_pos: i32 = 0;
        let n = circuit.len();
        let mut i: usize = 0;
        while i < n
            invariant
                i <= n,
                n == circuit@.len(),
                corners_fit((0, 0), circuit@),
                self.wf(),
                (x_pos as int, y_pos as int) == end_of((0, 0), circuit@.take(i as int)),
                self@ == extent_after(old(self)@, circuit@.take(i as int)),
            decreases n - i,
        {
            let mov = circuit[i];
            proof {
                lemma_take_next(circuit@, i as int);
                assert(fits(end_of((0, 0), circuit@.take(i + 1))));
            }
            let unit = mov.unit as i64;
            match mov.direction {
                Direction::Up => { y_pos = (y_pos as i64 + unit) as i32; },
                Direction::Down => { y_pos = (y_pos as i64 - unit) as i32; },
                Direction::Left => { x_pos = (x_pos as i64 - unit) as i32; },
                Direction::Right => { x_pos = (x_pos as i64 + unit) as i32; },
            }
            if x_pos < self.x_min {
                self.x_min = x_pos;
            }
            if x_pos > self.x_max {
                self.x_max = x_pos;
            }
            if y_pos < self.y_min {
                self.y_min = y_pos;
            }
            if y_pos > self.y_max {
                self.y_max = y_pos;
            }
            i = i + 1;
        }
        proof {
            assert(circuit@.take(n as int) =~= circuit@);
        }
    }

    /// The number of columns and of rows.
    pub fn get_size(&self) -> (res: (usize, usize))
        requires
            self.wf(),
            self@.width() <= usize::MAX,
            self@.height() <= usize::MAX,
        ensures
            res.0 == self@.width(),
            res.1 == self@.height(),
    {
        (
            (self.x_max as i64 - self.x_min as i64 + 1) as usize,
            (self.y_max as i64 - self.y_min as i64 + 1) as usize,
        )
    }

    /// The origin's cell, counted from the lower left corner of the bounds.
    pub fn get_central_port_position(&self) -> (res: Pos)
        requires
            self.wf(),
            self@.x_min > i32::MIN,
            self@.y_min > i32::MIN,
        ensures
            res@ == (-self@.x_min, -self@.y_min),
    {
        Pos { x: -self.x_min, y: -self.y_min }
    }

    /// An empty chart of the size of the bounds.
    pub fn into_map(&self) -> (res: WireMap)
        requires
            self.wf(),
            self@.x_min > i32::MIN,
            self@.y_min > i32::MIN,
            self@.width() * self@.height() <= usize::MAX,
        ensures
            res.wf(),
            res@ == (Chart {
                cells: Seq::new((self@.width() * self@.height()) as nat, |i: int| 0u32),
                width: self@.width(),
                port: (-self@.x_min, -self@.y_min),
            }),
    {
        proof {
            lemma_factors_fit(self@.width(), self@.height());
        }
        let (w, h) = self.get_size();
        let cp = self.get_central_port_position();
        let grid: Vec<u32> = vec![0u32; w * h];
        proof {
            assert(grid@ =~= Seq::new((self@.width() * self@.height()) as nat, |i: int| 0u32));
            lemma_cell_index(cp@.0, cp@.1, w as int, h as int);
        }
        WireMap { grid, w, cp }
    }
}

/// The path of a circuit's first `i` movements opens the path of its first
/// `j`, and the next movement's segment follows it.
proof fn lemma_path_prefix(p: (int, int), circuit: Seq<Movement>, i: int, j: int)
    requires
        0 <= i <= j <= circuit.len(),
    ensures
        path(p, circuit.take(i)).len() <= path(p, circuit.take(j)).len(),
        forall|k: int|
            0 <= k < path(p, circuit.take(i)).len() ==> path(p, circuit.take(j))[k] == path(
                p,
                circuit.take(i),
            )[k],
        i < circuit.len() ==> path(p, circuit.take(i + 1)) == path(p, circuit.take(i)) + segment(
            end_of(p, circuit.take(i)),
            circuit[i],
        ),
    decreases j - i,
{
    if i < circuit.len() {
        lemma_take_next(circuit, i);
    }
    if i < j {
        lemma_path_prefix(p, circuit, i + 1, j);
    }
}

proof fn lemma_factors_fit(w: int, h: int)
    by (nonlinear_arith)
    requires
        w >= 1,
        h >= 1,
    ensures
        w <= w * h,
        h <= w * h,
{
}

proof fn lemma_cell_index(x: int, y: int, w: int, h: int)
    by (nonlinear_arith)
    requires
        0 <= x < w,
        0 <= y < h,
    ensures
        0 <= y * w + x < w * h,
        0 <= y * w,
{
}

/// A chart as a mathematical value: its cells row by row, the length of a row,
/// and the cell of the central port.
pub struct Chart {
    pub cells: Seq<u32>,
    pub width: int,
    pub port: (int, int),
}

impl Chart {
    /// Whether `p` is a cell of the chart.
    pub open spec fn holds(self, p: (int, int)) -> bool {
        0 <= p.0 < self.width && 0 <= p.1 && p.1 * self.width + p.0 < self.cells.len()
    }

    /// The place of `p` among the cells.
    pub open spec fn index(self, p: (int, int)) -> int {
        p.1 * self.width + p.0
    }

    /// The mark on `p`.
    pub open spec fn at(self, p: (int, int)) -> u32 {
        self.cells[self.index(p)]
    }

    /// The distance between `p` and the central port, along the grid.
    pub open spec fn distance(self, p: (int, int)) -> int {
        (if p.0 >= self.port.0 { p.0 - self.port.0 } else { self.port.0 - p.0 }) + (if p.1
            >= self.port.1 { p.1 - self.port.1 } else { self.port.1 - p.1 })
    }
}

/// The cells of `chart` after a wire has passed `cells` from the central port:
/// the port is marked 0, and each cell passed with the number of steps of the
/// wire's last visit.
pub open spec fn marked(chart: Chart, cells: Seq<(int, int)>) -> Seq<u32>
    decreases cells.len(),
{
    if cells.len() == 0 {
        chart.cells.update(chart.index(chart.port), 0u32)
    } else {
        marked(chart, cells.drop_last()).update(chart.index(cells.last()), cells.len() as u32)
    }
}

/// The smaller of a minimum found so far and a new candidate.
pub open spec fn lower(best: Option<int>, candidate: int) -> Option<int> {
    match best {
        None => Some(candidate),
        Some(b) => Some(if candidate < b { candidate } else { b }),
    }
}

/// The least distance from the central port to a marked cell among `cells`,
/// if one of them is marked.
pub open spec fn min_distance(chart: Chart, cells: Seq<(int, int)>) -> Option<int>
    decreases cells.len(),
{
    if cells.len() == 0 {
        None
    } else if chart.at(cells.last()) > 0 {
        lower(min_distance(chart, cells.drop_last()), chart.distance(cells.last()))
    } else {
        min_distance(chart, cells.drop_last())
    }
}

/// The least sum of both wires' steps to a marked cell among `cells`, if one
/// of them is marked: the mark, and the cell's place in `cells`.
pub open spec fn min_steps(chart: Chart, cells: Seq<(int, int)>) -> Option<int>
    decreases cells.len(),
{
    if cells.len() == 0 {
        None
    } else if chart.at(cells.last()) > 0 {
        lower(min_steps(chart, cells.drop_last()), cells.len() + chart.at(cells.last()))
    } else {
        min_steps(chart, cells.drop_last())
    }
}

/// The least distance is the distance of a marked cell among `cells` and no
/// larger than that of any other; there is none where no cell is marked.
pub proof fn lemma_min_distance(chart: Chart, cells: Seq<(int, int)>)
    ensures
        match min_distance(chart, cells) {
            None => forall|k: int| 0 <= k < cells.len() ==> chart.at(#[trigger] cells[k]) == 0,
            Some(d) => {
                &&& exists|k: int|
                    0 <= k < cells.len() && chart.at(#[trigger] cells[k]) > 0 && chart.distance(
                        cells[k],
                    ) == d
                &&& forall|k: int|
                    0 <= k < cells.len() && chart.at(#[trigger] cells[k]) > 0 ==> d
                        <= chart.distance(cells[k])
            },
        },
    decreases cells.len(),
{
    if cells.len() > 0 {
        let front = cells.drop_last();
        let last = cells.len() - 1;
        lemma_min_distance(chart, front);
        assert forall|k: int| 0 <= k < last implies front[k] == cells[k] by {}
        match min_distance(chart, cells) {
            None => {
                assert forall|k: int| 0 <= k < cells.len() implies chart.at(#[trigger] cells[k])
                    == 0 by {
                    if k < last {
                        assert(chart.at(front[k]) == 0);
                    }
                }
            },
            Some(d) => {
                if chart.at(cells[last]) > 0 && chart.distance(cells[last]) == d {
                    assert(chart.at(cells[last]) > 0 && chart.distance(cells[last]) == d);
                } else {
                    let k = choose|k: int|
                        0 <= k < front.len() && chart.at(#[trigger] front[k]) > 0 && chart.distance(
                            front[k],
                        ) == d;
                    assert(chart.at(cells[k]) > 0 && chart.distance(cells[k]) == d);
                }
                assert forall|k: int|
                    0 <= k < cells.len() && chart.at(#[trigger] cells[k]) > 0 implies d
                    <= chart.distance(cells[k]) by {
                    if k < last {
                        assert(chart.at(front[k]) > 0);
                    }
                }
            },
        }
    }
}

/// The least sum of steps is that of a marked cell among `cells`, its mark
/// and its place in `cells`, and no larger than that of any other; there is
/// none where no cell is marked.
pub proof fn lemma_min_steps(chart: Chart, cells: Seq<(int, int)>)
    ensures
        match min_steps(chart, cells) {
            None => forall|k: int| 0 <= k < cells.len() ==> chart.at(#[trigger] cells[k]) == 0,
            Some(s) => {
                &&& exists|k: int|
                    0 <= k < cells.len() && chart.at(#[trigger] cells[k]) > 0 && k + 1 + chart.at(
                        cells[k],
                    ) == s
                &&& forall|k: int|
                    0 <= k < cells.len() && chart.at(#[trigger] cells[k]) > 0 ==> s <= k + 1
                        + chart.at(cells[k])
            },
        },
    decreases cells.len(),
{
    if cells.len() > 0 {
        let front = cells.drop_last();
        let last = cells.len() - 1;
        lemma_min_steps(chart, front);
        assert forall|k: int| 0 <= k < last implies front[k] == cells[k] by {}
        match min_steps(chart, cells) {
            None => {
                assert forall|k: int| 0 <= k < cells.len() implies chart.at(#[trigger] cells[k])
                    == 0 by {
                    if k < last {
                        assert(chart.at(front[k]) == 0);
                    }
                }
            },
            Some(s) => {
                if chart.at(cells[last]) > 0 && last + 1 + chart.at(cells[last]) == s {
                    assert(chart.at(cells[last]) > 0 && last + 1 + chart.at(cells[last]) == s);
                } else {
                    let k = choose|k: int|
                        0 <= k < front.len() && chart.at(#[trigger] front[k]) > 0 && k + 1
                            + chart.at(front[k]) == s;
                    assert(chart.at(cells[k]) > 0 && k + 1 + chart.at(cells[k]) == s);
                }
                assert forall|k: int|
                    0 <= k < cells.len() && chart.at(#[trigger] cells[k]) > 0 implies s <= k + 1
                    + chart.at(cells[k]) by {
                    if k < last {
                        assert(chart.at(front[k]) > 0);
                    }
                }
            },
        }
    }
}

/// Whether a wire that follows `circuit` from the port stays on the chart,
/// with corners that 32 bits can hold.
pub open spec fn on_chart(chart: Chart, circuit: Seq<Movement>) -> bool {
    &&& corners_fit(chart.port, circuit)
    &&& forall|k: int|
        0 <= k < path(chart.port, circuit).len() ==> chart.holds(
            #[trigger] path(chart.port, circuit)[k],
        )
}

/// A chart on which one wire is drawn: each cell holds the number of steps
/// after which the wire last passed it, or 0.
pub struct WireMap {
    grid: Vec<u32>,
    w: usize,
    cp: Pos,
}

impl View for WireMap {
    type V = Chart;

    closed spec fn view(&self) -> Chart {
        Chart { cells: self.grid@, width: self.w as int, port: self.cp@ }
    }
}

impl WireMap {
    /// The invariant: the central port is a cell of the chart.
    pub open spec fn wf(&self) -> bool {
        self@.holds(self@.port)
    }

    /// The place of `pos` among the cells.
    fn index_of(&self, pos: &Pos) -> (res: usize)
        requires
            self@.holds(pos@),
        ensures
            res == self@.index(pos@),
            res < self.grid.len(),
    {
        let y = pos.y as usize;
        let x = pos.x as usize;
        let n = self.grid.len();
        proof {
            assert(0 <= (y as int) * (self.w as int)) by (nonlinear_arith)
                requires
                    y >= 0,
                    self.w >= 0,
            ;
            assert((y as int) * (self.w as int) == pos@.1 * self@.width);
        }
        y * self.w + x
    }

    /// Sets the mark on `pos`.
    fn set_at(&mut self, pos: &Pos, mark: u32)
        requires
            old(self)@.holds(pos@),
        ensures
            final(self)@ == (Chart {
                cells: old(self)@.cells.update(old(self)@.index(pos@), mark),
                ..old(self)@
            }),
    {
        let idx = self.index_of(pos);
        self.grid[idx] = mark;
    }

    /// The mark on `pos`.
    fn at(&self, pos: &Pos) -> (res: u32)
        requires
            self@.holds(pos@),
        ensures
            res == self@.at(pos@),
    {
        self.grid[self.index_of(pos)]
    }

    /// The distance between `pos` and the central port, along the grid.
    fn distance_from_central_port(&self, pos: &Pos) -> (res: i64)
        ensures
            res == self@.distance(pos@),
    {
        let dx = pos.x as i64 - self.cp.x as i64;
        let dy = pos.y as i64 - self.cp.y as i64;
        (if dx >= 0 { dx } else { -dx }) + (if dy >= 0 { dy } else { -dy })
    }

    /// Draws the wire that follows `circuit` from the central port.
    pub fn mark_circuit(&mut self, circuit: &Vec<Movement>)
        requires
            old(self).wf(),
            on_chart(old(self)@, circuit@),
            path(old(self)@.port, circuit@).len() <= u32::MAX,
        ensures
            final(self).wf(),
            final(self)@ == (Chart {
                cells: marked(old(self)@, path(old(self)@.port, circuit@)),
                ..old(self)@
            }),
    {
        let ghost chart = self@;
        let ghost port = self@.port;
        let ghost full = path(port, circuit@);
        let mut pos = Pos { x: self.cp.x, y: self.cp.y };
        let mut steps: u32 = 0;
        let n = circuit.len();
        let mut i: usize = 0;
        let cp = Pos { x: self.cp.x, y: self.cp.y };
        self.set_at(&cp, 0);
        while i < n
            invariant
                i <= n,
                n == circuit@.len(),
                chart == old(self)@,
                port == chart.port,
                full == path(port, circuit@),
                full.len() <= u32::MAX,
                on_chart(chart, circuit@),
                pos@ == end_of(port, circuit@.take(i as int)),
                steps == path(port, circuit@.take(i as int)).len(),
                self@.cells.len() == chart.cells.len(),
                self@ == (Chart {
                    cells: marked(chart, path(port, circuit@.take(i as int))),
                    ..chart
                }),
            decreases n - i,
        {
            let ghost before = path(port, circuit@.take(i as int));
            let ghost seg = segment(pos@, circuit@[i as int]);
            proof {
                lemma_take_next(circuit@, i as int);
                lemma_path_prefix(port, circuit@, i as int, i + 1);
                lemma_path_prefix(port, circuit@, i + 1, n as int);
                assert(circuit@.take(n as int) =~= circuit@);
                assert(fits(end_of(port, circuit@.take(i + 1))));
                assert forall|k: int| 0 <= k < seg.len() implies chart.holds(#[trigger] seg[k]) by {
                    let next = path(port, circuit@.take(i + 1));
                    assert(next[before.len() + k] == seg[k]);
                    assert(path(port, circuit@)[before.len() + k] == next[before.len() + k]);
                }
            }
            let cells = pos.apply_movement(&circuit[i]);
            let mut j: usize = 0;
            while j < cells.len()
                invariant
                    j <= cells.len(),
                    cells_of(cells@) == seg,
                    chart == old(self)@,
                    full.len() <= u32::MAX,
                    before.len() + seg.len() <= full.len(),
                    forall|k: int| 0 <= k < seg.len() ==> chart.holds(#[trigger] seg[k]),
                    steps == before.len() + j,
                    self@.cells.len() == chart.cells.len(),
                    self@ == (Chart { cells: marked(chart, before + seg.take(j as int)), ..chart }),
                decreases cells.len() - j,
            {
                steps = steps + 1;
                let cell = cells[j];
                proof {
                    assert(cell@ == cells_of(cells@)[j as int]);
                    assert(chart.holds(seg[j as int]));
                    assert((before + seg.take(j + 1)).drop_last() =~= before + seg.take(j as int));
                }
                self.set_at(&cell, steps);
                j = j + 1;
            }
            proof {
                assert(seg.take(cells.len() as int) =~= seg);
            }
            i = i + 1;
        }
        proof {
            assert(circuit@.take(n as int) =~= circuit@);
        }
    }

    /// The least distance from the central port to a cell where the wire that
    /// follows `circuit` crosses the wire drawn, if it does.
    pub fn find_min_distance(&self, circuit: &Vec<Movement>) -> (res: Option<i64>)
        requires
            self.wf(),
            on_chart(self@, circuit@),
        ensures
            res is Some == min_distance(self@, path(self@.port, circuit@)) is Some,
            res is Some ==> min_distance(self@, path(self@.port, circuit@)) == Some(
                res->Some_0 as int,
            ),
    {
        let ghost chart = self@;
        let ghost port = self@.port;
        let mut pos = Pos { x: self.cp.x, y: self.cp.y };
        let mut best: Option<i64> = None;
        let n = circuit.len();
        let mut i: usize = 0;
        while i < n
            invariant
                i <= n,
                n == circuit@.len(),
                chart == self@,
                port == chart.port,
                on_chart(chart, circuit@),
                pos@ == end_of(port, circuit@.take(i as int)),
                best is Some == min_distance(chart, path(port, circuit@.take(i as int))) is Some,
                best is Some ==> min_distance(chart, path(port, circuit@.take(i as int))) == Some(
                    best->Some_0 as int,
                ),
            decreases n - i,
        {
            let ghost before = path(port, circuit@.take(i as int));
            let ghost seg = segment(pos@, circuit@[i as int]);
            proof {
                lemma_take_next(circuit@, i as int);
                lemma_path_prefix(port, circuit@, i as int, i + 1);
                lemma_path_prefix(port, circuit@, i + 1, n as int);
                assert(circuit@.take(n as int) =~= circuit@);
                assert(fits(end_of(port, circuit@.take(i + 1))));
                assert forall|k: int| 0 <= k < seg.len() implies chart.holds(#[trigger] seg[k]) by {
                    let next = path(port, circuit@.take(i + 1));
                    assert(next[before.len() + k] == seg[k]);
                    assert(path(port, circuit@)[before.len() + k] == next[before.len() + k]);
                }
                assert(before + seg.take(0) =~= before);
            }
            let cells = pos.apply_movement(&circuit[i]);
            let mut j: usize = 0;
            while j < cells.len()
                invariant
                    j <= cells.len(),
                    cells_of(cells@) == seg,
                    chart == self@,
                    forall|k: int| 0 <= k < seg.len() ==> chart.holds(#[trigger] seg[k]),
                    best is Some == min_distance(chart, before + seg.take(j as int)) is Some,
                    best is Some ==> min_distance(chart, before + seg.take(j as int)) == Some(
                        best->Some_0 as int,
                    ),
                decreases cells.len() - j,
            {
                let cell = cells[j];
                proof {
                    assert(cell@ == cells_of(cells@)[j as int]);
                    assert(chart.holds(seg[j as int]));
                    assert((before + seg.take(j + 1)).drop_last() =~= before + seg.take(j as int));
                }
                if self.at(&cell) > 0 {
                    let distance = self.distance_from_central_port(&cell);
                    best = match best {
                        None => Some(distance),
                        Some(d) => Some(if distance < d { distance } else { d }),
                    };
                }
                j = j + 1;
            }
            proof {
                assert(seg.take(cells.len() as int) =~= seg);
            }
            i = i + 1;
        }
        proof {
            assert(circuit@.take(n as int) =~= circuit@);
        }
        best
    }

    /// The least sum of both wires' steps to a cell where the wire that
    /// follows `circuit` crosses the wire drawn, if it does.
    pub fn find_min_steps(&self, circuit: &Vec<Movement>) -> (res: Option<u64>)
        requires
            self.wf(),
            on_chart(self@, circuit@),
            path(self@.port, circuit@).len() <= u32::MAX,
        ensures
            res is Some == min_steps(self@, path(self@.port, circuit@)) is Some,
            res is Some ==> min_steps(self@, path(self@.port, circuit@)) == Some(
                res->Some_0 as int,
            ),
    {
        let ghost chart = self@;
        let ghost port = self@.port;
        let ghost full = path(port, circuit@);
        let mut pos = Pos { x: self.cp.x, y: self.cp.y };
        let mut steps: u32 = 0;
        let mut best: Option<u64> = None;
        let n = circuit.len();
        let mut i: usize = 0;
        while i < n
            invariant
                i <= n,
                n == circuit@.len(),
                chart == self@,
                port == chart.port,
                full == path(port, circuit@),
                full.len() <= u32::MAX,
                on_chart(chart, circuit@),
                pos@ == end_of(port, circuit@.take(i as int)),
                steps == path(port, circuit@.take(i as int)).len(),
                best is Some == min_steps(chart, path(port, circuit@.take(i as int))) is Some,
                best is Some ==> min_steps(chart, path(port, circuit@.take(i as int))) == Some(
                    best->Some_0 as int,
                ),
            decreases n - i,
        {
            let ghost before = path(port, circuit@.take(i as int));
            let ghost seg = segment(pos@, circuit@[i as int]);
            proof {
                lemma_take_next(circuit@, i as int);
                lemma_path_prefix(port, circuit@, i as int, i + 1);
                lemma_path_prefix(port, circuit@, i + 1, n as int);
                assert(circuit@.take(n as int) =~= circuit@);
                assert(fits(end_of(port, circuit@.take(i + 1))));
                assert forall|k: int| 0 <= k < seg.len() implies chart.holds(#[trigger] seg[k]) by {
                    let next = path(port, circuit@.take(i + 1));
                    assert(next[before.len() + k] == seg[k]);
                    assert(path(port, circuit@)[before.len() + k] == next[before.len() + k]);
                }
                assert(before + seg.take(0) =~= before);
            }
            let cells = pos.apply_movement(&circuit[i]);
            let mut j: usize = 0;
            while j < cells.len()
                invariant
                    j <= cells.len(),
                    cells_of(cells@) == seg,
                    chart == self@,
                    full.len() <= u32::MAX,
                    before.len() + seg.len() <= full.len(),
                    forall|k: int| 0 <= k < seg.len() ==> chart.holds(#[trigger] seg[k]),
                    steps == before.len() + j,
                    best is Some == min_steps(chart, before + seg.take(j as int)) is Some,
                    best is Some ==> min_steps(chart, before + seg.take(j as int)) == Some(
                        best->Some_0 as int,
                    ),
                decreases cells.len() - j,
            {
                steps = steps + 1;
                let cell = cells[j];
                proof {
                    assert(cell@ == cells_of(cells@)[j as int]);
                    assert(chart.holds(seg[j as int]));
                    assert((before + seg.take(j + 1)).drop_last() =~= before + seg.take(j as int));
                }
                let mark = self.at(&cell);
                if mark > 0 {
                    let total: u64 = steps as u64 + mark as u64;
                    best = match best {
                        None => Some(total),
                        Some(d) => Some(if total < d { total } else { d }),
                    };
                }
                j = j + 1;
            }
            proof {
                assert(seg.take(cells.len() as int) =~= seg);
            }
            i = i + 1;
        }
        proof {
            assert(circuit@.take(n as int) =~= circuit@);
        }
        best
    }
}

} // verus!

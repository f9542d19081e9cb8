//! The camera's view of the scaffold: a grid read from lines of characters,
//! and the alignment parameters of its intersections.

use vstd::prelude::*;
use crate::interpreter::{Intcode, STEP_LIMIT};
use crate::machine::{fresh, run_spec, Fault};

verus! {

/// A view of the scaffold, row by row; each row ends in the column of the
/// line break.
pub struct Grid {
    pub map: Vec<bool>,
    pub w: usize,
    pub h: usize,
}

/// The index of the first line break in `output`, or its length without one.
pub open spec fn first_break(output: Seq<char>) -> nat
    decreases output.len(),
{
    if output.len() == 0 {
        0
    } else if output[0] == '\n' {
        0
    } else {
        1 + first_break(output.drop_first())
    }
}

/// Whether `output` holds a line break.
pub open spec fn has_break(output: Seq<char>) -> bool {
    first_break(output) < output.len()
}

proof fn lemma_first_break(output: Seq<char>, i: int)
    requires
        0 <= i <= output.len(),
        forall|k: int| 0 <= k < i ==> output[k] != '\n',
        i == output.len() || output[i] == '\n',
    ensures
        first_break(output) == i,
    decreases output.len(),
{
    if output.len() > 0 && output[0] != '\n' {
        let rest = output.drop_first();
        assert forall|k: int| 0 <= k < i - 1 implies rest[k] != '\n' by {
            assert(rest[k] == output[k + 1]);
        }
        lemma_first_break(rest, i - 1);
    }
}

/// The width of the view, the column of the line break included, and the
/// number of full rows.
pub fn get_bounds(output: &Vec<char>) -> (res: (usize, usize))
    requires
        has_break(output@),
    ensures
        res.0 == first_break(output@) + 1,
        res.1 == output@.len() as int / res.0 as int,
{
    let mut w: usize = 0;
    while w < output.len() && output[w] != '\n'
        invariant
            w <= output.len(),
            forall|k: int| 0 <= k < w ==> output@[k] != '\n',
        decreases output.len() - w,
    {
        w = w + 1;
    }
    proof {
        lemma_first_break(output@, w as int);
    }
    (w + 1, output.len() / (w + 1))
}

impl Grid {
    /// Whether the grid holds `w` times `h` cells.
    pub open spec fn wf(&self) -> bool {
        self.map@.len() == self.w * self.h
    }

    /// Whether (`x`, `y`) is a cell of the grid.
    pub open spec fn holds(&self, x: int, y: int) -> bool {
        0 <= x < self.w && 0 <= y < self.h
    }

    /// Whether the cell (`x`, `y`) is a piece of scaffold.
    pub open spec fn scaffold(&self, x: int, y: int) -> bool {
        self.map@[y * self.w + x]
    }

    /// Whether the cell (`x`, `y`) is a piece of scaffold with scaffold on
    /// three sides or more, two of them opposite.
    pub open spec fn crossing(&self, x: int, y: int) -> bool {
        let up = y > 0 && self.scaffold(x, y - 1);
        let down = y < self.h - 1 && self.scaffold(x, y + 1);
        let left = x > 0 && self.scaffold(x - 1, y);
        let right = x < self.w - 1 && self.scaffold(x + 1, y);
        self.scaffold(x, y) && ((up && down && (left || right)) || (left && right && (up || down)))
    }

    /// The sum of `x * y` over the crossings among the first `x_end` cells of
    /// row `y`.
    pub open spec fn row_alignment(&self, y: int, x_end: int) -> int
        decreases x_end,
    {
        if x_end <= 0 {
            0
        } else {
            self.row_alignment(y, x_end - 1) + if self.crossing(x_end - 1, y) {
                (x_end - 1) * y
            } else {
                0
            }
        }
    }

    /// The sum of `x * y` over the crossings in the first `y_end` rows.
    pub open spec fn alignment(&self, y_end: int) -> int
        decreases y_end,
    {
        if y_end <= 0 {
            0
        } else {
            self.alignment(y_end - 1) + self.row_alignment(y_end - 1, self.w as int)
        }
    }

    /// The grid that `output` shows: a cell is scaffold where the character
    /// is '#'.
    pub fn new(output: &Vec<char>) -> (res: Self)
        requires
            has_break(output@),
        ensures
            res.wf(),
            res.w == first_break(output@) + 1,
            res.h == output@.len() as int / res.w as int,
            forall|x: int, y: int|
                res.holds(x, y) ==> #[trigger] res.scaffold(x, y) == (output@[y * res.w + x] == '#'),
    {
        let (w, h) = get_bounds(output);
        let n = output.len();
        proof {
            lemma_rows_fit(n as int, w as int);
        }
        let mut map: Vec<bool> = vec![false; w * h];
        let mut y: usize = 0;
        while y < h
            invariant
                y <= h,
                w >= 1,
                w * h <= output@.len() <= usize::MAX,
                map@.len() == w * h,
                forall|i: int| 0 <= i < y * w ==> #[trigger] map@[i] == (output@[i] == '#'),
                forall|i: int| y * w <= i < w * h ==> !#[trigger] map@[i],
            decreases h - y,
        {
            let mut x: usize = 0;
            proof {
                lemma_row_fits(y as int, w as int, h as int);
            }
            while x < w
                invariant
                    x <= w,
                    y < h,
                    (y + 1) * w <= w * h,
                    (y + 1) * w == y * w + w,
                    0 <= y * w,
                    w * h <= output@.len() <= usize::MAX,
                    map@.len() == w * h,
                    forall|i: int| 0 <= i < y * w + x ==> #[trigger] map@[i] == (output@[i] == '#'),
                    forall|i: int| y * w + x <= i < w * h ==> !#[trigger] map@[i],
                decreases w - x,
            {
                let c = output[y * w + x];
                if c == '#' {
                    map[y * w + x] = true;
                }
                x = x + 1;
            }
            y = y + 1;
        }
        let res = Grid { map, w, h };
        proof {
            assert forall|x: int, y: int| res.holds(x, y) implies #[trigger] res.scaffold(x, y) == (
            output@[y * res.w + x] == '#') by {
                lemma_cell_fits(x, y, w as int, h as int);
            }
        }
        res
    }

    /// Whether the cell (`x`, `y`) is a piece of scaffold.
    pub fn is_scaffold(&self, x: usize, y: usize) -> (res: bool)
        requires
            self.wf(),
            self.holds(x as int, y as int),
        ensures
            res == self.scaffold(x as int, y as int),
    {
        let n = self.map.len();
        proof {
            lemma_cell_fits(x as int, y as int, self.w as int, self.h as int);
        }
        self.map[y * self.w + x]
    }

    /// Whether the cell (`x`, `y`) is a crossing.
    fn is_crossing(&self, x: usize, y: usize) -> (res: bool)
        requires
            self.wf(),
            self.holds(x as int, y as int),
        ensures
            res == self.crossing(x as int, y as int),
    {
        if !self.is_scaffold(x, y) {
            return false;
        }
        let up = y > 0 && self.is_scaffold(x, y - 1);
        let down = y < (self.h - 1) && self.is_scaffold(x, y + 1);
        let left = x > 0 && self.is_scaffold(x - 1, y);
        let right = x < (self.w - 1) && self.is_scaffold(x + 1, y);
        let vert = up && down;
        let hori = left && right;
        (vert && (left || right)) || (hori && (up || down))
    }

    /// The sum of the alignment parameters, `x * y`, of all crossings; `None`
    /// where a sum on the way does not fit the machine's word.
    pub fn alignment_sum(&self) -> (res: Option<usize>)
        requires
            self.wf(),
        ensures
            res is Some ==> res->Some_0 == self.alignment(self.h as int),
            self.alignment(self.h as int) <= usize::MAX ==> res is Some,
    {
        let mut acc: usize = 0;
        let mut y: usize = 0;
        let n = self.map.len();
        while y < self.h
            invariant
                y <= self.h,
                self.w * self.h <= usize::MAX,
                self.wf(),
                acc == self.alignment(y as int),
            decreases self.h - y,
        {
            let mut x: usize = 0;
            let ghost above = acc;
            while x < self.w
                invariant
                    x <= self.w,
                    y < self.h,
                    self.w * self.h <= usize::MAX,
                    self.wf(),
                    above == self.alignment(y as int),
                    acc == above + self.row_alignment(y as int, x as int),
                decreases self.w - x,
            {
                if self.is_crossing(x, y) {
                    proof {
                        lemma_cell_fits(x as int, y as int, self.w as int, self.h as int);
                        self.lemma_alignment_grows(y as int, x as int + 1);
                    }
                    match acc.checked_add(x * y) {
                        Some(sum) => { acc = sum; },
                        None => { return None; },
                    }
                }
                x = x + 1;
            }
            y = y + 1;
        }
        Some(acc)
    }

    /// The sums never shrink as more cells are counted.
    proof fn lemma_alignment_grows(&self, y: int, x_end: int)
        requires
            0 <= y < self.h,
            0 <= x_end <= self.w,
        ensures
            0 <= self.row_alignment(y, x_end) <= self.row_alignment(y, self.w as int),
            0 <= self.alignment(y),
            self.alignment(y) + self.row_alignment(y, x_end) <= self.alignment(self.h as int),
    {
        self.lemma_row_grows(y, x_end, self.w as int);
        self.lemma_rows_grow(y + 1, self.h as int);
        self.lemma_rows_grow(0, y);
    }

    proof fn lemma_row_grows(&self, y: int, a: int, b: int)
        requires
            0 <= y,
            0 <= a <= b,
        ensures
            0 <= self.row_alignment(y, a) <= self.row_alignment(y, b),
        decreases b,
    {
        if a < b {
            self.lemma_row_grows(y, a, b - 1);
            assert((b - 1) * y >= 0) by (nonlinear_arith)
                requires
                    b - 1 >= 0,
                    y >= 0,
            ;
        } else if a > 0 {
            self.lemma_row_grows(y, a - 1, a - 1);
            assert((a - 1) * y >= 0) by (nonlinear_arith)
                requires
                    a - 1 >= 0,
                    y >= 0,
            ;
        }
    }

    proof fn lemma_rows_grow(&self, a: int, b: int)
        requires
            0 <= a <= b,
        ensures
            0 <= self.alignment(a) <= self.alignment(b),
        decreases b,
    {
        if a < b {
            self.lemma_rows_grow(a, b - 1);
            self.lemma_row_grows(b - 1, 0, self.w as int);
        } else if a > 0 {
            self.lemma_rows_grow(a - 1, a - 1);
            self.lemma_row_grows(a - 1, 0, self.w as int);
        }
    }
}

/// The character that an output value stands for: its lowest eight bits.
pub open spec fn char_of(v: i64) -> char {
    ((v as int % 256) as u8) as char
}

/// The characters that the output values stand for.
pub fn to_chars(output: &Vec<i64>) -> (res: Vec<char>)
    ensures
        res@.len() == output@.len(),
        forall|i: int| 0 <= i < output@.len() ==> #[trigger] res@[i] == char_of(output@[i]),
{
    let mut res: Vec<char> = Vec::new();
    let mut i: usize = 0;
    while i < output.len()
        invariant
            i <= output.len(),
            res@.len() == i,
            forall|k: int| 0 <= k < i ==> #[trigger] res@[k] == char_of(output@[k]),
        decreases output.len() - i,
    {
        let v = output[i];
        let low = match v.checked_rem_euclid(256) {
            Some(low) => low,
            None => 0,
        };
        let b = low as u8;
        res.push(b as char);
        i = i + 1;
    }
    res
}

/// Why the camera gives no result.
#[derive(Clone, Copy, Debug, PartialEq, Eq, Structural)]
pub enum CameraError {
    /// The program faulted.
    Fault(Fault),
    /// The view holds no line break.
    NoRows,
}

/// Runs the camera program `memory` and returns the view that it shows.
pub fn camera_view(memory: &Vec<i64>) -> (res: Result<Grid, CameraError>)
    ensures
        match run_spec(fresh(memory@), Seq::empty(), STEP_LIMIT as nat).fault {
            Some(f) => res is Err && res->Err_0 == CameraError::Fault(f),
            None => {
                let shown = run_spec(fresh(memory@), Seq::empty(), STEP_LIMIT as nat).output.map_values(
                    |v: i64| char_of(v),
                );
                if has_break(shown) {
                    &&& res is Ok
                    &&& res->Ok_0.wf()
                    &&& res->Ok_0.w == first_break(shown) + 1
                    &&& res->Ok_0.h == shown.len() as int / res->Ok_0.w as int
                    &&& forall|x: int, y: int|
                        res->Ok_0.holds(x, y) ==> #[trigger] res->Ok_0.scaffold(x, y) == (shown[y
                            * res->Ok_0.w + x] == '#')
                } else {
                    res is Err && res->Err_0 == CameraError::NoRows
                }
            },
        },
{
    let mut pgm = Intcode::new(memory);
    let empty: Vec<i64> = Vec::new();
    let output = match pgm.run(empty.as_slice()) {
        Ok(output) => output,
        Err(f) => { return Err(CameraError::Fault(f)); },
    };
    let chars = to_chars(&output);
    proof {
        assert(chars@ =~= output@.map_values(|v: i64| char_of(v)));
    }
    let mut w: usize = 0;
    while w < chars.len() && chars[w] != '\n'
        invariant
            w <= chars.len(),
            forall|k: int| 0 <= k < w ==> chars@[k] != '\n',
        decreases chars.len() - w,
    {
        w = w + 1;
    }
    proof {
        lemma_first_break(chars@, w as int);
    }
    if w == chars.len() {
        return Err(CameraError::NoRows);
    }
    Ok(Grid::new(&chars))
}

/// The numbers that the characters of `text` stand for.
pub open spec fn codes_of(text: Seq<u8>) -> Seq<i64> {
    text.map_values(|b: u8| b as i64)
}

/// Runs the robot program `memory` on the bytes of `orders` and returns the
/// last value that it emits, the dust collected; `None` where it emits
/// nothing.
pub fn dust_collected(memory: &Vec<i64>, orders: &[u8]) -> (res: Result<Option<i64>, Fault>)
    ensures
        match run_spec(fresh(memory@), codes_of(orders@), STEP_LIMIT as nat).fault {
            Some(f) => res == Err::<Option<i64>, Fault>(f),
            None => {
                let out = run_spec(fresh(memory@), codes_of(orders@), STEP_LIMIT as nat).output;
                res == Ok::<Option<i64>, Fault>(
                    if out.len() > 0 {
                        Some(out.last())
                    } else {
                        None
                    },
                )
            },
        },
{
    let mut input: Vec<i64> = Vec::new();
    let mut i: usize = 0;
    while i < orders.len()
        invariant
            i <= orders.len(),
            input@ == codes_of(orders@.take(i as int)),
        decreases orders.len() - i,
    {
        input.push(orders[i] as i64);
        i = i + 1;
        proof {
            assert(input@ =~= codes_of(orders@.take(i as int)));
        }
    }
    proof {
        assert(orders@.take(i as int) =~= orders@);
    }
    let mut pgm = Intcode::new(memory);
    match pgm.run(input.as_slice()) {
        Err(f) => Err(f),
        Ok(out) => if out.len() > 0 {
            Ok(Some(out[out.len() - 1]))
        } else {
            Ok(None)
        },
    }
}

proof fn lemma_rows_fit(len: int, w: int)
    by (nonlinear_arith)
    requires
        len >= 0,
        w >= 1,
    ensures
        w * (len / w) <= len,
        0 <= len / w,
{
}

proof fn lemma_row_fits(y: int, w: int, h: int)
    by (nonlinear_arith)
    requires
        0 <= y < h,
        w >= 0,
    ensures
        (y + 1) * w <= w * h,
        (y + 1) * w == y * w + w,
        0 <= y * w,
{
}

proof fn lemma_cell_fits(x: int, y: int, w: int, h: int)
    by (nonlinear_arith)
    requires
        0 <= x < w,
        0 <= y < h,
    ensures
        0 <= y * w + x < w * h,
        0 <= y * w,
        0 <= x * y < w * h,
{
}

} // verus!

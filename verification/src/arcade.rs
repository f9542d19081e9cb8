//! The arcade cabinet: the screen that a program's output draws, and the
//! game played by keeping the paddle under the ball.

use vstd::prelude::*;
use crate::interpreter::{Intcode, STEP_LIMIT};
use crate::machine::{fresh, run_spec, Fault, Machine};
use crate::text::string_of;

verus! {

/// What a cell of the screen shows.
#[derive(Clone, Copy, Debug, PartialEq, Eq, Structural)]
pub enum TileType {
    Empty,
    Wall,
    Block,
    Paddle,
    Ball,
}

/// Why the cabinet gives no result.
#[derive(Clone, Copy, Debug, PartialEq, Eq, Structural)]
pub enum ArcadeError {
    /// The program faulted.
    Fault(Fault),
    /// The output is no list of tiles that fit the screen.
    BadFrame,
    /// The game used up its budget of rounds.
    RoundLimit,
}

/// The screen with the score and the columns of ball and paddle.
pub struct Grid {
    pub tab: Vec<TileType>,
    pub w: usize,
    pub h: usize,
    pub score: i64,
    pub ball_pos_x: i32,
    pub paddle_pos_x: i32,
}

/// A screen as a mathematical value.
pub struct Screen {
    pub tab: Seq<TileType>,
    pub w: int,
    pub h: int,
    pub score: i64,
    pub ball: i32,
    pub paddle: i32,
}

impl View for Grid {
    type V = Screen;

    open spec fn view(&self) -> Screen {
        Screen {
            tab: self.tab@,
            w: self.w as int,
            h: self.h as int,
            score: self.score,
            ball: self.ball_pos_x,
            paddle: self.paddle_pos_x,
        }
    }
}

/// The tile that the number `t` stands for.
pub open spec fn tile_of(t: i64) -> Option<TileType> {
    if t == 0 {
        Some(TileType::Empty)
    } else if t == 1 {
        Some(TileType::Wall)
    } else if t == 2 {
        Some(TileType::Block)
    } else if t == 3 {
        Some(TileType::Paddle)
    } else if t == 4 {
        Some(TileType::Ball)
    } else {
        None
    }
}

/// The screen after one triple of output: the score where `x` is -1 and `y`
/// is 0, else a tile at (`x`, `y`), with the column of a paddle or a ball
/// taken down. `None` where the tile is unknown, `x` is no 32-bit value that
/// is not negative, or the screen has no such cell.
pub open spec fn drawn(s: Screen, x: i64, y: i64, t: i64) -> Option<Screen> {
    if x == -1 && y == 0 {
        Some(Screen { score: t, ..s })
    } else if tile_of(t) is None || x < 0 || x > i32::MAX || y < 0 || y * s.w + x >= s.tab.len() {
        None
    } else {
        Some(
            Screen {
                tab: s.tab.update(y * s.w + x, tile_of(t)->Some_0),
                ball: if t == 4 {
                    x as i32
                } else {
                    s.ball
                },
                paddle: if t == 3 {
                    x as i32
                } else {
                    s.paddle
                },
                ..s
            },
        )
    }
}

/// The screen after the first `k` triples of `output`; `None` where one of
/// them cannot be drawn.
pub open spec fn filled(s: Screen, output: Seq<i64>, k: int) -> Option<Screen>
    decreases k,
{
    if k <= 0 {
        Some(s)
    } else {
        match filled(s, output, k - 1) {
            Some(before) => drawn(
                before,
                output[3 * (k - 1)],
                output[3 * (k - 1) + 1],
                output[3 * (k - 1) + 2],
            ),
            None => None,
        }
    }
}

/// The whole of `output` drawn on `s`; `None` where it is no list of triples
/// or one of them cannot be drawn.
pub open spec fn frame(s: Screen, output: Seq<i64>) -> Option<Screen> {
    if output.len() % 3 == 0 {
        filled(s, output, output.len() as int / 3)
    } else {
        None
    }
}

/// The largest of the numbers at place `off` of the first `k` triples, and 0
/// where they are all negative.
pub open spec fn largest(output: Seq<i64>, k: int, off: int) -> int
    decreases k,
{
    if k <= 0 {
        0
    } else {
        let before = largest(output, k - 1, off);
        if output[3 * (k - 1) + off] > before {
            output[3 * (k - 1) + off] as int
        } else {
            before
        }
    }
}

/// Whether `output` is a list of triples whose first two numbers can be the
/// column and the row of a cell.
pub open spec fn tiles_only(output: Seq<i64>) -> bool {
    &&& output.len() % 3 == 0
    &&& forall|t: int|
        0 <= t < output.len() as int / 3 ==> 0 <= #[trigger] output[3 * t] < usize::MAX && 0
            <= output[3 * t + 1] < usize::MAX
}

/// The width and height of the smallest screen that holds every tile of
/// `output`; `None` where `output` is no list of tiles.
pub fn get_bounds(output: &Vec<i64>) -> (res: Option<(usize, usize)>)
    ensures
        res is Some == tiles_only(output@),
        res is Some ==> res->Some_0.0 == largest(output@, output@.len() as int / 3, 0) + 1,
        res is Some ==> res->Some_0.1 == largest(output@, output@.len() as int / 3, 1) + 1,
{
    if output.len() % 3 != 0 {
        return None;
    }
    let mut max_x: usize = 0;
    let mut max_y: usize = 0;
    let mut idx: usize = 0;
    let ghost mut t: int = 0;
    while idx < output.len()
        invariant
            idx == 3 * t,
            0 <= t <= output@.len() as int / 3,
            output@.len() % 3 == 0,
            max_x < usize::MAX,
            max_y < usize::MAX,
            max_x == largest(output@, t, 0),
            max_y == largest(output@, t, 1),
            forall|k: int|
                0 <= k < t ==> 0 <= #[trigger] output@[3 * k] < usize::MAX && 0 <= output@[3 * k + 1]
                    < usize::MAX,
        decreases output.len() - idx,
    {
        let x = output[idx];
        let y = output[idx + 1];
        if x < 0 || y < 0 || x as u64 >= usize::MAX as u64 || y as u64 >= usize::MAX as u64 {
            proof {
                assert(!(0 <= output@[3 * t] < usize::MAX && 0 <= output@[3 * t + 1] < usize::MAX));
            }
            return None;
        }
        if x as usize > max_x {
            max_x = x as usize;
        }
        if y as usize > max_y {
            max_y = y as usize;
        }
        idx = idx + 3;
        proof {
            t = t + 1;
        }
    }
    Some((max_x + 1, max_y + 1))
}

/// An empty screen of `w` by `h` cells, with no score yet.
pub open spec fn blank(w: int, h: int) -> Screen {
    Screen {
        tab: Seq::new((w * h) as nat, |i: int| TileType::Empty),
        w,
        h,
        score: (-1i64),
        ball: 0,
        paddle: 0,
    }
}

/// The screen that `program` draws when it runs without input: as large as
/// its tiles need, and filled with them.
pub open spec fn first_screen(program: Seq<i64>) -> Result<Screen, ArcadeError> {
    let run = run_spec(fresh(program), Seq::empty(), STEP_LIMIT as nat);
    let w = largest(run.output, run.output.len() as int / 3, 0) + 1;
    let h = largest(run.output, run.output.len() as int / 3, 1) + 1;
    match run.fault {
        Some(f) => Err(ArcadeError::Fault(f)),
        None => if !tiles_only(run.output) || w * h > usize::MAX {
            Err(ArcadeError::BadFrame)
        } else {
            match frame(blank(w, h), run.output) {
                Some(s) => Ok(s),
                None => Err(ArcadeError::BadFrame),
            }
        },
    }
}

/// Where to push the joystick: towards the ball.
pub open spec fn joystick(s: Screen) -> i64 {
    if s.paddle < s.ball {
        1i64
    } else if s.paddle > s.ball {
        (-1i64)
    } else {
        0i64
    }
}

/// One round of the game from machine `m` and screen `s` with the joystick
/// at `input`: the machine and the screen after it, and where to push the
/// joystick next, or `None` where the program has halted.
pub open spec fn round(m: Machine, s: Screen, input: i64) -> Result<
    (Machine, Screen, Option<i64>),
    ArcadeError,
> {
    let run = run_spec(m, seq![input], STEP_LIMIT as nat);
    match run.fault {
        Some(f) => Err(ArcadeError::Fault(f)),
        None => match frame(s, run.output) {
            None => Err(ArcadeError::BadFrame),
            Some(next) => Ok(
                (
                    run.machine,
                    next,
                    if run.machine.halted {
                        None
                    } else {
                        Some(joystick(next))
                    },
                ),
            ),
        },
    }
}

/// The score at the end of a game that goes on from machine `m` and screen
/// `s` with the joystick at `input`: rounds are played until the program has
/// halted, for at most `rounds` rounds.
pub open spec fn play_from(m: Machine, s: Screen, input: i64, rounds: nat) -> Result<
    i64,
    ArcadeError,
>
    decreases rounds,
{
    if rounds == 0 {
        Err(ArcadeError::RoundLimit)
    } else {
        match round(m, s, input) {
            Err(e) => Err(e),
            Ok((_, next, None)) => Ok(next.score),
            Ok((machine, next, Some(push))) => play_from(machine, next, push, (rounds - 1) as nat),
        }
    }
}

/// Plays one round: runs `program` with the joystick at `input` and draws
/// what it emits on `grid`. Returns where to push the joystick next, towards
/// the ball, or `None` where the program has halted.
pub fn play_round(program: &mut Intcode, grid: &mut Grid, input: i64) -> (res: Result<
    Option<i64>,
    ArcadeError,
>)
    ensures
        match round(old(program)@, old(grid)@, input) {
            Err(e) => res == Err::<Option<i64>, ArcadeError>(e),
            Ok((machine, screen, push)) => {
                &&& res == Ok::<Option<i64>, ArcadeError>(push)
                &&& final(program)@ == machine
                &&& final(grid)@ == screen
            },
        },
{
    let inputs: Vec<i64> = vec![input];
    proof {
        assert(inputs@ =~= seq![input]);
    }
    let output = match program.run(inputs.as_slice()) {
        Ok(output) => output,
        Err(f) => { return Err(ArcadeError::Fault(f)); },
    };
    if !grid.fill(&output) {
        return Err(ArcadeError::BadFrame);
    }
    if program.is_done() {
        return Ok(None);
    }
    Ok(
        Some(
            if grid.paddle_pos_x < grid.ball_pos_x {
                1
            } else if grid.paddle_pos_x > grid.ball_pos_x {
                -1
            } else {
                0
            },
        ),
    )
}

/// The program `memory` with two quarters put in, ready to play.
pub fn insert_coins(memory: Vec<i64>) -> (res: Intcode)
    requires
        memory@.len() >= 1,
    ensures
        res@ == fresh(memory@.update(0, 2)),
{
    let mut image = memory;
    image[0] = 2;
    Intcode::new(&image)
}

/// Plays the game that `memory` holds, with two quarters put in, on `grid`,
/// and returns the final score.
pub fn play(memory: Vec<i64>, grid: Grid, max_rounds: u64) -> (res: Result<i64, ArcadeError>)
    requires
        memory@.len() >= 1,
    ensures
        res == play_from(fresh(memory@.update(0, 2)), grid@, 1, max_rounds as nat),
{
    let ghost goal = play_from(fresh(memory@.update(0, 2)), grid@, 1, max_rounds as nat);
    let mut screen = grid;
    let mut program = insert_coins(memory);
    let mut input: i64 = 1;
    let mut rounds = max_rounds;
    loop
        invariant
            goal == play_from(fresh(memory@.update(0, 2)), grid@, 1, max_rounds as nat),
            play_from(program@, screen@, input, rounds as nat) == goal,
        decreases rounds,
    {
        if rounds == 0 {
            return Err(ArcadeError::RoundLimit);
        }
        match play_round(&mut program, &mut screen, input) {
            Err(e) => { return Err(e); },
            Ok(None) => { return Ok(screen.score); },
            Ok(Some(push)) => { input = push; },
        }
        rounds = rounds - 1;
    }
}

impl Grid {
    /// The screen that the program `memory` draws when it runs without input.
    pub fn new(memory: &Vec<i64>) -> (res: Result<Grid, ArcadeError>)
        ensures
            match first_screen(memory@) {
                Ok(s) => res is Ok && res->Ok_0@ == s && res->Ok_0.wf(),
                Err(e) => res is Err && res->Err_0 == e,
            },
    {
        let mut program = Intcode::new(memory);
        let empty: Vec<i64> = Vec::new();
        let output = match program.run(empty.as_slice()) {
            Ok(output) => output,
            Err(f) => { return Err(ArcadeError::Fault(f)); },
        };
        let (w, h) = match get_bounds(&output) {
            Some(bounds) => bounds,
            None => { return Err(ArcadeError::BadFrame); },
        };
        let size = match w.checked_mul(h) {
            Some(size) => size,
            None => { return Err(ArcadeError::BadFrame); },
        };
        let tab: Vec<TileType> = vec![TileType::Empty; size];
        let mut s = Grid { tab, w, h, score: -1, ball_pos_x: 0, paddle_pos_x: 0 };
        proof {
            assert(s@.tab =~= blank(w as int, h as int).tab);
        }
        if !s.fill(&output) {
            return Err(ArcadeError::BadFrame);
        }
        Ok(s)
    }

    /// Draws `output` on the screen, triple by triple. Stops with `false` at
    /// a triple that cannot be drawn, or where `output` is no list of triples.
    pub fn fill(&mut self, output: &Vec<i64>) -> (res: bool)
        ensures
            res == frame(old(self)@, output@) is Some,
            res ==> final(self)@ == frame(old(self)@, output@)->Some_0,
            final(self).wf() == old(self).wf(),
            final(self)@.w == old(self)@.w && final(self)@.h == old(self)@.h,
    {
        if output.len() % 3 != 0 {
            return false;
        }
        let mut idx: usize = 0;
        let ghost mut k: int = 0;
        while idx < output.len()
            invariant
                idx == 3 * k,
                0 <= k <= output@.len() as int / 3,
                output@.len() % 3 == 0,
                self.wf() == old(self).wf(),
                self@.w == old(self)@.w && self@.h == old(self)@.h,
                filled(old(self)@, output@, k) == Some(self@),
            decreases output.len() - idx,
        {
            let x = output[idx];
            let y = output[idx + 1];
            let t = output[idx + 2];
            idx = idx + 3;
            proof {
                k = k + 1;
            }
            if x == -1 && y == 0 {
                self.score = t;
                continue ;
            }
            let typ = if t == 0 {
                TileType::Empty
            } else if t == 1 {
                TileType::Wall
            } else if t == 2 {
                TileType::Block
            } else if t == 3 {
                TileType::Paddle
            } else if t == 4 {
                TileType::Ball
            } else {
                proof {
                    lemma_stays_undrawn(old(self)@, output@, k, output@.len() as int / 3);
                }
                return false;
            };
            if x < 0 || x > i32::MAX as i64 || y < 0 {
                proof {
                    lemma_stays_undrawn(old(self)@, output@, k, output@.len() as int / 3);
                }
                return false;
            }
            assert(0 <= (y as int) * (self.w as int) <= 0x7fff_ffff_ffff_ffff * 0xffff_ffff_ffff_ffff)
                by (nonlinear_arith)
                requires
                    0 <= y <= 0x7fff_ffff_ffff_ffff,
                    0 <= self.w <= 0xffff_ffff_ffff_ffff,
            ;
            let at = y as u128 * self.w as u128 + x as u128;
            if at >= self.tab.len() as u128 {
                proof {
                    lemma_stays_undrawn(old(self)@, output@, k, output@.len() as int / 3);
                }
                return false;
            }
            if t == 3 {
                self.paddle_pos_x = x as i32;
            }
            if t == 4 {
                self.ball_pos_x = x as i32;
            }
            self.tab[at as usize] = typ;
        }
        true
    }

    /// The tile at (`x`, `y`).
    pub fn at(&self, x: usize, y: usize) -> (res: &TileType)
        requires
            y * self.w + x < self.tab@.len(),
        ensures
            *res == self.tab@[y * self.w + x],
    {
        let n = self.tab.len();
        assert(0 <= (y as int) * (self.w as int)) by (nonlinear_arith)
            requires
                0 <= y,
                0 <= self.w,
        ;
        &self.tab[y * self.w + x]
    }

    /// How many cells show a block.
    pub fn count_blocks(&self) -> (res: usize)
        ensures
            res == blocks(self.tab@),
    {
        let mut acc: usize = 0;
        let mut i: usize = 0;
        while i < self.tab.len()
            invariant
                i <= self.tab.len(),
                acc <= i,
                acc == blocks(self.tab@.take(i as int)),
            decreases self.tab.len() - i,
        {
            proof {
                assert(self.tab@.take(i + 1).drop_last() =~= self.tab@.take(i as int));
            }
            if let TileType::Block = self.tab[i] {
                acc = acc + 1;
            }
            i = i + 1;
        }
        proof {
            assert(self.tab@.take(i as int) =~= self.tab@);
        }
        acc
    }
}

/// The character that shows a tile.
pub open spec fn glyph(t: TileType) -> char {
    match t {
        TileType::Empty => ' ',
        TileType::Wall => 'W',
        TileType::Block => 'O',
        TileType::Paddle => '_',
        TileType::Ball => 'X',
    }
}

/// The first `k` characters of row `y` of the screen.
pub open spec fn row_text(s: Screen, y: int, k: int) -> Seq<char>
    decreases k,
{
    if k <= 0 {
        Seq::empty()
    } else {
        row_text(s, y, k - 1).push(glyph(s.tab[y * s.w + k - 1]))
    }
}

/// The first `rows` rows of the screen, each followed by a line break.
pub open spec fn screen_text(s: Screen, rows: int) -> Seq<char>
    decreases rows,
{
    if rows <= 0 {
        Seq::empty()
    } else {
        screen_text(s, rows - 1) + row_text(s, rows - 1, s.w).push('\n')
    }
}

impl TileType {
    /// The character that shows the tile.
    pub fn to_char(&self) -> (res: char)
        ensures
            res == glyph(*self),
    {
        match self {
            TileType::Empty => ' ',
            TileType::Wall => 'W',
            TileType::Block => 'O',
            TileType::Paddle => '_',
            TileType::Ball => 'X',
        }
    }
}

proof fn lemma_cell(x: int, y: int, w: int, h: int)
    by (nonlinear_arith)
    requires
        0 <= x < w,
        0 <= y < h,
    ensures
        0 <= y * w + x < w * h,
        0 <= y * w,
{
}

impl Grid {
    /// Whether the screen holds `w` times `h` cells.
    pub open spec fn wf(&self) -> bool {
        self.tab@.len() == self.w * self.h
    }

    /// The screen as text: row by row, each followed by a line break.
    pub fn to_string(&self) -> (res: String)
        requires
            self.wf(),
        ensures
            res@ == screen_text(self@, self.h as int),
    {
        let mut out: Vec<char> = Vec::new();
        let n = self.tab.len();
        let mut y: usize = 0;
        while y < self.h
            invariant
                y <= self.h,
                self.wf(),
                n == self.tab@.len(),
                out@ == screen_text(self@, y as int),
            decreases self.h - y,
        {
            let ghost above = out@;
            let mut x: usize = 0;
            proof {
                assert(above + row_text(self@, y as int, 0) =~= above);
            }
            while x < self.w
                invariant
                    x <= self.w,
                    y < self.h,
                    self.wf(),
                    n == self.tab@.len(),
                    out@ == above + row_text(self@, y as int, x as int),
                decreases self.w - x,
            {
                proof {
                    lemma_cell(x as int, y as int, self.w as int, self.h as int);
                }
                out.push(self.tab[y * self.w + x].to_char());
                x = x + 1;
                proof {
                    assert(out@ =~= above + row_text(self@, y as int, x as int));
                }
            }
            out.push('\n');
            y = y + 1;
            proof {
                assert(out@ =~= screen_text(self@, y as int));
            }
        }
        string_of(&out)
    }
}

/// How many of `tab` are blocks.
pub open spec fn blocks(tab: Seq<TileType>) -> nat
    decreases tab.len(),
{
    if tab.len() == 0 {
        0
    } else {
        blocks(tab.drop_last()) + if tab.last() == TileType::Block {
            1nat
        } else {
            0nat
        }
    }
}

/// A triple that cannot be drawn leaves no screen, whatever follows.
proof fn lemma_stays_undrawn(s: Screen, output: Seq<i64>, k: int, later: int)
    requires
        filled(s, output, k) is None,
        k <= later,
    ensures
        filled(s, output, later) is None,
    decreases later,
{
    if k < later {
        lemma_stays_undrawn(s, output, k, later - 1);
    }
}

} // verus!

//! The character display as the renderer sees it: drawing commands, the
//! canvas they paint on, and an in-memory screen that carries them out.

use vstd::prelude::*;

verus! {

/// Foreground colour of the glyphs written next.
#[derive(Clone, Copy, PartialEq, Eq, Debug, Structural)]
pub enum Ink {
    /// The terminal's own colour.
    Default,
    Blue,
    Red,
    Yellow,
}

/// What one cell of the display shows.
#[derive(Clone, Copy, PartialEq, Eq, Debug, Structural)]
pub struct Cell {
    pub glyph: char,
    pub ink: Ink,
}

/// One cursor-addressed command to the display.
#[derive(Clone, Copy, PartialEq, Eq, Debug, Structural)]
pub enum DrawOp {
    /// Blank every cell; the cursor and the ink stay.
    Clear,
    /// Move the cursor to column `x` of row `y`, both counted from one.
    Goto { x: u16, y: u16 },
    /// Select the ink of the glyphs written next.
    Fg(Ink),
    /// Write a glyph at the cursor and advance the cursor by one column.
    Put(char),
}

/// The last column and the last row that a cursor can address.
pub const LAST_COORDINATE: u16 = 0xFFFF;

/// The cell that shows nothing.
pub open spec fn blank_cell() -> Cell {
    Cell { glyph: ' ', ink: Ink::Default }
}

/// The coordinate a display moves to when asked for `asked`: columns and
/// rows count from one, and a display reads zero as one.
pub open spec fn addressed(asked: int) -> int {
    if asked == 0 {
        1
    } else {
        asked
    }
}

/// The state of a character display: what was written where, the cursor and
/// the selected ink. Cells that were never written are blank.
#[verifier::ext_equal]
pub struct Canvas {
    pub cells: Map<(int, int), Cell>,
    pub x: int,
    pub y: int,
    pub ink: Ink,
}

impl Canvas {
    /// The display before anything is drawn: the cursor in the upper left
    /// corner.
    pub open spec fn blank() -> Canvas {
        Canvas { cells: Map::empty(), x: 1, y: 1, ink: Ink::Default }
    }

    /// What the cell in column `x` of row `y` shows.
    pub open spec fn at(self, x: int, y: int) -> Cell {
        if self.cells.contains_key((x, y)) {
            self.cells[(x, y)]
        } else {
            blank_cell()
        }
    }

    /// The display after one command.
    pub open spec fn paint(self, op: DrawOp) -> Canvas {
        match op {
            DrawOp::Clear => Canvas { cells: Map::empty(), ..self },
            DrawOp::Goto { x, y } => Canvas {
                x: addressed(x as int),
                y: addressed(y as int),
                ..self
            },
            DrawOp::Fg(ink) => Canvas { ink: ink, ..self },
            DrawOp::Put(glyph) => Canvas {
                cells: self.cells.insert((self.x, self.y), Cell { glyph: glyph, ink: self.ink }),
                x: if self.x < LAST_COORDINATE {
                    self.x + 1
                } else {
                    self.x
                },
                ..self
            },
        }
    }

    /// The display after a sequence of commands, carried out in order.
    pub open spec fn paint_all(self, ops: Seq<DrawOp>) -> Canvas
        decreases ops.len(),
    {
        if ops.len() == 0 {
            self
        } else {
            self.paint_all(ops.drop_last()).paint(ops.last())
        }
    }
}

/// Painting two frames one after the other is painting their concatenation.
pub proof fn lemma_paint_all_concat(canvas: Canvas, first: Seq<DrawOp>, second: Seq<DrawOp>)
    ensures
        canvas.paint_all(first + second) == canvas.paint_all(first).paint_all(second),
    decreases second.len(),
{
    if second.len() == 0 {
        assert(first + second =~= first);
    } else {
        lemma_paint_all_concat(canvas, first, second.drop_last());
        assert((first + second).drop_last() =~= first + second.drop_last());
        assert((first + second).last() == second.last());
    }
}

/// Painting a frame of one command is carrying out that command.
pub proof fn lemma_paint_all_one(canvas: Canvas, op: DrawOp)
    ensures
        canvas.paint_all(seq![op]) == canvas.paint(op),
{
    let ops = seq![op];
    assert(ops.drop_last() =~= Seq::<DrawOp>::empty());
    assert(canvas.paint_all(ops.drop_last()) == canvas);
    assert(ops.last() == op);
}

/// Painting a frame and one more command.
pub proof fn lemma_paint_all_push(canvas: Canvas, ops: Seq<DrawOp>, op: DrawOp)
    ensures
        canvas.paint_all(ops.push(op)) == canvas.paint_all(ops).paint(op),
{
    assert(ops.push(op).drop_last() =~= ops);
    assert(ops.push(op).last() == op);
}

/// One glyph written by a screen, with the place it was written at.
#[derive(Clone, Copy, Debug)]
pub struct Written {
    pub x: u16,
    pub y: u16,
    pub cell: Cell,
}

/// The cells that a log of writes leaves behind: of two writes to one cell
/// the later one shows.
pub open spec fn cells_of(log: Seq<Written>) -> Map<(int, int), Cell>
    decreases log.len(),
{
    if log.len() == 0 {
        Map::empty()
    } else {
        cells_of(log.drop_last()).insert((log.last().x as int, log.last().y as int), log.last().cell)
    }
}

/// Writes at the end of a log that touch another cell do not change what
/// the cell at `x`, `y` shows.
proof fn lemma_cells_of_tail(log: Seq<Written>, from: int, x: int, y: int)
    requires
        0 <= from <= log.len(),
        forall|j: int| from <= j < log.len() ==> !(#[trigger] log[j].x == x && log[j].y == y),
    ensures
        cells_of(log).contains_key((x, y)) == cells_of(log.take(from)).contains_key((x, y)),
        cells_of(log).contains_key((x, y)) ==> cells_of(log)[(x, y)] == cells_of(log.take(from))[(
            x,
            y,
        )],
    decreases log.len() - from,
{
    if from == log.len() {
        assert(log.take(from) =~= log);
    } else {
        let shorter = log.drop_last();
        assert(!(log[log.len() - 1].x == x && log[log.len() - 1].y == y));
        lemma_cells_of_tail(shorter, from, x, y);
        assert(shorter.take(from) =~= log.take(from));
    }
}

/// An in-memory display: it carries out drawing commands and can be asked
/// what a cell shows.
pub struct Screen {
    log: Vec<Written>,
    x: u16,
    y: u16,
    ink: Ink,
}

impl View for Screen {
    type V = Canvas;

    closed spec fn view(&self) -> Canvas {
        Canvas { cells: cells_of(self.log@), x: self.x as int, y: self.y as int, ink: self.ink }
    }
}

impl Screen {
    /// A blank screen with the cursor in the upper left corner.
    pub fn new() -> (screen: Screen)
        ensures
            screen@ == Canvas::blank(),
    {
        Screen { log: Vec::new(), x: 1, y: 1, ink: Ink::Default }
    }

    /// Carries out one command.
    pub fn apply(&mut self, op: DrawOp)
        ensures
            final(self)@ == old(self)@.paint(op),
    {
        match op {
            DrawOp::Clear => {
                self.log = Vec::new();
            },
            DrawOp::Goto { x, y } => {
                self.x = if x == 0 {
                    1
                } else {
                    x
                };
                self.y = if y == 0 {
                    1
                } else {
                    y
                };
            },
            DrawOp::Fg(ink) => {
                self.ink = ink;
            },
            DrawOp::Put(glyph) => {
                let written = Written {
                    x: self.x,
                    y: self.y,
                    cell: Cell { glyph: glyph, ink: self.ink },
                };
                self.log.push(written);
                proof {
                    assert(self.log@.drop_last() =~= old(self).log@);
                }
                if self.x < LAST_COORDINATE {
                    self.x = self.x + 1;
                }
            },
        }
    }

    /// Carries out the commands of a frame in order.
    pub fn run(&mut self, frame: &Vec<DrawOp>)
        ensures
            final(self)@ == old(self)@.paint_all(frame@),
    {
        let mut done: usize = 0;
        while done < frame.len()
            invariant
                done <= frame.len(),
                self@ == old(self)@.paint_all(frame@.take(done as int)),
            decreases frame.len() - done,
        {
            self.apply(frame[done]);
            proof {
                assert(frame@.take(done + 1) =~= frame@.take(done as int).push(frame@[done as int]));
                lemma_paint_all_push(old(self)@, frame@.take(done as int), frame@[done as int]);
            }
            done += 1;
        }
        proof {
            assert(frame@.take(done as int) =~= frame@);
        }
    }

    /// What the cell in column `x` of row `y` shows.
    pub fn cell_at(&self, x: u16, y: u16) -> (cell: Cell)
        ensures
            cell == self@.at(x as int, y as int),
    {
        let mut left: usize = self.log.len();
        while left > 0
            invariant
                left <= self.log.len(),
                forall|j: int|
                    left <= j < self.log@.len() ==> !(#[trigger] self.log@[j].x == x
                        && self.log@[j].y == y),
            decreases left,
        {
            left -= 1;
            let written = self.log[left];
            if written.x == x && written.y == y {
                proof {
                    lemma_cells_of_tail(self.log@, left + 1, x as int, y as int);
                    assert(self.log@.take(left + 1).drop_last() =~= self.log@.take(left as int));
                }
                return written.cell;
            }
        }
        proof {
            lemma_cells_of_tail(self.log@, 0, x as int, y as int);
            assert(self.log@.take(0) =~= Seq::<Written>::empty());
        }
        Cell { glyph: ' ', ink: Ink::Default }
    }

    /// The column and the row of the cursor.
    pub fn cursor(&self) -> (at: (u16, u16))
        ensures
            at.0 == self@.x,
            at.1 == self@.y,
    {
        (self.x, self.y)
    }

    /// The ink of the glyphs written next.
    pub fn ink(&self) -> (ink: Ink)
        ensures
            ink == self@.ink,
    {
        self.ink
    }
}

} // verus!

//! The frames of the renderer: which commands draw the field, the food and
//! the snakes, and what a display shows once it has carried them out.

use crate::ansi::{encodable, op_encodable};
use crate::display::{Canvas, Cell, DrawOp, Ink};
use crate::game::{body_on_screen, snakes_on_screen, Point, BLANK_CHAR, FOOD_CHAR, SNAKE_CHAR};
use vstd::prelude::*;

verus! {

/// The most rows a field can have: the row below the last one must still
/// be addressable.
pub const MAX_ROWS: usize = 0xFFFE;

/// The most columns a field can have.
pub const MAX_COLUMNS: usize = 0xFFFF;

/// The ink of the field.
pub open spec fn field_ink() -> Ink {
    Ink::Blue
}

/// The ink of the food.
pub open spec fn food_ink() -> Ink {
    Ink::Red
}

/// The ink of a snake: one for the player's own, one for the others.
pub open spec fn snake_ink(own: bool) -> Ink {
    if own {
        Ink::Red
    } else {
        Ink::Yellow
    }
}

/// The command that parks the cursor: column zero of the row below a field
/// of `rows` rows.
pub open spec fn parking(rows: nat) -> DrawOp {
    DrawOp::Goto { x: 0, y: (rows + 1) as u16 }
}

/// Whether the cursor of `canvas` is parked below a field of `rows` rows.
pub open spec fn parked(canvas: Canvas, rows: nat) -> bool {
    canvas.x == 1 && canvas.y == rows + 1
}

/// The glyph at `index` of a row.
pub open spec fn glyph_of(row: Seq<char>, index: int) -> char {
    row[index]
}

/// The glyph that a grid drawn from the upper left corner of the display
/// shows in column `x` of row `y`.
pub open spec fn grid_glyph(grid: Seq<Seq<char>>, x: int, y: int) -> char {
    glyph_of(grid[y - 1], x - 1)
}

/// The commands that write one row of glyphs from the cursor on.
pub open spec fn row_frame(row: Seq<char>) -> Seq<DrawOp>
    decreases row.len(),
{
    if row.len() == 0 {
        Seq::empty()
    } else {
        row_frame(row.drop_last()).push(DrawOp::Put(glyph_of(row, row.len() - 1)))
    }
}

/// The commands that write the first `upto` rows of a grid, each followed
/// by a move to the start of the next row.
pub open spec fn rows_frame(grid: Seq<Seq<char>>, upto: nat) -> Seq<DrawOp>
    decreases upto,
{
    if upto == 0 {
        Seq::empty()
    } else {
        rows_frame(grid, (upto - 1) as nat) + row_frame(grid[upto - 1]) + seq![
            DrawOp::Goto { x: 1, y: (upto + 1) as u16 },
        ]
    }
}

/// The frame that draws a whole field on a cleared display.
pub open spec fn field_frame(grid: Seq<Seq<char>>) -> Seq<DrawOp> {
    seq![DrawOp::Clear, DrawOp::Goto { x: 1, y: 1 }, DrawOp::Fg(field_ink())] + rows_frame(
        grid,
        grid.len(),
    ) + seq![DrawOp::Fg(Ink::Default)]
}

/// The frame that draws the food at `food` and parks the cursor below a
/// field of `rows` rows.
pub open spec fn food_frame(food: Point, rows: nat) -> Seq<DrawOp> {
    seq![
        DrawOp::Goto { x: food.x, y: food.y },
        DrawOp::Fg(food_ink()),
        DrawOp::Put(FOOD_CHAR),
        DrawOp::Fg(Ink::Default),
        parking(rows),
    ]
}

/// The frame that erases the food at `food`: the blank glyph in the
/// display's own ink, and the cursor parked below a field of `rows` rows.
pub open spec fn erased_food(food: Point, rows: nat) -> Seq<DrawOp> {
    seq![
        DrawOp::Goto { x: food.x, y: food.y },
        DrawOp::Fg(Ink::Default),
        DrawOp::Put(BLANK_CHAR),
        parking(rows),
    ]
}

/// The commands that write `glyph` at every point of a body, head first.
pub open spec fn body_frame(body: Seq<Point>, glyph: char) -> Seq<DrawOp>
    decreases body.len(),
{
    if body.len() == 0 {
        Seq::empty()
    } else {
        body_frame(body.drop_last(), glyph) + seq![
            DrawOp::Goto { x: body.last().x, y: body.last().y },
            DrawOp::Put(glyph),
        ]
    }
}

/// The frame that draws one snake with `glyph`, parks the cursor and resets
/// the ink. With the blank glyph it erases the snake.
pub open spec fn snake_frame(glyph: char, body: Seq<Point>, own: bool, rows: nat) -> Seq<DrawOp> {
    seq![DrawOp::Fg(snake_ink(own))] + body_frame(body, glyph) + seq![
        parking(rows),
        DrawOp::Fg(Ink::Default),
    ]
}

/// The frames of the first `upto` snakes, one after the other. The snake
/// whose index is `own` is drawn as the player's own.
pub open spec fn snakes_frame(
    snakes: Seq<Seq<Point>>,
    upto: nat,
    glyph: char,
    own: int,
    rows: nat,
) -> Seq<DrawOp>
    decreases upto,
{
    if upto == 0 {
        Seq::empty()
    } else {
        snakes_frame(snakes, (upto - 1) as nat, glyph, own, rows) + snake_frame(
            glyph,
            snakes[upto - 1],
            own == upto - 1,
            rows,
        )
    }
}

/// The frame that draws every snake with the snake glyph.
pub open spec fn drawn_snakes(snakes: Seq<Seq<Point>>, own: nat, rows: nat) -> Seq<DrawOp> {
    snakes_frame(snakes, snakes.len(), SNAKE_CHAR, own as int, rows)
}

/// The frame that erases every snake: each is drawn with the blank glyph,
/// none as the player's own.
pub open spec fn erased_snakes(snakes: Seq<Seq<Point>>, rows: nat) -> Seq<DrawOp> {
    snakes_frame(snakes, snakes.len(), BLANK_CHAR, -1, rows)
}

/// Whether a body has a segment in column `x` of row `y`.
pub open spec fn body_covers(body: Seq<Point>, x: int, y: int) -> bool {
    exists|i: int| 0 <= i < body.len() && (#[trigger] body[i]).x == x && body[i].y == y
}

/// Whether one of the first `upto` snakes has a segment in column `x` of
/// row `y`.
pub open spec fn snakes_cover(snakes: Seq<Seq<Point>>, upto: nat, x: int, y: int) -> bool {
    exists|id: int| 0 <= id < upto && body_covers(#[trigger] snakes[id], x, y)
}

/// Whether one of the snakes has a segment in column `x` of row `y`.
pub open spec fn occupied(snakes: Seq<Seq<Point>>, x: int, y: int) -> bool {
    snakes_cover(snakes, snakes.len(), x, y)
}

/// Whether a grid fits a display: no more rows and no longer rows than a
/// cursor can address.
pub open spec fn grid_fits(grid: Seq<Seq<char>>) -> bool {
    &&& grid.len() <= MAX_ROWS
    &&& forall|row: int| 0 <= row < grid.len() ==> (#[trigger] grid[row]).len() <= MAX_COLUMNS
}

/// Whether column `x` of row `y` lies in a grid drawn from the upper left
/// corner of the display.
pub open spec fn in_grid(grid: Seq<Seq<char>>, x: int, y: int) -> bool {
    1 <= y <= grid.len() && 1 <= x <= grid[y - 1].len()
}

/// Writing a row puts its glyphs, in the selected ink, on the cells from
/// the cursor on and leaves every other cell, the row of the cursor and the
/// ink alone.
proof fn lemma_row_frame_paints(canvas: Canvas, row: Seq<char>)
    requires
        1 <= canvas.x <= MAX_COLUMNS,
        canvas.x + row.len() <= MAX_COLUMNS + 1,
    ensures
        canvas.paint_all(row_frame(row)).ink == canvas.ink,
        canvas.paint_all(row_frame(row)).y == canvas.y,
        canvas.paint_all(row_frame(row)).x == (if canvas.x + row.len() <= MAX_COLUMNS {
            canvas.x + row.len()
        } else {
            MAX_COLUMNS as int
        }),
        forall|x: int, y: int|
            #[trigger] canvas.paint_all(row_frame(row)).at(x, y) == (if y == canvas.y && canvas.x
                <= x < canvas.x + row.len() {
                Cell { glyph: glyph_of(row, x - canvas.x), ink: canvas.ink }
            } else {
                canvas.at(x, y)
            }),
    decreases row.len(),
{
    if row.len() > 0 {
        let front = row.drop_last();
        lemma_row_frame_paints(canvas, front);
        let glyph = glyph_of(row, row.len() - 1);
        crate::display::lemma_paint_all_push(canvas, row_frame(front), DrawOp::Put(glyph));
        let before = canvas.paint_all(row_frame(front));
        let after = canvas.paint_all(row_frame(row));
        assert(after == before.paint(DrawOp::Put(glyph)));
        assert(before.x == canvas.x + front.len());
        assert forall|x: int, y: int|
            #[trigger] after.at(x, y) == (if y == canvas.y && canvas.x <= x < canvas.x + row.len() {
                Cell { glyph: glyph_of(row, x - canvas.x), ink: canvas.ink }
            } else {
                canvas.at(x, y)
            }) by {
            assert(after.at(x, y) == (if x == before.x && y == before.y {
                Cell { glyph: glyph, ink: before.ink }
            } else {
                before.at(x, y)
            }));
        }
    }
}

/// Writing the first `upto` rows of a grid from the upper left corner puts
/// every glyph on its cell, in the selected ink, leaves every other cell
/// alone and ends at the start of the next row.
proof fn lemma_rows_frame_paints(canvas: Canvas, grid: Seq<Seq<char>>, upto: nat)
    requires
        upto <= grid.len(),
        grid_fits(grid),
        canvas.x == 1,
        canvas.y == 1,
    ensures
        canvas.paint_all(rows_frame(grid, upto)).ink == canvas.ink,
        canvas.paint_all(rows_frame(grid, upto)).x == 1,
        canvas.paint_all(rows_frame(grid, upto)).y == upto + 1,
        forall|x: int, y: int|
            #[trigger] canvas.paint_all(rows_frame(grid, upto)).at(x, y) == (if y <= upto
                && in_grid(grid, x, y) {
                Cell { glyph: grid_glyph(grid, x, y), ink: canvas.ink }
            } else {
                canvas.at(x, y)
            }),
    decreases upto,
{
    if upto > 0 {
        let fewer = (upto - 1) as nat;
        let row = grid[upto - 1];
        let next = DrawOp::Goto { x: 1, y: (upto + 1) as u16 };
        lemma_rows_frame_paints(canvas, grid, fewer);
        let before = canvas.paint_all(rows_frame(grid, fewer));
        crate::display::lemma_paint_all_concat(
            canvas,
            rows_frame(grid, fewer) + row_frame(row),
            seq![next],
        );
        crate::display::lemma_paint_all_concat(canvas, rows_frame(grid, fewer), row_frame(row));
        let written = before.paint_all(row_frame(row));
        crate::display::lemma_paint_all_one(written, next);
        lemma_row_frame_paints(before, row);
        let after = canvas.paint_all(rows_frame(grid, upto));
        assert(after == written.paint(next));
        assert forall|x: int, y: int|
            #[trigger] after.at(x, y) == (if y <= upto && in_grid(grid, x, y) {
                Cell { glyph: grid_glyph(grid, x, y), ink: canvas.ink }
            } else {
                canvas.at(x, y)
            }) by {
            assert(after.at(x, y) == written.at(x, y));
            assert(written.at(x, y) == (if y == upto && 1 <= x < 1 + row.len() {
                Cell { glyph: glyph_of(row, x - 1), ink: canvas.ink }
            } else {
                before.at(x, y)
            }));
        }
    }
}

/// Drawing the field blanks the display, puts every glyph of the grid on
/// its cell in the field's ink, resets the ink and leaves the cursor parked
/// below the field.
pub proof fn lemma_field_frame_paints(canvas: Canvas, grid: Seq<Seq<char>>)
    requires
        grid_fits(grid),
    ensures
        canvas.paint_all(field_frame(grid)).ink == Ink::Default,
        parked(canvas.paint_all(field_frame(grid)), grid.len()),
        forall|x: int, y: int|
            #[trigger] canvas.paint_all(field_frame(grid)).at(x, y) == (if in_grid(grid, x, y) {
                Cell { glyph: grid_glyph(grid, x, y), ink: field_ink() }
            } else {
                crate::display::blank_cell()
            }),
{
    let head = seq![DrawOp::Clear, DrawOp::Goto { x: 1, y: 1 }, DrawOp::Fg(field_ink())];
    let rows = rows_frame(grid, grid.len());
    let reset = DrawOp::Fg(Ink::Default);
    crate::display::lemma_paint_all_concat(canvas, head + rows, seq![reset]);
    crate::display::lemma_paint_all_concat(canvas, head, rows);
    assert(head =~= seq![DrawOp::Clear].push(DrawOp::Goto { x: 1, y: 1 }).push(
        DrawOp::Fg(field_ink()),
    ));
    crate::display::lemma_paint_all_one(canvas, DrawOp::Clear);
    crate::display::lemma_paint_all_push(canvas, seq![DrawOp::Clear], DrawOp::Goto { x: 1, y: 1 });
    crate::display::lemma_paint_all_push(
        canvas,
        seq![DrawOp::Clear].push(DrawOp::Goto { x: 1, y: 1 }),
        DrawOp::Fg(field_ink()),
    );
    let cleared = canvas.paint_all(head);
    assert(cleared == canvas.paint(DrawOp::Clear).paint(DrawOp::Goto { x: 1, y: 1 }).paint(
        DrawOp::Fg(field_ink()),
    ));
    lemma_rows_frame_paints(cleared, grid, grid.len());
    let written = cleared.paint_all(rows);
    crate::display::lemma_paint_all_one(written, reset);
    let after = canvas.paint_all(field_frame(grid));
    assert(after == written.paint(reset));
    assert forall|x: int, y: int|
        #[trigger] after.at(x, y) == (if in_grid(grid, x, y) {
            Cell { glyph: grid_glyph(grid, x, y), ink: field_ink() }
        } else {
            crate::display::blank_cell()
        }) by {
        assert(after.at(x, y) == written.at(x, y));
        assert(cleared.at(x, y) == crate::display::blank_cell());
    }
}

/// Drawing the food puts the food glyph, in the food's ink, on the food's
/// cell, leaves every other cell alone, resets the ink and parks the
/// cursor.
pub proof fn lemma_food_frame_paints(canvas: Canvas, food: Point, rows: nat)
    requires
        food.on_screen(),
        rows <= MAX_ROWS,
    ensures
        canvas.paint_all(food_frame(food, rows)).ink == Ink::Default,
        parked(canvas.paint_all(food_frame(food, rows)), rows),
        forall|x: int, y: int|
            #[trigger] canvas.paint_all(food_frame(food, rows)).at(x, y) == (if x == food.x && y
                == food.y {
                Cell { glyph: FOOD_CHAR, ink: food_ink() }
            } else {
                canvas.at(x, y)
            }),
{
    let go = DrawOp::Goto { x: food.x, y: food.y };
    let ink = DrawOp::Fg(food_ink());
    let put = DrawOp::Put(FOOD_CHAR);
    let reset = DrawOp::Fg(Ink::Default);
    let park = parking(rows);
    assert(food_frame(food, rows) =~= seq![go].push(ink).push(put).push(reset).push(park));
    crate::display::lemma_paint_all_one(canvas, go);
    crate::display::lemma_paint_all_push(canvas, seq![go], ink);
    crate::display::lemma_paint_all_push(canvas, seq![go].push(ink), put);
    crate::display::lemma_paint_all_push(canvas, seq![go].push(ink).push(put), reset);
    crate::display::lemma_paint_all_push(canvas, seq![go].push(ink).push(put).push(reset), park);
    let after = canvas.paint_all(food_frame(food, rows));
    assert(after == canvas.paint(go).paint(ink).paint(put).paint(reset).paint(park));
    assert forall|x: int, y: int|
        #[trigger] after.at(x, y) == (if x == food.x && y == food.y {
            Cell { glyph: FOOD_CHAR, ink: food_ink() }
        } else {
            canvas.at(x, y)
        }) by {
        assert(after.at(x, y) == canvas.paint(go).paint(ink).paint(put).at(x, y));
    }
}

/// Erasing the food leaves its cell blank and every other cell alone,
/// resets the ink and parks the cursor.
pub proof fn lemma_erased_food_paints(canvas: Canvas, food: Point, rows: nat)
    requires
        food.on_screen(),
        rows <= MAX_ROWS,
    ensures
        canvas.paint_all(erased_food(food, rows)).ink == Ink::Default,
        parked(canvas.paint_all(erased_food(food, rows)), rows),
        forall|x: int, y: int|
            #[trigger] canvas.paint_all(erased_food(food, rows)).at(x, y) == (if x == food.x && y
                == food.y {
                crate::display::blank_cell()
            } else {
                canvas.at(x, y)
            }),
{
    let go = DrawOp::Goto { x: food.x, y: food.y };
    let ink = DrawOp::Fg(Ink::Default);
    let put = DrawOp::Put(BLANK_CHAR);
    let park = parking(rows);
    assert(erased_food(food, rows) =~= seq![go].push(ink).push(put).push(park));
    crate::display::lemma_paint_all_one(canvas, go);
    crate::display::lemma_paint_all_push(canvas, seq![go], ink);
    crate::display::lemma_paint_all_push(canvas, seq![go].push(ink), put);
    crate::display::lemma_paint_all_push(canvas, seq![go].push(ink).push(put), park);
    let after = canvas.paint_all(erased_food(food, rows));
    assert(after == canvas.paint(go).paint(ink).paint(put).paint(park));
    assert forall|x: int, y: int|
        #[trigger] after.at(x, y) == (if x == food.x && y == food.y {
            crate::display::blank_cell()
        } else {
            canvas.at(x, y)
        }) by {
        assert(after.at(x, y) == canvas.paint(go).paint(ink).paint(put).at(x, y));
    }
}

/// Writing a body puts the glyph, in the selected ink, on every cell of the
/// body and leaves every other cell and the ink alone.
pub proof fn lemma_body_frame_paints(canvas: Canvas, body: Seq<Point>, glyph: char)
    requires
        body_on_screen(body),
    ensures
        canvas.paint_all(body_frame(body, glyph)).ink == canvas.ink,
        forall|x: int, y: int|
            #[trigger] canvas.paint_all(body_frame(body, glyph)).at(x, y) == (if body_covers(
                body,
                x,
                y,
            ) {
                Cell { glyph: glyph, ink: canvas.ink }
            } else {
                canvas.at(x, y)
            }),
    decreases body.len(),
{
    let after = canvas.paint_all(body_frame(body, glyph));
    if body.len() == 0 {
        assert forall|x: int, y: int| !body_covers(body, x, y) by {}
    } else {
        let front = body.drop_last();
        let last = body.last();
        lemma_body_frame_paints(canvas, front, glyph);
        let before = canvas.paint_all(body_frame(front, glyph));
        let tail = seq![DrawOp::Goto { x: last.x, y: last.y }, DrawOp::Put(glyph)];
        crate::display::lemma_paint_all_concat(canvas, body_frame(front, glyph), tail);
        assert(tail.drop_last() =~= seq![DrawOp::Goto { x: last.x, y: last.y }]);
        crate::display::lemma_paint_all_one(before, DrawOp::Goto { x: last.x, y: last.y });
        assert(before.paint_all(tail) == before.paint(DrawOp::Goto { x: last.x, y: last.y }).paint(
            DrawOp::Put(glyph),
        ));
        assert(body[body.len() - 1].on_screen());
        let moved = before.paint(DrawOp::Goto { x: last.x, y: last.y });
        assert(moved.x == last.x && moved.y == last.y);
        assert(after == moved.paint(DrawOp::Put(glyph)));
        assert forall|x: int, y: int|
            #[trigger] after.at(x, y) == (if body_covers(body, x, y) {
                Cell { glyph: glyph, ink: canvas.ink }
            } else {
                canvas.at(x, y)
            }) by {
            assert(after.at(x, y) == (if last.x == x && last.y == y {
                Cell { glyph: glyph, ink: canvas.ink }
            } else {
                before.at(x, y)
            }));
            if last.x == x && last.y == y {
                assert(body[body.len() - 1].x == x && body[body.len() - 1].y == y);
            } else if body_covers(front, x, y) {
                let i = choose|i: int| 0 <= i < front.len() && (#[trigger] front[i]).x == x && front[i].y == y;
                assert(body[i].x == x && body[i].y == y);
            } else if body_covers(body, x, y) {
                let i = choose|i: int| 0 <= i < body.len() && (#[trigger] body[i]).x == x && body[i].y == y;
                assert(front[i].x == x && front[i].y == y);
            }
        }
    }
}

/// Drawing one snake puts the glyph, in the snake's ink, on every cell of
/// its body, leaves every other cell alone, resets the ink and parks the
/// cursor.
pub proof fn lemma_snake_frame_paints(
    canvas: Canvas,
    glyph: char,
    body: Seq<Point>,
    own: bool,
    rows: nat,
)
    requires
        body_on_screen(body),
        rows <= MAX_ROWS,
    ensures
        canvas.paint_all(snake_frame(glyph, body, own, rows)).ink == Ink::Default,
        parked(canvas.paint_all(snake_frame(glyph, body, own, rows)), rows),
        forall|x: int, y: int|
            #[trigger] canvas.paint_all(snake_frame(glyph, body, own, rows)).at(x, y) == (
            if body_covers(body, x, y) {
                Cell { glyph: glyph, ink: snake_ink(own) }
            } else {
                canvas.at(x, y)
            }),
{
    let head = seq![DrawOp::Fg(snake_ink(own))];
    let tail = seq![parking(rows), DrawOp::Fg(Ink::Default)];
    let inked = canvas.paint(DrawOp::Fg(snake_ink(own)));
    let written = inked.paint_all(body_frame(body, glyph));
    crate::display::lemma_paint_all_concat(canvas, head + body_frame(body, glyph), tail);
    crate::display::lemma_paint_all_concat(canvas, head, body_frame(body, glyph));
    crate::display::lemma_paint_all_one(canvas, DrawOp::Fg(snake_ink(own)));
    lemma_body_frame_paints(inked, body, glyph);
    assert(tail.drop_last() =~= seq![parking(rows)]);
    crate::display::lemma_paint_all_one(written, parking(rows));
    assert(written.paint_all(tail) == written.paint(parking(rows)).paint(DrawOp::Fg(Ink::Default)));
    let after = canvas.paint_all(snake_frame(glyph, body, own, rows));
    assert(after == written.paint(parking(rows)).paint(DrawOp::Fg(Ink::Default)));
    assert forall|x: int, y: int|
        #[trigger] after.at(x, y) == (if body_covers(body, x, y) {
            Cell { glyph: glyph, ink: snake_ink(own) }
        } else {
            canvas.at(x, y)
        }) by {
        assert(after.at(x, y) == written.at(x, y));
        assert(inked.at(x, y) == canvas.at(x, y));
    }
}

/// The index of the last of the first `upto` snakes that has a segment in
/// column `x` of row `y`: the one drawn on top. Where none has, -1.
pub open spec fn top_snake(snakes: Seq<Seq<Point>>, upto: nat, x: int, y: int) -> int
    decreases upto,
{
    if upto == 0 {
        -1
    } else if body_covers(snakes[upto - 1], x, y) {
        upto - 1
    } else {
        top_snake(snakes, (upto - 1) as nat, x, y)
    }
}

/// A cell is covered by one of the first `upto` snakes exactly where one of
/// them is on top.
pub proof fn lemma_top_snake_covers(snakes: Seq<Seq<Point>>, upto: nat, x: int, y: int)
    ensures
        snakes_cover(snakes, upto, x, y) <==> top_snake(snakes, upto, x, y) >= 0,
        top_snake(snakes, upto, x, y) < upto,
    decreases upto,
{
    if upto > 0 {
        let fewer = (upto - 1) as nat;
        lemma_top_snake_covers(snakes, fewer, x, y);
        if body_covers(snakes[upto - 1], x, y) {
            assert(0 <= upto - 1 < upto && body_covers(snakes[upto - 1], x, y));
        } else if snakes_cover(snakes, upto, x, y) {
            let id = choose|id: int| 0 <= id < upto && body_covers(#[trigger] snakes[id], x, y);
            assert(0 <= id < fewer && body_covers(snakes[id], x, y));
        } else if snakes_cover(snakes, fewer, x, y) {
            let id = choose|id: int| 0 <= id < fewer && body_covers(#[trigger] snakes[id], x, y);
            assert(0 <= id < upto && body_covers(snakes[id], x, y));
        }
    }
}

/// Drawing the first `upto` snakes puts the glyph on every cell that one of
/// them covers, in the ink of the snake on top, and leaves every other cell
/// alone; once a snake was drawn the ink is reset and the cursor parked.
pub proof fn lemma_snakes_frame_paints(
    canvas: Canvas,
    snakes: Seq<Seq<Point>>,
    upto: nat,
    glyph: char,
    own: int,
    rows: nat,
)
    requires
        upto <= snakes.len(),
        snakes_on_screen(snakes),
        rows <= MAX_ROWS,
    ensures
        upto == 0 ==> canvas.paint_all(snakes_frame(snakes, upto, glyph, own, rows)) == canvas,
        upto > 0 ==> parked(canvas.paint_all(snakes_frame(snakes, upto, glyph, own, rows)), rows),
        upto > 0 ==> canvas.paint_all(snakes_frame(snakes, upto, glyph, own, rows)).ink
            == Ink::Default,
        forall|x: int, y: int|
            #[trigger] canvas.paint_all(snakes_frame(snakes, upto, glyph, own, rows)).at(x, y) == (
            if snakes_cover(snakes, upto, x, y) {
                Cell { glyph: glyph, ink: snake_ink(own == top_snake(snakes, upto, x, y)) }
            } else {
                canvas.at(x, y)
            }),
    decreases upto,
{
    if upto == 0 {
        assert forall|x: int, y: int| !snakes_cover(snakes, upto, x, y) by {}
    } else {
        let fewer = (upto - 1) as nat;
        let body = snakes[upto - 1];
        lemma_snakes_frame_paints(canvas, snakes, fewer, glyph, own, rows);
        let before = canvas.paint_all(snakes_frame(snakes, fewer, glyph, own, rows));
        crate::display::lemma_paint_all_concat(
            canvas,
            snakes_frame(snakes, fewer, glyph, own, rows),
            snake_frame(glyph, body, own == upto - 1, rows),
        );
        lemma_snake_frame_paints(before, glyph, body, own == upto - 1, rows);
        let after = canvas.paint_all(snakes_frame(snakes, upto, glyph, own, rows));
        assert forall|x: int, y: int|
            #[trigger] after.at(x, y) == (if snakes_cover(snakes, upto, x, y) {
                Cell { glyph: glyph, ink: snake_ink(own == top_snake(snakes, upto, x, y)) }
            } else {
                canvas.at(x, y)
            }) by {
            lemma_top_snake_covers(snakes, upto, x, y);
            lemma_top_snake_covers(snakes, fewer, x, y);
            assert(before.at(x, y) == (if snakes_cover(snakes, fewer, x, y) {
                Cell { glyph: glyph, ink: snake_ink(own == top_snake(snakes, fewer, x, y)) }
            } else {
                canvas.at(x, y)
            }));
        }
    }
}

/// Erasing the old snakes and then drawing the new ones leaves the snake
/// glyph on every cell that a new snake covers, a blank on every cell that
/// only an old snake covered, and every other cell as it was. A cell that
/// both cover shows the glyph.
pub proof fn lemma_erase_then_draw(
    canvas: Canvas,
    old_snakes: Seq<Seq<Point>>,
    new_snakes: Seq<Seq<Point>>,
    own: nat,
    rows: nat,
)
    requires
        snakes_on_screen(old_snakes),
        snakes_on_screen(new_snakes),
        rows <= MAX_ROWS,
    ensures
        forall|x: int, y: int|
            occupied(new_snakes, x, y) ==> (#[trigger] canvas.paint_all(
                erased_snakes(old_snakes, rows),
            ).paint_all(drawn_snakes(new_snakes, own, rows)).at(x, y)).glyph == SNAKE_CHAR,
        forall|x: int, y: int|
            occupied(old_snakes, x, y) && !occupied(new_snakes, x, y) ==> (
            #[trigger] canvas.paint_all(erased_snakes(old_snakes, rows)).paint_all(
                drawn_snakes(new_snakes, own, rows),
            ).at(x, y)).glyph == BLANK_CHAR,
        forall|x: int, y: int|
            !occupied(old_snakes, x, y) && !occupied(new_snakes, x, y) ==> #[trigger] canvas.paint_all(
                erased_snakes(old_snakes, rows),
            ).paint_all(drawn_snakes(new_snakes, own, rows)).at(x, y) == canvas.at(x, y),
{
    let erased = canvas.paint_all(erased_snakes(old_snakes, rows));
    lemma_snakes_frame_paints(canvas, old_snakes, old_snakes.len(), BLANK_CHAR, -1, rows);
    lemma_snakes_frame_paints(erased, new_snakes, new_snakes.len(), SNAKE_CHAR, own as int, rows);
    let after = erased.paint_all(drawn_snakes(new_snakes, own, rows));
    assert forall|x: int, y: int| occupied(new_snakes, x, y) implies (#[trigger] after.at(
        x,
        y,
    )).glyph == SNAKE_CHAR by {}
    assert forall|x: int, y: int|
        occupied(old_snakes, x, y) && !occupied(new_snakes, x, y) implies (#[trigger] after.at(
            x,
            y,
        )).glyph == BLANK_CHAR by {
        assert(after.at(x, y) == erased.at(x, y));
    }
    assert forall|x: int, y: int|
        !occupied(old_snakes, x, y) && !occupied(new_snakes, x, y) implies #[trigger] after.at(x, y)
        == canvas.at(x, y) by {
        assert(after.at(x, y) == erased.at(x, y));
    }
}

/// Two frames that can be put into text give one that can.
pub proof fn lemma_encodable_concat(first: Seq<DrawOp>, second: Seq<DrawOp>)
    requires
        encodable(first),
        encodable(second),
    ensures
        encodable(first + second),
{
    assert forall|i: int| 0 <= i < (first + second).len() implies op_encodable(
        #[trigger] (first + second)[i],
    ) by {
        if i < first.len() {
            assert((first + second)[i] == first[i]);
        } else {
            assert((first + second)[i] == second[i - first.len()]);
        }
    }
}

/// The commands that write a row can be put into text.
proof fn lemma_row_frame_encodable(row: Seq<char>)
    ensures
        encodable(row_frame(row)),
    decreases row.len(),
{
    if row.len() > 0 {
        lemma_row_frame_encodable(row.drop_last());
        lemma_encodable_concat(
            row_frame(row.drop_last()),
            seq![DrawOp::Put(glyph_of(row, row.len() - 1))],
        );
        assert(row_frame(row) =~= row_frame(row.drop_last()) + seq![
            DrawOp::Put(glyph_of(row, row.len() - 1)),
        ]);
    }
}

/// The commands that write the rows of a grid can be put into text.
proof fn lemma_rows_frame_encodable(grid: Seq<Seq<char>>, upto: nat)
    requires
        upto <= grid.len() <= MAX_ROWS,
    ensures
        encodable(rows_frame(grid, upto)),
    decreases upto,
{
    if upto > 0 {
        lemma_rows_frame_encodable(grid, (upto - 1) as nat);
        lemma_row_frame_encodable(grid[upto - 1]);
        lemma_encodable_concat(rows_frame(grid, (upto - 1) as nat), row_frame(grid[upto - 1]));
        lemma_encodable_concat(
            rows_frame(grid, (upto - 1) as nat) + row_frame(grid[upto - 1]),
            seq![DrawOp::Goto { x: 1, y: (upto + 1) as u16 }],
        );
    }
}

/// The frame of a field of no more rows than a display has can be put into
/// text.
pub proof fn lemma_field_frame_encodable(grid: Seq<Seq<char>>)
    requires
        grid.len() <= MAX_ROWS,
    ensures
        encodable(field_frame(grid)),
{
    let head = seq![DrawOp::Clear, DrawOp::Goto { x: 1, y: 1 }, DrawOp::Fg(field_ink())];
    lemma_rows_frame_encodable(grid, grid.len());
    lemma_encodable_concat(head, rows_frame(grid, grid.len()));
    lemma_encodable_concat(head + rows_frame(grid, grid.len()), seq![DrawOp::Fg(Ink::Default)]);
}

/// The frame of a food that names a cell can be put into text.
pub proof fn lemma_food_frame_encodable(food: Point, rows: nat)
    requires
        food.on_screen(),
        rows <= MAX_ROWS,
    ensures
        encodable(food_frame(food, rows)),
{
}

/// The frame that erases a food that names a cell can be put into text.
pub proof fn lemma_erased_food_encodable(food: Point, rows: nat)
    requires
        food.on_screen(),
        rows <= MAX_ROWS,
    ensures
        encodable(erased_food(food, rows)),
{
}

/// The commands that write a body whose points name cells can be put into
/// text.
proof fn lemma_body_frame_encodable(body: Seq<Point>, glyph: char)
    requires
        body_on_screen(body),
    ensures
        encodable(body_frame(body, glyph)),
    decreases body.len(),
{
    if body.len() > 0 {
        lemma_body_frame_encodable(body.drop_last(), glyph);
        assert(body[body.len() - 1].on_screen());
        lemma_encodable_concat(
            body_frame(body.drop_last(), glyph),
            seq![DrawOp::Goto { x: body.last().x, y: body.last().y }, DrawOp::Put(glyph)],
        );
    }
}

/// The frame of a snake whose points name cells can be put into text.
pub proof fn lemma_snake_frame_encodable(glyph: char, body: Seq<Point>, own: bool, rows: nat)
    requires
        body_on_screen(body),
        rows <= MAX_ROWS,
    ensures
        encodable(snake_frame(glyph, body, own, rows)),
{
    lemma_body_frame_encodable(body, glyph);
    lemma_encodable_concat(seq![DrawOp::Fg(snake_ink(own))], body_frame(body, glyph));
    lemma_encodable_concat(
        seq![DrawOp::Fg(snake_ink(own))] + body_frame(body, glyph),
        seq![parking(rows), DrawOp::Fg(Ink::Default)],
    );
}

/// The frames of snakes whose points name cells can be put into text.
pub proof fn lemma_snakes_frame_encodable(
    snakes: Seq<Seq<Point>>,
    upto: nat,
    glyph: char,
    own: int,
    rows: nat,
)
    requires
        upto <= snakes.len(),
        snakes_on_screen(snakes),
        rows <= MAX_ROWS,
    ensures
        encodable(snakes_frame(snakes, upto, glyph, own, rows)),
    decreases upto,
{
    if upto > 0 {
        let body = snakes[upto - 1];
        lemma_snakes_frame_encodable(snakes, (upto - 1) as nat, glyph, own, rows);
        lemma_snake_frame_encodable(glyph, body, own == upto - 1, rows);
        lemma_encodable_concat(
            snakes_frame(snakes, (upto - 1) as nat, glyph, own, rows),
            snake_frame(glyph, body, own == upto - 1, rows),
        );
    }
}

} // verus!

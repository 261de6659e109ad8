//! The session of one player: the field, the snakes, the food and the
//! direction chosen last.

use crate::ansi::encodable;
use crate::display::{DrawOp, Ink};
use crate::input::{
    confirms, is_confirm, is_quit, latest_event, poll_latest, quits, steer, steered, KeyPress,
};
use crate::render::{
    body_frame, drawn_snakes, erased_food, erased_snakes, field_frame, food_frame, glyph_of,
    lemma_erased_food_encodable, lemma_field_frame_encodable, lemma_food_frame_encodable,
    lemma_snake_frame_encodable,
    lemma_snakes_frame_encodable, parking, row_frame, rows_frame, snake_frame, snake_ink,
    snakes_frame, MAX_ROWS,
};
use crate::GameConfig;
use vstd::prelude::*;

verus! {

/// Glyph of a border cell.
pub const BORDER_CHAR: char = '#';

/// Glyph of the food.
pub const FOOD_CHAR: char = '\u{053E}';

/// Glyph of a snake segment.
pub const SNAKE_CHAR: char = 'o';

/// Glyph of an empty cell; drawing it over a segment erases the segment.
pub const BLANK_CHAR: char = ' ';

/// Where the player wants the snake to go.
#[derive(Clone, Copy, PartialEq, Eq, Debug, Structural)]
pub enum Direction {
    Up,
    Down,
    Left,
    Right,
    /// No direction; the keyboard never yields it.
    Unkown,
}

impl Direction {
    /// The name of the direction as it is shown in a log line.
    pub open spec fn label(self) -> Seq<char> {
        match self {
            Direction::Up => "UP"@,
            Direction::Down => "DOWN"@,
            Direction::Left => "LEFT"@,
            Direction::Right => "RIGHT"@,
            Direction::Unkown => "UNKOWN"@,
        }
    }

    /// The name of the direction as it is shown in a log line.
    pub fn to_string(&self) -> (text: String)
        ensures
            text@ == self.label(),
    {
        match self {
            Direction::Up => "UP".to_owned(),
            Direction::Down => "DOWN".to_owned(),
            Direction::Left => "LEFT".to_owned(),
            Direction::Right => "RIGHT".to_owned(),
            Direction::Unkown => "UNKOWN".to_owned(),
        }
    }
}

/// One cell of the display: column `x` of row `y`, both counted from one.
#[derive(Clone, Copy, PartialEq, Eq, Debug, Structural)]
pub struct Point {
    pub x: u16,
    pub y: u16,
}

impl Point {
    /// Whether the point names a cell: columns and rows count from one.
    pub open spec fn on_screen(self) -> bool {
        self.x >= 1 && self.y >= 1
    }

    /// Whether the point names a cell: columns and rows count from one.
    pub fn is_on_screen(&self) -> (yes: bool)
        ensures
            yes == self.on_screen(),
    {
        self.x >= 1 && self.y >= 1
    }
}

/// What the server announces between two messages.
#[derive(Clone, Copy, PartialEq, Eq, Debug, Structural)]
pub enum GameEvent {
    WaitInLobby,
    Start,
    NewTurn,
}

/// The state of the game as the server reports it after a turn.
#[derive(Clone, Copy, PartialEq, Eq, Debug, Structural)]
pub enum GameState {
    Ready,
    Playing,
    Lost,
}

/// The snakes as sequences of points, head first.
pub open spec fn snakes_view(snakes: Vec<Vec<Point>>) -> Seq<Seq<Point>> {
    Seq::new(snakes@.len(), |id: int| snakes@[id]@)
}

/// Whether every point of a snake names a cell.
pub open spec fn body_on_screen(body: Seq<Point>) -> bool {
    forall|i: int| 0 <= i < body.len() ==> (#[trigger] body[i]).on_screen()
}

/// Whether every point of every snake names a cell.
pub open spec fn snakes_on_screen(snakes: Seq<Seq<Point>>) -> bool {
    forall|id: int| 0 <= id < snakes.len() ==> body_on_screen(#[trigger] snakes[id])
}

/// Whether every point of a snake names a cell.
pub fn is_body_on_screen(body: &Vec<Point>) -> (yes: bool)
    ensures
        yes == body_on_screen(body@),
{
    let mut i: usize = 0;
    while i < body.len()
        invariant
            i <= body.len(),
            forall|k: int| 0 <= k < i ==> (#[trigger] body@[k]).on_screen(),
        decreases body.len() - i,
    {
        if !body[i].is_on_screen() {
            return false;
        }
        i += 1;
    }
    true
}

/// Whether every point of every snake names a cell.
pub fn are_snakes_on_screen(snakes: &Vec<Vec<Point>>) -> (yes: bool)
    ensures
        yes == snakes_on_screen(snakes_view(*snakes)),
{
    let mut id: usize = 0;
    while id < snakes.len()
        invariant
            id <= snakes.len(),
            forall|k: int| 0 <= k < id ==> body_on_screen(#[trigger] snakes_view(*snakes)[k]),
        decreases snakes.len() - id,
    {
        if !is_body_on_screen(&snakes[id]) {
            assert(!body_on_screen(snakes_view(*snakes)[id as int]));
            return false;
        }
        assert(body_on_screen(snakes_view(*snakes)[id as int]));
        id += 1;
    }
    true
}

/// The glyph of the static field at `row` and `col`, both counted from zero:
/// the outermost ring is border, the inside is empty.
pub open spec fn field_glyph(width: int, height: int, row: int, col: int) -> char {
    if row == 0 || row == height - 1 || col == 0 || col == width - 1 {
        BORDER_CHAR
    } else {
        BLANK_CHAR
    }
}

/// The static field of `height` rows and `width` columns.
pub open spec fn field_grid(width: nat, height: nat) -> Seq<Seq<char>> {
    Seq::new(
        height,
        |row: int| Seq::new(width, |col: int| field_glyph(width as int, height as int, row, col)),
    )
}

/// A grid of rows as a sequence of sequences.
pub open spec fn grid_view(grid: Vec<Vec<char>>) -> Seq<Seq<char>> {
    Seq::new(grid@.len(), |row: int| grid@[row]@)
}

/// A line of `width` glyphs: `first` at both ends and `inner` between them.
fn filled_line(width: usize, first: char, inner: char) -> (line: Vec<char>)
    requires
        width >= 2,
    ensures
        line@.len() == width,
        forall|col: int|
            0 <= col < width ==> #[trigger] line@[col] == (if col == 0 || col == width - 1 {
                first
            } else {
                inner
            }),
{
    let mut line: Vec<char> = Vec::with_capacity(width);
    line.push(first);
    let mut col: usize = 1;
    while col < width - 1
        invariant
            width >= 2,
            1 <= col <= width - 1,
            line@.len() == col,
            line@[0] == first,
            forall|k: int| 1 <= k < col ==> #[trigger] line@[k] == inner,
        decreases width - col,
    {
        line.push(inner);
        col += 1;
    }
    line.push(first);
    line
}

/// Builds the static field: border glyphs on the outermost ring, blanks
/// inside.
pub fn init_field(width: usize, height: usize) -> (field: Vec<Vec<char>>)
    requires
        width >= 2,
        height >= 2,
    ensures
        grid_view(field) == field_grid(width as nat, height as nat),
        field@.len() == height,
        forall|row: int| 0 <= row < height ==> (#[trigger] field@[row])@.len() == width,
        forall|row: int, col: int|
            0 <= row < height && 0 <= col < width ==> #[trigger] field@[row]@[col] == field_glyph(
                width as int,
                height as int,
                row,
                col,
            ),
{
    let border_line = filled_line(width, BORDER_CHAR, BORDER_CHAR);
    let inner_line = filled_line(width, BORDER_CHAR, BLANK_CHAR);
    let mut field: Vec<Vec<char>> = Vec::with_capacity(height);
    let top = border_line.clone();
    assert(top@ =~= border_line@);
    field.push(top);
    let mut row: usize = 1;
    while row < height - 1
        invariant
            height >= 2,
            1 <= row <= height - 1,
            field@.len() == row,
            field@[0]@ == border_line@,
            forall|r: int| 1 <= r < row ==> #[trigger] field@[r]@ == inner_line@,
        decreases height - row,
    {
        let line = inner_line.clone();
        assert(line@ =~= inner_line@);
        field.push(line);
        row += 1;
    }
    let bottom = border_line.clone();
    assert(bottom@ =~= border_line@);
    field.push(bottom);
    assert forall|r: int| 0 <= r < height implies #[trigger] grid_view(field)[r] == field_grid(
        width as nat,
        height as nat,
    )[r] by {
        assert(grid_view(field)[r] =~= field_grid(width as nat, height as nat)[r]);
    }
    assert(grid_view(field) =~= field_grid(width as nat, height as nat));
    field
}

/// The session as plain values.
#[verifier::ext_equal]
pub struct GameView {
    pub id: nat,
    pub snakes: Seq<Seq<Point>>,
    pub direction: Direction,
    pub food: Point,
    pub field: Seq<Seq<char>>,
    pub killed: bool,
}

impl GameView {
    /// The session before the server was heard: no field, no snakes, the
    /// snake heading right.
    pub open spec fn empty() -> GameView {
        GameView {
            id: 0,
            snakes: Seq::empty(),
            direction: Direction::Right,
            food: Point { x: 0, y: 0 },
            field: Seq::empty(),
            killed: false,
        }
    }
}

/// The session of one player. It exists before the server was heard, is
/// filled once by the configuration and changes on every turn.
pub struct Game {
    /// The index of the player's own snake.
    pub id: usize,
    /// The snakes, each from head to tail; a snake is known by its index.
    pub snakes: Vec<Vec<Point>>,
    /// The direction chosen last.
    pub direction: Direction,
    pub food: Point,
    /// The static field, row by row.
    pub field: Vec<Vec<char>>,
    /// Whether the player has asked to quit.
    pub killed: bool,
}

impl View for Game {
    type V = GameView;

    open spec fn view(&self) -> GameView {
        GameView {
            id: self.id as nat,
            snakes: snakes_view(self.snakes),
            direction: self.direction,
            food: self.food,
            field: grid_view(self.field),
            killed: self.killed,
        }
    }
}

/// Appends to `frame` the commands that write one row of glyphs.
fn push_row(frame: &mut Vec<DrawOp>, row: &Vec<char>)
    ensures
        final(frame)@ == old(frame)@ + row_frame(row@),
{
    let mut col: usize = 0;
    proof {
        assert(row@.take(0) =~= Seq::<char>::empty());
        assert(frame@ =~= old(frame)@ + row_frame(row@.take(0)));
    }
    while col < row.len()
        invariant
            col <= row.len(),
            frame@ == old(frame)@ + row_frame(row@.take(col as int)),
        decreases row.len() - col,
    {
        frame.push(DrawOp::Put(row[col]));
        proof {
            let longer = row@.take(col + 1);
            assert(longer.drop_last() =~= row@.take(col as int));
            assert(glyph_of(longer, longer.len() - 1) == row@[col as int]);
            assert(frame@ =~= old(frame)@ + row_frame(longer));
        }
        col += 1;
    }
    proof {
        assert(row@.take(col as int) =~= row@);
    }
}

/// Appends to `frame` the commands that draw one snake with `glyph` and
/// park the cursor in the row below `rows` rows.
fn push_snake(frame: &mut Vec<DrawOp>, glyph: char, body: &Vec<Point>, own: bool, rows: u16)
    requires
        rows <= MAX_ROWS,
    ensures
        final(frame)@ == old(frame)@ + snake_frame(glyph, body@, own, rows as nat),
{
    let ink = if own {
        Ink::Red
    } else {
        Ink::Yellow
    };
    frame.push(DrawOp::Fg(ink));
    let mut done: usize = 0;
    proof {
        assert(body@.take(0) =~= Seq::<Point>::empty());
        assert(frame@ =~= old(frame)@ + seq![DrawOp::Fg(snake_ink(own))] + body_frame(
            body@.take(0),
            glyph,
        ));
    }
    while done < body.len()
        invariant
            done <= body.len(),
            frame@ == old(frame)@ + seq![DrawOp::Fg(snake_ink(own))] + body_frame(
                body@.take(done as int),
                glyph,
            ),
        decreases body.len() - done,
    {
        let point = body[done];
        frame.push(DrawOp::Goto { x: point.x, y: point.y });
        frame.push(DrawOp::Put(glyph));
        proof {
            let longer = body@.take(done + 1);
            assert(longer.drop_last() =~= body@.take(done as int));
            assert(longer.last() == point);
            assert(frame@ =~= old(frame)@ + seq![DrawOp::Fg(snake_ink(own))] + body_frame(
                longer,
                glyph,
            ));
        }
        done += 1;
    }
    frame.push(DrawOp::Goto { x: 0, y: rows + 1 });
    frame.push(DrawOp::Fg(Ink::Default));
    proof {
        assert(body@.take(done as int) =~= body@);
        assert(frame@ =~= old(frame)@ + snake_frame(glyph, body@, own, rows as nat));
    }
}

impl Game {
    /// The session before the server was heard: no field, no snakes, the
    /// snake heading right.
    pub fn empty() -> (game: Game)
        ensures
            game@ == GameView::empty(),
    {
        Game {
            id: 0,
            snakes: Vec::new(),
            direction: Direction::Right,
            food: Point { x: 0, y: 0 },
            field: Vec::new(),
            killed: false,
        }
    }

    /// Takes over the configuration: the player's index, the snakes, the
    /// food, and a fresh field of the configured size.
    pub fn set_config(&mut self, config: GameConfig)
        requires
            config.width >= 2,
            config.height >= 2,
        ensures
            final(self)@ == (GameView {
                id: config.id as nat,
                snakes: snakes_view(config.snakes),
                food: config.food,
                field: field_grid(config.width as nat, config.height as nat),
                ..old(self)@
            }),
    {
        self.id = config.id;
        self.field = init_field(config.width, config.height);
        self.snakes = config.snakes;
        self.food = config.food;
    }

    /// The frame that draws the whole field on a cleared display.
    pub fn draw_field(&self) -> (frame: Vec<DrawOp>)
        requires
            self@.field.len() <= MAX_ROWS,
        ensures
            frame@ == field_frame(self@.field),
            encodable(frame@),
    {
        let mut frame: Vec<DrawOp> = Vec::new();
        frame.push(DrawOp::Clear);
        frame.push(DrawOp::Goto { x: 1, y: 1 });
        frame.push(DrawOp::Fg(Ink::Blue));
        let ghost head = frame@;
        let mut row: usize = 0;
        proof {
            assert(frame@ =~= head + rows_frame(self@.field, 0));
        }
        while row < self.field.len()
            invariant
                row <= self.field.len(),
                self@.field.len() <= MAX_ROWS,
                frame@ == head + rows_frame(self@.field, row as nat),
            decreases self.field.len() - row,
        {
            push_row(&mut frame, &self.field[row]);
            let next: u16 = (row + 2) as u16;
            frame.push(DrawOp::Goto { x: 1, y: next });
            proof {
                assert(self@.field[row as int] == self.field@[row as int]@);
                assert(frame@ =~= head + rows_frame(self@.field, (row + 1) as nat));
            }
            row += 1;
        }
        frame.push(DrawOp::Fg(Ink::Default));
        proof {
            assert(head =~= seq![
                DrawOp::Clear,
                DrawOp::Goto { x: 1, y: 1 },
                DrawOp::Fg(crate::render::field_ink()),
            ]);
            assert(frame@ =~= field_frame(self@.field));
            lemma_field_frame_encodable(self@.field);
        }
        frame
    }

    /// The frame that draws the food and parks the cursor. The food must
    /// name a cell: a session has none before it is configured.
    pub fn draw_food(&self) -> (frame: Vec<DrawOp>)
        requires
            self@.field.len() <= MAX_ROWS,
            self@.food.on_screen(),
        ensures
            frame@ == food_frame(self@.food, self@.field.len()),
            encodable(frame@),
    {
        let below: u16 = (self.field.len() + 1) as u16;
        let mut frame: Vec<DrawOp> = Vec::new();
        frame.push(DrawOp::Goto { x: self.food.x, y: self.food.y });
        frame.push(DrawOp::Fg(Ink::Red));
        frame.push(DrawOp::Put(FOOD_CHAR));
        frame.push(DrawOp::Fg(Ink::Default));
        frame.push(DrawOp::Goto { x: 0, y: below });
        proof {
            assert(frame@ =~= food_frame(self@.food, self@.field.len()));
            lemma_food_frame_encodable(self@.food, self@.field.len());
        }
        frame
    }

    /// The frame that erases the food: it is drawn with the blank glyph,
    /// and the cursor is parked. It comes before the food is drawn
    /// elsewhere.
    pub fn clear_food(&self) -> (frame: Vec<DrawOp>)
        requires
            self@.field.len() <= MAX_ROWS,
            self@.food.on_screen(),
        ensures
            frame@ == erased_food(self@.food, self@.field.len()),
            encodable(frame@),
    {
        let below: u16 = (self.field.len() + 1) as u16;
        let mut frame: Vec<DrawOp> = Vec::new();
        frame.push(DrawOp::Goto { x: self.food.x, y: self.food.y });
        frame.push(DrawOp::Fg(Ink::Default));
        frame.push(DrawOp::Put(BLANK_CHAR));
        frame.push(DrawOp::Goto { x: 0, y: below });
        proof {
            assert(frame@ =~= erased_food(self@.food, self@.field.len()));
            lemma_erased_food_encodable(self@.food, self@.field.len());
        }
        frame
    }

    /// The frame that draws one snake with `glyph`, in the ink of the
    /// player's own snake or in that of the others, and parks the cursor.
    /// With the blank glyph it erases the snake.
    pub fn draw_snake_with_char(&self, glyph: char, snake: &Vec<Point>, own: bool) -> (frame: Vec<
        DrawOp,
    >)
        requires
            self@.field.len() <= MAX_ROWS,
            body_on_screen(snake@),
        ensures
            frame@ == snake_frame(glyph, snake@, own, self@.field.len()),
            encodable(frame@),
    {
        let mut frame: Vec<DrawOp> = Vec::new();
        push_snake(&mut frame, glyph, snake, own, self.field.len() as u16);
        proof {
            assert(frame@ =~= snake_frame(glyph, snake@, own, self@.field.len()));
            lemma_snake_frame_encodable(glyph, snake@, own, self@.field.len());
        }
        frame
    }

    /// The frame that draws every snake with the snake glyph, the one at
    /// the player's index as the player's own.
    pub fn draw_snakes(&self) -> (frame: Vec<DrawOp>)
        requires
            self@.field.len() <= MAX_ROWS,
            snakes_on_screen(self@.snakes),
        ensures
            frame@ == drawn_snakes(self@.snakes, self@.id, self@.field.len()),
            encodable(frame@),
    {
        let rows: u16 = self.field.len() as u16;
        let mut frame: Vec<DrawOp> = Vec::new();
        let mut id: usize = 0;
        while id < self.snakes.len()
            invariant
                id <= self.snakes.len(),
                rows == self@.field.len(),
                rows <= MAX_ROWS,
                frame@ == snakes_frame(
                    self@.snakes,
                    id as nat,
                    SNAKE_CHAR,
                    self.id as int,
                    rows as nat,
                ),
            decreases self.snakes.len() - id,
        {
            push_snake(&mut frame, SNAKE_CHAR, &self.snakes[id], self.id == id, rows);
            proof {
                assert(self@.snakes[id as int] == self.snakes@[id as int]@);
            }
            id += 1;
        }
        proof {
            lemma_snakes_frame_encodable(
                self@.snakes,
                self@.snakes.len(),
                SNAKE_CHAR,
                self.id as int,
                rows as nat,
            );
        }
        frame
    }

    /// The frame that erases every snake: each is drawn with the blank
    /// glyph.
    pub fn clear_snakes(&self) -> (frame: Vec<DrawOp>)
        requires
            self@.field.len() <= MAX_ROWS,
            snakes_on_screen(self@.snakes),
        ensures
            frame@ == erased_snakes(self@.snakes, self@.field.len()),
            encodable(frame@),
    {
        let rows: u16 = self.field.len() as u16;
        let mut frame: Vec<DrawOp> = Vec::new();
        let mut id: usize = 0;
        while id < self.snakes.len()
            invariant
                id <= self.snakes.len(),
                rows == self@.field.len(),
                rows <= MAX_ROWS,
                frame@ == snakes_frame(self@.snakes, id as nat, BLANK_CHAR, -1, rows as nat),
            decreases self.snakes.len() - id,
        {
            push_snake(&mut frame, BLANK_CHAR, &self.snakes[id], false, rows);
            proof {
                assert(self@.snakes[id as int] == self.snakes@[id as int]@);
            }
            id += 1;
        }
        proof {
            lemma_snakes_frame_encodable(self@.snakes, self@.snakes.len(), BLANK_CHAR, -1, rows as nat);
        }
        frame
    }

    /// Takes a key in play: an arrow key sets the direction, the quit key
    /// marks the session as killed, any other key and no key change
    /// nothing.
    pub fn press(&mut self, key: Option<KeyPress>)
        ensures
            final(self)@ == (GameView {
                direction: steered(old(self)@.direction, key),
                killed: old(self)@.killed || quits(key),
                ..old(self)@
            }),
    {
        self.direction = steer(self.direction, key);
        if is_quit(key) {
            self.killed = true;
        }
    }

    /// Takes the keyboard input of a turn: of the keys among the bytes
    /// that were waiting, the one pressed last counts. The direction it
    /// sets is only noted here; nothing is sent.
    pub fn handle_input(&mut self, keys: &[u8])
        ensures
            final(self)@ == (GameView {
                direction: steered(old(self)@.direction, latest_event(keys@)),
                killed: old(self)@.killed || quits(latest_event(keys@)),
                ..old(self)@
            }),
            keys@.len() == 0 ==> final(self)@ == old(self)@,
    {
        let key = poll_latest(keys);
        self.press(key);
    }

    /// Takes the keyboard input of the lobby: whether the key pressed last
    /// among the bytes that were waiting is the enter key.
    pub fn force_start(&self, keys: &[u8]) -> (vote: bool)
        ensures
            vote == confirms(latest_event(keys@)),
            keys@.len() == 0 ==> !vote,
    {
        let key = poll_latest(keys);
        is_confirm(key)
    }

    /// Replaces the snakes by those of the next turn.
    pub fn update(&mut self, snakes: Vec<Vec<Point>>)
        ensures
            final(self)@ == (GameView { snakes: snakes_view(snakes), ..old(self)@ }),
    {
        self.snakes = snakes;
    }
}

} // verus!

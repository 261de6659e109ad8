//! The turn protocol: what the client does on each message of the server
//! and on each reading of the keyboard, from the lobby to the end of the
//! game.

use crate::ansi::encodable;
use crate::display::{blank_cell, lemma_paint_all_concat, Canvas, Cell, DrawOp, Ink};
use crate::game::{
    are_snakes_on_screen, field_grid, snakes_on_screen, snakes_view, Direction, Game, GameEvent,
    GameState, GameView,
};
use crate::input::{confirms, latest_event, quits, steered};
use crate::render::{
    drawn_snakes, erased_food, erased_snakes, field_frame, field_ink, food_frame, food_ink,
    grid_fits, lemma_erased_food_encodable, lemma_erased_food_paints,
    grid_glyph, in_grid, lemma_encodable_concat, lemma_field_frame_encodable,
    lemma_field_frame_paints, lemma_food_frame_encodable, lemma_food_frame_paints,
    lemma_snakes_frame_encodable, lemma_snakes_frame_paints, occupied, parked, snake_ink,
    top_snake, MAX_COLUMNS, MAX_ROWS,
};
use crate::{DirectionMessage, ForceStartMessage, GameConfig, TurnMessage};
use vstd::prelude::*;

verus! {

/// Why a session has ended.
#[derive(Clone, Copy, PartialEq, Eq, Debug, Structural)]
pub enum Reason {
    /// The player pressed the quit key.
    Quit,
    /// The server reported the game as lost.
    Lost,
    /// The server sent what the protocol does not allow at that point.
    ProtocolError,
}

/// The state of a session.
#[derive(Clone, Copy, PartialEq, Eq, Debug, Structural)]
pub enum State {
    Lobby,
    Playing,
    Terminated(Reason),
}

/// Where in the protocol a session stands: the state, and within it what
/// the client waits for.
#[derive(Clone, Copy, PartialEq, Eq, Debug, Structural)]
pub enum Phase {
    /// In the lobby, waiting for the server's next event.
    Lobby,
    /// In the lobby, told to wait: the keyboard is read for the vote.
    LobbyInput,
    /// The game was started: waiting for the configuration.
    Configuring,
    /// In play, waiting for the event that opens the turn.
    TurnStart,
    /// In play, the turn is open: the keyboard is read for the direction.
    TurnInput,
    /// In play, the direction was sent: waiting for the next positions.
    TurnUpdate,
    /// In play, the positions were drawn: waiting for the state report.
    TurnReport,
    /// The session has ended.
    Terminated(Reason),
}

/// What the client needs next to go on.
#[derive(Clone, Copy, PartialEq, Eq, Debug, Structural)]
pub enum Awaited {
    /// An event of the server.
    Event,
    /// The bytes that wait at the keyboard.
    Keys,
    /// The configuration of the game.
    Config,
    /// The positions of the next turn.
    Turn,
    /// The state report that closes a turn.
    Report,
    /// Nothing: the session has ended.
    Nothing,
}

/// A message of the server.
#[derive(Clone, Debug)]
pub enum ServerMessage {
    Event(GameEvent),
    Config(GameConfig),
    Turn(TurnMessage),
    State(GameState),
}

/// A message to the server.
#[derive(Clone, Copy, PartialEq, Eq, Debug, Structural)]
pub enum Outbound {
    ForceStart(ForceStartMessage),
    Direction(DirectionMessage),
}

/// What the client does in answer to a message or to the keyboard: at most
/// one message to send, and a frame to draw, which may be empty.
#[derive(Debug)]
pub struct Reaction {
    pub send: Option<Outbound>,
    pub frame: Vec<DrawOp>,
}

/// What happens to a session: a message of the server arrives, or the
/// keyboard is read.
pub enum Input {
    Message(ServerMessage),
    Keys(Seq<u8>),
}

/// A session as plain values.
#[verifier::ext_equal]
pub struct ClientView {
    pub phase: Phase,
    pub game: GameView,
}

impl Phase {
    /// The state that a phase belongs to.
    pub open spec fn state(self) -> State {
        match self {
            Phase::Lobby | Phase::LobbyInput | Phase::Configuring => State::Lobby,
            Phase::TurnStart | Phase::TurnInput | Phase::TurnUpdate | Phase::TurnReport => {
                State::Playing
            },
            Phase::Terminated(reason) => State::Terminated(reason),
        }
    }

    /// What the client needs next in a phase.
    pub open spec fn awaited(self) -> Awaited {
        match self {
            Phase::Lobby | Phase::TurnStart => Awaited::Event,
            Phase::LobbyInput | Phase::TurnInput => Awaited::Keys,
            Phase::Configuring => Awaited::Config,
            Phase::TurnUpdate => Awaited::Turn,
            Phase::TurnReport => Awaited::Report,
            Phase::Terminated(_) => Awaited::Nothing,
        }
    }
}

/// Whether a configuration can be played: a field of at least two rows and
/// two columns that a display can address, and every point a cell.
pub open spec fn config_valid(config: GameConfig) -> bool {
    &&& 2 <= config.width <= MAX_COLUMNS
    &&& 2 <= config.height <= MAX_ROWS
    &&& config.food.on_screen()
    &&& snakes_on_screen(snakes_view(config.snakes))
}

/// Whether the positions of a turn can be drawn: every point is a cell.
pub open spec fn turn_valid(turn: TurnMessage) -> bool {
    &&& turn.food.on_screen()
    &&& snakes_on_screen(snakes_view(turn.snakes))
}

/// Whether a session can be drawn.
pub open spec fn drawable(game: GameView) -> bool {
    &&& game.field.len() <= MAX_ROWS
    &&& game.food.on_screen()
    &&& snakes_on_screen(game.snakes)
}

/// The session after the configuration was taken over.
pub open spec fn configured(game: GameView, config: GameConfig) -> GameView {
    GameView {
        id: config.id as nat,
        snakes: snakes_view(config.snakes),
        food: config.food,
        field: field_grid(config.width as nat, config.height as nat),
        ..game
    }
}

/// The session after the positions of a turn were taken over.
pub open spec fn updated(game: GameView, turn: TurnMessage) -> GameView {
    GameView { id: turn.id as nat, snakes: snakes_view(turn.snakes), food: turn.food, ..game }
}

/// The session after the keyboard was read in play.
pub open spec fn pressed(game: GameView, keys: Seq<u8>) -> GameView {
    GameView {
        direction: steered(game.direction, latest_event(keys)),
        killed: game.killed || quits(latest_event(keys)),
        ..game
    }
}

/// The first frame of a game: the field, the food, the snakes.
pub open spec fn first_frame(game: GameView) -> Seq<DrawOp> {
    field_frame(game.field) + food_frame(game.food, game.field.len()) + drawn_snakes(
        game.snakes,
        game.id,
        game.field.len(),
    )
}

/// The frame of a turn: the snakes and the food of the turn before are
/// erased, then the food and the snakes of this turn are drawn.
pub open spec fn turn_frame(before: GameView, after: GameView) -> Seq<DrawOp> {
    erased_snakes(before.snakes, before.field.len()) + erased_food(
        before.food,
        before.field.len(),
    ) + food_frame(after.food, after.field.len()) + drawn_snakes(
        after.snakes,
        after.id,
        after.field.len(),
    )
}

/// The phase that ends a session on a message that the protocol does not
/// allow.
pub open spec fn broken() -> Phase {
    Phase::Terminated(Reason::ProtocolError)
}

/// The session after a message of the server.
pub open spec fn after_message(client: ClientView, message: ServerMessage) -> ClientView {
    match client.phase {
        Phase::Lobby => match message {
            ServerMessage::Event(GameEvent::WaitInLobby) => ClientView {
                phase: Phase::LobbyInput,
                ..client
            },
            ServerMessage::Event(GameEvent::Start) => ClientView {
                phase: Phase::Configuring,
                ..client
            },
            _ => ClientView { phase: broken(), ..client },
        },
        Phase::Configuring => match message {
            ServerMessage::Config(config) => if config_valid(config) {
                ClientView { phase: Phase::TurnStart, game: configured(client.game, config) }
            } else {
                ClientView { phase: broken(), ..client }
            },
            _ => ClientView { phase: broken(), ..client },
        },
        Phase::TurnStart => match message {
            ServerMessage::Event(GameEvent::NewTurn) => ClientView {
                phase: Phase::TurnInput,
                ..client
            },
            _ => ClientView { phase: broken(), ..client },
        },
        Phase::TurnUpdate => match message {
            ServerMessage::Turn(turn) => if turn_valid(turn) {
                ClientView { phase: Phase::TurnReport, game: updated(client.game, turn) }
            } else {
                ClientView { phase: broken(), ..client }
            },
            _ => ClientView { phase: broken(), ..client },
        },
        Phase::TurnReport => match message {
            ServerMessage::State(GameState::Lost) => ClientView {
                phase: Phase::Terminated(Reason::Lost),
                ..client
            },
            ServerMessage::State(_) => ClientView { phase: Phase::TurnStart, ..client },
            _ => ClientView { phase: broken(), ..client },
        },
        Phase::LobbyInput | Phase::TurnInput => ClientView { phase: broken(), ..client },
        Phase::Terminated(_) => client,
    }
}

/// The frame that a message of the server makes the client draw.
pub open spec fn frame_on_message(client: ClientView, message: ServerMessage) -> Seq<DrawOp> {
    match (client.phase, message) {
        (Phase::Configuring, ServerMessage::Config(config)) => if config_valid(config) {
            first_frame(configured(client.game, config))
        } else {
            Seq::empty()
        },
        (Phase::TurnUpdate, ServerMessage::Turn(turn)) => if turn_valid(turn) {
            turn_frame(client.game, updated(client.game, turn))
        } else {
            Seq::empty()
        },
        _ => Seq::empty(),
    }
}

/// The session after the keyboard was read.
pub open spec fn after_keys(client: ClientView, keys: Seq<u8>) -> ClientView {
    match client.phase {
        Phase::LobbyInput => ClientView { phase: Phase::Lobby, ..client },
        Phase::TurnInput => ClientView {
            phase: if pressed(client.game, keys).killed {
                Phase::Terminated(Reason::Quit)
            } else {
                Phase::TurnUpdate
            },
            game: pressed(client.game, keys),
        },
        _ => client,
    }
}

/// The message that a reading of the keyboard makes the client send: the
/// vote in the lobby, and in play the direction unless the player quits.
pub open spec fn sent_on_keys(client: ClientView, keys: Seq<u8>) -> Option<Outbound> {
    match client.phase {
        Phase::LobbyInput => Some(
            Outbound::ForceStart(ForceStartMessage { force_start: confirms(latest_event(keys)) }),
        ),
        Phase::TurnInput => if pressed(client.game, keys).killed {
            None
        } else {
            Some(
                Outbound::Direction(
                    DirectionMessage { direction: pressed(client.game, keys).direction },
                ),
            )
        },
        _ => None,
    }
}

/// The session after an input.
pub open spec fn step(client: ClientView, input: Input) -> ClientView {
    match input {
        Input::Message(message) => after_message(client, message),
        Input::Keys(keys) => after_keys(client, keys),
    }
}

/// The message that an input makes the client send, if any.
pub open spec fn sent(client: ClientView, input: Input) -> Option<Outbound> {
    match input {
        Input::Message(_) => None,
        Input::Keys(keys) => sent_on_keys(client, keys),
    }
}

/// The session after a sequence of inputs.
pub open spec fn run(client: ClientView, inputs: Seq<Input>) -> ClientView
    decreases inputs.len(),
{
    if inputs.len() == 0 {
        client
    } else {
        step(run(client, inputs.drop_last()), inputs.last())
    }
}

/// The messages that the client sends over a sequence of inputs, in order.
pub open spec fn transcript(client: ClientView, inputs: Seq<Input>) -> Seq<Outbound>
    decreases inputs.len(),
{
    if inputs.len() == 0 {
        Seq::empty()
    } else {
        let before = transcript(client, inputs.drop_last());
        match sent(run(client, inputs.drop_last()), inputs.last()) {
            Some(message) => before.push(message),
            None => before,
        }
    }
}

/// Whether a configuration can be played.
pub fn is_config_valid(config: &GameConfig) -> (yes: bool)
    ensures
        yes == config_valid(*config),
{
    2 <= config.width && config.width <= MAX_COLUMNS && 2 <= config.height && config.height
        <= MAX_ROWS && config.food.is_on_screen() && are_snakes_on_screen(&config.snakes)
}

/// Whether the positions of a turn can be drawn.
pub fn is_turn_valid(turn: &TurnMessage) -> (yes: bool)
    ensures
        yes == turn_valid(*turn),
{
    turn.food.is_on_screen() && are_snakes_on_screen(&turn.snakes)
}

/// The first frame of a game can be put into text.
pub proof fn lemma_first_frame_encodable(game: GameView)
    requires
        drawable(game),
    ensures
        encodable(first_frame(game)),
{
    let rows = game.field.len();
    lemma_field_frame_encodable(game.field);
    lemma_food_frame_encodable(game.food, rows);
    lemma_snakes_frame_encodable(game.snakes, game.snakes.len(), crate::game::SNAKE_CHAR, game.id as int, rows);
    lemma_encodable_concat(field_frame(game.field), food_frame(game.food, rows));
    lemma_encodable_concat(
        field_frame(game.field) + food_frame(game.food, rows),
        drawn_snakes(game.snakes, game.id, rows),
    );
}

/// The frame of a turn can be put into text.
pub proof fn lemma_turn_frame_encodable(before: GameView, after: GameView)
    requires
        drawable(before),
        drawable(after),
    ensures
        encodable(turn_frame(before, after)),
{
    let erase = erased_snakes(before.snakes, before.field.len());
    let blank = erased_food(before.food, before.field.len());
    let food = food_frame(after.food, after.field.len());
    let snakes = drawn_snakes(after.snakes, after.id, after.field.len());
    lemma_snakes_frame_encodable(
        before.snakes,
        before.snakes.len(),
        crate::game::BLANK_CHAR,
        -1,
        before.field.len(),
    );
    lemma_erased_food_encodable(before.food, before.field.len());
    lemma_food_frame_encodable(after.food, after.field.len());
    lemma_snakes_frame_encodable(
        after.snakes,
        after.snakes.len(),
        crate::game::SNAKE_CHAR,
        after.id as int,
        after.field.len(),
    );
    lemma_encodable_concat(erase, blank);
    lemma_encodable_concat(erase + blank, food);
    lemma_encodable_concat(erase + blank + food, snakes);
}

/// What a display shows after the first frame of a game, whatever it
/// showed before: on the cells of the snakes the snake glyph, in the ink
/// of the snake on top; else on the cell of the food the food glyph; else
/// the field, and blanks around it. The ink is reset and the cursor parked
/// below the field.
pub proof fn lemma_first_frame_paints(canvas: Canvas, game: GameView)
    requires
        drawable(game),
        grid_fits(game.field),
    ensures
        canvas.paint_all(first_frame(game)).ink == Ink::Default,
        parked(canvas.paint_all(first_frame(game)), game.field.len()),
        forall|x: int, y: int|
            #[trigger] canvas.paint_all(first_frame(game)).at(x, y) == (if occupied(
                game.snakes,
                x,
                y,
            ) {
                Cell {
                    glyph: crate::game::SNAKE_CHAR,
                    ink: snake_ink(game.id == top_snake(game.snakes, game.snakes.len(), x, y)),
                }
            } else if x == game.food.x && y == game.food.y {
                Cell { glyph: crate::game::FOOD_CHAR, ink: food_ink() }
            } else if in_grid(game.field, x, y) {
                Cell { glyph: grid_glyph(game.field, x, y), ink: field_ink() }
            } else {
                blank_cell()
            }),
{
    let rows = game.field.len();
    let field = field_frame(game.field);
    let food = food_frame(game.food, rows);
    let snakes = drawn_snakes(game.snakes, game.id, rows);
    lemma_paint_all_concat(canvas, field + food, snakes);
    lemma_paint_all_concat(canvas, field, food);
    let first = canvas.paint_all(field);
    let second = first.paint_all(food);
    let third = second.paint_all(snakes);
    lemma_field_frame_paints(canvas, game.field);
    lemma_food_frame_paints(first, game.food, rows);
    lemma_snakes_frame_paints(
        second,
        game.snakes,
        game.snakes.len(),
        crate::game::SNAKE_CHAR,
        game.id as int,
        rows,
    );
    assert forall|x: int, y: int|
        #[trigger] third.at(x, y) == (if occupied(game.snakes, x, y) {
            Cell {
                glyph: crate::game::SNAKE_CHAR,
                ink: snake_ink(game.id == top_snake(game.snakes, game.snakes.len(), x, y)),
            }
        } else if x == game.food.x && y == game.food.y {
            Cell { glyph: crate::game::FOOD_CHAR, ink: food_ink() }
        } else if in_grid(game.field, x, y) {
            Cell { glyph: grid_glyph(game.field, x, y), ink: field_ink() }
        } else {
            blank_cell()
        }) by {
        assert(third.at(x, y) == second.at(x, y) || occupied(game.snakes, x, y));
        assert(second.at(x, y) == first.at(x, y) || (x == game.food.x && y == game.food.y));
    }
}

/// What a display shows after the frame of a turn: on the cells of the new
/// snakes the snake glyph, in the ink of the snake on top; else on the cell
/// of the new food the food glyph; else a blank on the cell of the food of
/// the turn before and where a snake of the turn before was; and every
/// other cell as before. The ink is reset and the cursor parked below the
/// field.
pub proof fn lemma_turn_frame_paints(canvas: Canvas, before: GameView, after: GameView)
    requires
        drawable(before),
        drawable(after),
    ensures
        canvas.paint_all(turn_frame(before, after)).ink == Ink::Default,
        parked(canvas.paint_all(turn_frame(before, after)), after.field.len()),
        forall|x: int, y: int|
            #[trigger] canvas.paint_all(turn_frame(before, after)).at(x, y) == (if occupied(
                after.snakes,
                x,
                y,
            ) {
                Cell {
                    glyph: crate::game::SNAKE_CHAR,
                    ink: snake_ink(after.id == top_snake(after.snakes, after.snakes.len(), x, y)),
                }
            } else if x == after.food.x && y == after.food.y {
                Cell { glyph: crate::game::FOOD_CHAR, ink: food_ink() }
            } else if x == before.food.x && y == before.food.y {
                blank_cell()
            } else if occupied(before.snakes, x, y) {
                Cell { glyph: crate::game::BLANK_CHAR, ink: snake_ink(false) }
            } else {
                canvas.at(x, y)
            }),
{
    let erase = erased_snakes(before.snakes, before.field.len());
    let blank = erased_food(before.food, before.field.len());
    let food = food_frame(after.food, after.field.len());
    let snakes = drawn_snakes(after.snakes, after.id, after.field.len());
    lemma_paint_all_concat(canvas, erase + blank + food, snakes);
    lemma_paint_all_concat(canvas, erase + blank, food);
    lemma_paint_all_concat(canvas, erase, blank);
    let first = canvas.paint_all(erase);
    let second = first.paint_all(blank);
    let third = second.paint_all(food);
    let fourth = third.paint_all(snakes);
    lemma_snakes_frame_paints(
        canvas,
        before.snakes,
        before.snakes.len(),
        crate::game::BLANK_CHAR,
        -1,
        before.field.len(),
    );
    lemma_erased_food_paints(first, before.food, before.field.len());
    lemma_food_frame_paints(second, after.food, after.field.len());
    lemma_snakes_frame_paints(
        third,
        after.snakes,
        after.snakes.len(),
        crate::game::SNAKE_CHAR,
        after.id as int,
        after.field.len(),
    );
    assert forall|x: int, y: int|
        #[trigger] fourth.at(x, y) == (if occupied(after.snakes, x, y) {
            Cell {
                glyph: crate::game::SNAKE_CHAR,
                ink: snake_ink(after.id == top_snake(after.snakes, after.snakes.len(), x, y)),
            }
        } else if x == after.food.x && y == after.food.y {
            Cell { glyph: crate::game::FOOD_CHAR, ink: food_ink() }
        } else if x == before.food.x && y == before.food.y {
            blank_cell()
        } else if occupied(before.snakes, x, y) {
            Cell { glyph: crate::game::BLANK_CHAR, ink: snake_ink(false) }
        } else {
            canvas.at(x, y)
        }) by {
        assert(fourth.at(x, y) == third.at(x, y) || occupied(after.snakes, x, y));
        assert(third.at(x, y) == second.at(x, y) || (x == after.food.x && y == after.food.y));
        assert(second.at(x, y) == first.at(x, y) || (x == before.food.x && y == before.food.y));
        crate::render::lemma_top_snake_covers(before.snakes, before.snakes.len(), x, y);
    }
}

/// A food that moves leaves nothing behind: after the frame of a turn the
/// cell of the food of the turn before shows a blank, unless the new food
/// or a new snake is there.
pub proof fn lemma_turn_frame_erases_food(canvas: Canvas, before: GameView, after: GameView)
    requires
        drawable(before),
        drawable(after),
        before.food != after.food,
        !occupied(after.snakes, before.food.x as int, before.food.y as int),
    ensures
        canvas.paint_all(turn_frame(before, after)).at(
            before.food.x as int,
            before.food.y as int,
        ) == blank_cell(),
        canvas.paint_all(turn_frame(before, after)).at(after.food.x as int, after.food.y as int)
            == (Cell { glyph: crate::game::FOOD_CHAR, ink: food_ink() }) || occupied(
            after.snakes,
            after.food.x as int,
            after.food.y as int,
        ),
{
    lemma_turn_frame_paints(canvas, before, after);
    let shown = canvas.paint_all(turn_frame(before, after));
    assert(shown.at(before.food.x as int, before.food.y as int) == blank_cell());
    assert(shown.at(after.food.x as int, after.food.y as int) == (Cell {
        glyph: crate::game::FOOD_CHAR,
        ink: food_ink(),
    }) || occupied(after.snakes, after.food.x as int, after.food.y as int));
}

/// A session of the client: the game and the place in the protocol.
pub struct Client {
    phase: Phase,
    game: Game,
}

impl View for Client {
    type V = ClientView;

    closed spec fn view(&self) -> ClientView {
        ClientView { phase: self.phase, game: self.game@ }
    }
}

impl Client {
    #[verifier::type_invariant]
    spec fn well_formed(&self) -> bool {
        self.phase.state() == State::Playing ==> drawable(self.game@)
    }

    /// A session in the lobby, before the server was heard.
    pub fn new() -> (client: Client)
        ensures
            client@ == (ClientView { phase: Phase::Lobby, game: GameView::empty() }),
            client@.phase == Phase::Lobby,
    {
        Client { phase: Phase::Lobby, game: Game::empty() }
    }

    /// Where in the protocol the session stands.
    pub fn phase(&self) -> (phase: Phase)
        ensures
            phase == self@.phase,
    {
        self.phase
    }

    /// The state of the session.
    pub fn state(&self) -> (state: State)
        ensures
            state == self@.phase.state(),
    {
        match self.phase {
            Phase::Lobby | Phase::LobbyInput | Phase::Configuring => State::Lobby,
            Phase::TurnStart | Phase::TurnInput | Phase::TurnUpdate | Phase::TurnReport => {
                State::Playing
            },
            Phase::Terminated(reason) => State::Terminated(reason),
        }
    }

    /// What the client needs next to go on.
    pub fn awaits(&self) -> (awaited: Awaited)
        ensures
            awaited == self@.phase.awaited(),
    {
        match self.phase {
            Phase::Lobby | Phase::TurnStart => Awaited::Event,
            Phase::LobbyInput | Phase::TurnInput => Awaited::Keys,
            Phase::Configuring => Awaited::Config,
            Phase::TurnUpdate => Awaited::Turn,
            Phase::TurnReport => Awaited::Report,
            Phase::Terminated(_) => Awaited::Nothing,
        }
    }

    /// The game of the session.
    pub fn game(&self) -> (game: &Game)
        ensures
            game@ == self@.game,
            self@.phase.state() == State::Playing ==> drawable(game@),
    {
        proof {
            use_type_invariant(self);
        }
        &self.game
    }

    /// Takes a message of the server. Nothing is sent in answer; the
    /// configuration and the positions of a turn give a frame to draw. A
    /// message that the protocol does not allow where the session stands
    /// ends the session.
    pub fn on_message(&mut self, message: ServerMessage) -> (reaction: Reaction)
        ensures
            final(self)@ == after_message(old(self)@, message),
            reaction.send is None,
            reaction.frame@ == frame_on_message(old(self)@, message),
            encodable(reaction.frame@),
    {
        proof {
            use_type_invariant(&*self);
        }
        let mut game = stand_in();
        std::mem::swap(&mut game, &mut self.game);
        let mut frame: Vec<DrawOp> = Vec::new();
        let mut next = Phase::Terminated(Reason::ProtocolError);
        match self.phase {
            Phase::Lobby => match message {
                ServerMessage::Event(GameEvent::WaitInLobby) => {
                    next = Phase::LobbyInput;
                },
                ServerMessage::Event(GameEvent::Start) => {
                    next = Phase::Configuring;
                },
                _ => {},
            },
            Phase::Configuring => match message {
                ServerMessage::Config(config) => {
                    if is_config_valid(&config) {
                        game.set_config(config);
                        frame = game.draw_field();
                        let mut food = game.draw_food();
                        let mut snakes = game.draw_snakes();
                        frame.append(&mut food);
                        frame.append(&mut snakes);
                        next = Phase::TurnStart;
                        proof {
                            lemma_first_frame_encodable(game@);
                        }
                    }
                },
                _ => {},
            },
            Phase::TurnStart => match message {
                ServerMessage::Event(GameEvent::NewTurn) => {
                    next = Phase::TurnInput;
                },
                _ => {},
            },
            Phase::TurnUpdate => match message {
                ServerMessage::Turn(turn) => {
                    if is_turn_valid(&turn) {
                        frame = game.clear_snakes();
                        let mut blank = game.clear_food();
                        frame.append(&mut blank);
                        game.id = turn.id;
                        game.food = turn.food;
                        game.update(turn.snakes);
                        let mut food = game.draw_food();
                        let mut snakes = game.draw_snakes();
                        frame.append(&mut food);
                        frame.append(&mut snakes);
                        next = Phase::TurnReport;
                        proof {
                            lemma_turn_frame_encodable(old(self).game@, game@);
                        }
                    }
                },
                _ => {},
            },
            Phase::TurnReport => match message {
                ServerMessage::State(GameState::Lost) => {
                    next = Phase::Terminated(Reason::Lost);
                },
                ServerMessage::State(_) => {
                    next = Phase::TurnStart;
                },
                _ => {},
            },
            Phase::LobbyInput | Phase::TurnInput => {},
            Phase::Terminated(reason) => {
                next = Phase::Terminated(reason);
            },
        }
        self.game = game;
        self.phase = next;
        Reaction { send: None, frame: frame }
    }

    /// Takes the bytes that waited at the keyboard. In the lobby the vote
    /// is sent, whatever it is. In play the key pressed last sets the
    /// direction, which is sent, unless the player quits: then the session
    /// ends and nothing is sent. Where the keyboard is not awaited the bytes
    /// are dropped.
    pub fn on_keys(&mut self, keys: &[u8]) -> (reaction: Reaction)
        ensures
            final(self)@ == after_keys(old(self)@, keys@),
            reaction.send == sent_on_keys(old(self)@, keys@),
            reaction.frame@.len() == 0,
    {
        proof {
            use_type_invariant(&*self);
        }
        let mut game = stand_in();
        std::mem::swap(&mut game, &mut self.game);
        let mut send: Option<Outbound> = None;
        let mut next = self.phase;
        match self.phase {
            Phase::LobbyInput => {
                let vote = game.force_start(keys);
                send = Some(Outbound::ForceStart(ForceStartMessage { force_start: vote }));
                next = Phase::Lobby;
            },
            Phase::TurnInput => {
                game.handle_input(keys);
                if game.killed {
                    next = Phase::Terminated(Reason::Quit);
                } else {
                    send = Some(Outbound::Direction(DirectionMessage { direction: game.direction }));
                    next = Phase::TurnUpdate;
                }
            },
            _ => {},
        }
        self.game = game;
        self.phase = next;
        Reaction { send: send, frame: Vec::new() }
    }
}

/// A session that can be drawn, to stand in the place of one that is being
/// changed.
fn stand_in() -> (game: Game)
    ensures
        drawable(game@),
{
    let game = Game {
        id: 0,
        snakes: Vec::new(),
        direction: Direction::Right,
        food: crate::game::Point { x: 1, y: 1 },
        field: Vec::new(),
        killed: false,
    };
    assert(game@.snakes.len() == 0);
    game
}

/// Running two sequences of inputs one after the other is running their
/// concatenation, and the messages sent are those of the first followed by
/// those of the second.
pub proof fn lemma_run_concat(client: ClientView, first: Seq<Input>, second: Seq<Input>)
    ensures
        run(client, first + second) == run(run(client, first), second),
        transcript(client, first + second) == transcript(client, first) + transcript(
            run(client, first),
            second,
        ),
    decreases second.len(),
{
    if second.len() == 0 {
        assert(first + second =~= first);
        assert(transcript(client, first) + Seq::<Outbound>::empty() =~= transcript(client, first));
    } else {
        lemma_run_concat(client, first, second.drop_last());
        assert((first + second).drop_last() =~= first + second.drop_last());
        assert((first + second).last() == second.last());
        let before = transcript(client, first) + transcript(
            run(client, first),
            second.drop_last(),
        );
        match sent(run(run(client, first), second.drop_last()), second.last()) {
            Some(message) => {
                assert(before.push(message) =~= transcript(client, first) + transcript(
                    run(client, first),
                    second.drop_last(),
                ).push(message));
            },
            None => {},
        }
    }
}

/// One input: the session after it is one step on, and what is sent is
/// what that step sends.
pub proof fn lemma_run_one(client: ClientView, input: Input)
    ensures
        run(client, seq![input]) == step(client, input),
        transcript(client, seq![input]) == (match sent(client, input) {
            Some(message) => seq![message],
            None => Seq::empty(),
        }),
{
    let inputs = seq![input];
    assert(inputs.drop_last() =~= Seq::<Input>::empty());
    assert(inputs.last() == input);
    assert(run(client, inputs.drop_last()) == client);
    assert(transcript(client, inputs.drop_last()) =~= Seq::<Outbound>::empty());
    match sent(client, input) {
        Some(message) => {
            assert(Seq::<Outbound>::empty().push(message) =~= seq![message]);
        },
        None => {},
    }
}

/// A session that has ended stays as it is whatever comes, and sends
/// nothing.
pub proof fn lemma_terminated_is_final(client: ClientView, inputs: Seq<Input>)
    requires
        client.phase is Terminated,
    ensures
        run(client, inputs) == client,
        transcript(client, inputs).len() == 0,
    decreases inputs.len(),
{
    if inputs.len() > 0 {
        lemma_terminated_is_final(client, inputs.drop_last());
    }
}

/// The wait event of the lobby.
pub open spec fn wait_event() -> Input {
    Input::Message(ServerMessage::Event(GameEvent::WaitInLobby))
}

/// The start event of the lobby.
pub open spec fn start_event() -> Input {
    Input::Message(ServerMessage::Event(GameEvent::Start))
}

/// The event that opens a turn.
pub open spec fn turn_event() -> Input {
    Input::Message(ServerMessage::Event(GameEvent::NewTurn))
}

/// Rounds of waiting in the lobby: for each reading of the keyboard in
/// `keys`, the wait event followed by that reading.
pub open spec fn lobby_rounds(keys: Seq<Seq<u8>>) -> Seq<Input>
    decreases keys.len(),
{
    if keys.len() == 0 {
        Seq::empty()
    } else {
        lobby_rounds(keys.drop_last()) + seq![wait_event(), Input::Keys(keys.last())]
    }
}

/// The vote that a reading of the keyboard gives.
pub open spec fn vote_of(keys: Seq<u8>) -> Outbound {
    Outbound::ForceStart(ForceStartMessage { force_start: confirms(latest_event(keys)) })
}

/// The votes of the rounds of waiting, one for each reading of the
/// keyboard.
pub open spec fn votes(keys: Seq<Seq<u8>>) -> Seq<Outbound> {
    Seq::new(keys.len(), |round: int| vote_of(keys[round]))
}

/// One round of waiting in the lobby sends one vote and leaves the session
/// in the lobby as it was.
pub proof fn lemma_lobby_round(client: ClientView, keys: Seq<u8>)
    requires
        client.phase == Phase::Lobby,
    ensures
        run(client, seq![wait_event(), Input::Keys(keys)]) == client,
        transcript(client, seq![wait_event(), Input::Keys(keys)]) == seq![vote_of(keys)],
{
    let told = step(client, wait_event());
    lemma_run_one(client, wait_event());
    lemma_run_one(told, Input::Keys(keys));
    lemma_run_concat(client, seq![wait_event()], seq![Input::Keys(keys)]);
    assert(seq![wait_event()] + seq![Input::Keys(keys)] =~= seq![wait_event(), Input::Keys(keys)]);
    assert(Seq::<Outbound>::empty() + seq![vote_of(keys)] =~= seq![vote_of(keys)]);
    assert(step(told, Input::Keys(keys)) =~= client);
}

/// From the lobby, as many wait events as there are readings in `keys`
/// make the client send exactly that many votes, one after each event,
/// and leave the session in the lobby as it was.
pub proof fn lemma_lobby_rounds_vote(client: ClientView, keys: Seq<Seq<u8>>)
    requires
        client.phase == Phase::Lobby,
    ensures
        run(client, lobby_rounds(keys)) == client,
        transcript(client, lobby_rounds(keys)) == votes(keys),
        transcript(client, lobby_rounds(keys)).len() == keys.len(),
    decreases keys.len(),
{
    if keys.len() == 0 {
        assert(transcript(client, lobby_rounds(keys)) =~= votes(keys));
    } else {
        let earlier = keys.drop_last();
        let round = seq![wait_event(), Input::Keys(keys.last())];
        lemma_lobby_rounds_vote(client, earlier);
        lemma_run_concat(client, lobby_rounds(earlier), round);
        lemma_lobby_round(client, keys.last());
        assert(votes(earlier) + seq![vote_of(keys.last())] =~= votes(keys));
    }
}

/// While the rounds of waiting go on the session is in the lobby: after
/// any number of the inputs of the rounds its state is the lobby.
pub proof fn lemma_lobby_rounds_stay(client: ClientView, keys: Seq<Seq<u8>>, upto: int)
    requires
        client.phase == Phase::Lobby,
        0 <= upto <= lobby_rounds(keys).len(),
    ensures
        run(client, lobby_rounds(keys).take(upto)).phase.state() == State::Lobby,
    decreases keys.len(),
{
    let rounds = lobby_rounds(keys);
    if keys.len() == 0 {
        assert(rounds.take(upto) =~= Seq::<Input>::empty());
    } else {
        let earlier = lobby_rounds(keys.drop_last());
        if upto <= earlier.len() {
            assert(rounds.take(upto) =~= earlier.take(upto));
            lemma_lobby_rounds_stay(client, keys.drop_last(), upto);
        } else {
            lemma_lobby_rounds_vote(client, keys.drop_last());
            if upto == earlier.len() + 1 {
                assert(rounds.take(upto) =~= earlier + seq![wait_event()]);
                lemma_run_concat(client, earlier, seq![wait_event()]);
                lemma_run_one(client, wait_event());
            } else {
                assert(rounds.take(upto) =~= rounds);
                lemma_lobby_rounds_vote(client, keys);
            }
        }
    }
}

/// The inputs of a lobby that waits for as many rounds as there are
/// readings in `keys` and is then started with a configuration.
pub open spec fn lobby_then_start(keys: Seq<Seq<u8>>, config: GameConfig) -> Seq<Input> {
    lobby_rounds(keys) + seq![start_event(), Input::Message(ServerMessage::Config(config))]
}

/// From the lobby, rounds of waiting followed by the start and a
/// configuration that can be played: the client sends exactly one vote for
/// each round and nothing else, the session is in play with the game
/// configured, and it has not been in play before the last input.
pub proof fn lemma_lobby_to_playing(client: ClientView, keys: Seq<Seq<u8>>, config: GameConfig)
    requires
        client.phase == Phase::Lobby,
        config_valid(config),
    ensures
        run(client, lobby_then_start(keys, config)) == (ClientView {
            phase: Phase::TurnStart,
            game: configured(client.game, config),
        }),
        run(client, lobby_then_start(keys, config)).phase.state() == State::Playing,
        transcript(client, lobby_then_start(keys, config)) == votes(keys),
        transcript(client, lobby_then_start(keys, config)).len() == keys.len(),
        forall|upto: int|
            0 <= upto < lobby_then_start(keys, config).len() ==> (#[trigger] run(
                client,
                lobby_then_start(keys, config).take(upto),
            )).phase.state() == State::Lobby,
{
    let rounds = lobby_rounds(keys);
    let given = Input::Message(ServerMessage::Config(config));
    let inputs = lobby_then_start(keys, config);
    lemma_lobby_rounds_vote(client, keys);
    lemma_run_concat(client, rounds, seq![start_event(), given]);
    lemma_run_concat(client, seq![start_event()], seq![given]);
    assert(seq![start_event()] + seq![given] =~= seq![start_event(), given]);
    lemma_run_one(client, start_event());
    let started = step(client, start_event());
    lemma_run_one(started, given);
    assert(votes(keys) + (Seq::<Outbound>::empty() + Seq::<Outbound>::empty()) =~= votes(keys));
    assert forall|upto: int| 0 <= upto < inputs.len() implies (#[trigger] run(
        client,
        inputs.take(upto),
    )).phase.state() == State::Lobby by {
        if upto <= rounds.len() {
            assert(inputs.take(upto) =~= rounds.take(upto));
            lemma_lobby_rounds_stay(client, keys, upto);
        } else {
            assert(inputs.take(upto) =~= rounds + seq![start_event()]);
            lemma_run_concat(client, rounds, seq![start_event()]);
        }
    }
}

/// In the lobby a message that is neither the wait event nor the start
/// event ends the session at once as a breach of the protocol, and the
/// client sends nothing then or later.
pub proof fn lemma_unexpected_in_lobby(
    client: ClientView,
    message: ServerMessage,
    later: Seq<Input>,
)
    requires
        client.phase == Phase::Lobby,
        message != ServerMessage::Event(GameEvent::WaitInLobby),
        message != ServerMessage::Event(GameEvent::Start),
    ensures
        step(client, Input::Message(message)).phase == Phase::Terminated(Reason::ProtocolError),
        run(client, seq![Input::Message(message)] + later).phase == Phase::Terminated(
            Reason::ProtocolError,
        ),
        transcript(client, seq![Input::Message(message)] + later).len() == 0,
{
    let input = Input::Message(message);
    lemma_run_one(client, input);
    lemma_run_concat(client, seq![input], later);
    lemma_terminated_is_final(step(client, input), later);
}

/// A turn in which the player presses the quit key: the session ends as
/// quit and no direction is sent, whatever comes later.
pub proof fn lemma_quit_sends_nothing(client: ClientView, keys: Seq<u8>, later: Seq<Input>)
    requires
        client.phase == Phase::TurnStart,
        quits(latest_event(keys)),
    ensures
        run(client, seq![turn_event(), Input::Keys(keys)] + later).phase == Phase::Terminated(
            Reason::Quit,
        ),
        transcript(client, seq![turn_event(), Input::Keys(keys)] + later).len() == 0,
{
    let opened = step(client, turn_event());
    lemma_run_one(client, turn_event());
    lemma_run_one(opened, Input::Keys(keys));
    lemma_run_concat(client, seq![turn_event()], seq![Input::Keys(keys)]);
    assert(seq![turn_event()] + seq![Input::Keys(keys)] =~= seq![turn_event(), Input::Keys(keys)]);
    lemma_run_concat(client, seq![turn_event(), Input::Keys(keys)], later);
    lemma_terminated_is_final(step(opened, Input::Keys(keys)), later);
}

/// A report of the lost game at the end of a turn ends the session as
/// lost, whatever the game holds.
pub proof fn lemma_lost_ends_session(client: ClientView)
    requires
        client.phase == Phase::TurnReport,
    ensures
        after_message(client, ServerMessage::State(GameState::Lost)) == (ClientView {
            phase: Phase::Terminated(Reason::Lost),
            ..client
        }),
{
}

/// A whole turn in which the player does not quit: the client sends the
/// direction exactly once, the positions are taken over, and the session
/// waits for the next turn unless the game is reported lost.
pub proof fn lemma_turn_sends_one_direction(
    client: ClientView,
    keys: Seq<u8>,
    turn: TurnMessage,
    report: GameState,
)
    requires
        client.phase == Phase::TurnStart,
        !pressed(client.game, keys).killed,
        turn_valid(turn),
    ensures
        transcript(
            client,
            seq![
                turn_event(),
                Input::Keys(keys),
                Input::Message(ServerMessage::Turn(turn)),
                Input::Message(ServerMessage::State(report)),
            ],
        ) == seq![
            Outbound::Direction(
                DirectionMessage { direction: pressed(client.game, keys).direction },
            ),
        ],
        run(
            client,
            seq![
                turn_event(),
                Input::Keys(keys),
                Input::Message(ServerMessage::Turn(turn)),
                Input::Message(ServerMessage::State(report)),
            ],
        ) == (ClientView {
            phase: if report == GameState::Lost {
                Phase::Terminated(Reason::Lost)
            } else {
                Phase::TurnStart
            },
            game: updated(pressed(client.game, keys), turn),
        }),
{
    let read = Input::Keys(keys);
    let positions = Input::Message(ServerMessage::Turn(turn));
    let closing = Input::Message(ServerMessage::State(report));
    let direction = Outbound::Direction(
        DirectionMessage { direction: pressed(client.game, keys).direction },
    );
    let one = seq![turn_event()];
    let two = one.push(read);
    let three = two.push(positions);
    let four = three.push(closing);
    assert(four =~= seq![turn_event(), read, positions, closing]);
    lemma_run_one(client, turn_event());
    assert(two.drop_last() =~= one);
    assert(three.drop_last() =~= two);
    assert(four.drop_last() =~= three);
    assert(transcript(client, two) =~= seq![direction]);
    assert(transcript(client, three) =~= seq![direction]);
    assert(transcript(client, four) =~= seq![direction]);
}

} // verus!

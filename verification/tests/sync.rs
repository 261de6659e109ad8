use snake_client::ansi::encode;
use snake_client::display::{Cell, DrawOp, Ink, Screen};
use snake_client::game::{init_field, Direction, GameEvent, GameState, Point};
use snake_client::sync::{
    is_config_valid, is_turn_valid, Awaited, Client, Outbound, Phase, Reason, ServerMessage, State,
};
use snake_client::{DirectionMessage, ForceStartMessage, GameConfig, TurnMessage};

fn p(x: u16, y: u16) -> Point {
    Point { x, y }
}

fn small_config() -> GameConfig {
    GameConfig { id: 0, width: 5, height: 5, snakes: vec![vec![p(2, 2)]], food: p(3, 3) }
}

fn event(e: GameEvent) -> ServerMessage {
    ServerMessage::Event(e)
}

fn vote(force_start: bool) -> Option<Outbound> {
    Some(Outbound::ForceStart(ForceStartMessage { force_start }))
}

fn report(direction: Direction) -> Option<Outbound> {
    Some(Outbound::Direction(DirectionMessage { direction }))
}

fn playing_client(config: GameConfig) -> Client {
    let mut client = Client::new();
    client.on_message(event(GameEvent::Start));
    client.on_message(ServerMessage::Config(config));
    assert_eq!(client.state(), State::Playing);
    client
}

#[test]
fn new_client_is_in_the_lobby() {
    let client = Client::new();
    assert_eq!(client.phase(), Phase::Lobby);
    assert_eq!(client.state(), State::Lobby);
    assert_eq!(client.awaits(), Awaited::Event);
    assert_eq!(client.game().direction, Direction::Right);
    assert!(client.game().snakes.is_empty());
}

#[test]
fn each_wait_gives_one_vote_and_start_leads_to_play() {
    let mut client = Client::new();
    let keys: [&[u8]; 4] = [b"", b"\n", b"x", b"\x1b[A\r"];
    let expected = [false, true, false, true];
    let mut sent = Vec::new();
    for round in 0..4 {
        let reaction = client.on_message(event(GameEvent::WaitInLobby));
        assert_eq!(reaction.send, None);
        assert!(reaction.frame.is_empty());
        assert_eq!(client.phase(), Phase::LobbyInput);
        assert_eq!(client.state(), State::Lobby);
        assert_eq!(client.awaits(), Awaited::Keys);
        let reaction = client.on_keys(keys[round]);
        assert!(reaction.frame.is_empty());
        assert_eq!(client.phase(), Phase::Lobby);
        sent.push(reaction.send);
    }
    assert_eq!(sent, expected.iter().map(|v| vote(*v)).collect::<Vec<_>>());
    let reaction = client.on_message(event(GameEvent::Start));
    assert_eq!(reaction.send, None);
    assert!(reaction.frame.is_empty());
    assert_eq!(client.phase(), Phase::Configuring);
    assert_eq!(client.state(), State::Lobby);
    assert_eq!(client.awaits(), Awaited::Config);
    let reaction = client.on_message(ServerMessage::Config(small_config()));
    assert_eq!(reaction.send, None);
    assert_eq!(client.phase(), Phase::TurnStart);
    assert_eq!(client.state(), State::Playing);
    assert_eq!(client.awaits(), Awaited::Event);
}

#[test]
fn start_without_waiting_sends_no_vote() {
    let mut client = Client::new();
    let reaction = client.on_message(event(GameEvent::Start));
    assert_eq!(reaction.send, None);
    assert_eq!(client.phase(), Phase::Configuring);
}

#[test]
fn unexpected_message_in_the_lobby_ends_the_session() {
    let unexpected = vec![
        event(GameEvent::NewTurn),
        ServerMessage::State(GameState::Ready),
        ServerMessage::State(GameState::Lost),
        ServerMessage::Config(small_config()),
        ServerMessage::Turn(TurnMessage { id: 0, food: p(1, 1), snakes: vec![] }),
    ];
    for message in unexpected {
        let mut client = Client::new();
        let reaction = client.on_message(message);
        assert_eq!(reaction.send, None);
        assert!(reaction.frame.is_empty());
        assert_eq!(client.phase(), Phase::Terminated(Reason::ProtocolError));
        assert_eq!(client.state(), State::Terminated(Reason::ProtocolError));
        assert_eq!(client.awaits(), Awaited::Nothing);
        let reaction = client.on_keys(b"\n");
        assert_eq!(reaction.send, None);
        let reaction = client.on_message(event(GameEvent::WaitInLobby));
        assert_eq!(reaction.send, None);
        assert!(reaction.frame.is_empty());
        assert_eq!(client.phase(), Phase::Terminated(Reason::ProtocolError));
    }
}

#[test]
fn first_frame_shows_field_food_and_own_snake() {
    let mut client = Client::new();
    client.on_message(event(GameEvent::Start));
    let reaction = client.on_message(ServerMessage::Config(small_config()));
    assert_eq!(client.game().id, 0);
    assert_eq!(client.game().food, p(3, 3));
    assert_eq!(client.game().snakes, vec![vec![p(2, 2)]]);
    assert_eq!(client.game().field, init_field(5, 5));
    let mut screen = Screen::new();
    screen.run(&reaction.frame);
    assert_eq!(screen.cell_at(3, 3), Cell { glyph: '\u{53e}', ink: Ink::Red });
    assert_eq!(screen.cell_at(2, 2), Cell { glyph: 'o', ink: Ink::Red });
    for y in 1..=5u16 {
        for x in 1..=5u16 {
            let border = x == 1 || x == 5 || y == 1 || y == 5;
            if border {
                assert_eq!(screen.cell_at(x, y), Cell { glyph: '#', ink: Ink::Blue });
            } else if (x, y) != (2, 2) && (x, y) != (3, 3) {
                assert_eq!(screen.cell_at(x, y), Cell { glyph: ' ', ink: Ink::Blue });
            }
        }
    }
    assert_eq!(screen.cell_at(6, 1), Cell { glyph: ' ', ink: Ink::Default });
    assert_eq!(screen.cell_at(1, 6), Cell { glyph: ' ', ink: Ink::Default });
    assert_eq!(screen.cursor(), (1, 6));
    assert_eq!(screen.ink(), Ink::Default);
}

#[test]
fn first_frame_is_field_then_food_then_snakes() {
    let mut client = Client::new();
    client.on_message(event(GameEvent::Start));
    let reaction = client.on_message(ServerMessage::Config(small_config()));
    let game = client.game();
    let mut expected = game.draw_field();
    expected.extend(game.draw_food());
    expected.extend(game.draw_snakes());
    assert_eq!(reaction.frame, expected);
    assert!(encode(&reaction.frame).is_some());
}

#[test]
fn other_snake_is_drawn_in_the_other_ink() {
    let mut client = Client::new();
    client.on_message(event(GameEvent::Start));
    let reaction = client.on_message(ServerMessage::Config(GameConfig {
        id: 1,
        width: 6,
        height: 6,
        snakes: vec![vec![p(2, 2)], vec![p(4, 4)]],
        food: p(3, 3),
    }));
    let mut screen = Screen::new();
    screen.run(&reaction.frame);
    assert_eq!(screen.cell_at(2, 2), Cell { glyph: 'o', ink: Ink::Yellow });
    assert_eq!(screen.cell_at(4, 4), Cell { glyph: 'o', ink: Ink::Red });
}

#[test]
fn quit_key_ends_the_session_without_a_direction() {
    let mut client = playing_client(small_config());
    let reaction = client.on_message(event(GameEvent::NewTurn));
    assert_eq!(reaction.send, None);
    assert_eq!(client.phase(), Phase::TurnInput);
    assert_eq!(client.awaits(), Awaited::Keys);
    let reaction = client.on_keys(b"q");
    assert_eq!(reaction.send, None);
    assert!(reaction.frame.is_empty());
    assert_eq!(client.phase(), Phase::Terminated(Reason::Quit));
    assert_eq!(client.state(), State::Terminated(Reason::Quit));
    assert!(client.game().killed);
    let reaction = client.on_message(ServerMessage::Turn(TurnMessage {
        id: 0,
        food: p(2, 2),
        snakes: vec![],
    }));
    assert_eq!(reaction.send, None);
    assert!(reaction.frame.is_empty());
    assert_eq!(client.phase(), Phase::Terminated(Reason::Quit));
}

#[test]
fn quit_after_an_arrow_in_one_reading_sends_nothing() {
    let mut client = playing_client(small_config());
    client.on_message(event(GameEvent::NewTurn));
    let reaction = client.on_keys(b"\x1b[Aq");
    assert_eq!(reaction.send, None);
    assert_eq!(client.phase(), Phase::Terminated(Reason::Quit));
}

#[test]
fn lost_report_ends_the_session() {
    let mut client = playing_client(small_config());
    client.on_message(event(GameEvent::NewTurn));
    client.on_keys(b"\x1b[B");
    client.on_message(ServerMessage::Turn(TurnMessage {
        id: 0,
        food: p(4, 4),
        snakes: vec![vec![p(2, 3), p(2, 2)]],
    }));
    assert_eq!(client.phase(), Phase::TurnReport);
    assert_eq!(client.awaits(), Awaited::Report);
    let reaction = client.on_message(ServerMessage::State(GameState::Lost));
    assert_eq!(reaction.send, None);
    assert!(reaction.frame.is_empty());
    assert_eq!(client.phase(), Phase::Terminated(Reason::Lost));
    assert_eq!(client.state(), State::Terminated(Reason::Lost));
    assert_eq!(client.game().food, p(4, 4));
}

#[test]
fn other_reports_go_on_to_the_next_turn() {
    for state in [GameState::Ready, GameState::Playing] {
        let mut client = playing_client(small_config());
        client.on_message(event(GameEvent::NewTurn));
        client.on_keys(b"");
        client.on_message(ServerMessage::Turn(TurnMessage {
            id: 0,
            food: p(4, 4),
            snakes: vec![vec![p(3, 2)]],
        }));
        client.on_message(ServerMessage::State(state));
        assert_eq!(client.phase(), Phase::TurnStart);
        assert_eq!(client.state(), State::Playing);
    }
}

#[test]
fn one_direction_is_sent_per_turn_even_if_unchanged() {
    let mut client = playing_client(small_config());
    let keys: [&[u8]; 4] = [b"", b"\x1b[A", b"", b"x\x1b[D\x1b[B"];
    let expected = [Direction::Right, Direction::Up, Direction::Up, Direction::Down];
    for turn in 0..4 {
        let reaction = client.on_message(event(GameEvent::NewTurn));
        assert_eq!(reaction.send, None);
        let reaction = client.on_keys(keys[turn]);
        assert_eq!(reaction.send, report(expected[turn]));
        assert!(reaction.frame.is_empty());
        assert_eq!(client.phase(), Phase::TurnUpdate);
        assert_eq!(client.awaits(), Awaited::Turn);
        let reaction = client.on_message(ServerMessage::Turn(TurnMessage {
            id: 0,
            food: p(3, 3),
            snakes: vec![vec![p(2, 2)]],
        }));
        assert_eq!(reaction.send, None);
        let reaction = client.on_message(ServerMessage::State(GameState::Playing));
        assert_eq!(reaction.send, None);
        assert_eq!(client.game().direction, expected[turn]);
    }
}

#[test]
fn turn_frame_erases_the_old_snakes_before_drawing_the_new() {
    let mut client = playing_client(GameConfig {
        id: 0,
        width: 8,
        height: 6,
        snakes: vec![vec![p(3, 3), p(2, 3)], vec![p(6, 4)]],
        food: p(5, 3),
    });
    let mut screen = Screen::new();
    let game = client.game();
    screen.run(&game.draw_field());
    screen.run(&game.draw_food());
    screen.run(&game.draw_snakes());
    let mut erase = game.clear_snakes();
    erase.extend(game.clear_food());
    assert_eq!(screen.cell_at(5, 3), Cell { glyph: '\u{53e}', ink: Ink::Red });
    client.on_message(event(GameEvent::NewTurn));
    client.on_keys(b"");
    let reaction = client.on_message(ServerMessage::Turn(TurnMessage {
        id: 1,
        food: p(7, 2),
        snakes: vec![vec![p(4, 3), p(3, 3)], vec![p(6, 3)]],
    }));
    let game = client.game();
    assert_eq!(game.id, 1);
    assert_eq!(game.food, p(7, 2));
    assert_eq!(game.snakes, vec![vec![p(4, 3), p(3, 3)], vec![p(6, 3)]]);
    let mut expected = erase;
    expected.extend(game.draw_food());
    expected.extend(game.draw_snakes());
    assert_eq!(reaction.frame, expected);
    assert!(encode(&reaction.frame).is_some());
    screen.run(&reaction.frame);
    assert_eq!(screen.cell_at(2, 3).glyph, ' ');
    assert_eq!(screen.cell_at(6, 4).glyph, ' ');
    assert_eq!(screen.cell_at(3, 3), Cell { glyph: 'o', ink: Ink::Yellow });
    assert_eq!(screen.cell_at(4, 3), Cell { glyph: 'o', ink: Ink::Yellow });
    assert_eq!(screen.cell_at(6, 3), Cell { glyph: 'o', ink: Ink::Red });
    assert_eq!(screen.cell_at(7, 2), Cell { glyph: '\u{53e}', ink: Ink::Red });
    assert_eq!(screen.cell_at(5, 3), Cell { glyph: ' ', ink: Ink::Default });
    assert_eq!(screen.cell_at(1, 1), Cell { glyph: '#', ink: Ink::Blue });
    assert_eq!(screen.cursor(), (1, 7));
    assert_eq!(screen.ink(), Ink::Default);
}

#[test]
fn event_other_than_new_turn_ends_play() {
    for message in [
        event(GameEvent::WaitInLobby),
        event(GameEvent::Start),
        ServerMessage::State(GameState::Playing),
    ] {
        let mut client = playing_client(small_config());
        let reaction = client.on_message(message);
        assert_eq!(reaction.send, None);
        assert!(reaction.frame.is_empty());
        assert_eq!(client.phase(), Phase::Terminated(Reason::ProtocolError));
    }
}

#[test]
fn message_where_another_is_awaited_ends_the_session() {
    let mut client = Client::new();
    client.on_message(event(GameEvent::Start));
    client.on_message(event(GameEvent::NewTurn));
    assert_eq!(client.phase(), Phase::Terminated(Reason::ProtocolError));

    let mut client = playing_client(small_config());
    client.on_message(event(GameEvent::NewTurn));
    client.on_keys(b"");
    client.on_message(ServerMessage::State(GameState::Playing));
    assert_eq!(client.phase(), Phase::Terminated(Reason::ProtocolError));

    let mut client = playing_client(small_config());
    client.on_message(event(GameEvent::NewTurn));
    client.on_keys(b"");
    client.on_message(ServerMessage::Turn(TurnMessage { id: 0, food: p(2, 2), snakes: vec![] }));
    client.on_message(event(GameEvent::NewTurn));
    assert_eq!(client.phase(), Phase::Terminated(Reason::ProtocolError));
}

#[test]
fn message_while_the_keyboard_is_awaited_ends_the_session() {
    let mut client = Client::new();
    client.on_message(event(GameEvent::WaitInLobby));
    let reaction = client.on_message(event(GameEvent::WaitInLobby));
    assert_eq!(reaction.send, None);
    assert_eq!(client.phase(), Phase::Terminated(Reason::ProtocolError));

    let mut client = playing_client(small_config());
    client.on_message(event(GameEvent::NewTurn));
    client.on_message(event(GameEvent::NewTurn));
    assert_eq!(client.phase(), Phase::Terminated(Reason::ProtocolError));
}

#[test]
fn keys_where_none_are_awaited_are_dropped() {
    let mut client = Client::new();
    let reaction = client.on_keys(b"\n");
    assert_eq!(reaction.send, None);
    assert!(reaction.frame.is_empty());
    assert_eq!(client.phase(), Phase::Lobby);

    let mut client = playing_client(small_config());
    let reaction = client.on_keys(b"\x1b[Aq");
    assert_eq!(reaction.send, None);
    assert_eq!(client.phase(), Phase::TurnStart);
    assert_eq!(client.game().direction, Direction::Right);
    assert!(!client.game().killed);
}

#[test]
fn configuration_that_cannot_be_played_ends_the_session() {
    let bad = vec![
        GameConfig { width: 1, ..small_config() },
        GameConfig { height: 1, ..small_config() },
        GameConfig { width: 0, height: 0, ..small_config() },
        GameConfig { height: 65535, ..small_config() },
        GameConfig { width: 65536, ..small_config() },
        GameConfig { food: p(0, 0), ..small_config() },
        GameConfig { food: p(0, 3), ..small_config() },
        GameConfig { snakes: vec![vec![p(2, 2)], vec![p(3, 3), p(3, 0)]], ..small_config() },
    ];
    for config in bad {
        assert!(!is_config_valid(&config));
        let mut client = Client::new();
        client.on_message(event(GameEvent::Start));
        let reaction = client.on_message(ServerMessage::Config(config));
        assert_eq!(reaction.send, None);
        assert!(reaction.frame.is_empty());
        assert_eq!(client.phase(), Phase::Terminated(Reason::ProtocolError));
        assert!(client.game().field.is_empty());
    }
}

#[test]
fn configurations_that_can_be_played() {
    assert!(is_config_valid(&small_config()));
    assert!(is_config_valid(&GameConfig { width: 2, height: 2, ..small_config() }));
    assert!(is_config_valid(&GameConfig { snakes: vec![], ..small_config() }));
    assert!(is_config_valid(&GameConfig { snakes: vec![vec![]], ..small_config() }));
    assert!(is_config_valid(&GameConfig { id: 7, ..small_config() }));
    assert!(is_config_valid(&GameConfig { food: p(65535, 65535), ..small_config() }));
}

#[test]
fn turn_that_cannot_be_drawn_ends_the_session() {
    let bad = vec![
        TurnMessage { id: 0, food: p(0, 0), snakes: vec![] },
        TurnMessage { id: 0, food: p(2, 0), snakes: vec![] },
        TurnMessage { id: 0, food: p(2, 2), snakes: vec![vec![p(0, 1)]] },
    ];
    for turn in bad {
        assert!(!is_turn_valid(&turn));
        let mut client = playing_client(small_config());
        client.on_message(event(GameEvent::NewTurn));
        client.on_keys(b"");
        let reaction = client.on_message(ServerMessage::Turn(turn));
        assert_eq!(reaction.send, None);
        assert!(reaction.frame.is_empty());
        assert_eq!(client.phase(), Phase::Terminated(Reason::ProtocolError));
        assert_eq!(client.game().snakes, vec![vec![p(2, 2)]]);
        assert_eq!(client.game().food, p(3, 3));
    }
    assert!(is_turn_valid(&TurnMessage { id: 3, food: p(1, 1), snakes: vec![vec![p(9, 9)]] }));
}

#[test]
fn first_frame_starts_by_clearing_the_display() {
    let mut client = Client::new();
    client.on_message(event(GameEvent::Start));
    let reaction = client.on_message(ServerMessage::Config(small_config()));
    assert_eq!(reaction.frame[0], DrawOp::Clear);
    let text = encode(&reaction.frame);
    assert!(matches!(text, Some(ref t) if t.starts_with("\x1b[2J\x1b[1;1H\x1b[38;5;4m#####")));
}

fn play_turn(client: &mut Client, screen: &mut Screen, turn: TurnMessage) {
    client.on_message(event(GameEvent::NewTurn));
    client.on_keys(b"");
    let reaction = client.on_message(ServerMessage::Turn(turn));
    screen.run(&reaction.frame);
    client.on_message(ServerMessage::State(GameState::Playing));
}

#[test]
fn food_that_moves_leaves_no_glyph_behind() {
    let mut client = Client::new();
    client.on_message(event(GameEvent::Start));
    let reaction = client.on_message(ServerMessage::Config(GameConfig {
        id: 0,
        width: 9,
        height: 7,
        snakes: vec![vec![p(2, 2)]],
        food: p(4, 4),
    }));
    let mut screen = Screen::new();
    screen.run(&reaction.frame);
    assert_eq!(screen.cell_at(4, 4), Cell { glyph: '\u{53e}', ink: Ink::Red });
    play_turn(
        &mut client,
        &mut screen,
        TurnMessage { id: 0, food: p(6, 5), snakes: vec![vec![p(3, 2)]] },
    );
    assert_eq!(screen.cell_at(4, 4), Cell { glyph: ' ', ink: Ink::Default });
    assert_eq!(screen.cell_at(6, 5), Cell { glyph: '\u{53e}', ink: Ink::Red });
    play_turn(
        &mut client,
        &mut screen,
        TurnMessage { id: 0, food: p(7, 3), snakes: vec![vec![p(4, 2)]] },
    );
    assert_eq!(screen.cell_at(4, 4).glyph, ' ');
    assert_eq!(screen.cell_at(6, 5), Cell { glyph: ' ', ink: Ink::Default });
    assert_eq!(screen.cell_at(7, 3), Cell { glyph: '\u{53e}', ink: Ink::Red });
}

#[test]
fn food_that_stays_is_still_shown() {
    let mut client = playing_client(small_config());
    let mut screen = Screen::new();
    play_turn(
        &mut client,
        &mut screen,
        TurnMessage { id: 0, food: p(3, 3), snakes: vec![vec![p(2, 3)]] },
    );
    assert_eq!(screen.cell_at(3, 3), Cell { glyph: '\u{53e}', ink: Ink::Red });
}

#[test]
fn snake_on_the_old_food_is_shown() {
    let mut client = playing_client(small_config());
    let mut screen = Screen::new();
    play_turn(
        &mut client,
        &mut screen,
        TurnMessage { id: 0, food: p(4, 2), snakes: vec![vec![p(3, 3), p(2, 3)]] },
    );
    assert_eq!(screen.cell_at(3, 3), Cell { glyph: 'o', ink: Ink::Red });
    assert_eq!(screen.cell_at(4, 2), Cell { glyph: '\u{53e}', ink: Ink::Red });
    assert_eq!(screen.cell_at(2, 2).glyph, ' ');
}

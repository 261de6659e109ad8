use snake_client::ansi::{encode, is_op_encodable};
use snake_client::display::{DrawOp, Ink};
use snake_client::game::{Game, Point};
use snake_client::GameConfig;

fn goto(x: u16, y: u16) -> DrawOp {
    DrawOp::Goto { x, y }
}

fn text_of(frame: Vec<DrawOp>) -> String {
    match encode(&frame) {
        Some(text) => text,
        None => panic!("frame cannot be put into text"),
    }
}

#[test]
fn empty_frame_is_empty_text() {
    assert_eq!(encode(&vec![]), Some(String::new()));
}

#[test]
fn clear_is_the_erase_display_sequence() {
    assert_eq!(text_of(vec![DrawOp::Clear]), "\x1b[2J");
}

#[test]
fn goto_writes_the_row_before_the_column() {
    assert_eq!(text_of(vec![goto(3, 7)]), "\x1b[7;3H");
    assert_eq!(text_of(vec![goto(1, 1)]), "\x1b[1;1H");
    assert_eq!(text_of(vec![goto(10, 200)]), "\x1b[200;10H");
    assert_eq!(text_of(vec![goto(65535, 10000)]), "\x1b[10000;65535H");
    assert_eq!(text_of(vec![goto(0, 6)]), "\x1b[6;0H");
    assert_eq!(text_of(vec![goto(5, 0)]), "\x1b[0;5H");
    assert_eq!(text_of(vec![goto(109, 90)]), "\x1b[90;109H");
}

#[test]
fn inks_are_the_colour_sequences() {
    assert_eq!(text_of(vec![DrawOp::Fg(Ink::Blue)]), "\x1b[38;5;4m");
    assert_eq!(text_of(vec![DrawOp::Fg(Ink::Red)]), "\x1b[38;5;1m");
    assert_eq!(text_of(vec![DrawOp::Fg(Ink::Yellow)]), "\x1b[38;5;3m");
    assert_eq!(text_of(vec![DrawOp::Fg(Ink::Default)]), "\x1b[39m");
}

#[test]
fn glyphs_are_written_as_they_are() {
    assert_eq!(text_of(vec![DrawOp::Put('#')]), "#");
    assert_eq!(text_of(vec![DrawOp::Put(' ')]), " ");
    assert_eq!(text_of(vec![DrawOp::Put('\u{53e}')]), "\u{53e}");
    assert_eq!(text_of(vec![DrawOp::Put('a'), DrawOp::Put('b')]), "ab");
}

#[test]
fn frame_is_the_texts_of_its_commands_in_order() {
    let frame = vec![
        DrawOp::Clear,
        goto(1, 1),
        DrawOp::Fg(Ink::Blue),
        DrawOp::Put('#'),
        DrawOp::Put('#'),
        goto(1, 2),
        DrawOp::Fg(Ink::Default),
    ];
    assert_eq!(text_of(frame), "\x1b[2J\x1b[1;1H\x1b[38;5;4m##\x1b[2;1H\x1b[39m");
}

#[test]
fn move_to_the_origin_has_no_text() {
    assert_eq!(encode(&vec![goto(0, 0)]), None);
    assert_eq!(encode(&vec![DrawOp::Clear, goto(0, 0), DrawOp::Put('x')]), None);
    assert_eq!(encode(&vec![DrawOp::Put('x'), goto(0, 0)]), None);
    assert!(!is_op_encodable(&goto(0, 0)));
    assert!(is_op_encodable(&goto(0, 1)));
    assert!(is_op_encodable(&goto(1, 0)));
    assert!(is_op_encodable(&DrawOp::Clear));
    assert!(is_op_encodable(&DrawOp::Put('x')));
    assert!(is_op_encodable(&DrawOp::Fg(Ink::Red)));
}

#[test]
fn food_frame_as_text() {
    let mut game = Game::empty();
    game.set_config(GameConfig {
        id: 0,
        width: 5,
        height: 5,
        snakes: vec![],
        food: Point { x: 3, y: 3 },
    });
    assert_eq!(text_of(game.draw_food()), "\x1b[3;3H\x1b[38;5;1m\u{53e}\x1b[39m\x1b[6;0H");
    assert_eq!(text_of(game.clear_food()), "\x1b[3;3H\x1b[39m \x1b[6;0H");
}

#[test]
fn snake_frame_as_text() {
    let mut game = Game::empty();
    game.set_config(GameConfig {
        id: 0,
        width: 5,
        height: 5,
        snakes: vec![vec![Point { x: 2, y: 2 }, Point { x: 2, y: 3 }]],
        food: Point { x: 3, y: 3 },
    });
    assert_eq!(
        text_of(game.draw_snakes()),
        "\x1b[38;5;1m\x1b[2;2Ho\x1b[3;2Ho\x1b[6;0H\x1b[39m"
    );
    assert_eq!(
        text_of(game.clear_snakes()),
        "\x1b[38;5;3m\x1b[2;2H \x1b[3;2H \x1b[6;0H\x1b[39m"
    );
}

#[test]
fn field_frame_as_text() {
    let mut game = Game::empty();
    game.set_config(GameConfig {
        id: 0,
        width: 3,
        height: 3,
        snakes: vec![],
        food: Point { x: 2, y: 2 },
    });
    assert_eq!(
        text_of(game.draw_field()),
        "\x1b[2J\x1b[1;1H\x1b[38;5;4m###\x1b[2;1H# #\x1b[3;1H###\x1b[4;1H\x1b[39m"
    );
}

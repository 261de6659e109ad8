use snake_client::display::{Cell, DrawOp, Ink, Screen};
use snake_client::game::{Game, Point};
use snake_client::GameConfig;

fn goto(x: u16, y: u16) -> DrawOp {
    DrawOp::Goto { x, y }
}

fn game_of(width: usize, height: usize, id: usize, snakes: Vec<Vec<Point>>, food: Point) -> Game {
    let mut game = Game::empty();
    game.set_config(GameConfig { id, width, height, snakes, food });
    game
}

fn p(x: u16, y: u16) -> Point {
    Point { x, y }
}

fn shown(glyph: char, ink: Ink) -> Cell {
    Cell { glyph, ink }
}

#[test]
fn draw_field_clears_then_writes_row_by_row() {
    let game = game_of(3, 2, 0, vec![], p(1, 1));
    let expected = vec![
        DrawOp::Clear,
        goto(1, 1),
        DrawOp::Fg(Ink::Blue),
        DrawOp::Put('#'),
        DrawOp::Put('#'),
        DrawOp::Put('#'),
        goto(1, 2),
        DrawOp::Put('#'),
        DrawOp::Put('#'),
        DrawOp::Put('#'),
        goto(1, 3),
        DrawOp::Fg(Ink::Default),
    ];
    assert_eq!(game.draw_field(), expected);
}

#[test]
fn draw_field_of_an_empty_game_only_clears() {
    let game = Game::empty();
    assert_eq!(
        game.draw_field(),
        vec![DrawOp::Clear, goto(1, 1), DrawOp::Fg(Ink::Blue), DrawOp::Fg(Ink::Default)]
    );
}

#[test]
fn draw_food_writes_the_food_glyph_and_parks() {
    let game = game_of(5, 5, 0, vec![], p(3, 4));
    let expected = vec![
        goto(3, 4),
        DrawOp::Fg(Ink::Red),
        DrawOp::Put('\u{53e}'),
        DrawOp::Fg(Ink::Default),
        goto(0, 6),
    ];
    assert_eq!(game.draw_food(), expected);
}

#[test]
fn clear_food_writes_a_blank_at_the_food_and_parks() {
    let game = game_of(5, 5, 0, vec![], p(3, 4));
    let expected =
        vec![goto(3, 4), DrawOp::Fg(Ink::Default), DrawOp::Put(' '), goto(0, 6)];
    assert_eq!(game.clear_food(), expected);
    let mut screen = Screen::new();
    screen.run(&game.draw_field());
    screen.run(&game.draw_food());
    assert_eq!(screen.cell_at(3, 4).glyph, '\u{53e}');
    screen.run(&game.clear_food());
    assert_eq!(screen.cell_at(3, 4), shown(' ', Ink::Default));
    assert_eq!(screen.cell_at(2, 4), shown(' ', Ink::Blue));
    assert_eq!(screen.cursor(), (1, 6));
    assert_eq!(screen.ink(), Ink::Default);
}

#[test]
fn draw_snake_with_char_uses_one_ink_for_own_and_one_for_others() {
    let game = game_of(5, 4, 0, vec![], p(3, 3));
    let body = vec![p(2, 2), p(3, 2)];
    assert_eq!(
        game.draw_snake_with_char('o', &body, true),
        vec![
            DrawOp::Fg(Ink::Red),
            goto(2, 2),
            DrawOp::Put('o'),
            goto(3, 2),
            DrawOp::Put('o'),
            goto(0, 5),
            DrawOp::Fg(Ink::Default),
        ]
    );
    assert_eq!(
        game.draw_snake_with_char(' ', &body, false),
        vec![
            DrawOp::Fg(Ink::Yellow),
            goto(2, 2),
            DrawOp::Put(' '),
            goto(3, 2),
            DrawOp::Put(' '),
            goto(0, 5),
            DrawOp::Fg(Ink::Default),
        ]
    );
    assert_eq!(
        game.draw_snake_with_char('o', &vec![], false),
        vec![DrawOp::Fg(Ink::Yellow), goto(0, 5), DrawOp::Fg(Ink::Default)]
    );
}

#[test]
fn draw_snakes_marks_the_snake_at_the_own_index() {
    let game = game_of(6, 5, 1, vec![vec![p(2, 2)], vec![p(3, 3), p(4, 3)]], p(5, 2));
    assert_eq!(
        game.draw_snakes(),
        vec![
            DrawOp::Fg(Ink::Yellow),
            goto(2, 2),
            DrawOp::Put('o'),
            goto(0, 6),
            DrawOp::Fg(Ink::Default),
            DrawOp::Fg(Ink::Red),
            goto(3, 3),
            DrawOp::Put('o'),
            goto(4, 3),
            DrawOp::Put('o'),
            goto(0, 6),
            DrawOp::Fg(Ink::Default),
        ]
    );
}

#[test]
fn clear_snakes_draws_every_snake_blank_and_none_as_own() {
    let game = game_of(6, 5, 1, vec![vec![p(2, 2)], vec![p(3, 3)]], p(5, 2));
    assert_eq!(
        game.clear_snakes(),
        vec![
            DrawOp::Fg(Ink::Yellow),
            goto(2, 2),
            DrawOp::Put(' '),
            goto(0, 6),
            DrawOp::Fg(Ink::Default),
            DrawOp::Fg(Ink::Yellow),
            goto(3, 3),
            DrawOp::Put(' '),
            goto(0, 6),
            DrawOp::Fg(Ink::Default),
        ]
    );
}

#[test]
fn no_snakes_give_empty_frames() {
    let game = game_of(4, 4, 0, vec![], p(2, 2));
    assert!(game.draw_snakes().is_empty());
    assert!(game.clear_snakes().is_empty());
}

#[test]
fn new_screen_is_blank() {
    let screen = Screen::new();
    assert_eq!(screen.cursor(), (1, 1));
    assert_eq!(screen.ink(), Ink::Default);
    assert_eq!(screen.cell_at(1, 1), shown(' ', Ink::Default));
    assert_eq!(screen.cell_at(40, 12), shown(' ', Ink::Default));
}

#[test]
fn screen_writes_at_the_cursor_and_advances() {
    let mut screen = Screen::new();
    screen.apply(goto(4, 2));
    screen.apply(DrawOp::Fg(Ink::Red));
    screen.apply(DrawOp::Put('a'));
    screen.apply(DrawOp::Put('b'));
    assert_eq!(screen.cursor(), (6, 2));
    assert_eq!(screen.ink(), Ink::Red);
    assert_eq!(screen.cell_at(4, 2), shown('a', Ink::Red));
    assert_eq!(screen.cell_at(5, 2), shown('b', Ink::Red));
    assert_eq!(screen.cell_at(6, 2), shown(' ', Ink::Default));
    assert_eq!(screen.cell_at(4, 3), shown(' ', Ink::Default));
}

#[test]
fn screen_shows_the_later_of_two_writes() {
    let mut screen = Screen::new();
    screen.run(&vec![
        goto(2, 2),
        DrawOp::Put('x'),
        DrawOp::Fg(Ink::Yellow),
        goto(2, 2),
        DrawOp::Put('y'),
    ]);
    assert_eq!(screen.cell_at(2, 2), shown('y', Ink::Yellow));
}

#[test]
fn screen_reads_zero_as_one() {
    let mut screen = Screen::new();
    screen.apply(goto(0, 6));
    assert_eq!(screen.cursor(), (1, 6));
    screen.apply(goto(3, 0));
    assert_eq!(screen.cursor(), (3, 1));
}

#[test]
fn screen_cursor_stops_at_the_last_column() {
    let mut screen = Screen::new();
    screen.run(&vec![goto(65535, 1), DrawOp::Put('a'), DrawOp::Put('b')]);
    assert_eq!(screen.cursor(), (65535, 1));
    assert_eq!(screen.cell_at(65535, 1), shown('b', Ink::Default));
}

#[test]
fn clear_blanks_the_cells_and_keeps_cursor_and_ink() {
    let mut screen = Screen::new();
    screen.run(&vec![goto(3, 3), DrawOp::Fg(Ink::Blue), DrawOp::Put('#'), DrawOp::Clear]);
    assert_eq!(screen.cell_at(3, 3), shown(' ', Ink::Default));
    assert_eq!(screen.cursor(), (4, 3));
    assert_eq!(screen.ink(), Ink::Blue);
}

#[test]
fn run_of_an_empty_frame_changes_nothing() {
    let mut screen = Screen::new();
    screen.apply(goto(7, 7));
    screen.run(&vec![]);
    assert_eq!(screen.cursor(), (7, 7));
}

#[test]
fn drawn_field_shows_on_the_screen() {
    let game = game_of(4, 3, 0, vec![], p(2, 2));
    let mut screen = Screen::new();
    screen.run(&vec![goto(9, 9), DrawOp::Put('z')]);
    screen.run(&game.draw_field());
    let field = ["####", "#  #", "####"];
    for y in 1..=5u16 {
        for x in 1..=6u16 {
            let expected = if y <= 3 && x <= 4 {
                shown(field[(y - 1) as usize].as_bytes()[(x - 1) as usize] as char, Ink::Blue)
            } else {
                shown(' ', Ink::Default)
            };
            assert_eq!(screen.cell_at(x, y), expected);
        }
    }
    assert_eq!(screen.cell_at(9, 9), shown(' ', Ink::Default));
    assert_eq!(screen.cursor(), (1, 4));
    assert_eq!(screen.ink(), Ink::Default);
}

#[test]
fn drawn_food_shows_on_the_screen_and_the_cursor_is_parked() {
    let game = game_of(5, 5, 0, vec![], p(3, 3));
    let mut screen = Screen::new();
    screen.run(&game.draw_field());
    screen.run(&game.draw_food());
    assert_eq!(screen.cell_at(3, 3), shown('\u{53e}', Ink::Red));
    assert_eq!(screen.cell_at(4, 3), shown(' ', Ink::Blue));
    assert_eq!(screen.cell_at(2, 3), shown(' ', Ink::Blue));
    assert_eq!(screen.cursor(), (1, 6));
    assert_eq!(screen.ink(), Ink::Default);
}

#[test]
fn erase_then_draw_leaves_no_stale_segment_and_keeps_the_overlap() {
    let old_snakes = vec![vec![p(2, 2), p(3, 2)], vec![p(5, 5)]];
    let new_snakes = vec![vec![p(3, 2), p(4, 2)], vec![p(5, 4)]];
    let mut game = game_of(8, 8, 0, old_snakes, p(6, 6));
    let mut screen = Screen::new();
    screen.run(&game.draw_field());
    screen.run(&game.draw_snakes());
    assert_eq!(screen.cell_at(2, 2).glyph, 'o');
    assert_eq!(screen.cell_at(5, 5).glyph, 'o');
    screen.run(&game.clear_snakes());
    game.update(new_snakes);
    screen.run(&game.draw_snakes());
    assert_eq!(screen.cell_at(2, 2).glyph, ' ');
    assert_eq!(screen.cell_at(5, 5).glyph, ' ');
    assert_eq!(screen.cell_at(3, 2), shown('o', Ink::Red));
    assert_eq!(screen.cell_at(4, 2), shown('o', Ink::Red));
    assert_eq!(screen.cell_at(5, 4), shown('o', Ink::Yellow));
    assert_eq!(screen.cell_at(1, 1), shown('#', Ink::Blue));
    assert_eq!(screen.cell_at(6, 2), shown(' ', Ink::Blue));
    assert_eq!(screen.cursor(), (1, 9));
    assert_eq!(screen.ink(), Ink::Default);
}

#[test]
fn drawing_before_erasing_would_leave_the_overlap_blank() {
    let mut game = game_of(8, 8, 0, vec![vec![p(2, 2), p(3, 2)]], p(6, 6));
    let erase = game.clear_snakes();
    game.update(vec![vec![p(3, 2), p(4, 2)]]);
    let draw = game.draw_snakes();
    let mut right = Screen::new();
    right.run(&erase);
    right.run(&draw);
    assert_eq!(right.cell_at(3, 2).glyph, 'o');
    let mut wrong = Screen::new();
    wrong.run(&draw);
    wrong.run(&erase);
    assert_eq!(wrong.cell_at(3, 2).glyph, ' ');
}

#[test]
fn snake_on_top_gives_the_ink() {
    let game = game_of(8, 8, 0, vec![vec![p(2, 2)], vec![p(2, 2)]], p(6, 6));
    let mut screen = Screen::new();
    screen.run(&game.draw_snakes());
    assert_eq!(screen.cell_at(2, 2), shown('o', Ink::Yellow));
    let game = game_of(8, 8, 1, vec![vec![p(2, 2)], vec![p(2, 2)]], p(6, 6));
    let mut screen = Screen::new();
    screen.run(&game.draw_snakes());
    assert_eq!(screen.cell_at(2, 2), shown('o', Ink::Red));
}

use snake_client::game::{init_field, Direction, Game, Point};
use snake_client::GameConfig;

fn expected_glyph(width: usize, height: usize, row: usize, col: usize) -> char {
    if row == 0 || row == height - 1 || col == 0 || col == width - 1 {
        '#'
    } else {
        ' '
    }
}

fn check_field(width: usize, height: usize) {
    let field = init_field(width, height);
    assert_eq!(field.len(), height);
    for (row, line) in field.iter().enumerate() {
        assert_eq!(line.len(), width);
        for (col, glyph) in line.iter().enumerate() {
            assert_eq!(*glyph, expected_glyph(width, height, row, col));
        }
    }
}

#[test]
fn field_of_five_by_five_has_a_border_ring() {
    let field = init_field(5, 5);
    let rows: Vec<String> = field.iter().map(|line| line.iter().collect()).collect();
    assert_eq!(rows, vec!["#####", "#   #", "#   #", "#   #", "#####"]);
}

#[test]
fn smallest_field_is_all_border() {
    let field = init_field(2, 2);
    assert_eq!(field, vec![vec!['#', '#'], vec!['#', '#']]);
}

#[test]
fn field_of_two_rows_has_no_inside() {
    let field = init_field(4, 2);
    assert_eq!(field, vec![vec!['#'; 4], vec!['#'; 4]]);
}

#[test]
fn field_of_two_columns_has_no_inside() {
    let field = init_field(2, 4);
    assert_eq!(field, vec![vec!['#'; 2]; 4]);
}

#[test]
fn fields_of_many_sizes_have_border_and_blank_inside() {
    for width in 2..12 {
        for height in 2..9 {
            check_field(width, height);
        }
    }
    check_field(80, 24);
    check_field(3, 3);
}

#[test]
fn wide_field_keeps_its_dimensions() {
    let field = init_field(7, 3);
    let rows: Vec<String> = field.iter().map(|line| line.iter().collect()).collect();
    assert_eq!(rows, vec!["#######", "#     #", "#######"]);
}

#[test]
fn empty_game_heads_right_and_holds_nothing() {
    let game = Game::empty();
    assert_eq!(game.id, 0);
    assert_eq!(game.direction, Direction::Right);
    assert_eq!(game.food, Point { x: 0, y: 0 });
    assert!(game.snakes.is_empty());
    assert!(game.field.is_empty());
    assert!(!game.killed);
}

#[test]
fn set_config_takes_over_the_configuration() {
    let mut game = Game::empty();
    game.direction = Direction::Left;
    game.set_config(GameConfig {
        id: 1,
        width: 6,
        height: 4,
        snakes: vec![vec![Point { x: 2, y: 2 }], vec![Point { x: 3, y: 3 }, Point { x: 4, y: 3 }]],
        food: Point { x: 5, y: 2 },
    });
    assert_eq!(game.id, 1);
    assert_eq!(game.food, Point { x: 5, y: 2 });
    assert_eq!(game.snakes.len(), 2);
    assert_eq!(game.snakes[1], vec![Point { x: 3, y: 3 }, Point { x: 4, y: 3 }]);
    assert_eq!(game.field, init_field(6, 4));
    assert_eq!(game.direction, Direction::Left);
    assert!(!game.killed);
}

#[test]
fn update_replaces_the_snakes_only() {
    let mut game = Game::empty();
    game.set_config(GameConfig {
        id: 0,
        width: 5,
        height: 5,
        snakes: vec![vec![Point { x: 2, y: 2 }]],
        food: Point { x: 3, y: 3 },
    });
    game.update(vec![vec![Point { x: 2, y: 3 }, Point { x: 2, y: 2 }], vec![]]);
    assert_eq!(game.snakes, vec![vec![Point { x: 2, y: 3 }, Point { x: 2, y: 2 }], vec![]]);
    assert_eq!(game.food, Point { x: 3, y: 3 });
    assert_eq!(game.id, 0);
    assert_eq!(game.field, init_field(5, 5));
}

#[test]
fn direction_names() {
    assert_eq!(Direction::Up.to_string(), "UP");
    assert_eq!(Direction::Down.to_string(), "DOWN");
    assert_eq!(Direction::Left.to_string(), "LEFT");
    assert_eq!(Direction::Right.to_string(), "RIGHT");
    assert_eq!(Direction::Unkown.to_string(), "UNKOWN");
}

#[test]
fn points_count_from_one() {
    assert!(Point { x: 1, y: 1 }.is_on_screen());
    assert!(Point { x: 65535, y: 7 }.is_on_screen());
    assert!(!Point { x: 0, y: 1 }.is_on_screen());
    assert!(!Point { x: 1, y: 0 }.is_on_screen());
    assert!(!Point { x: 0, y: 0 }.is_on_screen());
}

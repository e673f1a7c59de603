use std::collections::VecDeque;

use snake_quiz::game::{free_cells, pick_free_cell, spawn_apple, Game, Key, Tick};
use snake_quiz::grid::{CELLS, HEIGHT, WIDTH};

fn in_grid(c: (i16, i16)) -> bool {
    c.0 >= 0 && c.0 < WIDTH as i16 && c.1 >= 0 && c.1 < HEIGHT as i16
}

#[test]
fn new_game_starts_in_the_middle_heading_up() {
    let g = Game::new();
    assert_eq!(g.snake().iter().copied().collect::<Vec<_>>(), vec![(15i16, 20i16)]);
    assert!(in_grid(g.apple()));
    assert_ne!(g.apple(), (15, 20));
    assert_eq!(g.questions_asked(), 0);
    assert_eq!(g.questions_correct(), 0);
}

#[test]
fn quit_key_asks_to_quit() {
    let mut g = Game::new();
    assert!(g.handle_key(Key::Quit));
    assert!(!g.handle_key(Key::Enter));
    assert!(!g.handle_key(Key::Other));
    assert!(!g.handle_key(Key::Left));
}

#[test]
fn reversing_is_ignored() {
    let mut g = Game::new();
    // heading up: Down would reverse and is ignored, so the head moves up
    g.handle_key(Key::Down);
    assert!(g.can_tick());
    match g.tick() {
        Tick::Moved { head, .. } => assert_eq!(head, (15, 19)),
        Tick::Crashed => panic!("no crash expected"),
    }
}

#[test]
fn two_quick_presses_cannot_reverse() {
    let mut g = Game::new();
    // Left, then Down within the same tick: Down is checked against the move
    // of the last tick (up), of which it is the reverse, so it is ignored and
    // Left stays.
    g.handle_key(Key::Left);
    g.handle_key(Key::Down);
    match g.tick() {
        Tick::Moved { head, .. } => assert_eq!(head, (14, 20)),
        Tick::Crashed => panic!("no crash expected"),
    }
}

#[test]
fn turning_works() {
    let mut g = Game::new();
    g.handle_key(Key::Right);
    match g.tick() {
        Tick::Moved { head, .. } => assert_eq!(head, (16, 20)),
        Tick::Crashed => panic!("no crash expected"),
    }
}

#[test]
fn running_into_the_wall_ends_the_game() {
    let mut g = Game::new();
    let mut moves = 0;
    loop {
        assert!(g.can_tick());
        match g.tick() {
            Tick::Crashed => break,
            Tick::Moved { head, vacated, ate } => {
                moves += 1;
                assert_eq!(head, (15, 20 - moves));
                assert_eq!(g.snake()[0], head);
                if ate {
                    assert_eq!(vacated, None);
                    assert!(!g.snake().contains(&g.apple()));
                    g.record_answer(moves % 2 == 0);
                } else {
                    assert!(vacated.is_some());
                }
            }
        }
    }
    // from row 20 the head reaches row 0 after 20 moves; the 21st leaves the field
    assert_eq!(moves, 20);
    assert!(g.questions_correct() <= g.questions_asked());
    assert_eq!(g.questions_asked() as usize + 1, g.snake().len());
}

#[test]
fn length_grows_only_when_eating() {
    for _ in 0..20 {
        let mut g = Game::new();
        let mut len = 1;
        loop {
            match g.tick() {
                Tick::Crashed => break,
                Tick::Moved { ate, .. } => {
                    if ate {
                        len += 1;
                        g.record_answer(true);
                    }
                    assert_eq!(g.snake().len(), len);
                }
            }
        }
        assert_eq!(g.questions_correct(), g.questions_asked());
    }
}

#[test]
fn free_cells_lists_the_free_cells_in_row_major_order() {
    let mut snake: VecDeque<(i16, i16)> = VecDeque::new();
    snake.push_back((1, 0));
    snake.push_back((0, 1));
    let free = free_cells(&snake);
    assert_eq!(free.len(), CELLS - 2);
    assert_eq!(free[0], (0, 0));
    assert_eq!(free[1], (2, 0));
    assert_eq!(free[29], (1, 1));
    assert_eq!(*free.last().unwrap(), (29, 29));
    assert!(!free.contains(&(1, 0)));
    assert!(!free.contains(&(0, 1)));
}

#[test]
fn pick_free_cell_picks_by_index() {
    let mut snake: VecDeque<(i16, i16)> = VecDeque::new();
    snake.push_back((0, 0));
    assert_eq!(pick_free_cell(&snake, 0), (1, 0));
    assert_eq!(pick_free_cell(&snake, 29), (0, 1));
    assert_eq!(pick_free_cell(&snake, CELLS - 2), (29, 29));
}

#[test]
fn spawned_apples_are_free_cells() {
    let mut snake: VecDeque<(i16, i16)> = VecDeque::new();
    for x in 0..30 {
        for y in 0..29 {
            snake.push_back((x, y));
        }
    }
    for _ in 0..200 {
        let a = spawn_apple(&snake);
        assert!(in_grid(a));
        assert_eq!(a.1, 29);
        assert!(!snake.contains(&a));
    }
}

#[test]
fn the_last_free_cell_is_always_chosen() {
    let mut snake: VecDeque<(i16, i16)> = VecDeque::new();
    for k in 0..CELLS as i16 - 1 {
        snake.push_back((k % 30, k / 30));
    }
    assert_eq!(spawn_apple(&snake), (29, 29));
}

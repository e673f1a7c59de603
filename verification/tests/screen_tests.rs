use snake_quiz::grid::{board_origin, border_positions, text_row_position, MIN_COLUMNS, MIN_ROWS};
use snake_quiz::quiz::Question;
use snake_quiz::screen::{question_screen, result_screen, score_text, ScreenLine, Style};
use snake_quiz::screen_position;

fn rows(v: &[ScreenLine]) -> Vec<(String, Style)> {
    v.iter().map(|l| (l.text.clone(), l.style)).collect()
}

fn pad(s: &str) -> String {
    format!("{:<width$}", s, width = 60)
}

fn sample() -> Question {
    Question {
        prompt: "What is two plus two?".to_string(),
        answers: ["3".to_string(), "4".to_string(), "5".to_string(), "22".to_string()],
        answer_index: 1,
    }
}

#[test]
fn screen_position_of_cells() {
    assert_eq!(screen_position(2, 3, 0, 0), (4, 4));
    assert_eq!(screen_position(10, 5, 29, 29), (10 + 60, 5 + 30));
    assert_eq!(screen_position(0, 0, 7, 1), (16, 2));
}

#[test]
fn board_is_centred_or_refused() {
    assert_eq!(MIN_COLUMNS, 64);
    assert_eq!(MIN_ROWS, 32);
    assert_eq!(board_origin(80, 40), Some((8, 4)));
    assert_eq!(board_origin(64, 32), Some((0, 0)));
    assert_eq!(board_origin(63, 40), None);
    assert_eq!(board_origin(80, 31), None);
    assert_eq!(board_origin(81, 41), Some((8, 4)));
}

#[test]
fn border_blocks() {
    let b = border_positions(8, 4);
    assert_eq!(b.len(), 128);
    assert_eq!(b[0], (8, 4));
    assert_eq!(b[1], (8, 35));
    assert_eq!(b[63], (8 + 62, 35));
    assert_eq!(b[64], (8, 4));
    assert_eq!(b[65], (70, 4));
    assert_eq!(b[127], (70, 35));
    // every cell of the field is inside the border
    for x in 0..30u16 {
        for y in 0..30u16 {
            let p = screen_position(8, 4, x, y);
            assert!(!b.contains(&p));
        }
    }
}

#[test]
fn question_screen_rows() {
    let q = sample();
    let got = rows(&question_screen(&q, 1));
    let expected = vec![
        ("What is two plus two?".to_string(), Style::Plain),
        (String::new(), Style::Plain),
        (pad("A) 3"), Style::Plain),
        (String::new(), Style::Plain),
        (pad("B) 4"), Style::Highlighted),
        (String::new(), Style::Plain),
        (pad("C) 5"), Style::Plain),
        (String::new(), Style::Plain),
        (pad("D) 22"), Style::Plain),
        (String::new(), Style::Plain),
        ("↑/↓ move    Enter select    q quit".to_string(), Style::Plain),
    ];
    assert_eq!(got, expected);
}

#[test]
fn long_answers_wrap_with_indent() {
    let long = "word ".repeat(15);
    let q = Question {
        prompt: "p".to_string(),
        answers: [long.clone(), "b".to_string(), "c".to_string(), "d".to_string()],
        answer_index: 0,
    };
    let got = rows(&question_screen(&q, 0));
    // "word" x 11 = 54 characters fit in 57; the rest goes on the next row
    assert_eq!(got[2].0, pad(&format!("A) {}", vec!["word"; 11].join(" "))));
    assert_eq!(got[2].1, Style::Highlighted);
    assert_eq!(got[3].0, pad(&format!("   {}", vec!["word"; 4].join(" "))));
    assert_eq!(got[3].1, Style::Highlighted);
    assert_eq!(got[4], (String::new(), Style::Plain));
    assert!(got.iter().all(|(t, _)| t.chars().count() <= 60));
}

#[test]
fn result_screen_when_right() {
    let got = rows(&result_screen(&sample(), true));
    assert_eq!(
        got,
        vec![
            ("Correct!".to_string(), Style::Green),
            (String::new(), Style::Plain),
            ("Press any key to continue".to_string(), Style::Plain),
        ]
    );
}

#[test]
fn result_screen_when_wrong() {
    let got = rows(&result_screen(&sample(), false));
    assert_eq!(
        got,
        vec![
            ("Wrong!".to_string(), Style::Red),
            (String::new(), Style::Plain),
            ("The correct answer was:".to_string(), Style::Plain),
            ("B) 4".to_string(), Style::Plain),
            (String::new(), Style::Plain),
            ("Press any key to continue".to_string(), Style::Plain),
        ]
    );
}

#[test]
fn score_line() {
    assert_eq!(score_text(3, 5), "Questions correct: 3/5");
    assert_eq!(score_text(0, 0), "Questions correct: 0/0");
    assert_eq!(score_text(10, 120), "Questions correct: 10/120");
}

#[test]
fn text_rows_start_below_the_board_top() {
    assert_eq!(text_row_position(8, 4, 0), (10, 5));
    assert_eq!(text_row_position(8, 4, 7), (10, 12));
}

#[test]
fn result_screen_when_right_never_reads_the_answer() {
    let mut q = sample();
    q.answer_index = 9;
    let got = rows(&result_screen(&q, true));
    assert_eq!(got[0], ("Correct!".to_string(), Style::Green));
    assert_eq!(got.len(), 3);
}

#[test]
fn board_origin_leaves_the_board_on_the_terminal() {
    for cols in 60..90u16 {
        for rows in 28..40u16 {
            if let Some((x, y)) = board_origin(cols, rows) {
                assert!(x + MIN_COLUMNS <= cols && y + MIN_ROWS <= rows);
            }
        }
    }
}

use snake_quiz::game::Key;
use snake_quiz::quiz::{
    answer_is_correct, answer_letter, check_questions, get_question, select_answer, AnswerAction,
    Question, QuestionsError,
};

fn question(prompt: &str, answer_index: usize) -> Question {
    Question {
        prompt: prompt.to_string(),
        answers: [
            "first".to_string(),
            "second".to_string(),
            "third".to_string(),
            "fourth".to_string(),
        ],
        answer_index,
    }
}

#[test]
fn empty_question_set_is_refused() {
    let r = check_questions(&vec![]);
    assert_eq!(r, Err(QuestionsError::NoQuestions));
    assert_eq!(r.unwrap_err().message(), "the file has no questions in it");
}

#[test]
fn bad_answer_index_names_the_first_bad_question() {
    let qs = vec![question("a", 0), question("b", 4), question("c", 9)];
    let r = check_questions(&qs);
    assert_eq!(r, Err(QuestionsError::AnswerIndexOutOfRange { question: 2 }));
    assert_eq!(r.unwrap_err().message(), "question 2 has an answer_index outside of 0-3");
}

#[test]
fn message_of_a_large_question_number() {
    let e = QuestionsError::AnswerIndexOutOfRange { question: 1205 };
    assert_eq!(e.message(), "question 1205 has an answer_index outside of 0-3");
}

#[test]
fn good_question_set_is_accepted() {
    let qs = vec![question("a", 0), question("b", 3), question("c", 2)];
    assert_eq!(check_questions(&qs), Ok(()));
}

#[test]
fn get_question_draws_from_the_set() {
    let qs = vec![question("a", 0), question("b", 1), question("c", 2)];
    for _ in 0..100 {
        let q = get_question(&qs);
        assert!(qs.iter().any(|x| x.prompt == q.prompt));
    }
    let one = vec![question("only", 1)];
    assert_eq!(get_question(&one).prompt, "only");
}

#[test]
fn up_and_down_wrap_around() {
    assert_eq!(select_answer(0, Key::Up), AnswerAction::Select(3));
    assert_eq!(select_answer(3, Key::Down), AnswerAction::Select(0));
    assert_eq!(select_answer(1, Key::Down), AnswerAction::Select(2));
    assert_eq!(select_answer(2, Key::Up), AnswerAction::Select(1));
}

#[test]
fn other_keys_of_the_answer_screen() {
    assert_eq!(select_answer(2, Key::Enter), AnswerAction::Confirm);
    assert_eq!(select_answer(2, Key::Quit), AnswerAction::Quit);
    assert_eq!(select_answer(2, Key::Left), AnswerAction::Select(2));
    assert_eq!(select_answer(2, Key::Other), AnswerAction::Select(2));
}

#[test]
fn up_undoes_down_and_four_downs_come_back() {
    for s in 0..4 {
        if let AnswerAction::Select(t) = select_answer(s, Key::Down) {
            assert_eq!(select_answer(t, Key::Up), AnswerAction::Select(s));
        }
        let mut cur = s;
        for _ in 0..4 {
            if let AnswerAction::Select(t) = select_answer(cur, Key::Down) {
                cur = t;
            }
        }
        assert_eq!(cur, s);
    }
}

#[test]
fn correctness_of_an_answer() {
    let q = question("p", 2);
    assert!(answer_is_correct(&q, 2));
    assert!(!answer_is_correct(&q, 0));
}

#[test]
fn answer_letters() {
    assert_eq!(
        (0..4).map(answer_letter).collect::<String>(),
        "ABCD"
    );
}

#[test]
fn stray_keys_never_move_the_answer() {
    fn decide(keys: &[Key]) -> Option<Option<usize>> {
        let mut selected = 0;
        for &k in keys {
            match select_answer(selected, k) {
                AnswerAction::Select(s) => selected = s,
                AnswerAction::Confirm => return Some(Some(selected)),
                AnswerAction::Quit => return Some(None),
            }
        }
        None
    }
    let keys = [Key::Left, Key::Down, Key::Other, Key::Right, Key::Down, Key::Left, Key::Enter];
    let acting: Vec<Key> = keys
        .iter()
        .copied()
        .filter(|k| matches!(k, Key::Up | Key::Down | Key::Enter | Key::Quit))
        .collect();
    assert_eq!(decide(&keys), Some(Some(2)));
    assert_eq!(decide(&keys), decide(&acting));
    let quitting = [Key::Other, Key::Up, Key::Quit, Key::Enter];
    assert_eq!(decide(&quitting), Some(None));
}

//! The questions: a question set and its checks, picking a question, and
//! choosing an answer with the keys.
use vstd::prelude::*;
use vstd::string::*;

use crate::game::Key;
use crate::random::random_below;
use crate::text::{decimal, push_decimal};

verus! {

/// A multiple-choice question with four answers, labelled A to D.
pub struct Question {
    pub prompt: String,
    pub answers: [String; 4],
    /// Index of the right answer: 0 for A, ..., 3 for D.
    pub answer_index: usize,
}

/// The letter shown before the answer of index `i`.
pub open spec fn answer_letter_spec(i: int) -> char {
    if i == 0 {
        'A'
    } else if i == 1 {
        'B'
    } else if i == 2 {
        'C'
    } else {
        'D'
    }
}

pub fn answer_letter(i: usize) -> (c: char)
    requires
        i < 4,
    ensures
        c == answer_letter_spec(i as int),
{
    if i == 0 {
        'A'
    } else if i == 1 {
        'B'
    } else if i == 2 {
        'C'
    } else {
        'D'
    }
}

/// Why a question set cannot be played.
#[derive(Clone, Copy, Debug, PartialEq, Eq, Structural)]
pub enum QuestionsError {
    /// The set holds no question.
    NoQuestions,
    /// The right answer of the question numbered `question` (counting from 1)
    /// is not one of A to D.
    AnswerIndexOutOfRange { question: usize },
}

/// A question set that can be played: at least one question, and the right
/// answer of each one of A to D.
pub open spec fn playable(answer_indices: Seq<usize>) -> bool {
    answer_indices.len() > 0 && forall|i: int|
        0 <= i < answer_indices.len() ==> answer_indices[i] < 4
}

/// The right-answer indices of a question set.
pub open spec fn answer_indices(questions: Seq<Question>) -> Seq<usize> {
    questions.map_values(|q: Question| q.answer_index)
}

/// Checks a question set: `Ok` exactly when it is playable; else the error
/// names an empty set, or the first question whose right answer is not one
/// of A to D.
pub fn check_questions(questions: &Vec<Question>) -> (r: Result<(), QuestionsError>)
    ensures
        r is Ok <==> playable(answer_indices(questions@)),
        r == Err::<(), QuestionsError>(QuestionsError::NoQuestions) <==> questions@.len() == 0,
        forall|n: usize|
            r == Err::<(), QuestionsError>(QuestionsError::AnswerIndexOutOfRange { question: n })
                <==> (1 <= n <= questions@.len() && questions@[n - 1].answer_index >= 4 && forall|
                j: int,
            | 0 <= j < n - 1 ==> questions@[j].answer_index < 4),
{
    if questions.len() == 0 {
        return Err(QuestionsError::NoQuestions);
    }
    let mut i: usize = 0;
    while i < questions.len()
        invariant
            i <= questions@.len(),
            questions@.len() > 0,
            forall|j: int| 0 <= j < i ==> questions@[j].answer_index < 4,
        decreases questions@.len() - i,
    {
        if questions[i].answer_index >= 4 {
            let r = Err(QuestionsError::AnswerIndexOutOfRange { question: i + 1 });
            assert(!playable(answer_indices(questions@))) by {
                assert(answer_indices(questions@)[i as int] == questions@[i as int].answer_index);
            }
            assert forall|n: usize|
                1 <= n <= questions@.len() && questions@[n - 1].answer_index >= 4 && (forall|j: int|
                    0 <= j < n - 1 ==> questions@[j].answer_index < 4) implies r == Err::<
                (),
                QuestionsError,
            >(QuestionsError::AnswerIndexOutOfRange { question: n }) by {
                if n - 1 < i {
                    assert(questions@[n - 1].answer_index < 4);
                } else if n - 1 > i {
                    assert(questions@[i as int].answer_index < 4);
                }
            }
            return r;
        }
        i = i + 1;
    }
    assert(playable(answer_indices(questions@)));
    Ok(())
}

impl QuestionsError {
    /// The message that explains the error.
    pub open spec fn message_spec(self) -> Seq<char> {
        match self {
            QuestionsError::NoQuestions => "the file has no questions in it"@,
            QuestionsError::AnswerIndexOutOfRange { question } => "question "@ + decimal(
                question as nat,
            ) + " has an answer_index outside of 0-3"@,
        }
    }

    pub fn message(&self) -> (m: String)
        ensures
            m@ == self.message_spec(),
    {
        match self {
            QuestionsError::NoQuestions => "the file has no questions in it".to_owned(),
            QuestionsError::AnswerIndexOutOfRange { question } => {
                let mut m = "question ".to_owned();
                push_decimal(&mut m, *question as u64);
                m.append(" has an answer_index outside of 0-3");
                m
            },
        }
    }
}

/// A question of the set, drawn at random.
pub fn get_question(questions: &[Question]) -> (q: &Question)
    requires
        questions@.len() > 0,
    ensures
        exists|i: int| 0 <= i < questions@.len() && *q == questions@[i],
{
    let i = random_below(questions.len());
    &questions[i]
}

/// What a key press does while an answer is being chosen.
#[derive(Clone, Copy, Debug, PartialEq, Eq, Structural)]
pub enum AnswerAction {
    /// The answer of this index is highlighted.
    Select(usize),
    /// The highlighted answer is given.
    Confirm,
    /// The player quits the game.
    Quit,
}

/// Up and Down move the highlight to the answer above or below, wrapping
/// around from A to D and from D to A; Enter gives the highlighted answer;
/// `q` quits; other keys change nothing.
pub open spec fn select_answer_spec(selected: int, key: Key) -> AnswerAction {
    match key {
        Key::Up => AnswerAction::Select(((selected + 3) % 4) as usize),
        Key::Down => AnswerAction::Select(((selected + 1) % 4) as usize),
        Key::Enter => AnswerAction::Confirm,
        Key::Quit => AnswerAction::Quit,
        _ => AnswerAction::Select(selected as usize),
    }
}

pub fn select_answer(selected: usize, key: Key) -> (a: AnswerAction)
    requires
        selected < 4,
    ensures
        a == select_answer_spec(selected as int, key),
{
    match key {
        // + 3 rather than - 1, so that A wraps around to D
        Key::Up => AnswerAction::Select((selected + 3) % 4),
        Key::Down => AnswerAction::Select((selected + 1) % 4),
        Key::Enter => AnswerAction::Confirm,
        Key::Quit => AnswerAction::Quit,
        _ => AnswerAction::Select(selected),
    }
}

/// The given answer is the right one.
pub fn answer_is_correct(question: &Question, selected: usize) -> (b: bool)
    ensures
        b == (selected == question.answer_index),
{
    selected == question.answer_index
}

/// Moving the highlight always lands on one of the four answers; Up undoes
/// Down and Down undoes Up; four presses of Down (or of Up) come back to the
/// start.
pub proof fn lemma_selection_laws(selected: int)
    requires
        0 <= selected < 4,
    ensures
        forall|key: Key|
            #![trigger select_answer_spec(selected, key)]
            select_answer_spec(selected, key) matches AnswerAction::Select(t) ==> t < 4,
        select_answer_spec(selected, Key::Down) matches AnswerAction::Select(t) && select_answer_spec(
            t as int,
            Key::Up,
        ) == AnswerAction::Select(selected as usize),
        select_answer_spec(selected, Key::Up) matches AnswerAction::Select(t) && select_answer_spec(
            t as int,
            Key::Down,
        ) == AnswerAction::Select(selected as usize),
        ((((selected + 1) % 4 + 1) % 4 + 1) % 4 + 1) % 4 == selected,
        ((((selected + 3) % 4 + 3) % 4 + 3) % 4 + 3) % 4 == selected,
{
}

/// What a sequence of key presses decides, starting from the highlighted
/// answer `selected`: `Some(Some(a))` when Enter gives answer `a`,
/// `Some(None)` when the player quits, `None` while nothing is decided.
pub open spec fn answer_outcome(selected: int, keys: Seq<Key>) -> Option<Option<int>>
    decreases keys.len(),
{
    if keys.len() == 0 {
        None
    } else {
        match select_answer_spec(selected, keys[0]) {
            AnswerAction::Confirm => Some(Some(selected)),
            AnswerAction::Quit => Some(None),
            AnswerAction::Select(t) => answer_outcome(t as int, keys.drop_first()),
        }
    }
}

/// The keys that act on the question screen: Up, Down, Enter and q.
pub open spec fn acts_on_answer(key: Key) -> bool {
    key == Key::Up || key == Key::Down || key == Key::Enter || key == Key::Quit
}

/// Stray keys never pick or move the answer: dropping every key other than
/// Up, Down, Enter and q, wherever it comes, decides the same answer (or the
/// same quit); and an answer given is always one of the four.
pub proof fn lemma_stray_keys_ignored(selected: int, keys: Seq<Key>)
    requires
        0 <= selected < 4,
    ensures
        answer_outcome(selected, keys.filter(|k: Key| acts_on_answer(k))) == answer_outcome(
            selected,
            keys,
        ),
        answer_outcome(selected, keys) matches Some(Some(a)) ==> 0 <= a < 4,
    decreases keys.len(),
{
    let pred = |k: Key| acts_on_answer(k);
    if keys.len() == 0 {
        reveal_with_fuel(Seq::filter, 1);
    } else {
        let k0 = keys[0];
        let rest = keys.drop_first();
        assert(keys =~= seq![k0] + rest);
        Seq::filter_distributes_over_add(seq![k0], rest, pred);
        reveal_with_fuel(Seq::filter, 2);
        assert(seq![k0].drop_last() =~= Seq::<Key>::empty());
        let f = keys.filter(pred);
        match select_answer_spec(selected, k0) {
            AnswerAction::Select(t) => {
                lemma_stray_keys_ignored(t as int, rest);
                if acts_on_answer(k0) {
                    assert(f =~= seq![k0] + rest.filter(pred));
                    assert(f[0] == k0);
                    assert(f.drop_first() =~= rest.filter(pred));
                } else {
                    assert(f =~= rest.filter(pred));
                    assert(t == selected);
                }
            },
            _ => {
                assert(acts_on_answer(k0));
                assert(f =~= seq![k0] + rest.filter(pred));
                assert(f[0] == k0);
            },
        }
    }
}

} // verus!

//! What the question screens show: the rows of text of a question with its
//! four answers, and of the verdict on an answer, each with its style.
use vstd::prelude::*;
use vstd::string::*;

use crate::grid::{HEIGHT, WIDTH};
use crate::quiz::{Question, answer_letter, answer_letter_spec};
use crate::text::{
    decimal, lemma_wrap_laws, push_char, push_decimal, string_views, words, wrap_spec, wrap_text,
};

verus! {

/// How a row of text is shown.
#[derive(Clone, Copy, Debug, PartialEq, Eq, Structural)]
pub enum Style {
    Plain,
    /// Text and background colours swapped: the highlighted answer.
    Highlighted,
    Green,
    Red,
}

/// A row of a text screen.
pub struct ScreenLine {
    pub text: String,
    pub style: Style,
}

/// Rows as text and style.
pub open spec fn rows_view(v: Seq<ScreenLine>) -> Seq<(Seq<char>, Style)> {
    v.map_values(|l: ScreenLine| (l.text@, l.style))
}

/// Width of the text on the question screens: the width of the board, less
/// two columns of margin on each side.
pub const TEXT_WIDTH: usize = 60;

/// Width of an answer's text: room is kept for its label, such as "A) ".
pub const ANSWER_WIDTH: usize = 57;

/// `s` followed by spaces up to `w` characters.
pub open spec fn pad_to(s: Seq<char>, w: nat) -> Seq<char> {
    if s.len() >= w {
        s
    } else {
        s + Seq::new((w - s.len()) as nat, |k: int| ' ')
    }
}

/// What stands before the `j`-th line of the answer of index `i`: its label
/// on the first line, spaces of the same width on the others.
pub open spec fn answer_prefix(i: int, j: int) -> Seq<char> {
    if j == 0 {
        seq![answer_letter_spec(i), ')', ' ']
    } else {
        seq![' ', ' ', ' ']
    }
}

/// Plain rows of the given lines.
pub open spec fn plain_rows(lines: Seq<Seq<char>>) -> Seq<(Seq<char>, Style)> {
    lines.map_values(|l: Seq<char>| (l, Style::Plain))
}

/// An empty row.
pub open spec fn blank_row() -> (Seq<char>, Style) {
    (Seq::empty(), Style::Plain)
}

/// The rows of the answer of index `i`: wrapped at `ANSWER_WIDTH`, each line
/// after its prefix and padded with spaces to `TEXT_WIDTH`, so that a
/// highlight is a solid bar.
pub open spec fn answer_rows(i: int, answer: Seq<char>, style: Style) -> Seq<(Seq<char>, Style)> {
    wrap_spec(answer, ANSWER_WIDTH as nat).map(
        |j: int, line: Seq<char>| (pad_to(answer_prefix(i, j) + line, TEXT_WIDTH as nat), style),
    )
}

/// The style of the answer of index `i` when answer `selected` is highlighted.
pub open spec fn answer_style(i: int, selected: int) -> Style {
    if i == selected {
        Style::Highlighted
    } else {
        Style::Plain
    }
}

/// The rows of the first `n` answers, each followed by an empty row.
pub open spec fn answers_rows(answers: Seq<Seq<char>>, selected: int, n: nat) -> Seq<
    (Seq<char>, Style),
>
    decreases n,
{
    if n == 0 {
        seq![]
    } else {
        let i = n - 1;
        answers_rows(answers, selected, (n - 1) as nat) + answer_rows(
            i,
            answers[i],
            answer_style(i, selected),
        ) + seq![blank_row()]
    }
}

/// The line that tells the keys of the question screen.
pub open spec fn key_help() -> Seq<char> {
    "\u{2191}/\u{2193} move    Enter select    q quit"@
}

/// The question screen, row by row from its first row: the prompt wrapped at
/// `TEXT_WIDTH`, an empty row, the four answers each followed by an empty
/// row (the selected one highlighted), then the line of keys.
pub open spec fn question_rows(prompt: Seq<char>, answers: Seq<Seq<char>>, selected: int) -> Seq<
    (Seq<char>, Style),
> {
    plain_rows(wrap_spec(prompt, TEXT_WIDTH as nat)) + seq![blank_row()] + answers_rows(
        answers,
        selected,
        4,
    ) + seq![(key_help(), Style::Plain)]
}

/// The text of the `j`-th row of the answer of index `i`.
fn answer_row_text(i: usize, j: usize, line: &String) -> (t: String)
    requires
        i < 4,
    ensures
        t@ == pad_to(answer_prefix(i as int, j as int) + line@, TEXT_WIDTH as nat),
{
    let mut t = String::new();
    if j == 0 {
        push_char(&mut t, answer_letter(i));
        push_char(&mut t, ')');
        push_char(&mut t, ' ');
    } else {
        push_char(&mut t, ' ');
        push_char(&mut t, ' ');
        push_char(&mut t, ' ');
    }
    t.append(line.as_str());
    let ghost base = t@;
    assert(base =~= answer_prefix(i as int, j as int) + line@);
    let mut n = t.as_str().unicode_len();
    while n < TEXT_WIDTH
        invariant
            base.len() < TEXT_WIDTH ==> base.len() <= n <= TEXT_WIDTH,
            base.len() >= TEXT_WIDTH ==> n == base.len(),
            t@ == base + Seq::new((n - base.len()) as nat, |k: int| ' '),
        decreases TEXT_WIDTH - n,
    {
        push_char(&mut t, ' ');
        n = n + 1;
        assert(t@ =~= base + Seq::new((n - base.len()) as nat, |k: int| ' '));
    }
    assert(t@ =~= pad_to(base, TEXT_WIDTH as nat));
    t
}

/// A row of plain text.
fn plain(text: String) -> (l: ScreenLine)
    ensures
        l.text@ == text@,
        l.style == Style::Plain,
{
    ScreenLine { text, style: Style::Plain }
}

/// The rows of the question screen for `question`, with answer `selected`
/// highlighted.
pub fn question_screen(question: &Question, selected: usize) -> (rows: Vec<ScreenLine>)
    ensures
        rows_view(rows@) == question_rows(
            question.prompt@,
            question.answers@.map_values(|a: String| a@),
            selected as int,
        ),
        rows_view(rows@).take(wrap_spec(question.prompt@, TEXT_WIDTH as nat).len() as int)
            == plain_rows(wrap_spec(question.prompt@, TEXT_WIDTH as nat)),
{
    proof {
        lemma_question_screen_laws(
            question.prompt@,
            question.answers@.map_values(|a: String| a@),
            selected as int,
        );
    }
    let ghost answers = question.answers@.map_values(|a: String| a@);
    let mut rows: Vec<ScreenLine> = Vec::new();
    let prompt_lines = wrap_text(question.prompt.as_str(), TEXT_WIDTH);
    let ghost prompt_rows = plain_rows(wrap_spec(question.prompt@, TEXT_WIDTH as nat));
    for k in 0..prompt_lines.len()
        invariant
            string_views(prompt_lines@) == wrap_spec(question.prompt@, TEXT_WIDTH as nat),
            prompt_rows == plain_rows(wrap_spec(question.prompt@, TEXT_WIDTH as nat)),
            rows_view(rows@) =~= prompt_rows.take(k as int),
    {
        rows.push(plain(prompt_lines[k].clone()));
        assert(prompt_rows[k as int] == (prompt_lines@[k as int]@, Style::Plain));
        assert(prompt_rows.take(k + 1) =~= prompt_rows.take(k as int).push(prompt_rows[k as int]));
    }
    assert(prompt_rows.take(prompt_lines@.len() as int) =~= prompt_rows);
    rows.push(plain(String::new()));
    let ghost head = prompt_rows + seq![blank_row()];
    assert(rows_view(rows@) =~= head);
    for i in 0..4usize
        invariant
            answers == question.answers@.map_values(|a: String| a@),
            answers.len() == 4,
            rows_view(rows@) =~= head + answers_rows(answers, selected as int, i as nat),
    {
        let style = if i == selected {
            Style::Highlighted
        } else {
            Style::Plain
        };
        let lines = wrap_text(question.answers[i].as_str(), ANSWER_WIDTH);
        let ghost before = rows_view(rows@);
        let ghost ar = answer_rows(i as int, answers[i as int], style);
        assert(question.answers[i as int]@ == answers[i as int]);
        for j in 0..lines.len()
            invariant
                i < 4,
                answers.len() == 4,
                string_views(lines@) == wrap_spec(answers[i as int], ANSWER_WIDTH as nat),
                ar == answer_rows(i as int, answers[i as int], style),
                rows_view(rows@) =~= before + ar.take(j as int),
        {
            let text = answer_row_text(i, j, &lines[j]);
            let ghost tv = text@;
            let ghost prev = rows_view(rows@);
            rows.push(ScreenLine { text, style });
            assert(rows_view(rows@) =~= prev.push((tv, style)));
            assert(ar[j as int] == (tv, style));
            assert(ar.take(j + 1) =~= ar.take(j as int).push(ar[j as int]));
        }
        assert(ar.take(lines@.len() as int) =~= ar);
        let ghost prev = rows_view(rows@);
        rows.push(plain(String::new()));
        assert(rows_view(rows@) =~= prev.push(blank_row()));
        assert(answer_style(i as int, selected as int) == style);
        assert(answers_rows(answers, selected as int, (i + 1) as nat) == answers_rows(
            answers,
            selected as int,
            i as nat,
        ) + ar + seq![blank_row()]);
    }
    rows.push(plain("\u{2191}/\u{2193} move    Enter select    q quit".to_owned()));
    rows
}

/// The line that asks for a key before play goes on.
pub open spec fn press_any_key() -> Seq<char> {
    "Press any key to continue"@
}

/// The screen after an answer, row by row: "Correct!" in green; or "Wrong!"
/// in red and, after an empty row, the right answer with its label, wrapped
/// at `TEXT_WIDTH`; then, after an empty row, the request for a key.
pub open spec fn result_rows(answer_index: int, answer: Seq<char>, correct: bool) -> Seq<
    (Seq<char>, Style),
> {
    if correct {
        seq![("Correct!"@, Style::Green), blank_row(), (press_any_key(), Style::Plain)]
    } else {
        seq![
            ("Wrong!"@, Style::Red),
            blank_row(),
            ("The correct answer was:"@, Style::Plain),
        ] + plain_rows(
            wrap_spec(seq![answer_letter_spec(answer_index), ')', ' '] + answer, TEXT_WIDTH as nat),
        ) + seq![blank_row(), (press_any_key(), Style::Plain)]
    }
}

/// Appends plain rows of the given lines.
fn push_plain_rows(rows: &mut Vec<ScreenLine>, lines: Vec<String>)
    ensures
        rows_view(final(rows)@) == rows_view(old(rows)@) + plain_rows(string_views(lines@)),
{
    let ghost start = rows_view(rows@);
    let ghost pr = plain_rows(string_views(lines@));
    for k in 0..lines.len()
        invariant
            pr == plain_rows(string_views(lines@)),
            rows_view(rows@) =~= start + pr.take(k as int),
    {
        let ghost prev = rows_view(rows@);
        rows.push(plain(lines[k].clone()));
        assert(rows_view(rows@) =~= prev.push((lines@[k as int]@, Style::Plain)));
        assert(pr.take(k + 1) =~= pr.take(k as int).push(pr[k as int]));
    }
    assert(pr.take(lines@.len() as int) =~= pr);
}

/// The rows of the screen after an answer to `question`.
pub fn result_screen(question: &Question, correct: bool) -> (rows: Vec<ScreenLine>)
    requires
        !correct ==> question.answer_index < 4,
    ensures
        rows_view(rows@) == result_rows(
            question.answer_index as int,
            question.answers@[question.answer_index as int]@,
            correct,
        ),
{
    let mut rows: Vec<ScreenLine> = Vec::new();
    let ghost expected = result_rows(
        question.answer_index as int,
        question.answers@[question.answer_index as int]@,
        correct,
    );
    if correct {
        rows.push(ScreenLine { text: "Correct!".to_owned(), style: Style::Green });
        rows.push(plain(String::new()));
        assert(rows_view(rows@) =~= expected.take(2));
    } else {
        rows.push(ScreenLine { text: "Wrong!".to_owned(), style: Style::Red });
        rows.push(plain(String::new()));
        rows.push(plain("The correct answer was:".to_owned()));
        assert(rows_view(rows@) =~= expected.take(3));
        let mut right_answer = String::new();
        push_char(&mut right_answer, answer_letter(question.answer_index));
        push_char(&mut right_answer, ')');
        push_char(&mut right_answer, ' ');
        right_answer.append(question.answers[question.answer_index].as_str());
        assert(right_answer@ =~= seq![answer_letter_spec(question.answer_index as int), ')', ' ']
            + question.answers@[question.answer_index as int]@);
        let lines = wrap_text(right_answer.as_str(), TEXT_WIDTH);
        push_plain_rows(&mut rows, lines);
        let ghost prev = rows_view(rows@);
        rows.push(plain(String::new()));
        assert(rows_view(rows@) =~= prev.push(blank_row()));
        assert(rows_view(rows@) =~= expected.take(expected.len() - 1));
    }
    let ghost prev = rows_view(rows@);
    rows.push(plain("Press any key to continue".to_owned()));
    assert(rows_view(rows@) =~= prev.push((press_any_key(), Style::Plain)));
    assert(rows_view(rows@) =~= expected);
    rows
}

/// The score line of the game-over screen.
pub open spec fn score_text_spec(correct: u32, asked: u32) -> Seq<char> {
    "Questions correct: "@ + decimal(correct as nat) + "/"@ + decimal(asked as nat)
}

pub fn score_text(correct: u32, asked: u32) -> (t: String)
    ensures
        t@ == score_text_spec(correct, asked),
{
    let mut t = "Questions correct: ".to_owned();
    push_decimal(&mut t, correct as u64);
    t.append("/");
    push_decimal(&mut t, asked as u64);
    t
}

/// The row fits in the text width, or holds one word too long to fit: a word
/// of the prompt alone, or a word of an answer longer than `ANSWER_WIDTH`
/// after that answer's label or its indent.
pub open spec fn fits_or_long_word(prompt: Seq<char>, answers: Seq<Seq<char>>, t: Seq<char>) -> bool {
    ||| t.len() <= TEXT_WIDTH
    ||| words(prompt).contains(t)
    ||| exists|i: int, w: Seq<char>|
        0 <= i < 4 && #[trigger] words(answers[i]).contains(w) && w.len() > ANSWER_WIDTH && (t
            == answer_prefix(i, 0) + w || t == answer_prefix(i, 1) + w)
}

/// Every row of an answer fits, or is the answer's label or indent before one
/// overlong word; a row that fits is padded to exactly `TEXT_WIDTH`.
proof fn lemma_answer_rows_fit(prompt: Seq<char>, answers: Seq<Seq<char>>, i: int, st: Style)
    requires
        0 <= i < 4,
        answers.len() == 4,
    ensures
        forall|j: int|
            0 <= j < answer_rows(i, answers[i], st).len() ==> fits_or_long_word(
                prompt,
                answers,
                (#[trigger] answer_rows(i, answers[i], st)[j]).0,
            ),
{
    let lines = wrap_spec(answers[i], ANSWER_WIDTH as nat);
    lemma_wrap_laws(answers[i], ANSWER_WIDTH as nat);
    assert forall|j: int| 0 <= j < answer_rows(i, answers[i], st).len() implies fits_or_long_word(
        prompt,
        answers,
        (#[trigger] answer_rows(i, answers[i], st)[j]).0,
    ) by {
        let line = lines[j];
        let u = answer_prefix(i, j) + line;
        let t = answer_rows(i, answers[i], st)[j].0;
        assert(t == pad_to(u, TEXT_WIDTH as nat));
        if line.len() <= ANSWER_WIDTH {
            assert(t.len() == TEXT_WIDTH);
        } else {
            assert(words(answers[i]).contains(line));
            assert(t == u);
            if j == 0 {
                assert(t == answer_prefix(i, 0) + line);
            } else {
                assert(answer_prefix(i, j) == answer_prefix(i, 1));
                assert(t == answer_prefix(i, 1) + line);
            }
        }
    }
}

proof fn lemma_answers_rows_fit(prompt: Seq<char>, answers: Seq<Seq<char>>, selected: int, n: nat)
    requires
        n <= 4,
        answers.len() == 4,
    ensures
        forall|k: int|
            0 <= k < answers_rows(answers, selected, n).len() ==> fits_or_long_word(
                prompt,
                answers,
                (#[trigger] answers_rows(answers, selected, n)[k]).0,
            ),
    decreases n,
{
    if n > 0 {
        let i = n - 1;
        lemma_answers_rows_fit(prompt, answers, selected, (n - 1) as nat);
        lemma_answer_rows_fit(prompt, answers, i, answer_style(i, selected));
        let prev = answers_rows(answers, selected, (n - 1) as nat);
        let ar = answer_rows(i, answers[i], answer_style(i, selected));
        let all = answers_rows(answers, selected, n);
        assert(all == prev + ar + seq![blank_row()]);
        assert forall|k: int| 0 <= k < all.len() implies fits_or_long_word(
            prompt,
            answers,
            (#[trigger] all[k]).0,
        ) by {
            if k < prev.len() {
                assert(all[k] == prev[k]);
            } else if k < prev.len() + ar.len() {
                assert(all[k] == ar[k - prev.len()]);
            } else {
                assert(all[k] == blank_row());
            }
        }
    }
}

/// What the question screen shows, stated over its rows: first the prompt
/// wrapped at `TEXT_WIDTH` (its words in order, a row longer than the width
/// only for a single overlong word), then an empty row; every row fits in
/// `TEXT_WIDTH` or holds a single overlong word (see `fits_or_long_word`);
/// and the last row tells the keys.
pub proof fn lemma_question_screen_laws(prompt: Seq<char>, answers: Seq<Seq<char>>, selected: int)
    requires
        answers.len() == 4,
    ensures
        ({
            let rows = question_rows(prompt, answers, selected);
            let n = wrap_spec(prompt, TEXT_WIDTH as nat).len();
            &&& rows.take(n as int) == plain_rows(wrap_spec(prompt, TEXT_WIDTH as nat))
            &&& rows[n as int] == blank_row()
            &&& forall|k: int|
                0 <= k < n ==> (#[trigger] rows[k]).0.len() <= TEXT_WIDTH || words(
                    prompt,
                ).contains(rows[k].0)
            &&& forall|k: int|
                0 <= k < rows.len() ==> fits_or_long_word(prompt, answers, (#[trigger] rows[k]).0)
            &&& rows.last() == (key_help(), Style::Plain)
        }),
{
    let rows = question_rows(prompt, answers, selected);
    let pr = plain_rows(wrap_spec(prompt, TEXT_WIDTH as nat));
    let ar = answers_rows(answers, selected, 4);
    let n = pr.len();
    lemma_wrap_laws(prompt, TEXT_WIDTH as nat);
    lemma_answers_rows_fit(prompt, answers, selected, 4);
    reveal_strlit("\u{2191}/\u{2193} move    Enter select    q quit");
    assert(rows == pr + seq![blank_row()] + ar + seq![(key_help(), Style::Plain)]);
    assert(rows.take(n as int) =~= pr);
    assert forall|k: int| 0 <= k < rows.len() implies fits_or_long_word(
        prompt,
        answers,
        (#[trigger] rows[k]).0,
    ) by {
        if k < n {
            assert(rows[k] == pr[k]);
            assert(pr[k].0 == wrap_spec(prompt, TEXT_WIDTH as nat)[k]);
        } else if k == n {
            assert(rows[k] == blank_row());
        } else if k < n + 1 + ar.len() {
            assert(rows[k] == ar[k - n - 1]);
        } else {
            assert(rows[k] == (key_help(), Style::Plain));
            assert(key_help().len() == 34);
        }
    }
    assert forall|k: int| 0 <= k < n implies (#[trigger] rows[k]).0.len() <= TEXT_WIDTH || words(
        prompt,
    ).contains(rows[k].0) by {
        assert(rows[k] == pr[k]);
        assert(pr[k].0 == wrap_spec(prompt, TEXT_WIDTH as nat)[k]);
    }
}

} // verus!

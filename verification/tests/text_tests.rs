use snake_quiz::text::is_whitespace;
use snake_quiz::wrap_text;

fn wrap(text: &str, width: usize) -> Vec<String> {
    wrap_text(text, width)
}

#[test]
fn wrap_keeps_short_text_on_one_line() {
    assert_eq!(wrap("hello world", 11), vec!["hello world".to_string()]);
}

#[test]
fn wrap_breaks_between_words() {
    assert_eq!(wrap("hello world", 10), vec!["hello".to_string(), "world".to_string()]);
    assert_eq!(
        wrap("the quick brown fox jumps", 10),
        vec!["the quick".to_string(), "brown fox".to_string(), "jumps".to_string()]
    );
}

#[test]
fn wrap_empty_text_gives_one_empty_line() {
    assert_eq!(wrap("", 10), vec![String::new()]);
    assert_eq!(wrap("   \t\n ", 10), vec![String::new()]);
}

#[test]
fn wrap_collapses_whitespace_runs() {
    assert_eq!(wrap("  a \t\n b   c  ", 60), vec!["a b c".to_string()]);
}

#[test]
fn wrap_puts_long_word_alone() {
    assert_eq!(
        wrap("a supercalifragilistic word", 5),
        vec!["a".to_string(), "supercalifragilistic".to_string(), "word".to_string()]
    );
}

#[test]
fn wrap_width_zero_gives_one_word_per_line() {
    assert_eq!(wrap("one two", 0), vec!["one".to_string(), "two".to_string()]);
}

#[test]
fn wrap_counts_characters_not_bytes() {
    // each word has 5 characters but more bytes
    assert_eq!(wrap("héllo wörld", 11), vec!["héllo wörld".to_string()]);
    assert_eq!(wrap("héllo wörld", 10), vec!["héllo".to_string(), "wörld".to_string()]);
}

#[test]
fn wrap_exact_fit_stays_on_line() {
    // 3 + 1 + 3 == 7
    assert_eq!(wrap("abc def ghi", 7), vec!["abc def".to_string(), "ghi".to_string()]);
}

#[test]
fn wrap_laws_on_sample_text() {
    let text = "Which planet of the solar system has the largest number of known moons as of today?";
    for width in 0..40 {
        let lines = wrap(text, width);
        let words: Vec<&str> = text.split_whitespace().collect();
        // no word lost, none reordered, single spaces
        let joined: Vec<String> = lines
            .iter()
            .flat_map(|l| l.split(' ').map(|w| w.to_string()).collect::<Vec<_>>())
            .collect();
        assert_eq!(joined, words);
        for (i, line) in lines.iter().enumerate() {
            let n = line.chars().count();
            assert!(n <= width || !line.contains(' '));
            if i + 1 < lines.len() {
                let next_first = lines[i + 1].split(' ').next().unwrap();
                assert!(n + 1 + next_first.chars().count() > width);
            }
        }
    }
}

#[test]
fn whitespace_agrees_with_std() {
    for n in 0u32..0x11000 {
        if let Some(c) = char::from_u32(n) {
            assert_eq!(is_whitespace(c), c.is_whitespace(), "character {:#x}", n);
        }
    }
}

#[test]
fn wrap_matches_split_whitespace_on_unicode_spaces() {
    let text = "a\u{00a0}b\u{2003}c\u{3000}d\u{200b}e";
    let words: Vec<&str> = text.split_whitespace().collect();
    let lines = wrap(text, 100);
    assert_eq!(lines, vec![words.join(" ")]);
}

#[test]
fn wrap_depends_on_words_only() {
    let text = "  Which\tplanet  has\n\nthe most   moons? ";
    let joined = text.split_whitespace().collect::<Vec<_>>().join(" ");
    for width in 0..30 {
        assert_eq!(wrap(text, width), wrap(&joined, width));
    }
}

#[test]
fn wider_lines_never_need_more_lines() {
    let text = "a bb ccc dddd eeeee ffffff g hh iii jjjj";
    for w1 in 0..45 {
        for w2 in w1..45 {
            assert!(wrap(text, w2).len() <= wrap(text, w1).len());
        }
    }
}

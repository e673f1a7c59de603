//! Text: whitespace, words, and wrapping text into lines of a given width.
use vstd::prelude::*;
use vstd::string::*;

verus! {

/// Appends a character to a string, with `String::push`.
#[verifier::external_body]
pub(crate) fn push_char(s: &mut String, c: char)
    ensures
        final(s)@ == old(s)@.push(c),
{
    s.push(c)
}

/// The character has Unicode's White_Space property (the characters that
/// `char::is_whitespace` and `str::split_whitespace` treat as whitespace).
pub open spec fn is_whitespace_spec(c: char) -> bool {
    let n = c as u32;
    ||| 0x9 <= n <= 0xd
    ||| n == 0x20
    ||| n == 0x85
    ||| n == 0xa0
    ||| n == 0x1680
    ||| 0x2000 <= n <= 0x200a
    ||| n == 0x2028
    ||| n == 0x2029
    ||| n == 0x202f
    ||| n == 0x205f
    ||| n == 0x3000
}

pub fn is_whitespace(c: char) -> (b: bool)
    ensures
        b == is_whitespace_spec(c),
{
    let n = c as u32;
    (0x9 <= n && n <= 0xd) || n == 0x20 || n == 0x85 || n == 0xa0 || n == 0x1680 || (0x2000 <= n
        && n <= 0x200a) || n == 0x2028 || n == 0x2029 || n == 0x202f || n == 0x205f || n == 0x3000
}

/// Reading `s` from the left: the words completed so far, and the word being
/// read when `s` ends (empty after whitespace).
pub open spec fn scan_words(s: Seq<char>) -> (Seq<Seq<char>>, Seq<char>)
    decreases s.len(),
{
    if s.len() == 0 {
        (seq![], seq![])
    } else {
        let prev = scan_words(s.drop_last());
        let c = s.last();
        if is_whitespace_spec(c) {
            (if prev.1.len() > 0 {
                prev.0.push(prev.1)
            } else {
                prev.0
            }, seq![])
        } else {
            (prev.0, prev.1.push(c))
        }
    }
}

/// The words of `s`: its maximal runs of characters that are not whitespace,
/// in order.
pub open spec fn words(s: Seq<char>) -> Seq<Seq<char>> {
    let r = scan_words(s);
    if r.1.len() > 0 {
        r.0.push(r.1)
    } else {
        r.0
    }
}

/// Words joined by single spaces.
pub open spec fn join_words(g: Seq<Seq<char>>) -> Seq<char>
    decreases g.len(),
{
    if g.len() == 0 {
        seq![]
    } else if g.len() == 1 {
        g[0]
    } else {
        join_words(g.drop_last()) + seq![' '] + g.last()
    }
}

/// The words of each line when `ws` are laid out greedily in lines of
/// `width` characters: a word goes on the current line, after a space, if the
/// line stays within `width`; else it starts a new line.
pub open spec fn line_groups(ws: Seq<Seq<char>>, width: nat) -> Seq<Seq<Seq<char>>>
    decreases ws.len(),
{
    if ws.len() == 0 {
        seq![]
    } else {
        let gs = line_groups(ws.drop_last(), width);
        let w = ws.last();
        if gs.len() > 0 && join_words(gs.last()).len() + 1 + w.len() <= width {
            gs.update(gs.len() - 1, gs.last().push(w))
        } else {
            gs.push(seq![w])
        }
    }
}

/// The lines into which `text` wraps at `width`: its words laid out greedily,
/// each line its words joined by single spaces; a text without words gives
/// one empty line.
pub open spec fn wrap_spec(text: Seq<char>, width: nat) -> Seq<Seq<char>> {
    let gs = line_groups(words(text), width);
    if gs.len() == 0 {
        seq![seq![]]
    } else {
        gs.map_values(|g: Seq<Seq<char>>| join_words(g))
    }
}

/// The contents of a sequence of strings.
pub open spec fn string_views(v: Seq<String>) -> Seq<Seq<char>> {
    v.map_values(|s: String| s@)
}

/// The lines finished so far and the line being filled, for the groups `gs`.
spec fn line_state(lines: Seq<Seq<char>>, current: Seq<char>, gs: Seq<Seq<Seq<char>>>) -> bool {
    if gs.len() == 0 {
        lines.len() == 0 && current.len() == 0
    } else {
        &&& lines == gs.drop_last().map_values(|g: Seq<Seq<char>>| join_words(g))
        &&& current == join_words(gs.last())
        &&& current.len() > 0
    }
}

/// Lays out one more word.
fn add_word(
    lines: &mut Vec<String>,
    current: &mut String,
    word: &String,
    width: usize,
    Ghost(ws): Ghost<Seq<Seq<char>>>,
)
    requires
        word@.len() > 0,
        line_state(string_views(old(lines)@), old(current)@, line_groups(ws, width as nat)),
    ensures
        line_state(
            string_views(final(lines)@),
            final(current)@,
            line_groups(ws.push(word@), width as nat),
        ),
{
    let ghost gs = line_groups(ws, width as nat);
    let ghost w = word@;
    let ghost old_lines = string_views(lines@);
    assert(ws.push(w).drop_last() =~= ws);
    let ghost gs2 = line_groups(ws.push(w), width as nat);
    let wl = word.as_str().unicode_len();
    let cl = current.as_str().unicode_len();
    // the word does not fit after the current line's words and a space
    let start_new = cl > 0 && (cl >= width || wl > width - cl - 1);
    if start_new {
        assert(gs2 == gs.push(seq![w]));
        lines.push(current.clone());
        *current = String::new();
        current.append(word.as_str());
        assert(gs.push(seq![w]).drop_last() =~= gs);
        assert(string_views(lines@) =~= old_lines.push(join_words(gs.last())));
        assert(gs.map_values(|g: Seq<Seq<char>>| join_words(g)) =~= gs.drop_last().map_values(
            |g: Seq<Seq<char>>| join_words(g),
        ).push(join_words(gs.last())));
        assert(current@ =~= join_words(seq![w]));
        assert(string_views(lines@) == gs2.drop_last().map_values(|g: Seq<Seq<char>>| join_words(g)));
        assert(current@ == join_words(gs2.last()));
    } else if cl > 0 {
        let ghost last = gs.last();
        assert(gs2 == gs.update(gs.len() - 1, last.push(w)));
        push_char(current, ' ');
        current.append(word.as_str());
        assert(last.len() > 0);
        assert(last.push(w).drop_last() =~= last);
        assert(current@ =~= join_words(last.push(w)));
        assert(gs2.drop_last() =~= gs.drop_last());
        assert(string_views(lines@) =~= old_lines);
        assert(gs2.last() == last.push(w));
        assert(string_views(lines@) == gs2.drop_last().map_values(|g: Seq<Seq<char>>| join_words(g)));
    } else {
        assert(gs.len() == 0);
        assert(gs2 == seq![seq![w]]);
        current.append(word.as_str());
        assert(current@ =~= w);
        assert(string_views(lines@) =~= old_lines);
        assert(gs2.drop_last() =~= seq![]);
        assert(string_views(lines@) =~= gs2.drop_last().map_values(|g: Seq<Seq<char>>| join_words(g)));
    }
}

/// Splits `text` into lines at most `width` characters long, breaking only
/// between words: a word longer than `width` stands alone on its line.
/// Runs of whitespace become single spaces; text without words gives one
/// empty line.
pub fn wrap_text(text: &str, width: usize) -> (lines: Vec<String>)
    ensures
        string_views(lines@) == wrap_spec(text@, width as nat),
{
    let mut lines: Vec<String> = Vec::new();
    let mut current = String::new();
    let mut word = String::new();
    let ghost mut ws: Seq<Seq<char>> = seq![];
    assert(string_views(lines@) =~= seq![]);
    assert(text@.take(0) =~= seq![]);
    for c in it: text.chars()
        invariant
            it.seq() == text@,
            scan_words(text@.take(it.index() as int)) == (ws, word@),
            line_state(string_views(lines@), current@, line_groups(ws, width as nat)),
    {
        assert(text@.take(it.index() + 1).drop_last() =~= text@.take(it.index() as int));
        assert(text@.take(it.index() + 1).last() == c);
        if is_whitespace(c) {
            if word.as_str().unicode_len() > 0 {
                add_word(&mut lines, &mut current, &word, width, Ghost(ws));
                proof {
                    ws = ws.push(word@);
                }
            }
            word = String::new();
        } else {
            push_char(&mut word, c);
        }
    }
    assert(text@.take(text@.len() as int) =~= text@);
    if word.as_str().unicode_len() > 0 {
        add_word(&mut lines, &mut current, &word, width, Ghost(ws));
        proof {
            ws = ws.push(word@);
        }
    }
    assert(ws == words(text@));
    let ghost gs = line_groups(ws, width as nat);
    if current.as_str().unicode_len() > 0 {
        lines.push(current);
        assert(gs.map_values(|g: Seq<Seq<char>>| join_words(g)) =~= gs.drop_last().map_values(
            |g: Seq<Seq<char>>| join_words(g),
        ).push(join_words(gs.last())));
    }
    if lines.len() == 0 {
        lines.push(String::new());
    }
    assert(string_views(lines@) =~= wrap_spec(text@, width as nat));
    lines
}

/// Every word is non-empty and holds no whitespace.
pub proof fn lemma_words_are_words(s: Seq<char>)
    ensures
        forall|i: int|
            0 <= i < words(s).len() ==> (#[trigger] words(s)[i]).len() > 0 && forall|j: int|
                0 <= j < words(s)[i].len() ==> !is_whitespace_spec(words(s)[i][j]),
    decreases s.len(),
{
    lemma_scan_words(s);
}

proof fn lemma_scan_words(s: Seq<char>)
    ensures
        forall|i: int|
            0 <= i < scan_words(s).0.len() ==> (#[trigger] scan_words(s).0[i]).len() > 0
                && forall|j: int|
                0 <= j < scan_words(s).0[i].len() ==> !is_whitespace_spec(scan_words(s).0[i][j]),
        forall|j: int| 0 <= j < scan_words(s).1.len() ==> !is_whitespace_spec(scan_words(s).1[j]),
        forall|i: int|
            0 <= i < words(s).len() ==> (#[trigger] words(s)[i]).len() > 0 && forall|j: int|
                0 <= j < words(s)[i].len() ==> !is_whitespace_spec(words(s)[i][j]),
    decreases s.len(),
{
    if s.len() > 0 {
        lemma_scan_words(s.drop_last());
        let prev = scan_words(s.drop_last());
        let r = scan_words(s);
        let c = s.last();
        if is_whitespace_spec(c) {
            assert forall|i: int| 0 <= i < r.0.len() implies (#[trigger] r.0[i]).len() > 0
                && forall|j: int| 0 <= j < r.0[i].len() ==> !is_whitespace_spec(r.0[i][j]) by {
                if i < prev.0.len() {
                    assert(r.0[i] == prev.0[i]);
                } else {
                    assert(r.0[i] == prev.1);
                }
            }
        } else {
            assert forall|j: int| 0 <= j < r.1.len() implies !is_whitespace_spec(r.1[j]) by {
                if j < prev.1.len() {
                    assert(r.1[j] == prev.1[j]);
                }
            }
        }
    }
}

/// Laying out words in lines keeps every word, in order, and gives no empty
/// line: the words of the lines, one line after the other, are `ws`.
pub proof fn lemma_line_groups_keep_words(ws: Seq<Seq<char>>, width: nat)
    ensures
        line_groups(ws, width).flatten_alt() == ws,
        forall|i: int|
            0 <= i < line_groups(ws, width).len() ==> (#[trigger] line_groups(ws, width)[i]).len()
                >= 1,
        forall|i: int, j: int|
            0 <= i < line_groups(ws, width).len() && 0 <= j < line_groups(ws, width)[i].len()
                ==> ws.contains(#[trigger] line_groups(ws, width)[i][j]),
    decreases ws.len(),
{
    if ws.len() > 0 {
        let prev = ws.drop_last();
        let gs = line_groups(prev, width);
        let w = ws.last();
        lemma_line_groups_keep_words(prev, width);
        let gs2 = line_groups(ws, width);
        if gs.len() > 0 && join_words(gs.last()).len() + 1 + w.len() <= width {
            assert(gs2.drop_last() =~= gs.drop_last());
            assert(gs.drop_last().flatten_alt() + gs.last() == gs.flatten_alt());
            assert(gs2.flatten_alt() == gs.drop_last().flatten_alt() + gs.last().push(w));
            assert(gs.drop_last().flatten_alt() + gs.last().push(w) =~= (gs.drop_last().flatten_alt()
                + gs.last()).push(w));
            assert(prev.push(w) =~= ws);
            assert(gs2.flatten_alt() =~= ws);
        } else {
            assert(gs2.drop_last() =~= gs);
            assert(gs2.last() == seq![w]);
            assert(gs2.flatten_alt() == gs.flatten_alt() + seq![w]);
            assert(prev.push(w) =~= ws);
            assert(gs2.flatten_alt() =~= ws);
        }
        assert forall|i: int, j: int|
            0 <= i < gs2.len() && 0 <= j < gs2[i].len() implies ws.contains(
            #[trigger] gs2[i][j],
        ) by {
            if i < gs.len() && j < gs[i].len() {
                assert(prev.contains(gs[i][j]));
                let k = choose|k: int| 0 <= k < prev.len() && prev[k] == gs[i][j];
                assert(ws[k] == prev[k]);
            } else {
                assert(gs2[i][j] == w);
                assert(ws[ws.len() - 1] == w);
            }
        }
    }
}

/// Joining a non-empty group with one more word adds a space and the word.
proof fn lemma_join_push(g: Seq<Seq<char>>, w: Seq<char>)
    requires
        g.len() >= 1,
    ensures
        join_words(g.push(w)) == join_words(g) + seq![' '] + w,
{
    assert(g.push(w).drop_last() =~= g);
}

/// Every line fits in `width`, except a line made of one word longer than
/// `width`.
pub proof fn lemma_line_groups_fit(ws: Seq<Seq<char>>, width: nat)
    ensures
        forall|i: int|
            0 <= i < line_groups(ws, width).len() ==> join_words(
                #[trigger] line_groups(ws, width)[i],
            ).len() <= width || line_groups(ws, width)[i].len() == 1,
    decreases ws.len(),
{
    if ws.len() > 0 {
        let prev = ws.drop_last();
        let gs = line_groups(prev, width);
        let w = ws.last();
        lemma_line_groups_fit(prev, width);
        lemma_line_groups_keep_words(prev, width);
        let gs2 = line_groups(ws, width);
        if gs.len() > 0 && join_words(gs.last()).len() + 1 + w.len() <= width {
            lemma_join_push(gs.last(), w);
            assert(gs2[gs2.len() - 1] == gs.last().push(w));
        }
    }
}

/// The layout is greedy: the first word of each line would not have fit at
/// the end of the line before it.
pub proof fn lemma_line_groups_greedy(ws: Seq<Seq<char>>, width: nat)
    ensures
        forall|i: int|
            0 <= i < line_groups(ws, width).len() - 1 ==> join_words(
                #[trigger] line_groups(ws, width)[i],
            ).len() + 1 + line_groups(ws, width)[i + 1][0].len() > width,
    decreases ws.len(),
{
    if ws.len() > 0 {
        let prev = ws.drop_last();
        let gs = line_groups(prev, width);
        let w = ws.last();
        lemma_line_groups_greedy(prev, width);
        lemma_line_groups_keep_words(prev, width);
        let gs2 = line_groups(ws, width);
        if gs.len() > 0 && join_words(gs.last()).len() + 1 + w.len() <= width {
            assert forall|i: int| 0 <= i < gs2.len() - 1 implies join_words(#[trigger] gs2[i]).len()
                + 1 + gs2[i + 1][0].len() > width by {
                assert(gs2[i] == gs[i]);
                assert(gs2[i + 1][0] == gs[i + 1][0]);
            }
        } else {
            assert forall|i: int| 0 <= i < gs2.len() - 1 implies join_words(#[trigger] gs2[i]).len()
                + 1 + gs2[i + 1][0].len() > width by {
                assert(gs2[i] == gs[i]);
                if i + 1 < gs.len() {
                    assert(gs2[i + 1] == gs[i + 1]);
                }
            }
        }
    }
}

/// What `wrap_text` promises of every text and width: there is at least one
/// line; the words of the lines, in order, are the words of the text, each
/// line being its words joined by single spaces; a line is empty only when
/// the text has no words; a line longer than `width` is a single word of the
/// text; and a line ends early only when the next word would not have fit.
pub proof fn lemma_wrap_laws(text: Seq<char>, width: nat)
    ensures
        wrap_spec(text, width).len() >= 1,
        words(text).len() > 0 ==> wrap_spec(text, width) == line_groups(
            words(text),
            width,
        ).map_values(|g: Seq<Seq<char>>| join_words(g)),
        line_groups(words(text), width).flatten_alt() == words(text),
        words(text).len() == 0 ==> wrap_spec(text, width) == seq![Seq::<char>::empty()],
        forall|i: int|
            0 <= i < wrap_spec(text, width).len() ==> (#[trigger] wrap_spec(text, width)[i]).len()
                <= width || words(text).contains(wrap_spec(text, width)[i]),
        forall|i: int|
            0 <= i < wrap_spec(text, width).len() ==> ((#[trigger] wrap_spec(text, width)[i]).len()
                > 0 <==> words(text).len() > 0),
        forall|i: int|
            0 <= i < wrap_spec(text, width).len() - 1 ==> (#[trigger] wrap_spec(text, width)[i]).len()
                + 1 + line_groups(words(text), width)[i + 1][0].len() > width,
{
    let ws = words(text);
    let gs = line_groups(ws, width);
    lemma_line_groups_keep_words(ws, width);
    lemma_line_groups_fit(ws, width);
    lemma_line_groups_greedy(ws, width);
    lemma_words_are_words(text);
    if ws.len() == 0 {
        assert(gs.len() == 0);
    } else {
        assert(gs.len() > 0) by {
            if gs.len() == 0 {
                assert(gs.flatten_alt() =~= seq![]);
            }
        }
        assert forall|i: int| 0 <= i < gs.len() implies join_words(#[trigger] gs[i]).len() > 0 by {
            lemma_join_nonempty(gs[i], ws);
        }
        assert forall|i: int|
            0 <= i < gs.len() && join_words(gs[i]).len() > width implies ws.contains(
            #[trigger] join_words(gs[i]),
        ) by {
            assert(gs[i].len() == 1);
            assert(ws.contains(gs[i][0]));
        }
    }
}

/// A group of non-empty words joins to non-empty text.
proof fn lemma_join_nonempty(g: Seq<Seq<char>>, ws: Seq<Seq<char>>)
    requires
        g.len() >= 1,
        forall|j: int| 0 <= j < g.len() ==> ws.contains(#[trigger] g[j]),
        forall|i: int| 0 <= i < ws.len() ==> (#[trigger] ws[i]).len() > 0,
    ensures
        join_words(g).len() > 0,
{
    if g.len() == 1 {
        assert(ws.contains(g[0]));
    }
}

/// The character of a decimal digit.
pub open spec fn digit_char(d: nat) -> char {
    ((48 + d) as u8) as char
}

/// Decimal notation of `n`, without leading zeros.
pub open spec fn decimal(n: nat) -> Seq<char>
    decreases n,
{
    if n < 10 {
        seq![digit_char(n)]
    } else {
        decimal(n / 10).push(digit_char(n % 10))
    }
}

/// Appends the decimal notation of `n`.
pub fn push_decimal(s: &mut String, n: u64)
    ensures
        final(s)@ == old(s)@ + decimal(n as nat),
    decreases n,
{
    if n >= 10 {
        push_decimal(s, n / 10);
    }
    let d = (n % 10) as u8;
    push_char(s, (48u8 + d) as char);
    assert(s@ =~= old(s)@ + decimal(n as nat));
}

/// Appending characters that are not whitespace extends the word being read.
proof fn lemma_scan_append_word(s: Seq<char>, w: Seq<char>)
    requires
        forall|j: int| 0 <= j < w.len() ==> !is_whitespace_spec(w[j]),
    ensures
        scan_words(s + w) == (scan_words(s).0, scan_words(s).1 + w),
    decreases w.len(),
{
    if w.len() == 0 {
        assert(s + w =~= s);
        assert(scan_words(s).1 + w =~= scan_words(s).1);
    } else {
        let w1 = w.drop_last();
        lemma_scan_append_word(s, w1);
        assert((s + w).drop_last() =~= s + w1);
        assert((s + w).last() == w.last());
        assert((scan_words(s).1 + w1).push(w.last()) =~= scan_words(s).1 + w);
    }
}

/// The words of words joined by single spaces are those words again.
pub proof fn lemma_words_of_joined(ws: Seq<Seq<char>>)
    requires
        forall|i: int|
            0 <= i < ws.len() ==> (#[trigger] ws[i]).len() > 0 && forall|j: int|
                0 <= j < ws[i].len() ==> !is_whitespace_spec(ws[i][j]),
    ensures
        words(join_words(ws)) == ws,
    decreases ws.len(),
{
    if ws.len() == 0 {
        assert(words(join_words(ws)) =~= ws);
    } else if ws.len() == 1 {
        let w = ws[0];
        lemma_scan_append_word(seq![], w);
        assert(Seq::<char>::empty() + w =~= w);
        assert(words(w) =~= seq![w]);
        assert(ws =~= seq![w]);
    } else {
        let prev = ws.drop_last();
        let w = ws.last();
        lemma_words_of_joined(prev);
        let a = join_words(prev) + seq![' '];
        assert(a.drop_last() =~= join_words(prev));
        assert(is_whitespace_spec(a.last()));
        assert(scan_words(a) == (words(join_words(prev)), Seq::<char>::empty()));
        lemma_scan_append_word(a, w);
        assert(Seq::<char>::empty() + w =~= w);
        assert(join_words(ws) == a + w);
        assert(prev.push(w) =~= ws);
    }
}

/// Wrapping depends on the words of the text alone: any text with the same
/// words, whatever whitespace stands between them, wraps to the same lines;
/// in particular the words joined by single spaces do.
pub proof fn lemma_wrap_depends_on_words_only(t1: Seq<char>, t2: Seq<char>, width: nat)
    ensures
        words(join_words(words(t1))) == words(t1),
        wrap_spec(t1, width) == wrap_spec(join_words(words(t1)), width),
        words(t1) == words(t2) ==> wrap_spec(t1, width) == wrap_spec(t2, width),
{
    lemma_words_are_words(t1);
    lemma_words_of_joined(words(t1));
}

/// Comparing the layouts of the same words at two widths: the wider one has
/// fewer lines, or as many with a last line no longer.
proof fn lemma_line_groups_compare(ws: Seq<Seq<char>>, w1: nat, w2: nat)
    requires
        w1 <= w2,
    ensures
        line_groups(ws, w2).len() < line_groups(ws, w1).len() || (line_groups(ws, w2).len()
            == line_groups(ws, w1).len() && (line_groups(ws, w1).len() == 0 || join_words(
            line_groups(ws, w2).last(),
        ).len() <= join_words(line_groups(ws, w1).last()).len())),
    decreases ws.len(),
{
    if ws.len() > 0 {
        let prev = ws.drop_last();
        let a = ws.last();
        lemma_line_groups_compare(prev, w1, w2);
        lemma_line_groups_keep_words(prev, w1);
        lemma_line_groups_keep_words(prev, w2);
        let p1 = line_groups(prev, w1);
        let p2 = line_groups(prev, w2);
        let g1 = line_groups(ws, w1);
        let g2 = line_groups(ws, w2);
        if p1.len() > 0 {
            lemma_join_push(p1.last(), a);
        }
        if p2.len() > 0 {
            lemma_join_push(p2.last(), a);
        }
        if p1.len() > 0 && join_words(p1.last()).len() + 1 + a.len() <= w1 {
            assert(g1.last() == p1.last().push(a));
        } else {
            assert(g1.last() == seq![a]);
        }
        if p2.len() > 0 && join_words(p2.last()).len() + 1 + a.len() <= w2 {
            assert(g2.last() == p2.last().push(a));
        } else {
            assert(g2.last() == seq![a]);
        }
    }
}

/// A wider line never needs more lines.
pub proof fn lemma_wider_needs_no_more_lines(text: Seq<char>, w1: nat, w2: nat)
    requires
        w1 <= w2,
    ensures
        wrap_spec(text, w2).len() <= wrap_spec(text, w1).len(),
{
    let ws = words(text);
    lemma_line_groups_compare(ws, w1, w2);
    lemma_line_groups_keep_words(ws, w1);
    lemma_line_groups_keep_words(ws, w2);
    if line_groups(ws, w1).len() == 0 {
        assert(line_groups(ws, w1).flatten_alt() =~= seq![]);
    }
}

} // verus!

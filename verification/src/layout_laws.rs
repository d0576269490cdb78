//! What the lexer makes of a text: blanks and comments, line breaks, indentation
//! and lexemes.

use crate::lexer::{
    char_at, comment_end, digits, exponent_digits, gap, is_eof, is_exponent_mark, lemma_comment_end,
    lemma_gap, lemma_lexeme_at, lemma_next_advances, lemma_number_shape, lemma_run_end, lex_from,
    lex_model, lex_start, lexeme_at, name_chars, next_model, not_line_break, number_shape, run_end,
    spaced_digits, span_at, word_end, Gap, LexErrorView, LexState, TokenKind, TokenKindView,
    TokenView,
};
use crate::text::{decimal, signed_decimal, unicode_alphabetic, unicode_alphanumeric};
use vstd::prelude::*;

verus! {

// ---------------------------------------------------------------------------
// Indentation
// ---------------------------------------------------------------------------

/// Whether a line starts at a position.
pub open spec fn starts_line(s: Seq<char>, k: int) -> bool {
    0 <= k <= s.len() && (k == 0 || s[k - 1] == '\n')
}

/// A text into which characters are put one after the other, each at its
/// position.
pub open spec fn indented(s: Seq<char>, inserts: Seq<(int, char)>) -> Seq<char>
    decreases inserts.len(),
{
    if inserts.len() == 0 {
        s
    } else {
        let (k, c) = inserts.last();
        indented(s, inserts.drop_last()).insert(k, c)
    }
}

/// Whether all that is put into a text are spaces and tabs, each at the start
/// of a line.
pub open spec fn is_indentation(s: Seq<char>, inserts: Seq<(int, char)>) -> bool
    decreases inserts.len(),
{
    if inserts.len() == 0 {
        true
    } else {
        let (k, c) = inserts.last();
        &&& is_indentation(s, inserts.drop_last())
        &&& starts_line(indented(s, inserts.drop_last()), k)
        &&& c == ' ' || c == '\t'
    }
}

/// The kinds of tokens.
pub open spec fn kinds_of(ts: Seq<TokenView>) -> Seq<TokenKindView> {
    Seq::new(ts.len(), |i: int| ts[i].kind)
}

// ---------------------------------------------------------------------------
// One blank more
// ---------------------------------------------------------------------------

/// Whether `u` is `s` with a blank put in at the start of a line.
spec fn widened(s: Seq<char>, u: Seq<char>, k: int) -> bool {
    &&& starts_line(s, k)
    &&& u.len() == s.len() + 1
    &&& u[k] == ' ' || u[k] == '\t'
    &&& forall|i: int| 0 <= i < k ==> #[trigger] u[i] == s[i]
    &&& forall|i: int| k <= i < s.len() ==> #[trigger] s[i] == u[i + 1]
}

/// Where a position of the text is in the wider one.
spec fn moved(k: int, p: int) -> int {
    if p < k {
        p
    } else {
        p + 1
    }
}

/// Whether two positions stand at the same place. Where the blank was put in,
/// it may be still to come.
spec fn alike(k: int, p: int, q: int) -> bool {
    q == moved(k, p) || (p == k && q == k)
}

proof fn lemma_run_before(
    s: Seq<char>,
    u: Seq<char>,
    k: int,
    p: int,
    class: spec_fn(char) -> bool,
)
    requires
        widened(s, u, k),
        0 <= p < k,
        !class('\n'),
    ensures
        run_end(u, p, class) == run_end(s, p, class),
        p <= run_end(s, p, class) < k,
    decreases k - p,
{
    assert(u[p] == s[p]);
    if class(s[p]) {
        assert(p != k - 1);
        lemma_run_before(s, u, k, p + 1, class);
    }
}

proof fn lemma_run_after(
    s: Seq<char>,
    u: Seq<char>,
    k: int,
    p: int,
    class: spec_fn(char) -> bool,
)
    requires
        widened(s, u, k),
        k <= p,
    ensures
        run_end(u, p + 1, class) == run_end(s, p, class) + 1,
    decreases s.len() - p,
{
    if p < s.len() {
        assert(s[p] == u[p + 1]);
        if class(s[p]) {
            lemma_run_after(s, u, k, p + 1, class);
        }
    }
}

/// The characters from a position on, before the inserted blank.
proof fn lemma_chars_before(s: Seq<char>, u: Seq<char>, k: int, p: int)
    requires
        widened(s, u, k),
        0 <= p < k,
    ensures
        char_at(u, p) == char_at(s, p),
        s[p] != '\n' ==> p + 1 < k && char_at(u, p + 1) == char_at(s, p + 1),
{
    assert(u[p] == s[p]);
    if s[p] != '\n' {
        assert(p != k - 1);
        assert(u[p + 1] == s[p + 1]);
    }
}

/// The characters from a position on, behind the inserted blank.
proof fn lemma_chars_after(s: Seq<char>, u: Seq<char>, k: int, p: int)
    requires
        widened(s, u, k),
        k <= p,
    ensures
        char_at(u, p + 1) == char_at(s, p),
        char_at(u, p + 2) == char_at(s, p + 1),
{
    if p < s.len() {
        assert(s[p] == u[p + 1]);
    }
    if p + 1 < s.len() {
        assert(s[p + 1] == u[p + 2]);
    }
}

proof fn lemma_comment_moved(
    s: Seq<char>,
    u: Seq<char>,
    k: int,
    p: int,
    q: int,
    depth: nat,
)
    requires
        widened(s, u, k),
        0 <= p <= s.len(),
        alike(k, p, q),
    ensures
        match comment_end(s, p, depth) {
            Some(e) => comment_end(u, q, depth) matches Some(f) && alike(k, e, f),
            None => comment_end(u, q, depth) is None,
        },
    decreases u.len() - q,
{
    if depth > 0 {
        if q == k {
            if p == k {
                lemma_comment_moved(s, u, k, p, k + 1, depth);
            }
        } else if p < k {
            lemma_chars_before(s, u, k, p);
            if s[p] == '{' && char_at(s, p + 1) == Some('-') {
                lemma_comment_moved(s, u, k, p + 2, p + 2, depth + 1);
            } else if s[p] == '-' && char_at(s, p + 1) == Some('}') {
                lemma_comment_moved(s, u, k, p + 2, p + 2, (depth - 1) as nat);
            } else {
                lemma_comment_moved(s, u, k, p + 1, p + 1, depth);
            }
        } else if p < s.len() {
            lemma_chars_after(s, u, k, p);
            if s[p] == '{' && char_at(s, p + 1) == Some('-') {
                lemma_comment_moved(s, u, k, p + 2, q + 2, depth + 1);
            } else if s[p] == '-' && char_at(s, p + 1) == Some('}') {
                lemma_comment_moved(s, u, k, p + 2, q + 2, (depth - 1) as nat);
            } else {
                lemma_comment_moved(s, u, k, p + 1, q + 1, depth);
            }
        }
    }
}

spec fn gap_moved(k: int, g: Gap) -> Gap {
    match g {
        Gap::Lexeme(p) => Gap::Lexeme(moved(k, p)),
        Gap::LineBreak(p) => Gap::LineBreak(moved(k, p)),
        Gap::Unclosed(p) => Gap::Unclosed(moved(k, p)),
    }
}

proof fn lemma_gap_moved(s: Seq<char>, u: Seq<char>, k: int, p: int, q: int, breaks: bool)
    requires
        widened(s, u, k),
        0 <= p <= s.len(),
        alike(k, p, q),
    ensures
        gap(u, q, breaks) == gap_moved(k, gap(s, p, breaks)),
        gap(s, p, breaks) matches Gap::Lexeme(x) ==> x < s.len() ==> s[x] != '\n',
    decreases u.len() - q,
{
    if p == k && q == k {
        lemma_gap_moved(s, u, k, p, k + 1, breaks);
    } else if p < s.len() {
        if p < k {
            lemma_chars_before(s, u, k, p);
        } else {
            lemma_chars_after(s, u, k, p);
        }
        assert(u[q] == s[p]);
        if s[p] == ' ' || s[p] == '\t' || s[p] == '\r' {
            lemma_gap_moved(s, u, k, p + 1, q + 1, breaks);
        } else if s[p] == '\n' {
            if !breaks {
                lemma_gap_moved(s, u, k, p + 1, q + 1, breaks);
            }
        } else if s[p] == '-' && char_at(s, p + 1) == Some('-') {
            let class = not_line_break();
            lemma_run_end(s, p + 2, class);
            lemma_run_end(u, q + 2, class);
            if p < k {
                lemma_chars_before(s, u, k, p + 1);
                lemma_run_before(s, u, k, p + 2, class);
            } else {
                lemma_run_after(s, u, k, p + 2, class);
            }
            lemma_gap_moved(s, u, k, run_end(s, p + 2, class), run_end(u, q + 2, class), breaks);
        } else if s[p] == '{' && char_at(s, p + 1) == Some('-') {
            lemma_comment_end(s, p + 2, 1);
            lemma_comment_end(u, q + 2, 1);
            lemma_comment_moved(s, u, k, p + 2, q + 2, 1);
            if let (Some(e), Some(f)) = (comment_end(s, p + 2, 1), comment_end(u, q + 2, 1)) {
                lemma_gap_moved(s, u, k, e, f, breaks);
            }
        }
    }
}

proof fn lemma_number_before(s: Seq<char>, u: Seq<char>, k: int, x: int)
    requires
        widened(s, u, k),
        0 <= x,
        x + 1 < k,
    ensures
        number_shape(u, x) == number_shape(s, x),
        number_shape(s, x).end() < k,
{
    let whole = run_end(s, x + 1, spaced_digits());
    lemma_run_before(s, u, k, x + 1, spaced_digits());
    lemma_chars_before(s, u, k, whole);
    if char_at(s, whole) == Some('.') {
        lemma_run_before(s, u, k, whole + 1, digits());
    }
    let mark = match number_shape(s, x).fraction {
        Some(e) => e,
        None => whole,
    };
    lemma_chars_before(s, u, k, mark);
    if is_exponent_mark(s, mark) {
        lemma_chars_before(s, u, k, mark + 1);
        lemma_run_before(s, u, k, exponent_digits(s, mark), digits());
    }
}

proof fn lemma_number_after(s: Seq<char>, u: Seq<char>, k: int, x: int)
    requires
        widened(s, u, k),
        k <= x < s.len(),
    ensures
        number_shape(u, x + 1).end() == number_shape(s, x).end() + 1,
        number_shape(u, x + 1).is_float() == number_shape(s, x).is_float(),
        number_shape(u, x + 1).is_complete() == number_shape(s, x).is_complete(),
{
    let whole = run_end(s, x + 1, spaced_digits());
    lemma_run_end(s, x + 1, spaced_digits());
    lemma_run_after(s, u, k, x + 1, spaced_digits());
    lemma_chars_after(s, u, k, whole);
    if whole + 1 < s.len() {
        assert(s[whole + 1] == u[whole + 2]);
    }
    lemma_run_end(s, whole + 1, digits());
    lemma_run_after(s, u, k, whole + 1, digits());
    let mark = match number_shape(s, x).fraction {
        Some(e) => e,
        None => whole,
    };
    lemma_chars_after(s, u, k, mark);
    if is_exponent_mark(s, mark) {
        lemma_run_after(s, u, k, exponent_digits(s, mark), digits());
    }
}

proof fn lemma_lexeme_moved(s: Seq<char>, u: Seq<char>, k: int, x: int)
    requires
        widened(s, u, k),
        0 <= x < s.len(),
        s[x] != '\n',
    ensures
        lexeme_at(s, x) matches Ok((kind, end)) ==> {
            &&& lexeme_at(u, moved(k, x)) matches Ok((same, there))
            &&& same == kind
            &&& alike(k, end, there)
        },
{
    let y = moved(k, x);
    lemma_lexeme_at(s, x);
    lemma_number_shape(s, x);
    lemma_run_end(s, x + 1, name_chars());
    if x < k {
        lemma_chars_before(s, u, k, x);
        lemma_number_before(s, u, k, x);
        lemma_run_before(s, u, k, x + 1, name_chars());
        lemma_chars_before(s, u, k, run_end(s, x + 1, name_chars()));
        let n = number_shape(s, x).end();
        assert(u.subrange(x, n) =~= s.subrange(x, n)) by {
            assert forall|i: int| x <= i < n implies #[trigger] u[i] == s[i] by {}
        }
        let w = word_end(s, x);
        assert(w <= k);
        assert(u.subrange(x, w) =~= s.subrange(x, w)) by {
            assert forall|i: int| x <= i < w implies #[trigger] u[i] == s[i] by {}
        }
    } else {
        lemma_chars_after(s, u, k, x);
        lemma_number_after(s, u, k, x);
        lemma_run_after(s, u, k, x + 1, name_chars());
        lemma_chars_after(s, u, k, run_end(s, x + 1, name_chars()));
        let n = number_shape(s, x).end();
        assert(u.subrange(y, n + 1) =~= s.subrange(x, n)) by {
            assert forall|i: int| x <= i < n implies #[trigger] s[i] == u[i + 1] by {}
        }
        let w = word_end(s, x);
        assert(u.subrange(y, w + 1) =~= s.subrange(x, w)) by {
            assert forall|i: int| x <= i < w implies #[trigger] s[i] == u[i + 1] by {}
        }
    }
    assert(u[y] == s[x]);
    assert(char_at(u, y + 1) == char_at(s, x + 1));
}

proof fn lemma_next_moved(s: Seq<char>, u: Seq<char>, k: int, st: LexState, su: LexState)
    requires
        widened(s, u, k),
        0 <= st.pos <= s.len(),
        alike(k, st.pos, su.pos),
        st.depth == su.depth,
        st.continuation == su.continuation,
    ensures
        next_model(s, st) matches Ok((t, next)) ==> {
            &&& next_model(u, su) matches Ok((v, then))
            &&& v.kind == t.kind
            &&& alike(k, next.pos, then.pos)
            &&& next.depth == then.depth
            &&& next.continuation == then.continuation
        },
{
    let breaks = st.depth == 0 && !st.continuation;
    lemma_gap(s, st.pos, breaks);
    lemma_gap_moved(s, u, k, st.pos, su.pos, breaks);
    if let Gap::Lexeme(x) = gap(s, st.pos, breaks) {
        if x < s.len() {
            lemma_lexeme_moved(s, u, k, x);
        }
    }
}

proof fn lemma_lex_moved(s: Seq<char>, u: Seq<char>, k: int, st: LexState, su: LexState)
    requires
        widened(s, u, k),
        0 <= st.pos <= s.len(),
        alike(k, st.pos, su.pos),
        st.depth == su.depth,
        st.continuation == su.continuation,
    ensures
        lex_from(s, st) matches Ok(ts) ==> {
            &&& lex_from(u, su) matches Ok(us)
            &&& kinds_of(us) == kinds_of(ts)
        },
    decreases s.len() - st.pos,
{
    lemma_next_advances(s, st);
    lemma_next_advances(u, su);
    lemma_next_moved(s, u, k, st, su);
    if let (Ok((t, next)), Ok((v, then))) = (next_model(s, st), next_model(u, su)) {
        if is_eof(t) {
            assert(lex_from(s, st) == Ok::<Seq<TokenView>, LexErrorView>(seq![t]));
            assert(lex_from(u, su) == Ok::<Seq<TokenView>, LexErrorView>(seq![v]));
            assert(kinds_of(seq![v]) =~= kinds_of(seq![t]));
        } else {
            lemma_lex_moved(s, u, k, next, then);
            if let (Ok(rest), Ok(more)) = (lex_from(s, next), lex_from(u, then)) {
                let ts = seq![t] + rest;
                let us = seq![v] + more;
                assert(kinds_of(us) =~= kinds_of(ts)) by {
                    assert(kinds_of(more).len() == kinds_of(rest).len());
                    assert forall|i: int| 0 <= i < ts.len() implies kinds_of(us)[i] == kinds_of(
                        ts,
                    )[i] by {
                        if i > 0 {
                            assert(kinds_of(more)[i - 1] == kinds_of(rest)[i - 1]);
                        }
                    }
                }
            }
        }
    }
}

/// Indentation has no meaning: spaces and tabs at the start of lines, however
/// many, leave the tokens of a text what they are, and only move them.
pub proof fn law_indentation_has_no_meaning(s: Seq<char>, inserts: Seq<(int, char)>)
    requires
        is_indentation(s, inserts),
    ensures
        lex_model(s) matches Ok(ts) ==> {
            &&& lex_model(indented(s, inserts)) matches Ok(us)
            &&& kinds_of(us) == kinds_of(ts)
        },
    decreases inserts.len(),
{
    if inserts.len() > 0 {
        law_indentation_has_no_meaning(s, inserts.drop_last());
        let before = indented(s, inserts.drop_last());
        let (k, c) = inserts.last();
        let after = before.insert(k, c);
        assert(widened(before, after, k));
        lemma_lex_moved(before, after, k, lex_start(), lex_start());
    }
}

// ---------------------------------------------------------------------------
// Blanks and comments
// ---------------------------------------------------------------------------

/// Where reading stands: a position, and whether a line break there counts.
pub open spec fn reading(pos: int, depth: int, continuation: bool) -> LexState {
    LexState { pos, depth, continuation }
}

/// The tokens of a text are read from its start, at bracket depth zero, where a
/// line break does not count.
pub proof fn law_reading_starts_at_the_start(s: Seq<char>)
    ensures
        lex_model(s) == lex_from(s, reading(0, 0, true)),
{
}

/// Spaces, tabs and carriage returns are skipped, and so is a line break inside
/// brackets or behind a token that asks for more.
pub proof fn law_blanks_are_skipped(s: Seq<char>, pos: int, depth: int, continuation: bool)
    requires
        0 <= pos < s.len(),
        s[pos] == ' ' || s[pos] == '\t' || s[pos] == '\r' || (s[pos] == '\n' && (depth != 0
            || continuation)),
    ensures
        lex_from(s, reading(pos, depth, continuation)) == lex_from(
            s,
            reading(pos + 1, depth, continuation),
        ),
{
    let st = reading(pos, depth, continuation);
    let next = reading(pos + 1, depth, continuation);
    assert(gap(s, pos, depth == 0 && !continuation) == gap(
        s,
        pos + 1,
        depth == 0 && !continuation,
    ));
    assert(next_model(s, st) == next_model(s, next));
}

/// Any other line break is a token, behind which the next does not count.
pub proof fn law_line_breaks_count(s: Seq<char>, pos: int)
    requires
        0 <= pos < s.len(),
        s[pos] == '\n',
    ensures
        match lex_from(s, reading(pos + 1, 0, true)) {
            Err(e) => lex_from(s, reading(pos, 0, false)) == Err::<Seq<TokenView>, LexErrorView>(e),
            Ok(rest) => lex_from(s, reading(pos, 0, false)) == Ok::<Seq<TokenView>, LexErrorView>(
                seq![
                    TokenView {
                        kind: TokenKindView::Plain(TokenKind::Newline),
                        span: span_at(s, pos),
                    },
                ] + rest,
            ),
        },
{
}

proof fn lemma_run_to(s: Seq<char>, pos: int, end: int, class: spec_fn(char) -> bool)
    requires
        0 <= pos <= end <= s.len(),
        forall|k: int| pos <= k < end ==> class(#[trigger] s[k]),
        end < s.len() ==> !class(s[end]),
    ensures
        run_end(s, pos, class) == end,
    decreases end - pos,
{
    if pos < end {
        assert(class(s[pos]));
        lemma_run_to(s, pos + 1, end, class);
    }
}

/// What follows `--` is skipped up to the end of the line.
pub proof fn law_line_comments_are_skipped(
    s: Seq<char>,
    pos: int,
    end: int,
    depth: int,
    continuation: bool,
)
    requires
        0 <= pos,
        pos + 2 <= end <= s.len(),
        s[pos] == '-',
        s[pos + 1] == '-',
        forall|k: int| pos <= k < end ==> #[trigger] s[k] != '\n',
        end < s.len() ==> s[end] == '\n',
    ensures
        lex_from(s, reading(pos, depth, continuation)) == lex_from(
            s,
            reading(end, depth, continuation),
        ),
{
    let st = reading(pos, depth, continuation);
    let next = reading(end, depth, continuation);
    lemma_run_to(s, pos + 2, end, not_line_break());
    assert(char_at(s, pos + 1) == Some('-'));
    assert(next_model(s, st) == next_model(s, next));
}

/// What stands between `{-` and `-}` is skipped, where neither stands in it.
pub proof fn law_block_comments_are_skipped(
    s: Seq<char>,
    pos: int,
    end: int,
    depth: int,
    continuation: bool,
)
    requires
        0 <= pos,
        pos + 4 <= end <= s.len(),
        s[pos] == '{',
        s[pos + 1] == '-',
        s[end - 2] == '-',
        s[end - 1] == '}',
        forall|k: int|
            pos + 2 <= k < end - 2 ==> !(#[trigger] s[k] == '{' && s[k + 1] == '-') && !(s[k] == '-'
                && s[k + 1] == '}'),
    ensures
        lex_from(s, reading(pos, depth, continuation)) == lex_from(
            s,
            reading(end, depth, continuation),
        ),
{
    let st = reading(pos, depth, continuation);
    let next = reading(end, depth, continuation);
    lemma_comment_to(s, pos + 2, end, 1);
    assert(char_at(s, pos + 1) == Some('-'));
    assert(comment_end(s, end, 0) == Some(end));
    assert(gap(s, pos, depth == 0 && !continuation) == gap(
        s,
        end,
        depth == 0 && !continuation,
    ));
    assert(next_model(s, st) == next_model(s, next));
}

proof fn lemma_comment_to(s: Seq<char>, pos: int, end: int, depth: nat)
    requires
        0 <= pos,
        pos + 2 <= end <= s.len(),
        depth > 0,
        s[end - 2] == '-',
        s[end - 1] == '}',
        forall|k: int|
            pos <= k < end - 2 ==> !(#[trigger] s[k] == '{' && s[k + 1] == '-') && !(s[k] == '-'
                && s[k + 1] == '}'),
    ensures
        comment_end(s, pos, depth) == comment_end(s, end, (depth - 1) as nat),
    decreases end - pos,
{
    if pos < end - 2 {
        assert(char_at(s, pos + 1) == Some(s[pos + 1]));
        assert(!(s[pos] == '{' && s[pos + 1] == '-'));
        lemma_comment_to(s, pos + 1, end, depth);
    } else {
        assert(char_at(s, pos + 1) == Some('}'));
    }
}

/// A block comment that is not closed is an error at its place.
pub proof fn law_block_comments_have_to_close(
    s: Seq<char>,
    pos: int,
    depth: int,
    continuation: bool,
)
    requires
        0 <= pos,
        pos + 2 <= s.len(),
        s[pos] == '{',
        s[pos + 1] == '-',
        forall|k: int|
            pos + 2 <= k && k + 1 < s.len() ==> !(#[trigger] s[k] == '-' && s[k + 1] == '}'),
    ensures
        lex_from(s, reading(pos, depth, continuation)) == Err::<Seq<TokenView>, LexErrorView>(
            LexErrorView::UnterminatedBlockComment {
                line: span_at(s, pos).line,
                col: span_at(s, pos).col,
            },
        ),
{
    lemma_comment_open(s, pos + 2, 1);
    assert(char_at(s, pos + 1) == Some('-'));
}

proof fn lemma_comment_open(s: Seq<char>, pos: int, depth: nat)
    requires
        0 <= pos,
        depth > 0,
        forall|k: int| pos <= k && k + 1 < s.len() ==> !(#[trigger] s[k] == '-' && s[k + 1] == '}'),
    ensures
        comment_end(s, pos, depth) is None,
    decreases s.len() - pos,
{
    if pos < s.len() {
        if pos + 1 < s.len() {
            assert(!(s[pos] == '-' && s[pos + 1] == '}'));
        }
        if s[pos] == '{' && char_at(s, pos + 1) == Some('-') {
            lemma_comment_open(s, pos + 2, depth + 1);
        } else {
            lemma_comment_open(s, pos + 1, depth);
        }
    }
}

/// Block comments nest: a comment inside another ends before the other goes on.
pub proof fn law_block_comments_nest(s: Seq<char>, pos: int, depth: nat, inner: nat)
    requires
        0 <= pos,
    ensures
        match comment_end(s, pos, inner) {
            Some(e) => comment_end(s, pos, depth + inner) == comment_end(s, e, depth),
            None => depth > 0 || inner > 0 ==> comment_end(s, pos, depth + inner) is None,
        },
        pos + 1 < s.len() && s[pos] == '{' && s[pos + 1] == '-' ==> comment_end(s, pos, depth + 1)
            == comment_end(s, pos + 2, depth + 2),
        pos + 1 < s.len() && s[pos] == '-' && s[pos + 1] == '}' ==> comment_end(s, pos, depth + 1)
            == comment_end(s, pos + 2, depth),
        comment_end(s, pos, 0) == Some(pos),
    decreases s.len() - pos,
{
    if inner > 0 && pos < s.len() {
        if s[pos] == '{' && char_at(s, pos + 1) == Some('-') {
            law_block_comments_nest(s, pos + 2, depth, inner + 1);
        } else if s[pos] == '-' && char_at(s, pos + 1) == Some('}') {
            law_block_comments_nest(s, pos + 2, depth, (inner - 1) as nat);
        } else {
            law_block_comments_nest(s, pos + 1, depth, inner);
        }
    }
}

/// At the end of the text stands the end mark.
pub proof fn law_end_of_text(s: Seq<char>, depth: int, continuation: bool)
    ensures
        lex_from(s, reading(s.len() as int, depth, continuation)) == Ok::<
            Seq<TokenView>,
            LexErrorView,
        >(
            seq![
                TokenView {
                    kind: TokenKindView::Plain(TokenKind::Eof),
                    span: span_at(s, s.len() as int),
                },
            ],
        ),
{
}

// ---------------------------------------------------------------------------
// Lexemes
// ---------------------------------------------------------------------------

/// Whether the expression goes on behind a token: behind everything but a
/// literal, a name and a closing bracket.
pub open spec fn asks_for_more(kind: TokenKindView) -> bool {
    match kind {
        TokenKindView::Float(_) => false,
        TokenKindView::Ident(_) => false,
        TokenKindView::Plain(k) => !(k is Int || k is Bool || k is RParen || k is RBrack),
    }
}

/// By how much a token changes the bracket depth.
pub open spec fn bracket(kind: TokenKindView) -> int {
    if kind == TokenKindView::Plain(TokenKind::LParen) || kind == TokenKindView::Plain(
        TokenKind::LBrack,
    ) {
        1
    } else if kind == TokenKindView::Plain(TokenKind::RParen) || kind == TokenKindView::Plain(
        TokenKind::RBrack,
    ) {
        -1
    } else {
        0
    }
}

/// Whether the token at a position is of a kind and reaches to `end`, and the
/// text is read on behind it.
pub open spec fn token_stands(
    s: Seq<char>,
    pos: int,
    end: int,
    kind: TokenKindView,
    depth: int,
    continuation: bool,
) -> bool {
    let all = lex_from(s, reading(pos, depth, continuation));
    match lex_from(s, reading(end, depth + bracket(kind), asks_for_more(kind))) {
        Err(e) => all == Err::<Seq<TokenView>, LexErrorView>(e),
        Ok(rest) => all == Ok::<Seq<TokenView>, LexErrorView>(
            seq![TokenView { kind, span: span_at(s, pos) }] + rest,
        ),
    }
}

proof fn lemma_token_stands(
    s: Seq<char>,
    pos: int,
    end: int,
    kind: TokenKindView,
    depth: int,
    continuation: bool,
)
    requires
        0 <= pos < s.len(),
        lexeme_at(s, pos) == Ok::<(TokenKindView, int), LexErrorView>((kind, end)),
        !(s[pos] == ' ' || s[pos] == '\t' || s[pos] == '\r' || s[pos] == '\n'),
        !(s[pos] == '-' && char_at(s, pos + 1) == Some('-')),
        !(s[pos] == '{' && char_at(s, pos + 1) == Some('-')),
    ensures
        token_stands(s, pos, end, kind, depth, continuation),
{
    lemma_lexeme_at(s, pos);
    let st = reading(pos, depth, continuation);
    assert(gap(s, pos, depth == 0 && !continuation) == Gap::Lexeme(pos));
    assert(crate::lexer::continues(kind) == asks_for_more(kind));
    assert(crate::lexer::depth_change(kind) == bracket(kind));
}

/// The symbols of one character, and what they are unless the next character
/// makes another symbol of them.
pub proof fn law_symbols_of_one_character(
    s: Seq<char>,
    pos: int,
    kind: TokenKind,
    depth: int,
    continuation: bool,
)
    requires
        0 <= pos < s.len(),
        ({
            let c = s[pos];
            let d = if pos + 1 < s.len() {
                Some(s[pos + 1])
            } else {
                None
            };
            ||| c == '+' && kind == TokenKind::Plus
            ||| c == '-' && d != Some('-') && d != Some('>') && kind == TokenKind::Minus
            ||| c == '*' && kind == TokenKind::Star
            ||| c == '/' && kind == TokenKind::Slash
            ||| c == '^' && kind == TokenKind::Caret
            ||| c == '@' && kind == TokenKind::At
            ||| c == '=' && d != Some('=') && kind == TokenKind::Eq
            ||| c == '<' && d != Some('=') && kind == TokenKind::Lt
            ||| c == '>' && d != Some('=') && kind == TokenKind::Gt
            ||| c == ':' && kind == TokenKind::Colon
            ||| c == ',' && kind == TokenKind::Comma
            ||| c == ';' && kind == TokenKind::Semicolon
            ||| c == '(' && kind == TokenKind::LParen
            ||| c == ')' && kind == TokenKind::RParen
            ||| c == '[' && kind == TokenKind::LBrack
            ||| c == ']' && kind == TokenKind::RBrack
        }),
    ensures
        token_stands(s, pos, pos + 1, TokenKindView::Plain(kind), depth, continuation),
{
    lemma_token_stands(s, pos, pos + 1, TokenKindView::Plain(kind), depth, continuation);
}

/// The symbols of two characters.
pub proof fn law_symbols_of_two_characters(
    s: Seq<char>,
    pos: int,
    kind: TokenKind,
    depth: int,
    continuation: bool,
)
    requires
        0 <= pos,
        pos + 1 < s.len(),
        ({
            let c = s[pos];
            let d = s[pos + 1];
            ||| c == '=' && d == '=' && kind == TokenKind::EqEq
            ||| c == '!' && d == '=' && kind == TokenKind::BangEq
            ||| c == '<' && d == '=' && kind == TokenKind::Le
            ||| c == '>' && d == '=' && kind == TokenKind::Ge
            ||| c == '-' && d == '>' && kind == TokenKind::Arrow
            ||| c == '|' && d == '>' && kind == TokenKind::Pipe
        }),
    ensures
        token_stands(s, pos, pos + 2, TokenKindView::Plain(kind), depth, continuation),
{
    lemma_token_stands(s, pos, pos + 2, TokenKindView::Plain(kind), depth, continuation);
}

/// Whether a character stands for a decimal digit.
pub open spec fn is_numeral(c: char) -> bool {
    '0' <= c && c <= '9'
}

/// The integer that decimal digits denote, with `_` between them.
pub open spec fn numeral_value(text: Seq<char>) -> int {
    text.fold_left(
        0int,
        |n: int, c: char|
            if c == '_' {
                n
            } else {
                n * 10 + (c as int - '0' as int)
            },
    )
}

proof fn lemma_numeral_value(text: Seq<char>)
    requires
        forall|k: int| 0 <= k < text.len() ==> is_numeral(#[trigger] text[k]) || text[k] == '_',
    ensures
        numeral_value(text) == crate::lexer::digits_value(
            crate::lexer::without_underscores(text),
        ),
    decreases text.len(),
{
    let step = |n: int, c: char|
        if c == '_' {
            n
        } else {
            n * 10 + (c as int - '0' as int)
        };
    reveal_with_fuel(Seq::fold_left, 2);
    if text.len() > 0 {
        let front = text.drop_last();
        assert forall|k: int| 0 <= k < front.len() implies is_numeral(#[trigger] front[k])
            || front[k] == '_' by {
            assert(front[k] == text[k]);
        }
        lemma_numeral_value(front);
        assert(text.fold_left(0int, step) == step(front.fold_left(0int, step), text.last()));
        assert(is_numeral(text[text.len() - 1]) || text[text.len() - 1] == '_');
        let clean = crate::lexer::without_underscores(front);
        if text.last() != '_' {
            assert(clean.push(text.last()).drop_last() =~= clean);
        }
    }
}

/// Digits, with `_` between them, are the integer that they denote. One that 63
/// bits do not hold is no number.
pub proof fn law_integers_are_read(s: Seq<char>, pos: int, end: int, depth: int, continuation: bool)
    requires
        0 <= pos < end <= s.len(),
        is_numeral(s[pos]),
        forall|k: int| pos <= k < end ==> is_numeral(#[trigger] s[k]) || s[k] == '_',
        end < s.len() ==> !is_numeral(s[end]) && s[end] != '_' && s[end] != 'e' && s[end] != 'E',
        end + 1 < s.len() ==> !(s[end] == '.' && is_numeral(s[end + 1])),
    ensures
        ({
            let text = s.subrange(pos, end);
            let n = numeral_value(text);
            &&& n <= i64::MAX ==> token_stands(
                s,
                pos,
                end,
                TokenKindView::Plain(TokenKind::Int(n as i64)),
                depth,
                continuation,
            )
            &&& n > i64::MAX ==> lex_from(s, reading(pos, depth, continuation)) == Err::<
                Seq<TokenView>,
                LexErrorView,
            >(
                LexErrorView::MalformedNumber {
                    raw: text,
                    line: span_at(s, pos).line,
                    col: span_at(s, pos).col,
                },
            )
        }),
{
    let text = s.subrange(pos, end);
    assert forall|k: int| 0 <= k < text.len() implies is_numeral(#[trigger] text[k]) || text[k]
        == '_' by {
        assert(text[k] == s[pos + k]);
    }
    lemma_numeral_value(text);
    lemma_run_to(s, pos + 1, end, spaced_digits());
    assert(!is_exponent_mark(s, end));
    assert(number_shape(s, pos).end() == end);
    let n = numeral_value(text);
    if n <= i64::MAX {
        lemma_token_stands(
            s,
            pos,
            end,
            TokenKindView::Plain(TokenKind::Int(n as i64)),
            depth,
            continuation,
        );
    } else {
        assert(gap(s, pos, depth == 0 && !continuation) == Gap::Lexeme(pos));
    }
}

proof fn lemma_without_underscores(text: Seq<char>)
    ensures
        crate::lexer::without_underscores(text) == text.filter(|c: char| c != '_'),
    decreases text.len(),
{
    reveal(Seq::filter);
    if text.len() > 0 {
        lemma_without_underscores(text.drop_last());
    } else {
        assert(text.filter(|c: char| c != '_') =~= text);
    }
}

/// Where a part of a number ends: all of it are digits, and what follows is none.
pub open spec fn are_digits(s: Seq<char>, from: int, to: int) -> bool {
    &&& forall|k: int| from <= k < to ==> is_numeral(#[trigger] s[k])
    &&& to < s.len() ==> !is_numeral(s[to])
}

/// A number with a fraction, with an exponent or with both is a floating-point
/// one, of which the text is kept but for its `_`. `dot` is where the whole digits
/// end, `mark` where the fraction does, and `digits` where the digits of the
/// exponent start.
pub proof fn law_floats_are_read(
    s: Seq<char>,
    pos: int,
    dot: int,
    mark: int,
    digits_at: int,
    end: int,
    depth: int,
    continuation: bool,
)
    requires
        0 <= pos < dot <= mark <= digits_at <= end <= s.len(),
        is_numeral(s[pos]),
        forall|k: int| pos <= k < dot ==> is_numeral(#[trigger] s[k]) || s[k] == '_',
        dot < s.len() ==> !is_numeral(s[dot]) && s[dot] != '_',
        // The fraction, if there is one.
        dot < mark ==> s[dot] == '.' && dot + 1 < mark && are_digits(s, dot + 1, mark),
        dot == mark ==> !(dot + 1 < s.len() && s[dot] == '.' && is_numeral(s[dot + 1])),
        // The exponent, if there is one.
        mark < digits_at ==> {
            &&& s[mark] == 'e' || s[mark] == 'E'
            &&& digits_at == if mark + 1 < s.len() && (s[mark + 1] == '+' || s[mark + 1] == '-') {
                mark + 2
            } else {
                mark + 1
            }
            &&& are_digits(s, digits_at, end)
        },
        mark == digits_at ==> end == mark && !(mark < s.len() && (s[mark] == 'e' || s[mark]
            == 'E')),
        dot < end,
    ensures
        mark < digits_at ==> digits_at < end ==> token_stands(
            s,
            pos,
            end,
            TokenKindView::Float(s.subrange(pos, end).filter(|c: char| c != '_')),
            depth,
            continuation,
        ),
        mark == digits_at ==> token_stands(
            s,
            pos,
            end,
            TokenKindView::Float(s.subrange(pos, end).filter(|c: char| c != '_')),
            depth,
            continuation,
        ),
        mark < digits_at && digits_at == end ==> lex_from(
            s,
            reading(pos, depth, continuation),
        ) == Err::<Seq<TokenView>, LexErrorView>(
            LexErrorView::MalformedNumber {
                raw: s.subrange(pos, end),
                line: span_at(s, pos).line,
                col: span_at(s, pos).col,
            },
        ),
{
    let text = s.subrange(pos, end);
    lemma_without_underscores(text);
    lemma_run_to(s, pos + 1, dot, spaced_digits());
    if dot < mark {
        assert(is_numeral(s[dot + 1]));
        lemma_run_to(s, dot + 1, mark, digits());
    }
    if mark < digits_at {
        assert(is_exponent_mark(s, mark));
        assert(exponent_digits(s, mark) == digits_at);
        lemma_run_to(s, digits_at, end, digits());
    } else {
        assert(!is_exponent_mark(s, mark));
    }
    let n = number_shape(s, pos);
    assert(n.whole == dot);
    assert(n.end() == end);
    let clean = crate::lexer::without_underscores(text);
    if mark < digits_at && digits_at == end {
        assert(gap(s, pos, depth == 0 && !continuation) == Gap::Lexeme(pos));
    } else {
        lemma_token_stands(s, pos, end, TokenKindView::Float(clean), depth, continuation);
    }
}

/// Whether a name can start with a character.
pub open spec fn starts_name(c: char) -> bool {
    c == '_' || if (c as u32) < 128 {
        ('a' <= c && c <= 'z') || ('A' <= c && c <= 'Z')
    } else {
        unicode_alphabetic(c)
    }
}

/// Whether a name can go on with a character.
pub open spec fn goes_on_name(c: char) -> bool {
    c == '_' || if (c as u32) < 128 {
        ('a' <= c && c <= 'z') || ('A' <= c && c <= 'Z') || is_numeral(c)
    } else {
        unicode_alphanumeric(c)
    }
}

/// What a word is: a keyword, a truth value, or the name that it is.
pub open spec fn is_word(word: Seq<char>, kind: TokenKindView) -> bool {
    ||| word == "let"@ && kind == TokenKindView::Plain(TokenKind::Let)
    ||| word == "in"@ && kind == TokenKindView::Plain(TokenKind::In)
    ||| word == "if"@ && kind == TokenKindView::Plain(TokenKind::If)
    ||| word == "then"@ && kind == TokenKindView::Plain(TokenKind::Then)
    ||| word == "else"@ && kind == TokenKindView::Plain(TokenKind::Else)
    ||| word == "true"@ && kind == TokenKindView::Plain(TokenKind::Bool(true))
    ||| word == "false"@ && kind == TokenKindView::Plain(TokenKind::Bool(false))
    ||| word != "let"@ && word != "in"@ && word != "if"@ && word != "then"@ && word != "else"@
        && word != "true"@ && word != "false"@ && kind == TokenKindView::Ident(word)
}

/// A word is the longest run of letters, digits and `_` from a letter or `_` on,
/// with one `'` behind it where one stands there.
pub proof fn law_words_are_read(
    s: Seq<char>,
    pos: int,
    end: int,
    kind: TokenKindView,
    depth: int,
    continuation: bool,
)
    requires
        0 <= pos < end <= s.len(),
        starts_name(s[pos]),
        ({
            let primed = end - 1 > pos && s[end - 1] == '\'';
            let last = if primed {
                end - 1
            } else {
                end
            };
            &&& forall|k: int| pos < k < last ==> goes_on_name(#[trigger] s[k])
            &&& !primed && end < s.len() ==> !goes_on_name(s[end]) && s[end] != '\''
        }),
        is_word(s.subrange(pos, end), kind),
    ensures
        token_stands(s, pos, end, kind, depth, continuation),
{
    let primed = end - 1 > pos && s[end - 1] == '\'';
    let last = if primed {
        end - 1
    } else {
        end
    };
    lemma_run_to(s, pos + 1, last, name_chars());
    assert(word_end(s, pos) == end);
    lemma_keywords_apart();
    lemma_token_stands(s, pos, end, kind, depth, continuation);
}

proof fn lemma_keywords_apart()
    ensures
        "let"@ != "in"@ && "let"@ != "if"@ && "let"@ != "then"@ && "let"@ != "else"@ && "let"@
            != "true"@ && "let"@ != "false"@,
        "in"@ != "if"@ && "in"@ != "then"@ && "in"@ != "else"@ && "in"@ != "true"@ && "in"@
            != "false"@,
        "if"@ != "then"@ && "if"@ != "else"@ && "if"@ != "true"@ && "if"@ != "false"@,
        "then"@ != "else"@ && "then"@ != "true"@ && "then"@ != "false"@,
        "else"@ != "true"@ && "else"@ != "false"@,
        "true"@ != "false"@,
{
    reveal_strlit("let");
    reveal_strlit("in");
    reveal_strlit("if");
    reveal_strlit("then");
    reveal_strlit("else");
    reveal_strlit("true");
    reveal_strlit("false");
    assert("let"@.len() == 3 && "in"@.len() == 2 && "if"@.len() == 2 && "then"@.len() == 4
        && "else"@.len() == 4 && "true"@.len() == 4 && "false"@.len() == 5);
    assert("in"@[1] != "if"@[1]);
    assert("then"@[1] != "else"@[1]);
    assert("then"@[1] != "true"@[1]);
    assert("else"@[1] != "true"@[1]);
}

/// A character that starts no lexeme is an error at its place.
pub proof fn law_unexpected_characters(s: Seq<char>, pos: int, depth: int, continuation: bool)
    requires
        0 <= pos < s.len(),
        ({
            let c = s[pos];
            let d = if pos + 1 < s.len() {
                Some(s[pos + 1])
            } else {
                None
            };
            &&& !starts_name(c) && !is_numeral(c)
            &&& c != ' ' && c != '\t' && c != '\r' && c != '\n'
            &&& c != '+' && c != '-' && c != '*' && c != '/' && c != '^' && c != '@'
            &&& c != '=' && c != '<' && c != '>' && c != ':' && c != ',' && c != ';'
            &&& c != '(' && c != ')' && c != '[' && c != ']'
            &&& c == '!' ==> d != Some('=')
            &&& c == '|' ==> d != Some('>')
            &&& c == '{' ==> d != Some('-')
        }),
    ensures
        lex_from(s, reading(pos, depth, continuation)) == Err::<Seq<TokenView>, LexErrorView>(
            LexErrorView::UnexpectedChar {
                ch: s[pos],
                line: span_at(s, pos).line,
                col: span_at(s, pos).col,
            },
        ),
{
    assert(gap(s, pos, depth == 0 && !continuation) == Gap::Lexeme(pos));
}

// ---------------------------------------------------------------------------
// Places and numerals
// ---------------------------------------------------------------------------

/// The place of a position: its line is one more than the line breaks before it,
/// its column one more than the characters since the last of them.
pub proof fn law_places_are_lines_and_columns(s: Seq<char>, pos: int, b: int)
    requires
        0 <= pos <= s.len(),
        s.len() < u32::MAX,
        -1 <= b < pos,
        b >= 0 ==> s[b] == '\n',
        forall|k: int| b < k < pos ==> #[trigger] s[k] != '\n',
    ensures
        span_at(s, pos).line == 1 + s.take(pos).filter(|c: char| c == '\n').len(),
        span_at(s, pos).col == pos - b,
{
    crate::lexer::law_places_count_the_text(s, pos);
    lemma_line_bound(s, pos);
    if b >= 0 {
        assert(s[b] == '\n');
    }
}

proof fn lemma_line_bound(s: Seq<char>, pos: int)
    requires
        0 <= pos <= s.len(),
    ensures
        1 <= crate::lexer::line_at(s, pos) <= pos + 1,
    decreases pos,
{
    if pos > 0 {
        lemma_line_bound(s, pos - 1);
    }
}

/// The numeral of a number consists of digits, denotes the number, and starts
/// with no zero that it could do without.
pub proof fn law_numerals_denote_their_number(n: nat)
    ensures
        decimal(n).len() > 0,
        forall|k: int| 0 <= k < decimal(n).len() ==> is_numeral(#[trigger] decimal(n)[k]),
        numeral_value(decimal(n)) == n,
        decimal(n)[0] == '0' ==> n == 0,
    decreases n,
{
    let step = |n: int, c: char|
        if c == '_' {
            n
        } else {
            n * 10 + (c as int - '0' as int)
        };
    reveal_with_fuel(Seq::fold_left, 2);
    if n < 10 {
        let c = crate::text::digit_char(n);
        assert(c as int == 48 + n);
        assert(decimal(n).drop_last() =~= Seq::<char>::empty());
        assert(decimal(n).last() == c);
        assert(Seq::<char>::empty().fold_left(0int, step) == 0);
    } else {
        let front = decimal(n / 10);
        let c = crate::text::digit_char(n % 10);
        assert(c as int == 48 + n % 10);
        law_numerals_denote_their_number(n / 10);
        assert(decimal(n).drop_last() =~= front);
        assert(decimal(n).last() == c);
        assert forall|k: int| 0 <= k < decimal(n).len() implies is_numeral(
            #[trigger] decimal(n)[k],
        ) by {
            if k < front.len() {
                assert(decimal(n)[k] == front[k]);
            }
        }
        assert(decimal(n)[0] == front[0]);
    }
}

/// An integer that is written out, with a minus sign where it is negative, is
/// that integer.
pub proof fn law_signed_numerals(n: int)
    ensures
        n >= 0 ==> numeral_value(signed_decimal(n)) == n,
        n < 0 ==> signed_decimal(n).len() > 0 && signed_decimal(n)[0] == '-' && numeral_value(
            signed_decimal(n).subrange(1, signed_decimal(n).len() as int),
        ) == -n,
{
    if n >= 0 {
        law_numerals_denote_their_number(n as nat);
    } else {
        law_numerals_denote_their_number((-n) as nat);
        assert(signed_decimal(n).subrange(1, signed_decimal(n).len() as int) =~= decimal(
            (-n) as nat,
        ));
    }
}

/// Where reading stops at an error: at the end of the text for a block comment that
/// does not close, behind all of a number that is none, and behind a character that
/// starts nothing.
pub proof fn law_where_reading_stops(
    s: Seq<char>,
    pos: int,
    end: int,
    depth: int,
    continuation: bool,
)
    requires
        0 <= pos < s.len(),
    ensures
        ({
            let stop = crate::lexer::error_end(s, reading(pos, depth, continuation));
            let c = s[pos];
            &&& c == '{' && pos + 1 < s.len() && s[pos + 1] == '-' && (forall|k: int|
                pos + 2 <= k && k + 1 < s.len() ==> !(#[trigger] s[k] == '-' && s[k + 1] == '}'))
                ==> stop == s.len()
            &&& is_numeral(c) && pos < end <= s.len() && (forall|k: int|
                pos <= k < end ==> is_numeral(#[trigger] s[k]) || s[k] == '_') && (end < s.len()
                ==> !is_numeral(s[end]) && s[end] != '_' && s[end] != 'e' && s[end] != 'E' && s[end]
                != '.') ==> stop == end
            &&& c == '#' || c == '$' || c == '&' || c == '?' || c == '"' || c == '~' ==> stop == pos
                + 1
        }),
{
    let breaks = depth == 0 && !continuation;
    if s[pos] == '{' && pos + 1 < s.len() && s[pos + 1] == '-' && (forall|k: int|
        pos + 2 <= k && k + 1 < s.len() ==> !(#[trigger] s[k] == '-' && s[k + 1] == '}')) {
        lemma_comment_open(s, pos + 2, 1);
        assert(char_at(s, pos + 1) == Some('-'));
        assert(gap(s, pos, breaks) == Gap::Unclosed(pos));
    }
    if is_numeral(s[pos]) {
        assert(gap(s, pos, breaks) == Gap::Lexeme(pos));
        if pos < end <= s.len() && (forall|k: int|
            pos <= k < end ==> is_numeral(#[trigger] s[k]) || s[k] == '_') && (end < s.len()
            ==> !is_numeral(s[end]) && s[end] != '_' && s[end] != 'e' && s[end] != 'E' && s[end]
            != '.') {
            lemma_run_to(s, pos + 1, end, spaced_digits());
            assert(!is_exponent_mark(s, end));
        }
    }
}

} // verus!

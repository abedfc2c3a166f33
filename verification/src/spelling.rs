//! What scanning keeps of a text, and how tokens are spelled back into one.
//!
//! The scanner loses nothing but what it is meant to lose: the texts of its
//! tokens, put end to end, are the input without its skipped characters and
//! without the quotes around its strings. And it scans what it produced the
//! same way again: spelling the tokens out, with a separator after each,
//! gives a normalized form of the input that scans to the same tokens.

use crate::charclass::{is_digit, is_lower};
use crate::lexer::{continues, lemma_lex_well_formed, lemma_run_end, lex, run_end, Run};
use crate::token::{well_formed, Lexeme, TokenKind};
use vstd::prelude::*;

verus! {

/// Whether `c` can stand in a token outside a string: a parenthesis, a
/// digit or a lowercase letter.
pub open spec fn is_token_char(c: char) -> bool {
    c == '(' || c == ')' || is_digit(c) || is_lower(c)
}

/// What scanning keeps of the text `s` from position `at` on, where
/// `quoted` says whether `at` lies inside a string.
///
/// A double quote is dropped and switches between inside and outside.
/// Inside a string every other character is kept. Outside, the characters
/// that can stand in a token are kept and the others are dropped.
pub open spec fn content(s: Seq<char>, at: int, quoted: bool) -> Seq<char>
    decreases s.len() - at,
{
    if at < 0 || at >= s.len() {
        Seq::empty()
    } else if s[at] == '"' {
        content(s, at + 1, !quoted)
    } else if quoted || is_token_char(s[at]) {
        seq![s[at]] + content(s, at + 1, quoted)
    } else {
        content(s, at + 1, quoted)
    }
}

/// The texts of the tokens, put end to end.
pub open spec fn texts(tokens: Seq<Lexeme>) -> Seq<char>
    decreases tokens.len(),
{
    if tokens.len() == 0 {
        Seq::empty()
    } else {
        tokens[0].text + texts(tokens.drop_first())
    }
}

/// The texts of a token followed by more tokens.
proof fn lemma_texts_cons(first: Lexeme, rest: Seq<Lexeme>)
    ensures
        texts(seq![first] + rest) == first.text + texts(rest),
{
    assert((seq![first] + rest).drop_first() =~= rest);
}

/// Over a stretch without a double quote in which every character is kept,
/// the content is the stretch itself.
proof fn lemma_content_stretch(s: Seq<char>, from: int, to: int, quoted: bool)
    requires
        0 <= from <= to <= s.len(),
        forall|k: int| from <= k < to ==> #[trigger] s[k] != '"',
        forall|k: int| from <= k < to ==> quoted || is_token_char(#[trigger] s[k]),
    ensures
        content(s, from, quoted) == s.subrange(from, to) + content(s, to, quoted),
    decreases to - from,
{
    if from < to {
        lemma_content_stretch(s, from + 1, to, quoted);
        assert(s.subrange(from, to) =~= seq![s[from]] + s.subrange(from + 1, to));
        assert(seq![s[from]] + (s.subrange(from + 1, to) + content(s, to, quoted)) =~= (seq![
            s[from],
        ] + s.subrange(from + 1, to)) + content(s, to, quoted));
    } else {
        assert(s.subrange(from, to) + content(s, to, quoted) =~= content(s, to, quoted));
    }
}

/// From any position outside a string, the texts of the tokens are what
/// scanning keeps of the text.
pub proof fn lemma_texts_of_lex(s: Seq<char>, at: int)
    requires
        0 <= at <= s.len(),
    ensures
        texts(lex(s, at)) == content(s, at, false),
    decreases s.len() - at,
{
    if at < s.len() {
        let c = s[at];
        if c == '(' || c == ')' {
            lemma_texts_of_lex(s, at + 1);
            let first = lex(s, at)[0];
            assert(lex(s, at) =~= seq![first] + lex(s, at + 1));
            lemma_texts_cons(first, lex(s, at + 1));
        } else if is_digit(c) || is_lower(c) {
            let run = if is_digit(c) {
                Run::Digits
            } else {
                Run::Letters
            };
            let end = run_end(s, run, at + 1);
            lemma_run_end(s, run, at + 1);
            lemma_texts_of_lex(s, end);
            let first = lex(s, at)[0];
            assert(lex(s, at) =~= seq![first] + lex(s, end));
            lemma_texts_cons(first, lex(s, end));
            lemma_content_stretch(s, at, end, false);
        } else if c == '"' {
            let end = run_end(s, Run::Quoted, at + 1);
            lemma_run_end(s, Run::Quoted, at + 1);
            let first = lex(s, at)[0];
            lemma_content_stretch(s, at + 1, end, true);
            if end < s.len() {
                lemma_texts_of_lex(s, end + 1);
                assert(lex(s, at) =~= seq![first] + lex(s, end + 1));
                lemma_texts_cons(first, lex(s, end + 1));
            } else {
                assert(lex(s, at) =~= seq![first] + Seq::<Lexeme>::empty());
                lemma_texts_cons(first, Seq::<Lexeme>::empty());
                assert(first.text + Seq::<char>::empty() =~= first.text);
            }
        } else {
            lemma_texts_of_lex(s, at + 1);
        }
    }
}

/// The scanner loses nothing but what it skips: for every text, the texts
/// of its tokens, put end to end, are the text without its double quotes
/// and without the characters outside strings that stand in no token.
pub proof fn lemma_tokens_keep_content(s: Seq<char>)
    ensures
        texts(lex(s, 0)) == content(s, 0, false),
{
    lemma_texts_of_lex(s, 0);
}

/// A text made only of parentheses, digits and lowercase letters is given
/// back whole: the texts of its tokens, put end to end, are the text.
pub proof fn lemma_tokens_keep_plain_text(s: Seq<char>)
    requires
        forall|k: int| 0 <= k < s.len() ==> is_token_char(#[trigger] s[k]),
    ensures
        texts(lex(s, 0)) == s,
{
    lemma_texts_of_lex(s, 0);
    lemma_content_stretch(s, 0, s.len() as int, false);
    assert(s.subrange(0, s.len() as int) + content(s, s.len() as int, false) =~= s);
}

/// How a token is written in a text: a string between double quotes, any
/// other token as its text.
pub open spec fn spelling(t: Lexeme) -> Seq<char> {
    if t.kind == TokenKind::Str {
        seq!['"'] + t.text + seq!['"']
    } else {
        t.text
    }
}

/// The tokens written out in order, with one space after each.
pub open spec fn spell(tokens: Seq<Lexeme>) -> Seq<char>
    decreases tokens.len(),
{
    if tokens.len() == 0 {
        Seq::empty()
    } else {
        spelling(tokens[0]) + seq![' '] + spell(tokens.drop_first())
    }
}

/// A run ends at `end` if every character from `from` up to `end` continues
/// it and the character at `end`, if there is one, does not.
proof fn lemma_run_end_is(s: Seq<char>, run: Run, from: int, end: int)
    requires
        0 <= from <= end <= s.len(),
        forall|k: int| from <= k < end ==> continues(run, #[trigger] s[k]),
        end < s.len() ==> !continues(run, s[end]),
    ensures
        run_end(s, run, from) == end,
    decreases end - from,
{
    if from < end {
        lemma_run_end_is(s, run, from + 1, end);
    }
}

/// Where a run ends depends only on the text from its start on.
proof fn lemma_run_end_shift(a: Seq<char>, b: Seq<char>, run: Run, from: int)
    requires
        0 <= from <= b.len(),
    ensures
        run_end(a + b, run, a.len() + from) == a.len() + run_end(b, run, from),
{
    let end = run_end(b, run, from);
    lemma_run_end(b, run, from);
    assert forall|k: int| a.len() + from <= k < a.len() + end implies continues(
        run,
        #[trigger] (a + b)[k],
    ) by {
        assert((a + b)[k] == b[k - a.len()]);
    }
    if end < b.len() {
        assert((a + b)[a.len() + end] == b[end]);
    }
    lemma_run_end_is(a + b, run, a.len() + from, a.len() + end);
}

/// The tokens from a position on depend only on the text from there on.
proof fn lemma_lex_shift(a: Seq<char>, b: Seq<char>, at: int)
    requires
        0 <= at <= b.len(),
    ensures
        lex(a + b, a.len() + at) == lex(b, at),
    decreases b.len() - at,
{
    let s = a + b;
    let n = a.len() as int;
    if at < b.len() {
        let c = b[at];
        assert(s[n + at] == c);
        if c == '(' || c == ')' {
            lemma_lex_shift(a, b, at + 1);
        } else if is_digit(c) || is_lower(c) {
            let run = if is_digit(c) {
                Run::Digits
            } else {
                Run::Letters
            };
            let end = run_end(b, run, at + 1);
            lemma_run_end(b, run, at + 1);
            lemma_run_end_shift(a, b, run, at + 1);
            lemma_lex_shift(a, b, end);
            assert(s.subrange(n + at, n + end) =~= b.subrange(at, end));
        } else if c == '"' {
            let end = run_end(b, Run::Quoted, at + 1);
            lemma_run_end(b, Run::Quoted, at + 1);
            lemma_run_end_shift(a, b, Run::Quoted, at + 1);
            assert(s.subrange(n + at + 1, n + end) =~= b.subrange(at + 1, end));
            if end < b.len() {
                lemma_lex_shift(a, b, end + 1);
            }
        } else {
            lemma_lex_shift(a, b, at + 1);
        }
    }
}

/// A well-formed token, written out with a space after it and followed by
/// any text, is scanned as that token, and the scan goes on with the text
/// that follows.
proof fn lemma_lex_spelled_token(t: Lexeme, b: Seq<char>)
    requires
        well_formed(t),
    ensures
        lex(spelling(t) + seq![' '] + b, 0) == seq![t] + lex(b, 0),
{
    let a = spelling(t) + seq![' '];
    let s = a + b;
    let n = spelling(t).len() as int;
    assert(s[n] == ' ');
    assert(lex(s, n) == lex(s, n + 1));
    lemma_lex_shift(a, b, 0);
    assert(lex(s, n + 1) == lex(b, 0));
    match t.kind {
        TokenKind::ParenOpen => {
            assert(s[0] == '(');
            assert(lex(s, 0)[0] == t);
        },
        TokenKind::ParenClose => {
            assert(s[0] == ')');
            assert(lex(s, 0)[0] == t);
        },
        TokenKind::Number => {
            assert(s[0] == t.text[0]);
            assert forall|k: int| 1 <= k < n implies continues(Run::Digits, #[trigger] s[k]) by {
                assert(s[k] == t.text[k]);
            }
            lemma_run_end_is(s, Run::Digits, 1, n);
            assert(s.subrange(0, n) =~= t.text);
            assert(lex(s, 0)[0] == t);
        },
        TokenKind::Identifier => {
            assert(s[0] == t.text[0]);
            assert forall|k: int| 1 <= k < n implies continues(Run::Letters, #[trigger] s[k]) by {
                assert(s[k] == t.text[k]);
            }
            lemma_run_end_is(s, Run::Letters, 1, n);
            assert(s.subrange(0, n) =~= t.text);
            assert(lex(s, 0)[0] == t);
        },
        TokenKind::Str => {
            assert(s[0] == '"');
            assert forall|k: int| 1 <= k < n - 1 implies continues(
                Run::Quoted,
                #[trigger] s[k],
            ) by {
                assert(s[k] == t.text[k - 1]);
            }
            assert(s[n - 1] == '"');
            lemma_run_end_is(s, Run::Quoted, 1, n - 1);
            assert(s.subrange(1, n - 1) =~= t.text);
            assert(lex(s, 0)[0] == t);
        },
    }
    assert(lex(s, 0) =~= seq![t] + lex(s, n));
}

/// Scanning undoes spelling: well-formed tokens, written out in order with
/// a space after each, are scanned as the same tokens.
pub proof fn lemma_lex_of_spell(tokens: Seq<Lexeme>)
    requires
        forall|i: int| 0 <= i < tokens.len() ==> well_formed(#[trigger] tokens[i]),
    ensures
        lex(spell(tokens), 0) == tokens,
    decreases tokens.len(),
{
    if tokens.len() == 0 {
        assert(lex(spell(tokens), 0) =~= tokens);
    } else {
        let rest = tokens.drop_first();
        assert forall|i: int| 0 <= i < rest.len() implies well_formed(#[trigger] rest[i]) by {
            assert(rest[i] == tokens[i + 1]);
        }
        lemma_lex_of_spell(rest);
        lemma_lex_spelled_token(tokens[0], spell(rest));
        assert(seq![tokens[0]] + rest =~= tokens);
    }
}

/// The tokens of a text, written out with a space after each, give a
/// normalized form of the text: scanning it gives the same tokens again.
pub proof fn lemma_spelling_scans_the_same(s: Seq<char>)
    ensures
        lex(spell(lex(s, 0)), 0) == lex(s, 0),
{
    lemma_lex_well_formed(s, 0);
    lemma_lex_of_spell(lex(s, 0));
}

} // verus!

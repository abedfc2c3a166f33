//! The scanner: source text to tokens, in one pass from left to right.

use crate::charclass::{is_digit, is_digit_char, is_lower, is_lower_char};
use crate::token::{close_paren, open_paren, well_formed, Lexeme, Token, TokenKind};
use vstd::prelude::*;

verus! {

/// The three kinds of run that a token's text can be made of.
#[derive(Clone, Copy, Debug, PartialEq, Eq, Structural)]
pub enum Run {
    /// Decimal digits: the text of a number.
    Digits,
    /// Lowercase letters: the text of an identifier.
    Letters,
    /// Anything but a double quote: the content of a string.
    Quoted,
}

/// Whether the character `c` continues a run of the given kind.
pub open spec fn continues(run: Run, c: char) -> bool {
    match run {
        Run::Digits => is_digit(c),
        Run::Letters => is_lower(c),
        Run::Quoted => c != '"',
    }
}

/// The position at which the run that starts at `from` ends: the first
/// position at or after `from` whose character does not continue the run, or
/// the end of the text.
pub open spec fn run_end(s: Seq<char>, run: Run, from: int) -> int
    decreases s.len() - from,
{
    if 0 <= from < s.len() && continues(run, s[from]) {
        run_end(s, run, from + 1)
    } else {
        from
    }
}

/// The run that starts at `from` ends at or after `from`, within the text,
/// holds only characters that continue it, and cannot be extended.
pub proof fn lemma_run_end(s: Seq<char>, run: Run, from: int)
    requires
        0 <= from <= s.len(),
    ensures
        from <= run_end(s, run, from) <= s.len(),
        forall|k: int| from <= k < run_end(s, run, from) ==> continues(run, #[trigger] s[k]),
        run_end(s, run, from) < s.len() ==> !continues(run, s[run_end(s, run, from)]),
    decreases s.len() - from,
{
    if from < s.len() && continues(run, s[from]) {
        lemma_run_end(s, run, from + 1);
    }
}

/// The tokens of the text `s` from position `at` on.
///
/// A parenthesis is a token by itself. A digit starts a number, which takes
/// the longest run of digits. A double quote starts a string, which takes
/// everything up to the next double quote or, without one, up to the end of
/// the text; the quotes are not part of the token. A lowercase letter starts
/// an identifier, which takes the longest run of lowercase letters. Any other
/// character is skipped.
pub open spec fn lex(s: Seq<char>, at: int) -> Seq<Lexeme>
    decreases s.len() - at,
{
    if at < 0 || at >= s.len() {
        Seq::empty()
    } else if s[at] == '(' {
        seq![open_paren()] + lex(s, at + 1)
    } else if s[at] == ')' {
        seq![close_paren()] + lex(s, at + 1)
    } else if is_digit(s[at]) {
        let end = run_end(s, Run::Digits, at + 1);
        proof {
            lemma_run_end(s, Run::Digits, at + 1);
        }
        seq![Lexeme { kind: TokenKind::Number, text: s.subrange(at, end) }] + lex(s, end)
    } else if s[at] == '"' {
        let end = run_end(s, Run::Quoted, at + 1);
        proof {
            lemma_run_end(s, Run::Quoted, at + 1);
        }
        let rest = if end < s.len() {
            lex(s, end + 1)
        } else {
            Seq::empty()
        };
        seq![Lexeme { kind: TokenKind::Str, text: s.subrange(at + 1, end) }] + rest
    } else if is_lower(s[at]) {
        let end = run_end(s, Run::Letters, at + 1);
        proof {
            lemma_run_end(s, Run::Letters, at + 1);
        }
        seq![Lexeme { kind: TokenKind::Identifier, text: s.subrange(at, end) }] + lex(s, end)
    } else {
        lex(s, at + 1)
    }
}

/// A well-formed token in front of well-formed tokens.
proof fn lemma_well_formed_cons(first: Lexeme, rest: Seq<Lexeme>)
    requires
        well_formed(first),
        forall|i: int| 0 <= i < rest.len() ==> well_formed(#[trigger] rest[i]),
    ensures
        forall|i: int|
            0 <= i < (seq![first] + rest).len() ==> well_formed(#[trigger] (seq![first] + rest)[i]),
{
    assert forall|i: int| 0 <= i < (seq![first] + rest).len() implies well_formed(
        #[trigger] (seq![first] + rest)[i],
    ) by {
        if i > 0 {
            assert((seq![first] + rest)[i] == rest[i - 1]);
        }
    }
}

/// Every token that scanning produces has the shape of its kind.
pub proof fn lemma_lex_well_formed(s: Seq<char>, at: int)
    requires
        0 <= at <= s.len(),
    ensures
        forall|i: int| 0 <= i < lex(s, at).len() ==> well_formed(#[trigger] lex(s, at)[i]),
    decreases s.len() - at,
{
    if at < s.len() {
        let c = s[at];
        if c == '(' || c == ')' {
            lemma_lex_well_formed(s, at + 1);
            lemma_well_formed_cons(lex(s, at)[0], lex(s, at + 1));
        } else if is_digit(c) || is_lower(c) {
            let run = if is_digit(c) {
                Run::Digits
            } else {
                Run::Letters
            };
            let end = run_end(s, run, at + 1);
            lemma_run_end(s, run, at + 1);
            lemma_lex_well_formed(s, end);
            let first = lex(s, at)[0];
            assert(first.text == s.subrange(at, end));
            assert forall|k: int| 0 <= k < first.text.len() implies continues(
                run,
                #[trigger] first.text[k],
            ) by {
                assert(first.text[k] == s[at + k]);
            }
            lemma_well_formed_cons(first, lex(s, end));
        } else if c == '"' {
            let end = run_end(s, Run::Quoted, at + 1);
            lemma_run_end(s, Run::Quoted, at + 1);
            let first = lex(s, at)[0];
            assert(first.text == s.subrange(at + 1, end));
            assert forall|k: int| 0 <= k < first.text.len() implies #[trigger] first.text[k]
                != '"' by {
                assert(first.text[k] == s[at + 1 + k]);
            }
            if end < s.len() {
                lemma_lex_well_formed(s, end + 1);
                lemma_well_formed_cons(first, lex(s, end + 1));
            } else {
                lemma_well_formed_cons(first, Seq::<Lexeme>::empty());
            }
        } else {
            lemma_lex_well_formed(s, at + 1);
        }
    }
}

/// Tells whether `c` continues a run of the given kind.
fn continues_run(run: Run, c: char) -> (b: bool)
    ensures
        b == continues(run, c),
{
    match run {
        Run::Digits => is_digit_char(c),
        Run::Letters => is_lower_char(c),
        Run::Quoted => c != '"',
    }
}

/// `String::push` of the standard library: appends the character `c` to the
/// end of the string. Trusted, not proved.
pub assume_specification[ String::push ](s: &mut String, c: char)
    ensures
        final(s)@ == old(s)@.push(c),
;

/// The characters of `text`, in order.
fn chars_of(text: &str) -> (chars: Vec<char>)
    ensures
        chars@ == text@,
{
    let mut chars: Vec<char> = Vec::new();
    for c in rest: text.chars()
        invariant
            chars@ == rest.seq().take(rest.index() as int),
            rest.seq() == text@,
    {
        chars.push(c);
    }
    chars
}

/// Reads the run of the given kind that starts at `from`: appends its
/// characters to `text` and returns the position at which it ends.
fn read_run(chars: &Vec<char>, run: Run, from: usize, text: &mut String) -> (end: usize)
    requires
        from <= chars.len(),
    ensures
        end == run_end(chars@, run, from as int),
        from <= end <= chars.len(),
        final(text)@ == old(text)@ + chars@.subrange(from as int, end as int),
{
    let mut end: usize = from;
    proof {
        assert(text@ + chars@.subrange(from as int, end as int) =~= text@);
    }
    while end < chars.len() && continues_run(run, chars[end])
        invariant
            from <= end <= chars.len(),
            run_end(chars@, run, from as int) == run_end(chars@, run, end as int),
            text@ == old(text)@ + chars@.subrange(from as int, end as int),
        decreases chars.len() - end,
    {
        text.push(chars[end]);
        proof {
            assert(chars@.subrange(from as int, end as int).push(chars@[end as int])
                =~= chars@.subrange(from as int, end + 1));
            assert(text@ =~= old(text)@ + chars@.subrange(from as int, end + 1));
        }
        end += 1;
    }
    end
}

/// Appends `token` to `tokens`.
fn push_token(tokens: &mut Vec<Token>, token: Token)
    ensures
        final(tokens).deep_view() == old(tokens).deep_view().push(token@),
{
    tokens.push(token);
    assert(tokens.deep_view() =~= old(tokens).deep_view().push(token@));
}

/// Scans `code` into its tokens.
///
/// Never fails: a character that starts no token is skipped, and a string
/// without a closing quote runs to the end of the text.
pub fn tokanize(code: String) -> (tokens: Vec<Token>)
    ensures
        tokens.deep_view() == lex(code@, 0),
        forall|i: int| 0 <= i < tokens.len() ==> well_formed(#[trigger] tokens[i]@),
{
    let chars = chars_of(code.as_str());
    let mut tokens: Vec<Token> = Vec::new();
    let mut current: usize = 0;
    while current < chars.len()
        invariant
            chars@ == code@,
            current <= chars.len(),
            tokens.deep_view() + lex(chars@, current as int) == lex(chars@, 0),
        decreases chars.len() - current,
    {
        let ghost before = tokens.deep_view();
        let ghost start = current as int;
        let c = chars[current];
        if c == '(' {
            proof {
                reveal_strlit("(");
                assert("("@ =~= open_paren().text);
            }
            push_token(&mut tokens, Token::new(TokenKind::ParenOpen, "("));
            current += 1;
        } else if c == ')' {
            proof {
                reveal_strlit(")");
                assert(")"@ =~= close_paren().text);
            }
            push_token(&mut tokens, Token::new(TokenKind::ParenClose, ")"));
            current += 1;
        } else if is_digit_char(c) {
            let mut number = String::new();
            number.push(c);
            let end: usize = read_run(&chars, Run::Digits, current + 1, &mut number);
            proof {
                assert(number@ =~= chars@.subrange(start, end as int));
            }
            push_token(&mut tokens, Token { kind: TokenKind::Number, text: number });
            current = end;
        } else if c == '"' {
            let mut string = String::new();
            let end: usize = read_run(&chars, Run::Quoted, current + 1, &mut string);
            proof {
                assert(string@ =~= chars@.subrange(start + 1, end as int));
            }
            push_token(&mut tokens, Token { kind: TokenKind::Str, text: string });
            current = if end < chars.len() {
                end + 1
            } else {
                end
            };
        } else if is_lower_char(c) {
            let mut name = String::new();
            name.push(c);
            let end: usize = read_run(&chars, Run::Letters, current + 1, &mut name);
            proof {
                assert(name@ =~= chars@.subrange(start, end as int));
            }
            push_token(&mut tokens, Token { kind: TokenKind::Identifier, text: name });
            current = end;
        } else {
            current += 1;
        }
        proof {
            let rest = lex(chars@, current as int);
            if tokens.deep_view().len() == before.len() {
                assert(lex(chars@, start) == rest);
            } else {
                let lexeme = tokens.deep_view().last();
                assert(tokens.deep_view() == before.push(lexeme));
                assert(lex(chars@, start) =~= seq![lexeme] + rest);
                assert(before.push(lexeme) + rest =~= before + (seq![lexeme] + rest));
            }
        }
    }
    proof {
        lemma_lex_well_formed(code@, 0);
        assert forall|i: int| 0 <= i < tokens.len() implies well_formed(#[trigger] tokens[i]@) by {
            assert(tokens[i]@ == tokens.deep_view()[i]);
        }
    }
    tokens
}

} // verus!

//! The lexical grammar as mathematics: what one step of the scan reads at a
//! position, and the token and error sequences that a whole scan yields.
use vstd::prelude::*;
use crate::chars::{is_digit, is_ident_part, is_ident_start};
use crate::token::{keyword_of, LexErrorView, LiteralView, TokenType, TokenView};

verus! {

/// The number of newline characters in a text.
pub open spec fn newlines(s: Seq<char>) -> nat
    decreases s.len(),
{
    if s.len() == 0 {
        0
    } else {
        newlines(s.drop_last()) + if s.last() == '\n' {
            1nat
        } else {
            0nat
        }
    }
}

/// The length of the run of decimal digits that starts at `i`.
pub open spec fn digit_run(s: Seq<char>, i: int) -> nat
    decreases s.len() - i,
{
    if 0 <= i < s.len() && is_digit(s[i]) {
        1 + digit_run(s, i + 1)
    } else {
        0
    }
}

/// The length of the run of identifier characters that starts at `i`.
pub open spec fn ident_run(s: Seq<char>, i: int) -> nat
    decreases s.len() - i,
{
    if 0 <= i < s.len() && is_ident_part(s[i]) {
        1 + ident_run(s, i + 1)
    } else {
        0
    }
}

/// The length of the run of characters other than a newline that starts at `i`.
pub open spec fn line_run(s: Seq<char>, i: int) -> nat
    decreases s.len() - i,
{
    if 0 <= i < s.len() && s[i] != '\n' {
        1 + line_run(s, i + 1)
    } else {
        0
    }
}

/// The length of the run of characters other than a double quote that starts at `i`.
pub open spec fn text_run(s: Seq<char>, i: int) -> nat
    decreases s.len() - i,
{
    if 0 <= i < s.len() && s[i] != '"' {
        1 + text_run(s, i + 1)
    } else {
        0
    }
}

/// The kind of a token that is always one character long.
pub open spec fn single_kind(c: char) -> Option<TokenType> {
    if c == '(' {
        Some(TokenType::LeftParen)
    } else if c == ')' {
        Some(TokenType::RightParen)
    } else if c == '{' {
        Some(TokenType::LeftBrace)
    } else if c == '}' {
        Some(TokenType::RightBrace)
    } else if c == ',' {
        Some(TokenType::Comma)
    } else if c == '.' {
        Some(TokenType::Dot)
    } else if c == '-' {
        Some(TokenType::Minus)
    } else if c == '+' {
        Some(TokenType::Plus)
    } else if c == ';' {
        Some(TokenType::SemiColon)
    } else if c == '*' {
        Some(TokenType::Star)
    } else {
        None
    }
}

/// For an operator that may be followed by `=`: its kind alone, and its kind
/// with the `=`.
pub open spec fn pair_kind(c: char) -> Option<(TokenType, TokenType)> {
    if c == '!' {
        Some((TokenType::Bang, TokenType::BangEqual))
    } else if c == '=' {
        Some((TokenType::Equal, TokenType::EqualEqual))
    } else if c == '<' {
        Some((TokenType::Less, TokenType::LessEqual))
    } else if c == '>' {
        Some((TokenType::Greater, TokenType::GreaterEqual))
    } else {
        None
    }
}

/// Space, carriage return, tab and newline.
pub open spec fn is_blank(c: char) -> bool {
    c == ' ' || c == '\r' || c == '\t' || c == '\n'
}

/// Whether the character at `i` exists and is `c`.
pub open spec fn char_at_is(s: Seq<char>, i: int, c: char) -> bool {
    0 <= i < s.len() && s[i] == c
}

/// What one step of the scan yields.
pub enum Lexed {
    Token(TokenView),
    Skip,
    Error(LexErrorView),
}

/// The token read from `s[from..to]` on `line`.
pub open spec fn token_at(
    s: Seq<char>,
    from: int,
    to: int,
    kind: TokenType,
    literal: LiteralView,
    line: nat,
) -> TokenView {
    TokenView { kind, lexeme: s.subrange(from, to), literal, line }
}

/// The width of a number that starts at `pos`: its digits, then a dot and more
/// digits where a digit follows the dot.
pub open spec fn number_width(s: Seq<char>, pos: int) -> nat {
    let int_end = pos + 1 + digit_run(s, pos + 1);
    1 + digit_run(s, pos + 1) + if char_at_is(s, int_end, '.') && int_end + 1 < s.len() && is_digit(
        s[int_end + 1],
    ) {
        1 + digit_run(s, int_end + 1)
    } else {
        0
    }
}

/// One step of the scan at `pos` (with `0 <= pos < s.len()`) on `line`: how many
/// characters it reads and what it yields.
pub open spec fn lex_one(s: Seq<char>, pos: int, line: nat) -> (nat, Lexed) {
    let c = s[pos];
    if single_kind(c) is Some {
        (1, Lexed::Token(token_at(s, pos, pos + 1, single_kind(c)->0, LiteralView::Nothing, line)))
    } else if pair_kind(c) is Some {
        let (one, two) = pair_kind(c)->0;
        if char_at_is(s, pos + 1, '=') {
            (
                2,
                Lexed::Token(
                    token_at(s, pos, pos + 2, two, LiteralView::Nothing, line),
                ),
            )
        } else {
            (
                1,
                Lexed::Token(
                    token_at(s, pos, pos + 1, one, LiteralView::Nothing, line),
                ),
            )
        }
    } else if c == '/' {
        if char_at_is(s, pos + 1, '/') {
            (2 + line_run(s, pos + 2), Lexed::Skip)
        } else {
            (1, Lexed::Token(token_at(s, pos, pos + 1, TokenType::Slash, LiteralView::Nothing, line)))
        }
    } else if is_blank(c) {
        (1, Lexed::Skip)
    } else if c == '"' {
        let n = text_run(s, pos + 1);
        if pos + 1 + n < s.len() {
            (
                n + 2,
                Lexed::Token(
                    token_at(
                        s,
                        pos,
                        pos + n + 2,
                        TokenType::String,
                        LiteralView::Text(s.subrange(pos + 1, pos + 1 + n)),
                        line,
                    ),
                ),
            )
        } else {
            (n + 1, Lexed::Error(LexErrorView::UnterminatedString { line }))
        }
    } else if is_digit(c) {
        let w = number_width(s, pos);
        (
            w,
            Lexed::Token(
                token_at(
                    s,
                    pos,
                    pos + w,
                    TokenType::Number,
                    LiteralView::Number(s.subrange(pos, pos + w)),
                    line,
                ),
            ),
        )
    } else if is_ident_start(c) {
        let w = 1 + ident_run(s, pos + 1);
        let word = s.subrange(pos, pos + w);
        let kind = match keyword_of(word) {
            Some(k) => k,
            None => TokenType::Identifier,
        };
        (w, Lexed::Token(token_at(s, pos, pos + w, kind, LiteralView::Nothing, line)))
    } else {
        (1, Lexed::Error(LexErrorView::UnexpectedCharacter { character: c, line }))
    }
}

/// The tokens that one step yields: none or one.
pub open spec fn emitted_tokens(out: Lexed) -> Seq<TokenView> {
    match out {
        Lexed::Token(t) => seq![t],
        _ => Seq::empty(),
    }
}

/// The errors that one step yields: none or one.
pub open spec fn emitted_errors(out: Lexed) -> Seq<LexErrorView> {
    match out {
        Lexed::Error(e) => seq![e],
        _ => Seq::empty(),
    }
}

/// The end-of-input token on `line`.
pub open spec fn eof_token(line: nat) -> TokenView {
    TokenView { kind: TokenType::Eof, lexeme: Seq::empty(), literal: LiteralView::Nothing, line }
}

/// The tokens and errors of scanning `s` from `pos` on, where `pos` is on `line`.
pub open spec fn scan_from(s: Seq<char>, pos: int, line: nat) -> (Seq<TokenView>, Seq<LexErrorView>)
    decreases s.len() - pos,
    via scan_from_decreases
{
    if pos < 0 || pos >= s.len() {
        (seq![eof_token(line)], Seq::empty())
    } else {
        let (w, out) = lex_one(s, pos, line);
        let next = pos + w;
        let rest = scan_from(s, next, line + newlines(s.subrange(pos, next)));
        (emitted_tokens(out) + rest.0, emitted_errors(out) + rest.1)
    }
}

/// The tokens of a whole text, scanned from its first line.
pub open spec fn tokens_of(s: Seq<char>) -> Seq<TokenView> {
    scan_from(s, 0, 1).0
}

/// The lexical errors of a whole text, in the order they are met.
pub open spec fn errors_of(s: Seq<char>) -> Seq<LexErrorView> {
    scan_from(s, 0, 1).1
}

#[via_fn]
proof fn scan_from_decreases(s: Seq<char>, pos: int, line: nat) {
    if 0 <= pos < s.len() {
        lemma_lex_one_width(s, pos, line);
    }
}

/// Appending a character adds one newline exactly when it is one.
pub proof fn lemma_newlines_push(x: Seq<char>, c: char)
    ensures
        newlines(x.push(c)) == newlines(x) + if c == '\n' {
            1nat
        } else {
            0nat
        },
{
    assert(x.push(c).drop_last() =~= x);
}

/// Newlines add up over a concatenation.
pub proof fn lemma_newlines_concat(a: Seq<char>, b: Seq<char>)
    ensures
        newlines(a + b) == newlines(a) + newlines(b),
    decreases b.len(),
{
    if b.len() == 0 {
        assert(a + b =~= a);
    } else {
        lemma_newlines_concat(a, b.drop_last());
        assert((a + b).drop_last() =~= a + b.drop_last());
    }
}

/// A text holds no more newlines than characters.
pub proof fn lemma_newlines_bound(x: Seq<char>)
    ensures
        newlines(x) <= x.len(),
    decreases x.len(),
{
    if x.len() > 0 {
        lemma_newlines_bound(x.drop_last());
    }
}

/// The newlines up to `j` are those up to `i` and those between.
pub proof fn lemma_newlines_split(s: Seq<char>, i: int, j: int)
    requires
        0 <= i <= j <= s.len(),
    ensures
        newlines(s.take(j)) == newlines(s.take(i)) + newlines(s.subrange(i, j)),
{
    assert(s.take(j) =~= s.take(i) + s.subrange(i, j));
    lemma_newlines_concat(s.take(i), s.subrange(i, j));
}

/// A run of digits from `i` stays inside the text.
pub proof fn lemma_digit_run_bound(s: Seq<char>, i: int)
    requires
        0 <= i <= s.len(),
    ensures
        digit_run(s, i) <= s.len() - i,
    decreases s.len() - i,
{
    if i < s.len() {
        lemma_digit_run_bound(s, i + 1);
    }
}

/// A run of identifier characters from `i` stays inside the text.
pub proof fn lemma_ident_run_bound(s: Seq<char>, i: int)
    requires
        0 <= i <= s.len(),
    ensures
        ident_run(s, i) <= s.len() - i,
    decreases s.len() - i,
{
    if i < s.len() {
        lemma_ident_run_bound(s, i + 1);
    }
}

/// A run of characters other than a newline from `i` stays inside the text.
pub proof fn lemma_line_run_bound(s: Seq<char>, i: int)
    requires
        0 <= i <= s.len(),
    ensures
        line_run(s, i) <= s.len() - i,
    decreases s.len() - i,
{
    if i < s.len() {
        lemma_line_run_bound(s, i + 1);
    }
}

/// A run of characters other than a double quote from `i` stays inside the text.
pub proof fn lemma_text_run_bound(s: Seq<char>, i: int)
    requires
        0 <= i <= s.len(),
    ensures
        text_run(s, i) <= s.len() - i,
    decreases s.len() - i,
{
    if i < s.len() {
        lemma_text_run_bound(s, i + 1);
    }
}

/// One step reads at least one character and stays inside the text.
pub proof fn lemma_lex_one_width(s: Seq<char>, pos: int, line: nat)
    requires
        0 <= pos < s.len(),
    ensures
        1 <= lex_one(s, pos, line).0 <= s.len() - pos,
{
    lemma_digit_run_bound(s, pos + 1);
    let int_end = pos + 1 + digit_run(s, pos + 1);
    if 0 <= int_end + 1 <= s.len() {
        lemma_digit_run_bound(s, int_end + 1);
    }
    lemma_ident_run_bound(s, pos + 1);
    if pos + 2 <= s.len() {
        lemma_line_run_bound(s, pos + 2);
    }
    lemma_text_run_bound(s, pos + 1);
}

} // verus!

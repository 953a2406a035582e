//! The scanner: one left-to-right pass over the source with at most two
//! characters of lookahead.
use vstd::prelude::*;
use crate::chars::{digit, ident_part, ident_start, is_digit, is_ident_start, push_char};
use crate::lexicon::{
    digit_run, emitted_errors, emitted_tokens, errors_of, ident_run, lemma_newlines_bound,
    lemma_newlines_push, lemma_newlines_split, lex_one, line_run, newlines, scan_from, text_run,
    tokens_of,
};
use crate::token::{
    error_views, keyword, token_views, LexError, LexErrorView, Literal, Token, TokenType, TokenView,
};

verus! {

/// The state of one scan: the source as characters, the tokens and errors found
/// so far, the start of the token being read, the next unread position and the
/// current line.
pub struct Scanner {
    source: Vec<char>,
    tokens: Vec<Token>,
    errors: Vec<LexError>,
    start: usize,
    current: usize,
    line: usize,
}

/// `after` is `before` once the step at `before.start`, begun on `line`, is done.
spec fn step_done(before: Scanner, after: Scanner, line: nat) -> bool {
    let (w, out) = lex_one(before.source@, before.start as int, line);
    &&& after.cursors_ok()
    &&& after.source@ == before.source@
    &&& after.start == before.start
    &&& after.current == before.start + w
    &&& after.tokens_view() == before.tokens_view() + emitted_tokens(out)
    &&& after.errors_view() == before.errors_view() + emitted_errors(out)
}

impl Scanner {
    /// The characters of the source.
    pub closed spec fn source_view(&self) -> Seq<char> {
        self.source@
    }

    /// The tokens found so far.
    pub closed spec fn tokens_view(&self) -> Seq<TokenView> {
        token_views(self.tokens@)
    }

    /// The errors found so far.
    pub closed spec fn errors_view(&self) -> Seq<LexErrorView> {
        error_views(self.errors@)
    }

    /// The source is short enough for every line number to fit in a `usize`.
    pub closed spec fn wf(&self) -> bool {
        self.source@.len() < usize::MAX
    }

    /// The cursors lie in the source and `line` counts the newlines before `current`.
    closed spec fn cursors_ok(&self) -> bool {
        &&& self.source@.len() < usize::MAX
        &&& self.start <= self.current <= self.source@.len()
        &&& self.line == 1 + newlines(self.source@.take(self.current as int))
    }

    /// A scanner over an empty source.
    pub fn new() -> (r: Scanner)
        ensures
            r.wf(),
            r.source_view() == Seq::<char>::empty(),
            r.tokens_view() == Seq::<TokenView>::empty(),
            r.errors_view() == Seq::<LexErrorView>::empty(),
    {
        let r = Scanner {
            source: Vec::new(),
            tokens: Vec::new(),
            errors: Vec::new(),
            start: 0,
            current: 0,
            line: 1,
        };
        assert(r.tokens_view() =~= Seq::<TokenView>::empty());
        assert(r.errors_view() =~= Seq::<LexErrorView>::empty());
        r
    }

    /// A scanner over the characters of `source`.
    pub fn from(source: &str) -> (r: Scanner)
        requires
            source@.len() < usize::MAX,
        ensures
            r.wf(),
            r.source_view() == source@,
            r.tokens_view() == Seq::<TokenView>::empty(),
            r.errors_view() == Seq::<LexErrorView>::empty(),
    {
        let mut chars: Vec<char> = Vec::new();
        for c in it: source.chars()
            invariant
                chars@ == it.seq().take(it.index() as int),
        {
            chars.push(c);
        }
        let r = Scanner {
            source: chars,
            tokens: Vec::new(),
            errors: Vec::new(),
            start: 0,
            current: 0,
            line: 1,
        };
        assert(r.tokens_view() =~= Seq::<TokenView>::empty());
        assert(r.errors_view() =~= Seq::<LexErrorView>::empty());
        r
    }

    /// Whether all of the source has been read.
    fn at_end(&self) -> (r: bool)
        ensures
            r == (self.current >= self.source@.len()),
    {
        self.current >= self.source.len()
    }

    /// The next unread character, or `'\0'` at the end.
    fn peek(&self) -> (r: char)
        ensures
            r == if self.current < self.source@.len() {
                self.source@[self.current as int]
            } else {
                '\0'
            },
    {
        if self.at_end() {
            '\0'
        } else {
            self.source[self.current]
        }
    }

    /// The character after the next one, or `'\0'` past the end.
    fn peek_next(&self) -> (r: char)
        requires
            self.cursors_ok(),
        ensures
            r == if self.current + 1 < self.source@.len() {
                self.source@[self.current + 1]
            } else {
                '\0'
            },
    {
        if self.current + 1 >= self.source.len() {
            '\0'
        } else {
            self.source[self.current + 1]
        }
    }

    /// Reads the next character, counting it when it ends a line; at the end of
    /// the source there is none, and the scanner stays as it was.
    fn advance(&mut self) -> (r: Option<char>)
        requires
            old(self).cursors_ok(),
        ensures
            final(self).cursors_ok(),
            old(self).current >= old(self).source@.len() ==> r is None && *final(self) == *old(
                self,
            ),
            old(self).current < old(self).source@.len() ==> {
                &&& r == Some(old(self).source@[old(self).current as int])
                &&& final(self).current == old(self).current + 1
                &&& final(self).line == old(self).line + if r == Some('\n') {
                    1int
                } else {
                    0int
                }
                &&& final(self).source == old(self).source
                &&& final(self).tokens == old(self).tokens
                &&& final(self).errors == old(self).errors
                &&& final(self).start == old(self).start
            },
    {
        if self.at_end() {
            return None;
        }
        let c = self.source[self.current];
        proof {
            let s = self.source@;
            let i = self.current as int;
            assert(s.take(i + 1) =~= s.take(i).push(c));
            lemma_newlines_push(s.take(i), c);
            lemma_newlines_bound(s.take(i));
        }
        self.current = self.current + 1;
        if c == '\n' {
            self.line = self.line + 1;
        }
        Some(c)
    }

    /// Reads the next character where it is `expected`.
    fn match_char(&mut self, expected: char) -> (r: bool)
        requires
            old(self).cursors_ok(),
        ensures
            final(self).cursors_ok(),
            r == (old(self).current < old(self).source@.len()
                && old(self).source@[old(self).current as int] == expected),
            final(self).current == old(self).current + if r {
                1int
            } else {
                0int
            },
            final(self).source == old(self).source,
            final(self).tokens == old(self).tokens,
            final(self).errors == old(self).errors,
            final(self).start == old(self).start,
    {
        if self.at_end() || self.source[self.current] != expected {
            return false;
        }
        self.advance();
        true
    }

    /// The source text from `from` up to `to`.
    fn text(&self, from: usize, to: usize) -> (r: String)
        requires
            from <= to <= self.source@.len(),
        ensures
            r@ == self.source@.subrange(from as int, to as int),
    {
        let mut r = String::new();
        let mut i: usize = from;
        while i < to
            invariant
                from <= i <= to <= self.source@.len(),
                r@ == self.source@.subrange(from as int, i as int),
            decreases to - i,
        {
            push_char(&mut r, self.source[i]);
            i = i + 1;
            assert(r@ =~= self.source@.subrange(from as int, i as int));
        }
        r
    }

    /// Adds a token of the given kind whose lexeme is the text read since `start`.
    fn add_token(&mut self, kind: TokenType, literal: Literal, line: usize)
        requires
            old(self).start <= old(self).current <= old(self).source@.len(),
        ensures
            final(self).tokens_view() == old(self).tokens_view().push(
                TokenView {
                    kind,
                    lexeme: old(self).source@.subrange(
                        old(self).start as int,
                        old(self).current as int,
                    ),
                    literal: literal@,
                    line: line as nat,
                },
            ),
            final(self).source == old(self).source,
            final(self).errors == old(self).errors,
            final(self).start == old(self).start,
            final(self).current == old(self).current,
            final(self).line == old(self).line,
    {
        let lexeme = self.text(self.start, self.current);
        let t = Token::new(kind, lexeme, literal, line);
        let ghost before = self.tokens@;
        self.tokens.push(t);
        assert(token_views(self.tokens@) =~= token_views(before).push(t@));
    }

    /// Records an error.
    fn add_error(&mut self, e: LexError)
        ensures
            final(self).errors_view() == old(self).errors_view().push(e@),
            final(self).source == old(self).source,
            final(self).tokens == old(self).tokens,
            final(self).start == old(self).start,
            final(self).current == old(self).current,
            final(self).line == old(self).line,
    {
        let ghost before = self.errors@;
        self.errors.push(e);
        assert(error_views(self.errors@) =~= error_views(before).push(e@));
    }

    /// Reads the rest of a string literal whose opening quote was just read.
    fn string(&mut self)
        requires
            old(self).cursors_ok(),
            old(self).current == old(self).start + 1,
            old(self).source@[old(self).start as int] == '"',
        ensures
            step_done(*old(self), *final(self), old(self).line as nat),
    {
        let line = self.line;
        let ghost s = self.source@;
        let ghost from = self.start + 1;
        while self.peek() != '"' && !self.at_end()
            invariant
                self.cursors_ok(),
                self.source@ == s,
                self.start == old(self).start,
                from == self.start + 1,
                from <= self.current,
                self.tokens == old(self).tokens,
                self.errors == old(self).errors,
                text_run(s, from) == (self.current - from) + text_run(s, self.current as int),
            decreases s.len() - self.current,
        {
            self.advance();
        }
        if self.at_end() {
            self.add_error(LexError::UnterminatedString { line });
        } else {
            self.advance();
            let content = self.text(self.start + 1, self.current - 1);
            self.add_token(TokenType::String, Literal::String(content), line);
        }
        proof {
            let out = lex_one(s, self.start as int, old(self).line as nat).1;
            assert(self.tokens_view() =~= old(self).tokens_view() + emitted_tokens(out));
            assert(self.errors_view() =~= old(self).errors_view() + emitted_errors(out));
        }
    }

    /// Reads the rest of a number whose first digit was just read.
    fn number(&mut self)
        requires
            old(self).cursors_ok(),
            old(self).current == old(self).start + 1,
            is_digit(old(self).source@[old(self).start as int]),
        ensures
            step_done(*old(self), *final(self), old(self).line as nat),
    {
        let ghost s = self.source@;
        let ghost from = self.start + 1;
        while digit(self.peek())
            invariant
                self.cursors_ok(),
                self.source@ == s,
                self.start == old(self).start,
                self.line == old(self).line,
                from == self.start + 1,
                from <= self.current,
                self.tokens == old(self).tokens,
                self.errors == old(self).errors,
                digit_run(s, from) == (self.current - from) + digit_run(s, self.current as int),
            decreases s.len() - self.current,
        {
            self.advance();
        }
        if self.peek() == '.' && digit(self.peek_next()) {
            self.advance();
            let ghost frac = self.current as int;
            while digit(self.peek())
                invariant
                    self.cursors_ok(),
                    self.source@ == s,
                    self.start == old(self).start,
                    self.line == old(self).line,
                    frac <= self.current,
                    self.tokens == old(self).tokens,
                    self.errors == old(self).errors,
                    digit_run(s, frac) == (self.current - frac) + digit_run(s, self.current as int),
                decreases s.len() - self.current,
            {
                self.advance();
            }
        }
        let numeral = self.text(self.start, self.current);
        let line = self.line;
        self.add_token(TokenType::Number, Literal::Number(numeral), line);
        proof {
            let out = lex_one(s, self.start as int, old(self).line as nat).1;
            assert(self.tokens_view() =~= old(self).tokens_view() + emitted_tokens(out));
            assert(self.errors_view() =~= old(self).errors_view() + emitted_errors(out));
        }
    }

    /// Reads the rest of an identifier or reserved word whose first character was
    /// just read.
    fn identifier(&mut self)
        requires
            old(self).cursors_ok(),
            old(self).current == old(self).start + 1,
            is_ident_start(old(self).source@[old(self).start as int]),
        ensures
            step_done(*old(self), *final(self), old(self).line as nat),
    {
        let ghost s = self.source@;
        let ghost from = self.start + 1;
        while ident_part(self.peek())
            invariant
                self.cursors_ok(),
                self.source@ == s,
                self.start == old(self).start,
                self.line == old(self).line,
                from == self.start + 1,
                from <= self.current,
                self.tokens == old(self).tokens,
                self.errors == old(self).errors,
                ident_run(s, from) == (self.current - from) + ident_run(s, self.current as int),
            decreases s.len() - self.current,
        {
            self.advance();
        }
        let kind = match keyword(&self.source.as_slice()[self.start..self.current]) {
            Some(k) => k,
            None => TokenType::Identifier,
        };
        let line = self.line;
        self.add_token(kind, Literal::Nothing, line);
        proof {
            let out = lex_one(s, self.start as int, old(self).line as nat).1;
            assert(self.tokens_view() =~= old(self).tokens_view() + emitted_tokens(out));
            assert(self.errors_view() =~= old(self).errors_view() + emitted_errors(out));
        }
    }

    /// Skips the rest of a line comment whose `//` was just read.
    fn comment(&mut self)
        requires
            old(self).cursors_ok(),
            old(self).current == old(self).start + 2,
            old(self).source@[old(self).start as int] == '/',
            old(self).source@[old(self).start + 1] == '/',
        ensures
            step_done(*old(self), *final(self), old(self).line as nat),
    {
        let ghost s = self.source@;
        let ghost from = self.start + 2;
        while self.peek() != '\n' && !self.at_end()
            invariant
                self.cursors_ok(),
                self.source@ == s,
                self.start == old(self).start,
                from == self.start + 2,
                from <= self.current,
                self.tokens == old(self).tokens,
                self.errors == old(self).errors,
                line_run(s, from) == (self.current - from) + line_run(s, self.current as int),
            decreases s.len() - self.current,
        {
            self.advance();
        }
        proof {
            let out = lex_one(s, self.start as int, old(self).line as nat).1;
            assert(self.tokens_view() =~= old(self).tokens_view() + emitted_tokens(out));
            assert(self.errors_view() =~= old(self).errors_view() + emitted_errors(out));
        }
    }

    /// Reads one token, or one unit of whitespace or comment, or one erroneous
    /// character or unterminated string, from `start`.
    fn scan_token(&mut self)
        requires
            old(self).cursors_ok(),
            old(self).start == old(self).current,
            old(self).current < old(self).source@.len(),
        ensures
            step_done(*old(self), *final(self), old(self).line as nat),
            final(self).line == old(self).line + newlines(
                old(self).source@.subrange(old(self).current as int, final(self).current as int),
            ),
    {
        let line = self.line;
        let c = match self.advance() {
            Some(c) => c,
            None => return,
        };
        match c {
            '(' => self.add_token(TokenType::LeftParen, Literal::Nothing, line),
            ')' => self.add_token(TokenType::RightParen, Literal::Nothing, line),
            '{' => self.add_token(TokenType::LeftBrace, Literal::Nothing, line),
            '}' => self.add_token(TokenType::RightBrace, Literal::Nothing, line),
            ',' => self.add_token(TokenType::Comma, Literal::Nothing, line),
            '.' => self.add_token(TokenType::Dot, Literal::Nothing, line),
            '-' => self.add_token(TokenType::Minus, Literal::Nothing, line),
            '+' => self.add_token(TokenType::Plus, Literal::Nothing, line),
            ';' => self.add_token(TokenType::SemiColon, Literal::Nothing, line),
            '*' => self.add_token(TokenType::Star, Literal::Nothing, line),
            '!' => {
                let kind = if self.match_char('=') {
                    TokenType::BangEqual
                } else {
                    TokenType::Bang
                };
                self.add_token(kind, Literal::Nothing, line);
            },
            '=' => {
                let kind = if self.match_char('=') {
                    TokenType::EqualEqual
                } else {
                    TokenType::Equal
                };
                self.add_token(kind, Literal::Nothing, line);
            },
            '<' => {
                let kind = if self.match_char('=') {
                    TokenType::LessEqual
                } else {
                    TokenType::Less
                };
                self.add_token(kind, Literal::Nothing, line);
            },
            '>' => {
                let kind = if self.match_char('=') {
                    TokenType::GreaterEqual
                } else {
                    TokenType::Greater
                };
                self.add_token(kind, Literal::Nothing, line);
            },
            '/' => {
                if self.match_char('/') {
                    self.comment();
                } else {
                    self.add_token(TokenType::Slash, Literal::Nothing, line);
                }
            },
            ' ' | '\r' | '\t' | '\n' => {},
            '"' => self.string(),
            _ => {
                if digit(c) {
                    self.number();
                } else if ident_start(c) {
                    self.identifier();
                } else {
                    self.add_error(LexError::UnexpectedCharacter { character: c, line });
                }
            },
        }
        proof {
            let s = self.source@;
            let out = lex_one(s, old(self).start as int, old(self).line as nat).1;
            assert(self.tokens_view() =~= old(self).tokens_view() + emitted_tokens(out));
            assert(self.errors_view() =~= old(self).errors_view() + emitted_errors(out));
            lemma_newlines_split(s, old(self).current as int, self.current as int);
        }
    }

    /// Scans the whole source from its beginning: afterwards the scanner holds
    /// the source's tokens, ending in the end-of-input token, and its errors.
    pub fn scan_tokens(&mut self)
        requires
            old(self).wf(),
        ensures
            final(self).wf(),
            final(self).source_view() == old(self).source_view(),
            final(self).tokens_view() == tokens_of(old(self).source_view()),
            final(self).errors_view() == errors_of(old(self).source_view()),
    {
        let ghost s = self.source@;
        self.tokens = Vec::new();
        self.errors = Vec::new();
        self.start = 0;
        self.current = 0;
        self.line = 1;
        proof {
            assert(s.take(0) =~= Seq::<char>::empty());
            assert(self.tokens_view() + scan_from(s, 0, 1).0 =~= tokens_of(s));
            assert(self.errors_view() + scan_from(s, 0, 1).1 =~= errors_of(s));
        }
        while !self.at_end()
            invariant
                self.cursors_ok(),
                self.source@ == s,
                self.tokens_view() + scan_from(s, self.current as int, self.line as nat).0
                    == tokens_of(s),
                self.errors_view() + scan_from(s, self.current as int, self.line as nat).1
                    == errors_of(s),
            decreases s.len() - self.current,
        {
            self.start = self.current;
            let ghost before = *self;
            self.scan_token();
            proof {
                let (w, out) = lex_one(s, before.current as int, before.line as nat);
                let rest = scan_from(s, self.current as int, self.line as nat);
                assert(scan_from(s, before.current as int, before.line as nat) == (
                    emitted_tokens(out) + rest.0,
                    emitted_errors(out) + rest.1,
                ));
                assert(before.tokens_view() + (emitted_tokens(out) + rest.0) =~= self.tokens_view()
                    + rest.0);
                assert(before.errors_view() + (emitted_errors(out) + rest.1) =~= self.errors_view()
                    + rest.1);
            }
        }
        let line = self.line;
        self.start = self.current;
        self.add_token(TokenType::Eof, Literal::Nothing, line);
        proof {
            assert(s.subrange(self.current as int, self.current as int) =~= Seq::<char>::empty());
        }
    }

    /// The tokens found.
    pub fn tokens(&self) -> (r: &Vec<Token>)
        ensures
            token_views(r@) == self.tokens_view(),
    {
        &self.tokens
    }

    /// The errors found.
    pub fn errors(&self) -> (r: &Vec<LexError>)
        ensures
            error_views(r@) == self.errors_view(),
    {
        &self.errors
    }

    /// Gives up the scanner for the tokens and errors it holds.
    pub fn into_results(self) -> (r: (Vec<Token>, Vec<LexError>))
        ensures
            token_views(r.0@) == self.tokens_view(),
            error_views(r.1@) == self.errors_view(),
    {
        (self.tokens, self.errors)
    }
}

/// Scans `source`: its tokens, ending in the end-of-input token, and its lexical
/// errors in the order they were met.
pub fn scan(source: &str) -> (r: (Vec<Token>, Vec<LexError>))
    requires
        source@.len() < usize::MAX,
    ensures
        token_views(r.0@) == tokens_of(source@),
        error_views(r.1@) == errors_of(source@),
{
    let mut scanner = Scanner::from(source);
    scanner.scan_tokens();
    scanner.into_results()
}

/// Scans `lox` and holds it to having no lexical error: its tokens where it has
/// none, else all of its errors.
pub fn run(lox: &str) -> (r: Result<Vec<Token>, Vec<LexError>>)
    requires
        lox@.len() < usize::MAX,
    ensures
        r is Ok <==> errors_of(lox@).len() == 0,
        r matches Ok(ts) ==> token_views(ts@) == tokens_of(lox@),
        r matches Err(es) ==> error_views(es@) == errors_of(lox@),
{
    let (tokens, errors) = scan(lox);
    if errors.len() == 0 {
        Ok(tokens)
    } else {
        Err(errors)
    }
}

} // verus!

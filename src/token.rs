//! Tokens, their kinds and literal values, lexical errors, and the table of
//! reserved words.
use vstd::prelude::*;
use crate::chars::push_char;

verus! {

/// The closed set of token kinds.
#[derive(Clone, Copy, Debug, PartialEq, Eq, Structural)]
pub enum TokenType {
    // Single-character tokens.
    LeftParen,
    RightParen,
    LeftBrace,
    RightBrace,
    Comma,
    Dot,
    Minus,
    Plus,
    SemiColon,
    Slash,
    Star,
    // One or two character tokens.
    Bang,
    BangEqual,
    Equal,
    EqualEqual,
    Greater,
    GreaterEqual,
    Less,
    LessEqual,
    // Literals.
    Identifier,
    String,
    Number,
    // Keywords.
    And,
    Class,
    Else,
    False,
    Fun,
    For,
    If,
    Nil,
    Or,
    Print,
    Return,
    Super,
    This,
    True,
    Var,
    While,
    Eof,
}

/// The printable name of a token kind.
pub open spec fn kind_name(k: TokenType) -> Seq<char> {
    match k {
        TokenType::LeftParen => "LeftParen"@,
        TokenType::RightParen => "RightParen"@,
        TokenType::LeftBrace => "LeftBrace"@,
        TokenType::RightBrace => "RightBrace"@,
        TokenType::Comma => "Comma"@,
        TokenType::Dot => "Dot"@,
        TokenType::Minus => "Minus"@,
        TokenType::Plus => "Plus"@,
        TokenType::SemiColon => "SemiColon"@,
        TokenType::Slash => "Slash"@,
        TokenType::Star => "Star"@,
        TokenType::Bang => "Bang"@,
        TokenType::BangEqual => "BangEqual"@,
        TokenType::Equal => "Equal"@,
        TokenType::EqualEqual => "EqualEqual"@,
        TokenType::Greater => "Greater"@,
        TokenType::GreaterEqual => "GreaterEqual"@,
        TokenType::Less => "Less"@,
        TokenType::LessEqual => "LessEqual"@,
        TokenType::Identifier => "Identifier"@,
        TokenType::String => "String"@,
        TokenType::Number => "Number"@,
        TokenType::And => "And"@,
        TokenType::Class => "Class"@,
        TokenType::Else => "Else"@,
        TokenType::False => "False"@,
        TokenType::Fun => "Fun"@,
        TokenType::For => "For"@,
        TokenType::If => "If"@,
        TokenType::Nil => "Nil"@,
        TokenType::Or => "Or"@,
        TokenType::Print => "Print"@,
        TokenType::Return => "Return"@,
        TokenType::Super => "Super"@,
        TokenType::This => "This"@,
        TokenType::True => "True"@,
        TokenType::Var => "Var"@,
        TokenType::While => "While"@,
        TokenType::Eof => "Eof"@,
    }
}

impl TokenType {
    /// The kind's name, as printed in listings of tokens.
    pub fn name(&self) -> (r: &'static str)
        ensures
            r@ == kind_name(*self),
    {
        match self {
            TokenType::LeftParen => "LeftParen",
            TokenType::RightParen => "RightParen",
            TokenType::LeftBrace => "LeftBrace",
            TokenType::RightBrace => "RightBrace",
            TokenType::Comma => "Comma",
            TokenType::Dot => "Dot",
            TokenType::Minus => "Minus",
            TokenType::Plus => "Plus",
            TokenType::SemiColon => "SemiColon",
            TokenType::Slash => "Slash",
            TokenType::Star => "Star",
            TokenType::Bang => "Bang",
            TokenType::BangEqual => "BangEqual",
            TokenType::Equal => "Equal",
            TokenType::EqualEqual => "EqualEqual",
            TokenType::Greater => "Greater",
            TokenType::GreaterEqual => "GreaterEqual",
            TokenType::Less => "Less",
            TokenType::LessEqual => "LessEqual",
            TokenType::Identifier => "Identifier",
            TokenType::String => "String",
            TokenType::Number => "Number",
            TokenType::And => "And",
            TokenType::Class => "Class",
            TokenType::Else => "Else",
            TokenType::False => "False",
            TokenType::Fun => "Fun",
            TokenType::For => "For",
            TokenType::If => "If",
            TokenType::Nil => "Nil",
            TokenType::Or => "Or",
            TokenType::Print => "Print",
            TokenType::Return => "Return",
            TokenType::Super => "Super",
            TokenType::This => "This",
            TokenType::True => "True",
            TokenType::Var => "Var",
            TokenType::While => "While",
            TokenType::Eof => "Eof",
        }
    }
}

/// The decoded value that a token carries.
#[derive(Clone, Debug, PartialEq)]
pub enum Literal {
    /// A number, held as its decimal numeral (digits, then optionally a dot and
    /// more digits); the numeric value is the one that numeral denotes.
    Number(String),
    /// The content of a string literal, without its quotes.
    String(String),
    Nothing,
}

/// A literal value seen as plain text.
pub enum LiteralView {
    Number(Seq<char>),
    Text(Seq<char>),
    Nothing,
}

impl View for Literal {
    type V = LiteralView;

    open spec fn view(&self) -> LiteralView {
        match self {
            Literal::Number(n) => LiteralView::Number(n@),
            Literal::String(t) => LiteralView::Text(t@),
            Literal::Nothing => LiteralView::Nothing,
        }
    }
}

/// The printed form of a literal: `Number(..)`, `String(..)` or `None`.
pub open spec fn literal_text(l: LiteralView) -> Seq<char> {
    match l {
        LiteralView::Number(n) => "Number("@ + n + ")"@,
        LiteralView::Text(t) => "String("@ + t + ")"@,
        LiteralView::Nothing => "None"@,
    }
}

impl Literal {
    /// The printed form of the literal.
    pub fn describe(&self) -> (r: String)
        ensures
            r@ == literal_text(self@),
    {
        match self {
            Literal::Number(n) => String::from_str("Number(").concat(n.as_str()).concat(")"),
            Literal::String(t) => String::from_str("String(").concat(t.as_str()).concat(")"),
            Literal::Nothing => String::from_str("None"),
        }
    }
}

/// One token: its kind, the source text it was read from, its literal value
/// and the line (counted from 1) of its first character.
#[derive(Clone, Debug, PartialEq)]
pub struct Token {
    pub token_type: TokenType,
    pub lexeme: String,
    pub literal: Literal,
    pub line: usize,
}

/// A token seen as plain values.
pub struct TokenView {
    pub kind: TokenType,
    pub lexeme: Seq<char>,
    pub literal: LiteralView,
    pub line: nat,
}

impl View for Token {
    type V = TokenView;

    open spec fn view(&self) -> TokenView {
        TokenView {
            kind: self.token_type,
            lexeme: self.lexeme@,
            literal: self.literal@,
            line: self.line as nat,
        }
    }
}

/// The printed form of a token: `[kind] => lexeme as literal`.
pub open spec fn token_text(t: TokenView) -> Seq<char> {
    "["@ + kind_name(t.kind) + "] => "@ + t.lexeme + " as "@ + literal_text(t.literal)
}

impl Token {
    pub fn new(token_type: TokenType, lexeme: String, literal: Literal, line: usize) -> (r: Token)
        ensures
            r.token_type == token_type,
            r.lexeme == lexeme,
            r.literal == literal,
            r.line == line,
    {
        Token { token_type, lexeme, literal, line }
    }

    /// The printed form of the token.
    pub fn describe(&self) -> (r: String)
        ensures
            r@ == token_text(self@),
    {
        let lit = self.literal.describe();
        String::from_str("[").concat(self.token_type.name()).concat("] => ").concat(
            self.lexeme.as_str(),
        ).concat(" as ").concat(lit.as_str())
    }
}

/// A lexical error. Neither kind stops the scan.
#[derive(Clone, Copy, Debug, PartialEq, Eq, Structural)]
pub enum LexError {
    /// The input ended inside a string literal that began on `line`.
    UnterminatedString { line: usize },
    /// `character` matches no rule of the lexical grammar.
    UnexpectedCharacter { character: char, line: usize },
}

/// A lexical error seen as plain values.
pub enum LexErrorView {
    UnterminatedString { line: nat },
    UnexpectedCharacter { character: char, line: nat },
}

impl View for LexError {
    type V = LexErrorView;

    open spec fn view(&self) -> LexErrorView {
        match *self {
            LexError::UnterminatedString { line } => LexErrorView::UnterminatedString {
                line: line as nat,
            },
            LexError::UnexpectedCharacter { character, line } => LexErrorView::UnexpectedCharacter {
                character,
                line: line as nat,
            },
        }
    }
}

impl LexErrorView {
    /// The line on which the error was met.
    pub open spec fn line(self) -> nat {
        match self {
            LexErrorView::UnterminatedString { line } => line,
            LexErrorView::UnexpectedCharacter { line, .. } => line,
        }
    }
}

/// The views of a sequence of tokens.
pub open spec fn token_views(ts: Seq<Token>) -> Seq<TokenView> {
    ts.map_values(|t: Token| t@)
}

/// The views of a sequence of errors.
pub open spec fn error_views(es: Seq<LexError>) -> Seq<LexErrorView> {
    es.map_values(|e: LexError| e@)
}

/// The reserved words and the kinds they stand for.
pub open spec fn keyword_of(w: Seq<char>) -> Option<TokenType> {
    if w == seq!['a', 'n', 'd'] {
        Some(TokenType::And)
    } else if w == seq!['c', 'l', 'a', 's', 's'] {
        Some(TokenType::Class)
    } else if w == seq!['e', 'l', 's', 'e'] {
        Some(TokenType::Else)
    } else if w == seq!['f', 'a', 'l', 's', 'e'] {
        Some(TokenType::False)
    } else if w == seq!['f', 'o', 'r'] {
        Some(TokenType::For)
    } else if w == seq!['f', 'u', 'n'] {
        Some(TokenType::Fun)
    } else if w == seq!['i', 'f'] {
        Some(TokenType::If)
    } else if w == seq!['n', 'i', 'l'] {
        Some(TokenType::Nil)
    } else if w == seq!['o', 'r'] {
        Some(TokenType::Or)
    } else if w == seq!['p', 'r', 'i', 'n', 't'] {
        Some(TokenType::Print)
    } else if w == seq!['r', 'e', 't', 'u', 'r', 'n'] {
        Some(TokenType::Return)
    } else if w == seq!['s', 'u', 'p', 'e', 'r'] {
        Some(TokenType::Super)
    } else if w == seq!['t', 'h', 'i', 's'] {
        Some(TokenType::This)
    } else if w == seq!['t', 'r', 'u', 'e'] {
        Some(TokenType::True)
    } else if w == seq!['v', 'a', 'r'] {
        Some(TokenType::Var)
    } else if w == seq!['w', 'h', 'i', 'l', 'e'] {
        Some(TokenType::While)
    } else {
        None
    }
}

/// Compares a slice of characters with a word.
fn same_chars(a: &[char], b: &[char]) -> (r: bool)
    ensures
        r == (a@ == b@),
{
    if a.len() != b.len() {
        return false;
    }
    let mut i: usize = 0;
    while i < a.len()
        invariant
            a@.len() == b@.len(),
            i <= a@.len(),
            forall|j: int| 0 <= j < i ==> a@[j] == b@[j],
        decreases a@.len() - i,
    {
        if a[i] != b[i] {
            return false;
        }
        i = i + 1;
    }
    assert(a@ =~= b@);
    true
}

/// Looks a word up in the table of reserved words.
pub fn keyword(w: &[char]) -> (r: Option<TokenType>)
    ensures
        r == keyword_of(w@),
{
    if same_chars(w, &['a', 'n', 'd']) {
        Some(TokenType::And)
    } else if same_chars(w, &['c', 'l', 'a', 's', 's']) {
        Some(TokenType::Class)
    } else if same_chars(w, &['e', 'l', 's', 'e']) {
        Some(TokenType::Else)
    } else if same_chars(w, &['f', 'a', 'l', 's', 'e']) {
        Some(TokenType::False)
    } else if same_chars(w, &['f', 'o', 'r']) {
        Some(TokenType::For)
    } else if same_chars(w, &['f', 'u', 'n']) {
        Some(TokenType::Fun)
    } else if same_chars(w, &['i', 'f']) {
        Some(TokenType::If)
    } else if same_chars(w, &['n', 'i', 'l']) {
        Some(TokenType::Nil)
    } else if same_chars(w, &['o', 'r']) {
        Some(TokenType::Or)
    } else if same_chars(w, &['p', 'r', 'i', 'n', 't']) {
        Some(TokenType::Print)
    } else if same_chars(w, &['r', 'e', 't', 'u', 'r', 'n']) {
        Some(TokenType::Return)
    } else if same_chars(w, &['s', 'u', 'p', 'e', 'r']) {
        Some(TokenType::Super)
    } else if same_chars(w, &['t', 'h', 'i', 's']) {
        Some(TokenType::This)
    } else if same_chars(w, &['t', 'r', 'u', 'e']) {
        Some(TokenType::True)
    } else if same_chars(w, &['v', 'a', 'r']) {
        Some(TokenType::Var)
    } else if same_chars(w, &['w', 'h', 'i', 'l', 'e']) {
        Some(TokenType::While)
    } else {
        None
    }
}

} // verus!

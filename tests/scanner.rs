use rlox::scanner::{run, scan, Scanner};
use rlox::token::{keyword, LexError, Literal, Token, TokenType};

fn kinds(tokens: &[Token]) -> Vec<TokenType> {
    tokens.iter().map(|t| t.token_type).collect()
}

fn number_value(t: &Token) -> f64 {
    match &t.literal {
        Literal::Number(text) => text.parse::<f64>().unwrap(),
        other => panic!("not a number literal: {:?}", other),
    }
}

#[test]
fn test_advance() {
    let program: &str = "var variable = 5;
            class Class {
                this.variable = 4
            }";
    let mut scanner = Scanner::from(program);
    scanner.scan_tokens();
    for x in scanner.tokens() {
        println!("{}", x.describe())
    }
    assert_eq!(
        kinds(scanner.tokens()),
        vec![
            TokenType::Var,
            TokenType::Identifier,
            TokenType::Equal,
            TokenType::Number,
            TokenType::SemiColon,
            TokenType::Class,
            TokenType::Identifier,
            TokenType::LeftBrace,
            TokenType::This,
            TokenType::Dot,
            TokenType::Identifier,
            TokenType::Equal,
            TokenType::Number,
            TokenType::RightBrace,
            TokenType::Eof,
        ]
    );
    assert!(scanner.errors().is_empty());
}

#[test]
fn empty_source_gives_only_eof() {
    let (tokens, errors) = scan("");
    assert_eq!(tokens.len(), 1);
    assert_eq!(tokens[0].token_type, TokenType::Eof);
    assert_eq!(tokens[0].lexeme, "");
    assert_eq!(tokens[0].literal, Literal::Nothing);
    assert_eq!(tokens[0].line, 1);
    assert!(errors.is_empty());
}

#[test]
fn last_token_is_eof_with_empty_lexeme() {
    for src in ["", "1 + 2", "\"open", "@@", "x\n\ny", "// only a comment"] {
        let (tokens, _) = scan(src);
        let last = tokens.last().unwrap();
        assert_eq!(last.token_type, TokenType::Eof);
        assert_eq!(last.lexeme, "");
        assert_eq!(
            tokens.iter().filter(|t| t.token_type == TokenType::Eof).count(),
            1
        );
    }
}

#[test]
fn blanks_and_comments_give_only_eof() {
    let (tokens, errors) = scan("  \t\r\n// a comment ( ) 12\n   // another\n");
    assert_eq!(kinds(&tokens), vec![TokenType::Eof]);
    assert_eq!(tokens[0].line, 4);
    assert!(errors.is_empty());
}

#[test]
fn lines_count_newlines() {
    let (tokens, errors) = scan("a\nb\n\nc @\n\"x\ny\" d\n\n");
    let lines: Vec<usize> = tokens.iter().map(|t| t.line).collect();
    assert_eq!(lines, vec![1, 2, 4, 5, 6, 8]);
    assert_eq!(errors, vec![LexError::UnexpectedCharacter { character: '@', line: 4 }]);
    for w in lines.windows(2) {
        assert!(w[0] <= w[1]);
    }
}

#[test]
fn identifiers_and_keywords() {
    let (tokens, errors) = scan("foo while _x1 classy class");
    assert_eq!(
        kinds(&tokens),
        vec![
            TokenType::Identifier,
            TokenType::While,
            TokenType::Identifier,
            TokenType::Identifier,
            TokenType::Class,
            TokenType::Eof,
        ]
    );
    assert_eq!(tokens[0].lexeme, "foo");
    assert_eq!(tokens[0].literal, Literal::Nothing);
    assert_eq!(tokens[1].lexeme, "while");
    assert_eq!(tokens[2].lexeme, "_x1");
    assert!(errors.is_empty());
}

#[test]
fn every_reserved_word() {
    let words = [
        ("and", TokenType::And),
        ("class", TokenType::Class),
        ("else", TokenType::Else),
        ("false", TokenType::False),
        ("for", TokenType::For),
        ("fun", TokenType::Fun),
        ("if", TokenType::If),
        ("nil", TokenType::Nil),
        ("or", TokenType::Or),
        ("print", TokenType::Print),
        ("return", TokenType::Return),
        ("super", TokenType::Super),
        ("this", TokenType::This),
        ("true", TokenType::True),
        ("var", TokenType::Var),
        ("while", TokenType::While),
    ];
    for (w, k) in words {
        let (tokens, _) = scan(w);
        assert_eq!(tokens[0].token_type, k);
        assert_eq!(tokens[0].lexeme, w);
        let chars: Vec<char> = w.chars().collect();
        assert_eq!(keyword(&chars), Some(k));
    }
    let chars: Vec<char> = "While".chars().collect();
    assert_eq!(keyword(&chars), None);
}

#[test]
fn non_ascii_identifier() {
    let (tokens, errors) = scan("héllo ünï2");
    assert_eq!(
        kinds(&tokens),
        vec![TokenType::Identifier, TokenType::Identifier, TokenType::Eof]
    );
    assert_eq!(tokens[0].lexeme, "héllo");
    assert_eq!(tokens[1].lexeme, "ünï2");
    assert!(errors.is_empty());
}

#[test]
fn non_ascii_symbols_and_digits() {
    let (tokens, errors) = scan("x\u{663} \u{20ac} \u{663}");
    assert_eq!(kinds(&tokens), vec![TokenType::Identifier, TokenType::Eof]);
    assert_eq!(tokens[0].lexeme, "x\u{663}");
    assert_eq!(
        errors,
        vec![
            LexError::UnexpectedCharacter { character: '\u{20ac}', line: 1 },
            LexError::UnexpectedCharacter { character: '\u{663}', line: 1 },
        ]
    );
}

#[test]
fn numbers_with_and_without_fraction() {
    let (tokens, errors) = scan("1.5");
    assert_eq!(kinds(&tokens), vec![TokenType::Number, TokenType::Eof]);
    assert_eq!(tokens[0].lexeme, "1.5");
    assert_eq!(number_value(&tokens[0]), 1.5);
    assert!(errors.is_empty());

    let (tokens, errors) = scan("1.");
    assert_eq!(
        kinds(&tokens),
        vec![TokenType::Number, TokenType::Dot, TokenType::Eof]
    );
    assert_eq!(tokens[0].lexeme, "1");
    assert_eq!(number_value(&tokens[0]), 1.0);
    assert_eq!(tokens[1].lexeme, ".");
    assert!(errors.is_empty());
}

#[test]
fn number_stops_before_dot_and_name() {
    let (tokens, _) = scan("12.foo 3.25");
    assert_eq!(
        kinds(&tokens),
        vec![
            TokenType::Number,
            TokenType::Dot,
            TokenType::Identifier,
            TokenType::Number,
            TokenType::Eof,
        ]
    );
    assert_eq!(tokens[0].literal, Literal::Number("12".to_string()));
    assert_eq!(number_value(&tokens[3]), 3.25);
}

#[test]
fn strings_and_plus() {
    let (tokens, errors) = scan("\"abc\" + \"def\"");
    assert_eq!(
        kinds(&tokens),
        vec![
            TokenType::String,
            TokenType::Plus,
            TokenType::String,
            TokenType::Eof,
        ]
    );
    assert_eq!(tokens[0].lexeme, "\"abc\"");
    assert_eq!(tokens[0].literal, Literal::String("abc".to_string()));
    assert_eq!(tokens[2].literal, Literal::String("def".to_string()));
    assert!(errors.is_empty());
}

#[test]
fn var_declaration() {
    let (tokens, errors) = scan("var x = 10;");
    assert_eq!(
        kinds(&tokens),
        vec![
            TokenType::Var,
            TokenType::Identifier,
            TokenType::Equal,
            TokenType::Number,
            TokenType::SemiColon,
            TokenType::Eof,
        ]
    );
    assert_eq!(tokens[1].lexeme, "x");
    assert_eq!(number_value(&tokens[3]), 10.0);
    assert!(errors.is_empty());
}

#[test]
fn unterminated_string() {
    let (tokens, errors) = scan("\"unterminated");
    assert_eq!(kinds(&tokens), vec![TokenType::Eof]);
    assert_eq!(errors, vec![LexError::UnterminatedString { line: 1 }]);
}

#[test]
fn unterminated_string_over_lines() {
    let (tokens, errors) = scan("\"a\nb");
    assert_eq!(kinds(&tokens), vec![TokenType::Eof]);
    assert_eq!(tokens[0].line, 2);
    assert_eq!(errors, vec![LexError::UnterminatedString { line: 1 }]);
}

#[test]
fn string_over_lines_keeps_first_line() {
    let (tokens, errors) = scan("\"a\nb\" c");
    assert_eq!(
        kinds(&tokens),
        vec![TokenType::String, TokenType::Identifier, TokenType::Eof]
    );
    assert_eq!(tokens[0].line, 1);
    assert_eq!(tokens[0].literal, Literal::String("a\nb".to_string()));
    assert_eq!(tokens[1].line, 2);
    assert!(errors.is_empty());
}

#[test]
fn unexpected_character() {
    let (tokens, errors) = scan("@");
    assert_eq!(kinds(&tokens), vec![TokenType::Eof]);
    assert_eq!(errors, vec![LexError::UnexpectedCharacter { character: '@', line: 1 }]);
}

#[test]
fn scanning_goes_on_after_errors() {
    let (tokens, errors) = scan("@ 1 # x");
    assert_eq!(
        kinds(&tokens),
        vec![TokenType::Number, TokenType::Identifier, TokenType::Eof]
    );
    assert_eq!(
        errors,
        vec![
            LexError::UnexpectedCharacter { character: '@', line: 1 },
            LexError::UnexpectedCharacter { character: '#', line: 1 },
        ]
    );
}

#[test]
fn line_comment_between_numbers() {
    let (tokens, errors) = scan("1 // comment\n2");
    assert_eq!(
        kinds(&tokens),
        vec![TokenType::Number, TokenType::Number, TokenType::Eof]
    );
    assert_eq!(tokens[0].line, 1);
    assert_eq!(tokens[1].line, 2);
    assert_eq!(tokens[1].lexeme, "2");
    assert!(errors.is_empty());
}

#[test]
fn punctuation_and_operators() {
    let (tokens, errors) = scan("(){},.-+;*/ ! != = == < <= > >=");
    assert_eq!(
        kinds(&tokens),
        vec![
            TokenType::LeftParen,
            TokenType::RightParen,
            TokenType::LeftBrace,
            TokenType::RightBrace,
            TokenType::Comma,
            TokenType::Dot,
            TokenType::Minus,
            TokenType::Plus,
            TokenType::SemiColon,
            TokenType::Star,
            TokenType::Slash,
            TokenType::Bang,
            TokenType::BangEqual,
            TokenType::Equal,
            TokenType::EqualEqual,
            TokenType::Less,
            TokenType::LessEqual,
            TokenType::Greater,
            TokenType::GreaterEqual,
            TokenType::Eof,
        ]
    );
    let lexemes: Vec<&str> = tokens.iter().map(|t| t.lexeme.as_str()).collect();
    assert_eq!(
        lexemes,
        vec![
            "(", ")", "{", "}", ",", ".", "-", "+", ";", "*", "/", "!", "!=", "=", "==", "<", "<=",
            ">", ">=", ""
        ]
    );
    assert!(errors.is_empty());
}

#[test]
fn describe_forms() {
    let (tokens, _) = scan("x 10 \"hi\"");
    assert_eq!(tokens[0].describe(), "[Identifier] => x as None");
    assert_eq!(tokens[1].describe(), "[Number] => 10 as Number(10)");
    assert_eq!(tokens[2].describe(), "[String] => \"hi\" as String(hi)");
    assert_eq!(tokens[3].describe(), "[Eof] =>  as None");
    assert_eq!(TokenType::GreaterEqual.name(), "GreaterEqual");
    assert_eq!(Literal::Nothing.describe(), "None");
}

#[test]
fn token_new_keeps_fields() {
    let t = Token::new(TokenType::Number, "4".to_string(), Literal::Number("4".to_string()), 3);
    assert_eq!(t.token_type, TokenType::Number);
    assert_eq!(t.lexeme, "4");
    assert_eq!(t.line, 3);
}

#[test]
fn new_scanner_scans_to_eof() {
    let mut scanner = Scanner::new();
    scanner.scan_tokens();
    assert_eq!(kinds(scanner.tokens()), vec![TokenType::Eof]);
    scanner.scan_tokens();
    assert_eq!(kinds(scanner.tokens()), vec![TokenType::Eof]);
}

#[test]
fn run_accepts_or_reports() {
    let ok = run("print 1;").unwrap();
    assert_eq!(
        kinds(&ok),
        vec![TokenType::Print, TokenType::Number, TokenType::SemiColon, TokenType::Eof]
    );
    let err = run("print ~;").unwrap_err();
    assert_eq!(err, vec![LexError::UnexpectedCharacter { character: '~', line: 1 }]);
}

#[test]
fn words_inside_text_take_the_longest_run() {
    let (tokens, errors) = scan("(orchid or Or_2+while)");
    assert_eq!(
        kinds(&tokens),
        vec![
            TokenType::LeftParen,
            TokenType::Identifier,
            TokenType::Or,
            TokenType::Identifier,
            TokenType::Plus,
            TokenType::While,
            TokenType::RightParen,
            TokenType::Eof,
        ]
    );
    assert_eq!(tokens[1].lexeme, "orchid");
    assert_eq!(tokens[3].lexeme, "Or_2");
    assert!(errors.is_empty());
}

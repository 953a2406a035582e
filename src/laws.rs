//! Laws of the scan, proved over the model that the scanner meets.
use vstd::prelude::*;
use crate::chars::{is_digit, is_ident_part, is_ident_start};
use crate::lexicon::{
    lemma_newlines_push, pair_kind, single_kind, char_at_is, lemma_newlines_split, eof_token, errors_of, ident_run, is_blank, lemma_lex_one_width,
    lemma_line_run_bound, lemma_newlines_concat, lex_one, line_run, newlines, scan_from, tokens_of, Lexed,
};
use crate::token::{keyword_of, LexErrorView, LiteralView, TokenType, TokenView};

verus! {

/// A token of one step is never end-of-input, stands on the step's line and has
/// the characters read as its lexeme.
proof fn lemma_lex_one_token(s: Seq<char>, pos: int, line: nat)
    requires
        0 <= pos < s.len(),
    ensures
        lex_one(s, pos, line).1 matches Lexed::Token(t) ==> {
            &&& t.kind != TokenType::Eof
            &&& t.line == line
            &&& t.lexeme == s.subrange(pos, pos + lex_one(s, pos, line).0)
        },
        lex_one(s, pos, line).1 matches Lexed::Error(e) ==> {
            &&& e.line() == line
            &&& e matches LexErrorView::UnexpectedCharacter { character, .. } ==> character
                == s[pos]
            &&& e is UnterminatedString ==> s[pos] == '"'
        },
{
}

/// What a scan from `pos` on `line` yields, in bounds: at least the final
/// end-of-input token, on the line reached at the end; no end-of-input token
/// before it; token lines and error lines start at `line` and never decrease.
#[verifier::rlimit(40)]
proof fn lemma_scan_from_shape(s: Seq<char>, pos: int, line: nat)
    requires
        0 <= pos <= s.len(),
    ensures
        ({
            let (ts, es) = scan_from(s, pos, line);
            &&& ts.len() >= 1
            &&& ts.last() == eof_token(line + newlines(s.subrange(pos, s.len() as int)))
            &&& forall|i: int| 0 <= i < ts.len() - 1 ==> ts[i].kind != TokenType::Eof
            &&& forall|i: int| 0 <= i < ts.len() - 1 ==> ts[i].lexeme.len() > 0
            &&& forall|i: int| 0 <= i < ts.len() ==> line <= #[trigger] ts[i].line
            &&& forall|i: int, j: int| 0 <= i <= j < ts.len() ==> ts[i].line <= ts[j].line
            &&& forall|i: int| 0 <= i < es.len() ==> line <= #[trigger] es[i].line()
            &&& forall|i: int, j: int| 0 <= i <= j < es.len() ==> es[i].line() <= es[j].line()
        }),
    decreases s.len() - pos,
{
    if pos == s.len() {
        assert(s.subrange(pos, pos) =~= Seq::<char>::empty());
    } else {
        lemma_lex_one_width(s, pos, line);
        lemma_lex_one_token(s, pos, line);
        let (w, out) = lex_one(s, pos, line);
        let next = pos + w;
        let line2 = line + newlines(s.subrange(pos, next));
        lemma_scan_from_shape(s, next, line2);
        assert(s.subrange(pos, s.len() as int) =~= s.subrange(pos, next) + s.subrange(
            next,
            s.len() as int,
        ));
        lemma_newlines_concat(s.subrange(pos, next), s.subrange(next, s.len() as int));
        let rest = scan_from(s, next, line2);
        let (ts, es) = scan_from(s, pos, line);
        match out {
            Lexed::Token(t) => {
                assert(ts == seq![t] + rest.0);
                assert(es == rest.1);
                assert(forall|i: int| 1 <= i < ts.len() ==> ts[i] == rest.0[i - 1]);
            },
            Lexed::Skip => {
                assert(ts == rest.0);
                assert(es == rest.1);
            },
            Lexed::Error(e) => {
                assert(ts == rest.0);
                assert(es == seq![e] + rest.1);
                assert(forall|i: int| 1 <= i < es.len() ==> es[i] == rest.1[i - 1]);
            },
        }
    }
}

/// Every scan yields at least one token, the last is an end-of-input token with
/// an empty lexeme, and every token before it is of another kind and has a
/// non-empty lexeme.
pub proof fn lemma_ends_with_eof(s: Seq<char>)
    ensures
        tokens_of(s).len() >= 1,
        tokens_of(s).last().kind == TokenType::Eof,
        tokens_of(s).last().lexeme == Seq::<char>::empty(),
        forall|i: int| 0 <= i < tokens_of(s).len() - 1 ==> tokens_of(s)[i].kind != TokenType::Eof,
        forall|i: int| 0 <= i < tokens_of(s).len() - 1 ==> tokens_of(s)[i].lexeme.len() > 0,
{
    lemma_scan_from_shape(s, 0, 1);
}

/// Line numbers never decrease along the tokens nor along the errors, start at
/// 1, and the end-of-input token stands on line 1 plus the number of newlines
/// in the source.
pub proof fn lemma_lines(s: Seq<char>)
    ensures
        tokens_of(s).last().line == 1 + newlines(s),
        forall|i: int| 0 <= i < tokens_of(s).len() ==> 1 <= #[trigger] tokens_of(s)[i].line,
        forall|i: int, j: int|
            0 <= i <= j < tokens_of(s).len() ==> tokens_of(s)[i].line <= tokens_of(s)[j].line,
        forall|i: int| 0 <= i < errors_of(s).len() ==> 1 <= #[trigger] errors_of(s)[i].line(),
        forall|i: int, j: int|
            0 <= i <= j < errors_of(s).len() ==> errors_of(s)[i].line() <= errors_of(s)[j].line(),
{
    lemma_scan_from_shape(s, 0, 1);
    assert(s.subrange(0, s.len() as int) =~= s);
}

/// From `i` on the text is only blanks (space, carriage return, tab, newline)
/// and line comments (`//` up to the end of its line).
pub open spec fn only_trivia_from(s: Seq<char>, i: int) -> bool
    decreases s.len() - i,
    via only_trivia_from_decreases
{
    if i < 0 || i >= s.len() {
        true
    } else if is_blank(s[i]) {
        only_trivia_from(s, i + 1)
    } else if char_at_is(s, i, '/') && char_at_is(s, i + 1, '/') {
        only_trivia_from(s, i + 2 + line_run(s, i + 2))
    } else {
        false
    }
}

#[via_fn]
proof fn only_trivia_from_decreases(s: Seq<char>, i: int) {
    if 0 <= i && i + 2 <= s.len() {
        lemma_line_run_bound(s, i + 2);
    }
}

proof fn lemma_trivia_from(s: Seq<char>, pos: int, line: nat)
    requires
        0 <= pos <= s.len(),
        only_trivia_from(s, pos),
    ensures
        scan_from(s, pos, line).0.len() == 1,
        scan_from(s, pos, line).1.len() == 0,
    decreases s.len() - pos,
{
    if pos < s.len() {
        lemma_lex_one_width(s, pos, line);
        let (w, out) = lex_one(s, pos, line);
        lemma_trivia_from(s, pos + w, line + newlines(s.subrange(pos, pos + w)));
    }
}

/// A source of only blanks and comments scans to the end-of-input token alone,
/// with no error.
pub proof fn lemma_trivia_only_eof(s: Seq<char>)
    requires
        only_trivia_from(s, 0),
    ensures
        tokens_of(s).len() == 1,
        tokens_of(s)[0].kind == TokenType::Eof,
        errors_of(s).len() == 0,
{
    lemma_trivia_from(s, 0, 1);
    lemma_scan_from_shape(s, 0, 1);
}

/// A word: an identifier start followed by identifier characters.
pub open spec fn is_word(w: Seq<char>) -> bool {
    &&& w.len() >= 1
    &&& is_ident_start(w[0])
    &&& forall|i: int| 1 <= i < w.len() ==> is_ident_part(#[trigger] w[i])
}

proof fn lemma_ident_run_to_end(w: Seq<char>, i: int)
    requires
        1 <= i <= w.len(),
        forall|j: int| 1 <= j < w.len() ==> is_ident_part(#[trigger] w[j]),
    ensures
        ident_run(w, i) == w.len() - i,
    decreases w.len() - i,
{
    if i < w.len() {
        lemma_ident_run_to_end(w, i + 1);
    }
}

proof fn lemma_word_no_newline(w: Seq<char>, n: int)
    requires
        0 <= n <= w.len(),
        is_word(w),
    ensures
        newlines(w.take(n)) == 0,
    decreases n,
{
    if n > 0 {
        lemma_word_no_newline(w, n - 1);
        assert(w.take(n).drop_last() =~= w.take(n - 1));
    }
}

/// A word scans to one token and the end-of-input token: a reserved word gives
/// its own kind, any other word an identifier, with the word as lexeme and no
/// literal value.
pub proof fn lemma_word(w: Seq<char>)
    requires
        is_word(w),
    ensures
        tokens_of(w) == seq![
            TokenView {
                kind: match keyword_of(w) {
                    Some(k) => k,
                    None => TokenType::Identifier,
                },
                lexeme: w,
                literal: LiteralView::Nothing,
                line: 1,
            },
            eof_token(1),
        ],
        errors_of(w).len() == 0,
{
    lemma_ident_run_to_end(w, 1);
    lemma_word_no_newline(w, w.len() as int);
    assert(w.take(w.len() as int) =~= w);
    assert(w.subrange(0, w.len() as int) =~= w);
    assert(!is_digit(w[0]));
    assert(lex_one(w, 0, 1).0 == w.len());
    assert(scan_from(w, w.len() as int, 1) == (seq![eof_token(1)], Seq::<LexErrorView>::empty()));
}

/// The positions at which the tokens, and the errors, of a scan from `pos` on
/// `line` begin: for the end-of-input token, the end of the text; for an
/// unterminated string, its opening quote.
pub open spec fn starts_from(s: Seq<char>, pos: int, line: nat) -> (Seq<int>, Seq<int>)
    decreases s.len() - pos,
    via starts_from_decreases
{
    if pos < 0 || pos >= s.len() {
        (seq![s.len() as int], Seq::empty())
    } else {
        let (w, out) = lex_one(s, pos, line);
        let next = pos + w;
        let rest = starts_from(s, next, line + newlines(s.subrange(pos, next)));
        let here = seq![pos];
        (
            if out is Token {
                here + rest.0
            } else {
                rest.0
            },
            if out is Error {
                here + rest.1
            } else {
                rest.1
            },
        )
    }
}

#[via_fn]
proof fn starts_from_decreases(s: Seq<char>, pos: int, line: nat) {
    if 0 <= pos < s.len() {
        lemma_lex_one_width(s, pos, line);
    }
}

/// Where the tokens of a whole text begin.
pub open spec fn token_starts(s: Seq<char>) -> Seq<int> {
    starts_from(s, 0, 1).0
}

/// Where the errors of a whole text were met.
pub open spec fn error_starts(s: Seq<char>) -> Seq<int> {
    starts_from(s, 0, 1).1
}

#[verifier::rlimit(40)]
proof fn lemma_starts_from(s: Seq<char>, pos: int, line: nat)
    requires
        0 <= pos <= s.len(),
        line == 1 + newlines(s.take(pos)),
    ensures
        ({
            let (ts, es) = scan_from(s, pos, line);
            let (tp, ep) = starts_from(s, pos, line);
            &&& tp.len() == ts.len()
            &&& ep.len() == es.len()
            &&& forall|i: int|
                0 <= i < ts.len() ==> {
                    &&& pos <= #[trigger] tp[i] <= s.len()
                    &&& ts[i].line == 1 + newlines(s.take(tp[i]))
                }
            &&& forall|i: int|
                0 <= i < ts.len() - 1 ==> tp[i] + ts[i].lexeme.len() <= s.len()
                    && #[trigger] ts[i].lexeme == s.subrange(tp[i], tp[i] + ts[i].lexeme.len())
            &&& forall|i: int|
                0 <= i < es.len() ==> {
                    &&& pos <= #[trigger] ep[i] < s.len()
                    &&& es[i].line() == 1 + newlines(s.take(ep[i]))
                    &&& es[i] matches LexErrorView::UnexpectedCharacter { character, .. }
                        ==> character == s[ep[i]]
                    &&& es[i] is UnterminatedString ==> s[ep[i]] == '"'
                }
        }),
    decreases s.len() - pos,
{
    if pos < s.len() {
        lemma_lex_one_width(s, pos, line);
        lemma_lex_one_token(s, pos, line);
        let (w, out) = lex_one(s, pos, line);
        let next = pos + w;
        lemma_newlines_split(s, pos, next);
        let line2 = line + newlines(s.subrange(pos, next));
        lemma_starts_from(s, next, line2);
        let rest = scan_from(s, next, line2);
        let rp = starts_from(s, next, line2);
        let (ts, es) = scan_from(s, pos, line);
        let (tp, ep) = starts_from(s, pos, line);
        match out {
            Lexed::Token(t) => {
                assert(ts == seq![t] + rest.0);
                assert(tp == seq![pos] + rp.0);
                assert(es == rest.1 && ep == rp.1);
                assert(forall|i: int| 1 <= i < ts.len() ==> ts[i] == rest.0[i - 1] && tp[i] == rp.0[i - 1]);
            },
            Lexed::Skip => {
                assert(ts == rest.0 && tp == rp.0);
                assert(es == rest.1 && ep == rp.1);
            },
            Lexed::Error(e) => {
                assert(ts == rest.0 && tp == rp.0);
                assert(es == seq![e] + rest.1);
                assert(ep == seq![pos] + rp.1);
                assert(forall|i: int| 1 <= i < es.len() ==> es[i] == rest.1[i - 1] && ep[i] == rp.1[i - 1]);
            },
        }
    } else {
        assert(s.take(pos) =~= s.take(s.len() as int));
    }
}

/// Each token stands on the line of its first character: 1 plus the newlines
/// before it; the end-of-input token stands at the end of the text. Each error
/// likewise stands on the line of the character it was met at: the offending
/// character, or the opening quote of an unterminated string.
pub proof fn lemma_line_of_each(s: Seq<char>)
    ensures
        token_starts(s).len() == tokens_of(s).len(),
        error_starts(s).len() == errors_of(s).len(),
        token_starts(s).last() == s.len(),
        forall|i: int|
            0 <= i < tokens_of(s).len() ==> {
                &&& 0 <= #[trigger] token_starts(s)[i] <= s.len()
                &&& tokens_of(s)[i].line == 1 + newlines(s.take(token_starts(s)[i]))
            },
        forall|i: int|
            0 <= i < tokens_of(s).len() - 1 ==> #[trigger] tokens_of(s)[i].lexeme == s.subrange(
                token_starts(s)[i],
                token_starts(s)[i] + tokens_of(s)[i].lexeme.len(),
            ),
        forall|i: int|
            0 <= i < errors_of(s).len() ==> {
                &&& 0 <= #[trigger] error_starts(s)[i] < s.len()
                &&& errors_of(s)[i].line() == 1 + newlines(s.take(error_starts(s)[i]))
                &&& errors_of(s)[i] matches LexErrorView::UnexpectedCharacter { character, .. }
                    ==> character == s[error_starts(s)[i]]
                &&& errors_of(s)[i] is UnterminatedString ==> s[error_starts(s)[i]] == '"'
            },
{
    assert(s.take(0) =~= Seq::<char>::empty());
    lemma_starts_from(s, 0, 1);
    lemma_starts_last(s, 0, 1);
}

proof fn lemma_starts_last(s: Seq<char>, pos: int, line: nat)
    requires
        0 <= pos <= s.len(),
    ensures
        starts_from(s, pos, line).0.len() >= 1,
        starts_from(s, pos, line).0.last() == s.len(),
    decreases s.len() - pos,
{
    if pos < s.len() {
        lemma_lex_one_width(s, pos, line);
        let (w, out) = lex_one(s, pos, line);
        lemma_starts_last(s, pos + w, line + newlines(s.subrange(pos, pos + w)));
    }
}

/// A character that no rule of the lexical grammar reads.
pub open spec fn matches_no_rule(c: char) -> bool {
    &&& single_kind(c) is None
    &&& pair_kind(c) is None
    &&& c != '/'
    &&& !is_blank(c)
    &&& c != '"'
    &&& !is_digit(c)
    &&& !is_ident_start(c)
}

/// At a character that no rule reads, the scan records an unexpected-character
/// error on the current line, yields no token for it, and goes on with the next
/// character.
pub proof fn lemma_unexpected_goes_on(s: Seq<char>, pos: int, line: nat)
    requires
        0 <= pos < s.len(),
        matches_no_rule(s[pos]),
    ensures
        ({
            let rest = scan_from(s, pos + 1, line);
            scan_from(s, pos, line) == (
                rest.0,
                seq![LexErrorView::UnexpectedCharacter { character: s[pos], line }] + rest.1,
            )
        }),
{
    assert(lex_one(s, pos, line).0 == 1);
    assert(s.subrange(pos, pos + 1) =~= Seq::<char>::empty().push(s[pos]));
    lemma_newlines_push(Seq::<char>::empty(), s[pos]);
}

proof fn lemma_ident_run_maximal(s: Seq<char>, i: int)
    requires
        0 <= i <= s.len(),
    ensures
        i + ident_run(s, i) <= s.len(),
        forall|j: int| i <= j < i + ident_run(s, i) ==> is_ident_part(#[trigger] s[j]),
        i + ident_run(s, i) == s.len() || !is_ident_part(s[i + ident_run(s, i)]),
    decreases s.len() - i,
{
    if i < s.len() {
        lemma_ident_run_maximal(s, i + 1);
    }
}

/// At an identifier start the scan reads the longest run of identifier
/// characters, and yields one token for it on the current line: the reserved
/// word's kind where the run spells one, else an identifier, with the run as
/// lexeme and no literal value; then it goes on after the run.
pub proof fn lemma_word_at(s: Seq<char>, pos: int, line: nat)
    requires
        0 <= pos < s.len(),
        is_ident_start(s[pos]),
    ensures
        ({
            let end = pos + 1 + ident_run(s, pos + 1);
            let w = s.subrange(pos, end);
            let rest = scan_from(s, end, line);
            &&& end <= s.len()
            &&& forall|j: int| pos < j < end ==> is_ident_part(#[trigger] s[j])
            &&& end == s.len() || !is_ident_part(s[end])
            &&& scan_from(s, pos, line) == (
                seq![
                    TokenView {
                        kind: match keyword_of(w) {
                            Some(k) => k,
                            None => TokenType::Identifier,
                        },
                        lexeme: w,
                        literal: LiteralView::Nothing,
                        line,
                    },
                ] + rest.0,
                rest.1,
            )
        }),
{
    lemma_ident_run_maximal(s, pos + 1);
    let end = pos + 1 + ident_run(s, pos + 1);
    assert(!is_digit(s[pos]));
    assert(lex_one(s, pos, line).0 == end - pos);
    assert forall|n: int| pos <= n <= end implies newlines(s.subrange(pos, n)) == 0 by {
        lemma_word_span_no_newline(s, pos, n, end);
    }
}

proof fn lemma_word_span_no_newline(s: Seq<char>, pos: int, n: int, end: int)
    requires
        0 <= pos <= n <= end <= s.len(),
        pos < end ==> is_ident_start(s[pos]),
        forall|j: int| pos < j < end ==> is_ident_part(#[trigger] s[j]),
    ensures
        newlines(s.subrange(pos, n)) == 0,
    decreases n - pos,
{
    if n > pos {
        lemma_word_span_no_newline(s, pos, n - 1, end);
        assert(s.subrange(pos, n).drop_last() =~= s.subrange(pos, n - 1));
    } else {
        assert(s.subrange(pos, n) =~= Seq::<char>::empty());
    }
}

} // verus!

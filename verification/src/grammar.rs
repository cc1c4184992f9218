//! The lexical grammar: which token stands at a place of a source text, and
//! which tokens a source text holds.

use vstd::prelude::*;
use crate::chars::{is_digit_char, is_letter_char, CharClass};
use crate::number::{integer_value, is_float_literal};
use crate::text::{
    column_at, first_occurrence, is_first_occurrence, lemma_occurs_at_short, lemma_run_end,
    line_at, occurs_at, run_end, trim, trim_start,
};
use crate::token::{keyword_kind, lemma_keyword_kind, LexError, Payload, TokenType, TokenView};

verus! {

/// Whether the operator or punctuation mark `kind` is written in `s` at `at`.
pub open spec fn punctuation_written_at(s: Seq<char>, at: int, kind: TokenType) -> bool {
    kind.is_punctuation() && occurs_at(s, at, kind.spelling())
}

/// Whether `kind` is the longest operator or punctuation mark written in `s`
/// at `at`.
pub open spec fn is_longest_punctuation_at(s: Seq<char>, at: int, kind: TokenType) -> bool {
    &&& punctuation_written_at(s, at, kind)
    &&& forall|other: TokenType| #[trigger]
        punctuation_written_at(s, at, other) ==> other.spelling().len() <= kind.spelling().len()
}

/// The operator or punctuation mark that stands in `s` at `at`: of those
/// written there, the longest.
pub open spec fn punctuation_at(s: Seq<char>, at: int) -> Option<TokenType> {
    if exists|kind: TokenType| is_longest_punctuation_at(s, at, kind) {
        Some(choose|kind: TokenType| is_longest_punctuation_at(s, at, kind))
    } else {
        None
    }
}

/// The characters of the run `run` of a numeral that count: all but the
/// underscores, which only group digits.
pub open spec fn without_separators(run: Seq<char>) -> Seq<char>
    decreases run.len(),
{
    if run.len() == 0 {
        run
    } else if run.last() == '_' {
        without_separators(run.drop_last())
    } else {
        without_separators(run.drop_last()).push(run.last())
    }
}

/// What scanning one token gives.
pub ghost struct Scan {
    /// The kind of the token and what it carries; nothing where the
    /// characters are a numeral that writes no number.
    pub token: Option<(TokenType, Payload)>,
    /// The index of the first character after those that were consumed.
    pub end: int,
}

/// The identifier that starts in `s` at `at`: the run of letters and
/// underscores from there. A digit ends it. A reserved word gives a token of
/// its own kind that carries nothing; any other identifier gives a `Symbol`
/// that carries its text.
pub open spec fn identifier_at(s: Seq<char>, at: int) -> Scan {
    let end = run_end(s, at, CharClass::Letter);
    let text = s.subrange(at, end);
    let kind = keyword_kind(text);
    Scan {
        token: Some(
            (
                kind,
                if kind == TokenType::Symbol {
                    Payload::Text(text)
                } else {
                    Payload::Empty
                },
            ),
        ),
        end,
    }
}

/// What the characters `text` of a numeral write: with a decimal point among
/// them a `Float`, which carries them, and without one an `Integer`, which
/// carries their value; nothing where they write no number.
pub open spec fn numeral_token(text: Seq<char>) -> Option<(TokenType, Payload)> {
    if text.contains('.') {
        if is_float_literal(text) {
            Some((TokenType::Float, Payload::Float(text)))
        } else {
            None
        }
    } else {
        match integer_value(text) {
            Some(v) => Some((TokenType::Integer, Payload::Integer(v as int))),
            None => None,
        }
    }
}

/// The numeral that starts in `s` at `at`: the run of digits, decimal points
/// and underscores from there, read without the underscores.
pub open spec fn numeral_at(s: Seq<char>, at: int) -> Scan {
    let end = run_end(s, at, CharClass::NumeralPart);
    Scan { token: numeral_token(without_separators(s.subrange(at, end))), end }
}

/// The line comment that starts in `s` at `at` with `//`: it carries the rest
/// of the line without the whitespace at its start, and consumes the line
/// feed that ends the line, where there is one.
pub open spec fn line_comment_at(s: Seq<char>, at: int) -> Scan {
    let eol = run_end(s, at + 2, CharClass::LineText);
    Scan {
        token: Some((TokenType::Comment, Payload::Text(trim_start(s.subrange(at + 2, eol))))),
        end: if eol < s.len() {
            eol + 1
        } else {
            eol
        },
    }
}

/// The block comment that starts in `s` at `at` with `/*`. It ends with the
/// first `*/` after that, which is consumed, and carries what stands between
/// the two without the whitespace at either end. Where no `*/` follows, it
/// runs to the end of `s` and carries all of that but the whitespace at its
/// start.
pub open spec fn block_comment_at(s: Seq<char>, at: int) -> Scan {
    match first_occurrence(s, at + 2, "*/"@) {
        Some(close) => Scan {
            token: Some((TokenType::Comment, Payload::Text(trim(s.subrange(at + 2, close))))),
            end: close + 2,
        },
        None => Scan {
            token: Some(
                (TokenType::Comment, Payload::Text(trim_start(s.subrange(at + 2, s.len() as int)))),
            ),
            end: s.len() as int,
        },
    }
}

/// The token that starts in `s` at `at`, where `at` is the end of `s` or the
/// index of a character that is no whitespace.
///
/// At the end of `s` stands `End`. A comment opener starts a comment. Else
/// the longest operator or punctuation mark written at `at` is the token. Else
/// a letter or an underscore starts an identifier and a digit starts a
/// numeral. Any other character is an `Illegal` token by itself.
pub open spec fn scan(s: Seq<char>, at: int) -> Scan {
    if at >= s.len() {
        Scan { token: Some((TokenType::End, Payload::Empty)), end: at }
    } else if occurs_at(s, at, "//"@) {
        line_comment_at(s, at)
    } else if occurs_at(s, at, "/*"@) {
        block_comment_at(s, at)
    } else if let Some(kind) = punctuation_at(s, at) {
        Scan { token: Some((kind, Payload::Empty)), end: at + kind.spelling().len() }
    } else if is_letter_char(s[at]) {
        identifier_at(s, at)
    } else if is_digit_char(s[at]) {
        numeral_at(s, at)
    } else {
        Scan { token: Some((TokenType::Illegal, Payload::Empty)), end: at + 1 }
    }
}

/// What asking for the next token gives.
pub ghost struct Step {
    /// The token, or why there is none.
    pub token: Result<TokenView, LexError>,
    /// The index of the first character after those that were consumed.
    pub end: int,
}

/// The next token of `s` from index `from` on: whitespace is skipped, and the
/// token that starts after it is scanned. The token, and the error where the
/// characters are a malformed numeral, carry the line and the column at which
/// the token starts.
pub open spec fn next_step(s: Seq<char>, from: int) -> Step {
    let at = run_end(s, from, CharClass::Space);
    let scanned = scan(s, at);
    Step {
        token: match scanned.token {
            Some((kind, payload)) => Ok(
                TokenView {
                    kind,
                    payload,
                    line: line_at(s, at),
                    column: column_at(s, at),
                    range: payload.len() as int,
                },
            ),
            None => Err(
                LexError::MalformedNumeral {
                    line: line_at(s, at) as i32,
                    column: column_at(s, at) as i32,
                },
            ),
        },
        end: scanned.end,
    }
}

/// What scanning a source text to its end gives.
pub ghost struct Run {
    /// The tokens in the order of the text, without the `End` that closes
    /// them; where scanning failed, the tokens before the failure.
    pub tokens: Seq<TokenView>,
    /// Why scanning stopped before the end of the text, if it did.
    pub failure: Option<LexError>,
    /// The index of the first character after those that were consumed.
    pub end: int,
}

/// The tokens of `s` from index `from` on: one token after the other, up to
/// `End` or to the first malformed numeral.
pub open spec fn run_from(s: Seq<char>, from: int) -> Run
    decreases s.len() - from,
    when 0 <= from <= s.len()
    via run_from_decreases
{
    let step = next_step(s, from);
    match step.token {
        Err(e) => Run { tokens: Seq::empty(), failure: Some(e), end: step.end },
        Ok(token) => if token.kind == TokenType::End {
            Run { tokens: Seq::empty(), failure: None, end: step.end }
        } else {
            let rest = run_from(s, step.end);
            Run { tokens: seq![token] + rest.tokens, failure: rest.failure, end: rest.end }
        },
    }
}

#[via_fn]
proof fn run_from_decreases(s: Seq<char>, from: int) {
    lemma_next_step_advances(s, from);
}

/// The length and the characters of every operator and punctuation mark.
pub proof fn lemma_punctuation_spellings()
    ensures
        TokenType::Equal.spelling().len() == 2,
        TokenType::Equal.spelling()[0] == '=',
        TokenType::Equal.spelling()[1] == '=',
        TokenType::Assign.spelling().len() == 1,
        TokenType::Assign.spelling()[0] == '=',
        TokenType::Plus.spelling().len() == 1,
        TokenType::Plus.spelling()[0] == '+',
        TokenType::PlusPlus.spelling().len() == 2,
        TokenType::PlusPlus.spelling()[0] == '+',
        TokenType::PlusPlus.spelling()[1] == '+',
        TokenType::PlusAssign.spelling().len() == 2,
        TokenType::PlusAssign.spelling()[0] == '+',
        TokenType::PlusAssign.spelling()[1] == '=',
        TokenType::Minus.spelling().len() == 1,
        TokenType::Minus.spelling()[0] == '-',
        TokenType::MinusMinus.spelling().len() == 2,
        TokenType::MinusMinus.spelling()[0] == '-',
        TokenType::MinusMinus.spelling()[1] == '-',
        TokenType::MinusAssign.spelling().len() == 2,
        TokenType::MinusAssign.spelling()[0] == '-',
        TokenType::MinusAssign.spelling()[1] == '=',
        TokenType::Asterisk.spelling().len() == 1,
        TokenType::Asterisk.spelling()[0] == '*',
        TokenType::AsteriskAssign.spelling().len() == 2,
        TokenType::AsteriskAssign.spelling()[0] == '*',
        TokenType::AsteriskAssign.spelling()[1] == '=',
        TokenType::Slash.spelling().len() == 1,
        TokenType::Slash.spelling()[0] == '/',
        TokenType::SlashAssign.spelling().len() == 2,
        TokenType::SlashAssign.spelling()[0] == '/',
        TokenType::SlashAssign.spelling()[1] == '=',
        TokenType::Percent.spelling().len() == 1,
        TokenType::Percent.spelling()[0] == '%',
        TokenType::PercentAssign.spelling().len() == 2,
        TokenType::PercentAssign.spelling()[0] == '%',
        TokenType::PercentAssign.spelling()[1] == '=',
        TokenType::And.spelling().len() == 2,
        TokenType::And.spelling()[0] == '&',
        TokenType::And.spelling()[1] == '&',
        TokenType::BitAnd.spelling().len() == 1,
        TokenType::BitAnd.spelling()[0] == '&',
        TokenType::BitAndAssign.spelling().len() == 2,
        TokenType::BitAndAssign.spelling()[0] == '&',
        TokenType::BitAndAssign.spelling()[1] == '=',
        TokenType::Or.spelling().len() == 2,
        TokenType::Or.spelling()[0] == '|',
        TokenType::Or.spelling()[1] == '|',
        TokenType::BitOr.spelling().len() == 1,
        TokenType::BitOr.spelling()[0] == '|',
        TokenType::BitOrAssign.spelling().len() == 2,
        TokenType::BitOrAssign.spelling()[0] == '|',
        TokenType::BitOrAssign.spelling()[1] == '=',
        TokenType::BitXor.spelling().len() == 1,
        TokenType::BitXor.spelling()[0] == '^',
        TokenType::BitXorAssign.spelling().len() == 2,
        TokenType::BitXorAssign.spelling()[0] == '^',
        TokenType::BitXorAssign.spelling()[1] == '=',
        TokenType::LowerThan.spelling().len() == 1,
        TokenType::LowerThan.spelling()[0] == '<',
        TokenType::LowerThanEqual.spelling().len() == 2,
        TokenType::LowerThanEqual.spelling()[0] == '<',
        TokenType::LowerThanEqual.spelling()[1] == '=',
        TokenType::BitLeft.spelling().len() == 2,
        TokenType::BitLeft.spelling()[0] == '<',
        TokenType::BitLeft.spelling()[1] == '<',
        TokenType::BitLeftAssign.spelling().len() == 3,
        TokenType::BitLeftAssign.spelling()[0] == '<',
        TokenType::BitLeftAssign.spelling()[1] == '<',
        TokenType::BitLeftAssign.spelling()[2] == '=',
        TokenType::GreaterThan.spelling().len() == 1,
        TokenType::GreaterThan.spelling()[0] == '>',
        TokenType::GreaterThanEqual.spelling().len() == 2,
        TokenType::GreaterThanEqual.spelling()[0] == '>',
        TokenType::GreaterThanEqual.spelling()[1] == '=',
        TokenType::BitRight.spelling().len() == 2,
        TokenType::BitRight.spelling()[0] == '>',
        TokenType::BitRight.spelling()[1] == '>',
        TokenType::BitRightAssign.spelling().len() == 3,
        TokenType::BitRightAssign.spelling()[0] == '>',
        TokenType::BitRightAssign.spelling()[1] == '>',
        TokenType::BitRightAssign.spelling()[2] == '=',
        TokenType::NotEqual.spelling().len() == 2,
        TokenType::NotEqual.spelling()[0] == '!',
        TokenType::NotEqual.spelling()[1] == '=',
        TokenType::Bang.spelling().len() == 1,
        TokenType::Bang.spelling()[0] == '!',
        TokenType::Colon.spelling().len() == 1,
        TokenType::Colon.spelling()[0] == ':',
        TokenType::Semicolon.spelling().len() == 1,
        TokenType::Semicolon.spelling()[0] == ';',
        TokenType::Comma.spelling().len() == 1,
        TokenType::Comma.spelling()[0] == ',',
        TokenType::LeftBrace.spelling().len() == 1,
        TokenType::LeftBrace.spelling()[0] == '{',
        TokenType::RightBrace.spelling().len() == 1,
        TokenType::RightBrace.spelling()[0] == '}',
        TokenType::LeftBracket.spelling().len() == 1,
        TokenType::LeftBracket.spelling()[0] == '(',
        TokenType::RightBracket.spelling().len() == 1,
        TokenType::RightBracket.spelling()[0] == ')',
        TokenType::LeftSquare.spelling().len() == 1,
        TokenType::LeftSquare.spelling()[0] == '[',
        TokenType::RightSquare.spelling().len() == 1,
        TokenType::RightSquare.spelling()[0] == ']',
        TokenType::Elipsis.spelling().len() == 3,
        TokenType::Elipsis.spelling()[0] == '.',
        TokenType::Elipsis.spelling()[1] == '.',
        TokenType::Elipsis.spelling()[2] == '.',
        TokenType::Range.spelling().len() == 2,
        TokenType::Range.spelling()[0] == '.',
        TokenType::Range.spelling()[1] == '.',
        TokenType::Directive.spelling().len() == 1,
        TokenType::Directive.spelling()[0] == '#',
{
    reveal_strlit("==");
    reveal_strlit("=");
    reveal_strlit("+");
    reveal_strlit("++");
    reveal_strlit("+=");
    reveal_strlit("-");
    reveal_strlit("--");
    reveal_strlit("-=");
    reveal_strlit("*");
    reveal_strlit("*=");
    reveal_strlit("/");
    reveal_strlit("/=");
    reveal_strlit("%");
    reveal_strlit("%=");
    reveal_strlit("&&");
    reveal_strlit("&");
    reveal_strlit("&=");
    reveal_strlit("||");
    reveal_strlit("|");
    reveal_strlit("|=");
    reveal_strlit("^");
    reveal_strlit("^=");
    reveal_strlit("<");
    reveal_strlit("<=");
    reveal_strlit("<<");
    reveal_strlit("<<=");
    reveal_strlit(">");
    reveal_strlit(">=");
    reveal_strlit(">>");
    reveal_strlit(">>=");
    reveal_strlit("!=");
    reveal_strlit("!");
    reveal_strlit(":");
    reveal_strlit(";");
    reveal_strlit(",");
    reveal_strlit("{");
    reveal_strlit("}");
    reveal_strlit("(");
    reveal_strlit(")");
    reveal_strlit("[");
    reveal_strlit("]");
    reveal_strlit("...");
    reveal_strlit("..");
    reveal_strlit("#");
}

/// Where an operator or a punctuation mark is written, character by
/// character.
pub proof fn lemma_punctuation_written_at(s: Seq<char>, at: int, kind: TokenType)
    requires
        kind.is_punctuation(),
    ensures
        1 <= kind.spelling().len() <= 3,
        punctuation_written_at(s, at, kind) <==> {
            &&& 0 <= at
            &&& at + kind.spelling().len() <= s.len()
            &&& kind.spelling().len() >= 1 ==> s[at] == kind.spelling()[0]
            &&& kind.spelling().len() >= 2 ==> s[at + 1] == kind.spelling()[1]
            &&& kind.spelling().len() >= 3 ==> s[at + 2] == kind.spelling()[2]
        },
{
    lemma_punctuation_spellings();
    lemma_occurs_at_short(s, at, kind.spelling());
}

/// The character of `s` at `at`, if there is one.
pub open spec fn char_at(s: Seq<char>, at: int) -> Option<char> {
    if 0 <= at < s.len() {
        Some(s[at])
    } else {
        None
    }
}

/// The longest operator or punctuation mark written in `s` at `at`, found by
/// looking at no more than three characters: the first decides which marks
/// can stand there, the second and the third which of them does.
pub open spec fn munch(s: Seq<char>, at: int) -> Option<TokenType> {
    let second = char_at(s, at + 1);
    let third = char_at(s, at + 2);
    match char_at(s, at) {
        Some('=') => Some(
            if second == Some('=') {
                TokenType::Equal
            } else {
                TokenType::Assign
            },
        ),
        Some('+') => Some(
            if second == Some('=') {
                TokenType::PlusAssign
            } else if second == Some('+') {
                TokenType::PlusPlus
            } else {
                TokenType::Plus
            },
        ),
        Some('-') => Some(
            if second == Some('=') {
                TokenType::MinusAssign
            } else if second == Some('-') {
                TokenType::MinusMinus
            } else {
                TokenType::Minus
            },
        ),
        Some('*') => Some(
            if second == Some('=') {
                TokenType::AsteriskAssign
            } else {
                TokenType::Asterisk
            },
        ),
        Some('/') => Some(
            if second == Some('=') {
                TokenType::SlashAssign
            } else {
                TokenType::Slash
            },
        ),
        Some('%') => Some(
            if second == Some('=') {
                TokenType::PercentAssign
            } else {
                TokenType::Percent
            },
        ),
        Some('&') => Some(
            if second == Some('&') {
                TokenType::And
            } else if second == Some('=') {
                TokenType::BitAndAssign
            } else {
                TokenType::BitAnd
            },
        ),
        Some('|') => Some(
            if second == Some('|') {
                TokenType::Or
            } else if second == Some('=') {
                TokenType::BitOrAssign
            } else {
                TokenType::BitOr
            },
        ),
        Some('^') => Some(
            if second == Some('=') {
                TokenType::BitXorAssign
            } else {
                TokenType::BitXor
            },
        ),
        Some('<') => Some(
            if second == Some('=') {
                TokenType::LowerThanEqual
            } else if second == Some('<') {
                if third == Some('=') {
                    TokenType::BitLeftAssign
                } else {
                    TokenType::BitLeft
                }
            } else {
                TokenType::LowerThan
            },
        ),
        Some('>') => Some(
            if second == Some('=') {
                TokenType::GreaterThanEqual
            } else if second == Some('>') {
                if third == Some('=') {
                    TokenType::BitRightAssign
                } else {
                    TokenType::BitRight
                }
            } else {
                TokenType::GreaterThan
            },
        ),
        Some('!') => Some(
            if second == Some('=') {
                TokenType::NotEqual
            } else {
                TokenType::Bang
            },
        ),
        Some(';') => Some(TokenType::Semicolon),
        Some(':') => Some(TokenType::Colon),
        Some(',') => Some(TokenType::Comma),
        Some('{') => Some(TokenType::LeftBrace),
        Some('}') => Some(TokenType::RightBrace),
        Some('(') => Some(TokenType::LeftBracket),
        Some(')') => Some(TokenType::RightBracket),
        Some('[') => Some(TokenType::LeftSquare),
        Some(']') => Some(TokenType::RightSquare),
        Some('#') => Some(TokenType::Directive),
        Some('.') => if second == Some('.') {
            Some(
                if third == Some('.') {
                    TokenType::Elipsis
                } else {
                    TokenType::Range
                },
            )
        } else {
            None
        },
        _ => None,
    }
}

/// Maximal munch: reading one character and looking at the next two finds
/// the longest operator or punctuation mark that is written at a place, and
/// finds none only where none is written.
pub proof fn lemma_punctuation_at(s: Seq<char>, at: int)
    ensures
        punctuation_at(s, at) == munch(s, at),
        munch(s, at) matches Some(kind) ==> is_longest_punctuation_at(s, at, kind),
        munch(s, at) is None ==> forall|kind: TokenType| !punctuation_written_at(s, at, kind),
{
    lemma_punctuation_spellings();
    assert forall|kind: TokenType| kind.is_punctuation() implies (#[trigger] punctuation_written_at(
        s,
        at,
        kind,
    ) <==> {
        &&& 0 <= at
        &&& at + kind.spelling().len() <= s.len()
        &&& kind.spelling().len() >= 1 ==> s[at] == kind.spelling()[0]
        &&& kind.spelling().len() >= 2 ==> s[at + 1] == kind.spelling()[1]
        &&& kind.spelling().len() >= 3 ==> s[at + 2] == kind.spelling()[2]
    }) by {
        lemma_punctuation_written_at(s, at, kind);
    }
    match munch(s, at) {
        Some(kind) => {
            assert(is_longest_punctuation_at(s, at, kind));
            let chosen = choose|kind: TokenType| is_longest_punctuation_at(s, at, kind);
            assert(punctuation_written_at(s, at, chosen));
            assert(punctuation_written_at(s, at, kind));
        },
        None => {
            assert forall|kind: TokenType| !punctuation_written_at(s, at, kind) by {}
        },
    }
}

/// The token that starts in `s` at `at`, decided as the scanner decides it:
/// by the character at `at` and the two after it.
pub open spec fn scan_by_lookahead(s: Seq<char>, at: int) -> Scan {
    if char_at(s, at) is None {
        Scan { token: Some((TokenType::End, Payload::Empty)), end: at }
    } else if s[at] == '/' && char_at(s, at + 1) == Some('/') {
        line_comment_at(s, at)
    } else if s[at] == '/' && char_at(s, at + 1) == Some('*') {
        block_comment_at(s, at)
    } else if let Some(kind) = munch(s, at) {
        Scan { token: Some((kind, Payload::Empty)), end: at + kind.spelling().len() }
    } else if is_letter_char(s[at]) {
        identifier_at(s, at)
    } else if is_digit_char(s[at]) {
        numeral_at(s, at)
    } else {
        Scan { token: Some((TokenType::Illegal, Payload::Empty)), end: at + 1 }
    }
}

/// Three characters decide which token starts at a place.
pub proof fn lemma_scan_by_lookahead(s: Seq<char>, at: int)
    requires
        0 <= at <= s.len(),
    ensures
        scan(s, at) == scan_by_lookahead(s, at),
{
    reveal_strlit("//");
    reveal_strlit("/*");
    lemma_occurs_at_short(s, at, "//"@);
    lemma_occurs_at_short(s, at, "/*"@);
    lemma_punctuation_at(s, at);
}

/// Scanning a token at a place within the text consumes at least one
/// character and never gives `End`; at the end of the text it gives `End` and
/// consumes nothing.
pub proof fn lemma_scan_advances(s: Seq<char>, at: int)
    requires
        0 <= at <= s.len(),
    ensures
        at == s.len() ==> scan(s, at) == (Scan {
            token: Some((TokenType::End, Payload::Empty)),
            end: at,
        }),
        at < s.len() ==> at < scan(s, at).end <= s.len(),
        at < s.len() ==> !(scan(s, at).token matches Some((kind, _)) && kind == TokenType::End),
{
    if at < s.len() {
        reveal_strlit("//");
        reveal_strlit("/*");
        reveal_strlit("*/");
        if occurs_at(s, at, "//"@) {
            lemma_run_end(s, at + 2, CharClass::LineText);
        } else if occurs_at(s, at, "/*"@) {
            if let Some(close) = first_occurrence(s, at + 2, "*/"@) {
                assert(is_first_occurrence(s, at + 2, "*/"@, close));
            }
        } else if let Some(kind) = punctuation_at(s, at) {
            assert(is_longest_punctuation_at(s, at, kind));
            lemma_punctuation_written_at(s, at, kind);
        } else if is_letter_char(s[at]) {
            lemma_run_end(s, at + 1, CharClass::Letter);
            lemma_keyword_kind(s.subrange(at, run_end(s, at, CharClass::Letter)));
        } else if is_digit_char(s[at]) {
            lemma_run_end(s, at + 1, CharClass::NumeralPart);
        }
    }
}

/// Asking for the next token consumes at least one character, unless the
/// token is `End`; and it never goes beyond the end of the text.
pub proof fn lemma_next_step_advances(s: Seq<char>, from: int)
    requires
        0 <= from <= s.len(),
    ensures
        from <= next_step(s, from).end <= s.len(),
        next_step(s, from).token matches Ok(token) && token.kind == TokenType::End
            ==> next_step(s, from).end == s.len(),
        !(next_step(s, from).token matches Ok(token) && token.kind == TokenType::End) ==> from
            < next_step(s, from).end,
{
    lemma_run_end(s, from, CharClass::Space);
    lemma_scan_advances(s, run_end(s, from, CharClass::Space));
}

} // verus!

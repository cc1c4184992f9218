//! What holds of the grammar, whatever the source text.

use vstd::prelude::*;
use crate::chars::{is_ascii_digit, is_digit_char, is_letter_char, CharClass};
use crate::grammar::{
    identifier_at, lemma_next_step_advances, lemma_punctuation_at, lemma_punctuation_spellings,
    lemma_scan_advances, munch, next_step, numeral_at, numeral_token, punctuation_at, run_from,
    scan, without_separators, Run, Scan,
};
use crate::number::{
    decimal_text, decimal_value, integer_value, lemma_decimal_text, lemma_decimal_value_prefix,
};
use crate::text::{
    column_at, first_occurrence, is_first_occurrence, lemma_first_occurrence,
    lemma_first_occurrence_found, lemma_first_occurrence_none, lemma_occurs_at_short,
    lemma_position_bounds, lemma_run_end, lemma_run_end_is, lemma_run_end_within, line_at,
    occurs_at, run_end,
};
use crate::token::{
    keyword_kind, lemma_keyword_kind, lemma_keyword_kind_of_spelling, lemma_keyword_spellings,
    LexError, Payload, TokenType, TokenView,
};

verus! {

/// The text that writes what a token carries: the text of an identifier, of
/// a comment or of a number with a decimal point, and the digits of a whole
/// number.
pub open spec fn payload_text(payload: Payload) -> Seq<char> {
    match payload {
        Payload::Empty => Seq::empty(),
        Payload::Text(text) => text,
        Payload::Integer(v) => decimal_text(v),
        Payload::Float(text) => text,
    }
}

/// Every token that the grammar gives carries what its kind may carry.
pub proof fn lemma_scan_fits(s: Seq<char>, at: int)
    requires
        0 <= at <= s.len(),
    ensures
        scan(s, at).token matches Some((kind, payload)) ==> payload.fits(kind),
{
    if at < s.len() && !occurs_at(s, at, "//"@) && !occurs_at(s, at, "/*"@) {
        if let Some(kind) = punctuation_at(s, at) {
            lemma_punctuation_at(s, at);
        } else if is_letter_char(s[at]) {
            lemma_keyword_kind(s.subrange(at, run_end(s, at, CharClass::Letter)));
        }
    }
}

/// Every token that asking for the next token gives is well formed: it
/// carries what its kind may carry, its line and its column count from 1, and
/// its range is the length of what it carries.
pub proof fn lemma_next_step_well_formed(s: Seq<char>, from: int)
    requires
        0 <= from <= s.len(),
    ensures
        next_step(s, from).token matches Ok(token) ==> token.well_formed(),
{
    let at = run_end(s, from, CharClass::Space);
    lemma_run_end(s, from, CharClass::Space);
    lemma_scan_fits(s, at);
    lemma_position_bounds(s, at);
}

/// `End` is final: once asking for the next token has given `End`, asking
/// again gives the same `End` and consumes nothing.
pub proof fn lemma_end_is_final(s: Seq<char>, from: int)
    requires
        0 <= from <= s.len(),
        next_step(s, from).token matches Ok(token) && token.kind == TokenType::End,
    ensures
        next_step(s, from).end == s.len(),
        next_step(s, next_step(s, from).end) == next_step(s, from),
{
    lemma_run_end(s, from, CharClass::Space);
    lemma_scan_advances(s, run_end(s, from, CharClass::Space));
}

/// Every token of a run is well formed.
pub proof fn lemma_run_from_well_formed(s: Seq<char>, from: int)
    requires
        0 <= from <= s.len(),
    ensures
        forall|i: int|
            0 <= i < run_from(s, from).tokens.len() ==> (#[trigger] run_from(
                s,
                from,
            ).tokens[i]).well_formed(),
    decreases s.len() - from,
{
    lemma_next_step_advances(s, from);
    lemma_next_step_well_formed(s, from);
    let step = next_step(s, from);
    if let Ok(token) = step.token {
        if token.kind != TokenType::End {
            lemma_run_from_well_formed(s, step.end);
        }
    }
}

/// Scanning to the end consumes the whole text unless it fails, never goes
/// beyond the text, and gives no `End` among the tokens.
pub proof fn lemma_run_from_ends(s: Seq<char>, from: int)
    requires
        0 <= from <= s.len(),
    ensures
        from <= run_from(s, from).end <= s.len(),
        run_from(s, from).failure is None ==> run_from(s, from).end == s.len(),
        forall|i: int|
            0 <= i < run_from(s, from).tokens.len() ==> (#[trigger] run_from(
                s,
                from,
            ).tokens[i]).kind != TokenType::End,
    decreases s.len() - from,
{
    lemma_next_step_advances(s, from);
    let step = next_step(s, from);
    if let Ok(token) = step.token {
        if token.kind != TokenType::End {
            lemma_run_from_ends(s, step.end);
        }
    }
}

/// A numeral keeps its characters where none of them is an underscore.
pub proof fn lemma_without_separators_none(run: Seq<char>)
    requires
        forall|i: int| 0 <= i < run.len() ==> run[i] != '_',
    ensures
        without_separators(run) == run,
    decreases run.len(),
{
    if run.len() > 0 {
        lemma_without_separators_none(run.drop_last());
        assert(run.drop_last().push(run.last()) =~= run);
    }
}

/// What is left of a numeral without its underscores holds no underscore,
/// holds only characters of the numeral, and starts as the numeral does
/// unless that starts with an underscore.
pub proof fn lemma_without_separators(run: Seq<char>)
    ensures
        without_separators(run).len() <= run.len(),
        forall|i: int|
            0 <= i < without_separators(run).len() ==> (#[trigger] without_separators(run)[i])
                != '_' && run.contains(without_separators(run)[i]),
        run.len() > 0 && run[0] != '_' ==> without_separators(run).len() > 0 && without_separators(
            run,
        )[0] == run[0],
    decreases run.len(),
{
    if run.len() > 0 {
        let front = run.drop_last();
        lemma_without_separators(front);
        let kept = without_separators(run);
        assert forall|i: int| 0 <= i < kept.len() implies (#[trigger] kept[i]) != '_'
            && run.contains(kept[i]) by {
            if i < without_separators(front).len() {
                let c = without_separators(front)[i];
                assert(front.contains(c));
                let j = choose|j: int| 0 <= j < front.len() && front[j] == c;
                assert(run[j] == c);
            } else {
                assert(run[run.len() - 1] == run.last());
            }
        }
        if front.len() == 0 {
            assert(without_separators(front) =~= Seq::<char>::empty());
        }
    }
}

/// A text of ASCII digits and decimal points that starts with a digit is one
/// numeral, whole.
pub proof fn lemma_scan_numeral(text: Seq<char>)
    requires
        text.len() > 0,
        is_ascii_digit(text[0]),
        forall|i: int| 0 <= i < text.len() ==> is_ascii_digit(#[trigger] text[i]) || text[i] == '.',
    ensures
        scan(text, 0) == (Scan { token: numeral_token(text), end: text.len() as int }),
{
    reveal_strlit("//");
    reveal_strlit("/*");
    lemma_occurs_at_short(text, 0, "//"@);
    lemma_occurs_at_short(text, 0, "/*"@);
    lemma_punctuation_at(text, 0);
    assert(munch(text, 0) is None);
    assert(is_digit_char(text[0]));
    assert forall|k: int| 0 <= k < text.len() implies CharClass::NumeralPart.contains(
        #[trigger] text[k],
    ) by {
        assert(is_ascii_digit(text[k]) || text[k] == '.');
    }
    lemma_run_end_is(text, 0, CharClass::NumeralPart, text.len() as int);
    assert(text.subrange(0, text.len() as int) =~= text);
    assert forall|i: int| 0 <= i < text.len() implies text[i] != '_' by {
        assert(is_ascii_digit(text[i]) || text[i] == '.');
    }
    lemma_without_separators_none(text);
}

/// A text of letters and underscores is one identifier, whole.
pub proof fn lemma_scan_identifier(text: Seq<char>)
    requires
        text.len() > 0,
        forall|i: int| 0 <= i < text.len() ==> is_letter_char(#[trigger] text[i]),
    ensures
        scan(text, 0) == identifier_at(text, 0),
        identifier_at(text, 0).end == text.len(),
        identifier_at(text, 0).token matches Some((kind, _)) && kind == keyword_kind(text),
{
    reveal_strlit("//");
    reveal_strlit("/*");
    lemma_occurs_at_short(text, 0, "//"@);
    lemma_occurs_at_short(text, 0, "/*"@);
    lemma_punctuation_at(text, 0);
    assert(is_letter_char(text[0]));
    assert(munch(text, 0) is None);
    lemma_run_end_is(text, 0, CharClass::Letter, text.len() as int);
    assert(text.subrange(0, text.len() as int) =~= text);
}

/// An identifier of the grammar scans back to itself.
proof fn lemma_identifier_round_trip(s: Seq<char>, at: int)
    requires
        0 <= at < s.len(),
        is_letter_char(s[at]),
    ensures
        identifier_at(s, at).token matches Some((kind, payload)) && (kind == TokenType::Symbol
            ==> scan(payload_text(payload), 0) == (Scan {
            token: Some((kind, payload)),
            end: payload_text(payload).len() as int,
        })),
{
    let end = run_end(s, at, CharClass::Letter);
    lemma_run_end(s, at, CharClass::Letter);
    lemma_run_end(s, at + 1, CharClass::Letter);
    let text = s.subrange(at, end);
    assert forall|i: int| 0 <= i < text.len() implies is_letter_char(#[trigger] text[i]) by {
        assert(text[i] == s[at + i]);
    }
    lemma_scan_identifier(text);
    assert(text.subrange(0, text.len() as int) =~= text);
}

/// A numeral of the grammar scans back to itself.
proof fn lemma_numeral_round_trip(s: Seq<char>, at: int)
    requires
        0 <= at < s.len(),
        is_digit_char(s[at]),
    ensures
        numeral_at(s, at).token matches Some((kind, payload)) ==> scan(payload_text(payload), 0)
            == (Scan { token: Some((kind, payload)), end: payload_text(payload).len() as int }),
{
    let end = run_end(s, at, CharClass::NumeralPart);
    lemma_run_end(s, at + 1, CharClass::NumeralPart);
    let run = s.subrange(at, end);
    let digits = without_separators(run);
    lemma_without_separators(run);
    assert(run[0] == s[at]);
    assert(digits.len() > 0 && digits[0] == s[at]);
    if numeral_token(digits) is Some {
        if digits.contains('.') {
            let point = choose|point: int|
                {
                    &&& 0 <= point < digits.len()
                    &&& #[trigger] digits[point] == '.'
                    &&& forall|i: int|
                        0 <= i < digits.len() && i != point ==> is_ascii_digit(#[trigger] digits[i])
                };
            assert(point != 0);
            assert(is_ascii_digit(digits[0]));
            assert forall|i: int| 0 <= i < digits.len() implies is_ascii_digit(#[trigger] digits[i])
                || digits[i] == '.' by {
                if i != point {
                    assert(is_ascii_digit(digits[i]));
                }
            }
            lemma_scan_numeral(digits);
        } else {
            let v = decimal_value(digits);
            assert(digits.take(digits.len() as int) =~= digits);
            lemma_decimal_value_prefix(digits, digits.len() as int);
            assert(integer_value(digits) == Some(v as i32));
            lemma_decimal_text(v);
            let text = decimal_text(v);
            assert forall|i: int| 0 <= i < text.len() implies is_ascii_digit(#[trigger] text[i])
                || text[i] == '.' by {}
            lemma_scan_numeral(text);
            assert(!text.contains('.')) by {
                if text.contains('.') {
                    let i = choose|i: int| 0 <= i < text.len() && text[i] == '.';
                    assert(is_ascii_digit(text[i]));
                }
            }
            assert(numeral_token(text) == Some((TokenType::Integer, Payload::Integer(v))));
        }
    }
}

/// Literals scan back to themselves: the text that writes what an `Integer`,
/// a `Float` or a `Symbol` of the grammar carries is, scanned by itself, one
/// token of the same kind that carries the same.
pub proof fn lemma_literal_round_trip(s: Seq<char>, at: int)
    requires
        0 <= at <= s.len(),
        scan(s, at).token matches Some((kind, _)) && (kind == TokenType::Integer || kind
            == TokenType::Float || kind == TokenType::Symbol),
    ensures
        scan(s, at).token matches Some((kind, payload)) && scan(payload_text(payload), 0) == (Scan {
            token: Some((kind, payload)),
            end: payload_text(payload).len() as int,
        }),
{
    lemma_scan_advances(s, at);
    if occurs_at(s, at, "//"@) {
    } else if occurs_at(s, at, "/*"@) {
    } else if let Some(mark) = punctuation_at(s, at) {
        lemma_punctuation_at(s, at);
    } else if is_letter_char(s[at]) {
        lemma_keyword_kind(s.subrange(at, run_end(s, at, CharClass::Letter)));
        lemma_identifier_round_trip(s, at);
    } else if is_digit_char(s[at]) {
        lemma_numeral_round_trip(s, at);
    }
}

/// A text that is one token from its first character to its last is scanned
/// to that one token, at line 1 and column 1.
pub proof fn lemma_run_of_one_token(text: Seq<char>, kind: TokenType, payload: Payload)
    requires
        text.len() > 0,
        !CharClass::Space.contains(text[0]),
        scan(text, 0) == (Scan { token: Some((kind, payload)), end: text.len() as int }),
    ensures
        run_from(text, 0) == (Run {
            tokens: seq![
                TokenView { kind, payload, line: 1, column: 1, range: payload.len() as int },
            ],
            failure: None,
            end: text.len() as int,
        }),
{
    let end = text.len() as int;
    lemma_scan_advances(text, 0);
    lemma_scan_advances(text, end);
    lemma_run_end_is(text, 0, CharClass::Space, 0);
    lemma_run_end_is(text, end, CharClass::Space, end);
    let token = TokenView { kind, payload, line: 1, column: 1, range: payload.len() as int };
    assert(next_step(text, 0).token == Ok::<TokenView, LexError>(token));
    assert(next_step(text, end).token matches Ok(last) && last.kind == TokenType::End);
    assert(run_from(text, end).tokens =~= Seq::<TokenView>::empty());
    assert(run_from(text, 0).tokens =~= seq![token]);
}

/// Literals scan back to themselves: where the next token of a text is an
/// `Integer`, a `Float` or a `Symbol`, the text that writes what it carries
/// is scanned to that one token and nothing more.
pub proof fn lemma_literal_rescans(s: Seq<char>, from: int)
    requires
        0 <= from <= s.len(),
        next_step(s, from).token matches Ok(token) && (token.kind == TokenType::Integer
            || token.kind == TokenType::Float || token.kind == TokenType::Symbol),
    ensures
        next_step(s, from).token matches Ok(token) && run_from(payload_text(token.payload), 0)
            == (Run {
            tokens: seq![
                TokenView {
                    kind: token.kind,
                    payload: token.payload,
                    line: 1,
                    column: 1,
                    range: token.range,
                },
            ],
            failure: None,
            end: payload_text(token.payload).len() as int,
        }),
{
    let at = run_end(s, from, CharClass::Space);
    lemma_run_end(s, from, CharClass::Space);
    lemma_scan_advances(s, at);
    lemma_literal_round_trip(s, at);
    let (kind, payload) = scan(s, at).token.unwrap();
    let text = payload_text(payload);
    lemma_scan_advances(text, 0);
    if text.len() > 0 {
        if CharClass::Space.contains(text[0]) {
            if occurs_at(s, at, "//"@) {
            } else if occurs_at(s, at, "/*"@) {
            } else if punctuation_at(s, at) is Some {
                lemma_punctuation_at(s, at);
            } else if is_letter_char(s[at]) {
                lemma_keyword_kind(s.subrange(at, run_end(s, at, CharClass::Letter)));
                lemma_run_end(s, at + 1, CharClass::Letter);
                assert(text[0] == s[at]);
            } else if is_digit_char(s[at]) {
                lemma_scan_fits(s, at);
                lemma_run_end(s, at + 1, CharClass::NumeralPart);
                let digits = without_separators(
                    s.subrange(at, run_end(s, at, CharClass::NumeralPart)),
                );
                if kind == TokenType::Integer {
                    lemma_decimal_value_prefix(digits, digits.len() as int);
                    lemma_decimal_text(decimal_value(digits));
                    assert(is_ascii_digit(text[0]));
                } else {
                    let run = s.subrange(at, run_end(s, at, CharClass::NumeralPart));
                    lemma_without_separators(run);
                    assert(run[0] == s[at]);
                    assert(text[0] == s[at]);
                }
            }
        }
        lemma_run_of_one_token(text, kind, payload);
    }
}

/// What is written as an operator, a punctuation mark or a reserved word
/// scans back to it: the spelling of such a kind is, scanned by itself, one
/// token of that kind that carries nothing.
pub proof fn lemma_spelling_round_trip(kind: TokenType)
    requires
        kind.is_punctuation() || kind.is_keyword(),
    ensures
        scan(kind.spelling(), 0) == (Scan {
            token: Some((kind, Payload::Empty)),
            end: kind.spelling().len() as int,
        }),
{
    let text = kind.spelling();
    if kind.is_keyword() {
        lemma_keyword_spellings();
        assert forall|i: int| 0 <= i < text.len() implies is_letter_char(#[trigger] text[i]) by {}
        lemma_scan_identifier(text);
        lemma_keyword_kind_of_spelling(kind);
    } else {
        lemma_punctuation_spellings();
        reveal_strlit("//");
        reveal_strlit("/*");
        lemma_occurs_at_short(text, 0, "//"@);
        lemma_occurs_at_short(text, 0, "/*"@);
        lemma_punctuation_at(text, 0);
        assert(munch(text, 0) == Some(kind));
    }
}

/// What is written as an operator, a punctuation mark or a reserved word is
/// scanned to that one token and nothing more.
pub proof fn lemma_spelling_rescans(kind: TokenType)
    requires
        kind.is_punctuation() || kind.is_keyword(),
    ensures
        run_from(kind.spelling(), 0) == (Run {
            tokens: seq![
                TokenView { kind, payload: Payload::Empty, line: 1, column: 1, range: 0 },
            ],
            failure: None,
            end: kind.spelling().len() as int,
        }),
{
    lemma_spelling_round_trip(kind);
    lemma_keyword_spellings();
    lemma_punctuation_spellings();
    lemma_run_of_one_token(kind.spelling(), kind, Payload::Empty);
}

/// Whether the place `(line_a, column_a)` comes before the place
/// `(line_b, column_b)` in reading order.
pub open spec fn place_before(line_a: int, column_a: int, line_b: int, column_b: int) -> bool {
    line_a < line_b || (line_a == line_b && column_a < column_b)
}

/// Lines and columns follow the text: a character that stands after another
/// has the later place.
pub proof fn lemma_place_order(s: Seq<char>, a: int, b: int)
    requires
        0 <= a < b,
    ensures
        place_before(line_at(s, a), column_at(s, a), line_at(s, b), column_at(s, b)),
    decreases b,
{
    if a < b - 1 {
        lemma_place_order(s, a, b - 1);
    }
}

/// Whether `token` starts in `s` at an index from `from` on.
pub open spec fn starts_from(s: Seq<char>, from: int, token: TokenView) -> bool {
    exists|at: int|
        from <= at && token.line == #[trigger] line_at(s, at) && token.column == column_at(s, at)
}

/// Every token of a run starts at or after the index from which the run
/// starts.
pub proof fn lemma_run_from_starts(s: Seq<char>, from: int)
    requires
        0 <= from <= s.len(),
    ensures
        forall|i: int|
            0 <= i < run_from(s, from).tokens.len() ==> starts_from(
                s,
                from,
                #[trigger] run_from(s, from).tokens[i],
            ),
    decreases s.len() - from,
{
    lemma_next_step_advances(s, from);
    lemma_run_end(s, from, CharClass::Space);
    let step = next_step(s, from);
    if let Ok(token) = step.token {
        if token.kind != TokenType::End {
            lemma_run_from_starts(s, step.end);
            let at = run_end(s, from, CharClass::Space);
            let rest = run_from(s, step.end).tokens;
            assert forall|i: int| 0 <= i < run_from(s, from).tokens.len() implies starts_from(
                s,
                from,
                #[trigger] run_from(s, from).tokens[i],
            ) by {
                if i == 0 {
                    assert(token.line == line_at(s, at));
                } else {
                    let t = rest[i - 1];
                    assert(starts_from(s, step.end, t));
                    let later = choose|later: int|
                        step.end <= later && t.line == #[trigger] line_at(s, later) && t.column
                            == column_at(s, later);
                    assert(t.line == line_at(s, later));
                }
            }
        }
    }
}

/// Tokens come in the order of the text: of two tokens of a run, the earlier
/// one starts at the earlier place.
pub proof fn lemma_run_from_in_order(s: Seq<char>, from: int)
    requires
        0 <= from <= s.len(),
    ensures
        forall|i: int, j: int|
            0 <= i < j < run_from(s, from).tokens.len() ==> place_before(
                (#[trigger] run_from(s, from).tokens[i]).line,
                run_from(s, from).tokens[i].column,
                (#[trigger] run_from(s, from).tokens[j]).line,
                run_from(s, from).tokens[j].column,
            ),
    decreases s.len() - from,
{
    lemma_next_step_advances(s, from);
    lemma_run_end(s, from, CharClass::Space);
    let step = next_step(s, from);
    if let Ok(token) = step.token {
        if token.kind != TokenType::End {
            let at = run_end(s, from, CharClass::Space);
            lemma_scan_advances(s, at);
            lemma_run_from_in_order(s, step.end);
            lemma_run_from_starts(s, step.end);
            let rest = run_from(s, step.end).tokens;
            assert forall|i: int, j: int|
                0 <= i < j < run_from(s, from).tokens.len() implies place_before(
                (#[trigger] run_from(s, from).tokens[i]).line,
                run_from(s, from).tokens[i].column,
                (#[trigger] run_from(s, from).tokens[j]).line,
                run_from(s, from).tokens[j].column,
            ) by {
                if i == 0 {
                    let t = rest[j - 1];
                    assert(starts_from(s, step.end, t));
                    let later = choose|later: int|
                        step.end <= later && t.line == #[trigger] line_at(s, later) && t.column
                            == column_at(s, later);
                    lemma_place_order(s, at, later);
                } else {
                    assert(run_from(s, from).tokens[i] == rest[i - 1]);
                    assert(run_from(s, from).tokens[j] == rest[j - 1]);
                }
            }
        }
    }
}

/// A run that ends before the end of the text ends there in any longer
/// text.
pub proof fn lemma_run_end_stable(a: Seq<char>, b: Seq<char>, from: int, class: CharClass)
    requires
        0 <= from <= a.len(),
        run_end(a, from, class) < a.len(),
    ensures
        run_end(a + b, from, class) == run_end(a, from, class),
{
    let end = run_end(a, from, class);
    lemma_run_end(a, from, class);
    assert forall|k: int| from <= k < end implies class.contains(#[trigger] (a + b)[k]) by {
        assert(class.contains(a[k]));
    }
    assert((a + b)[end] == a[end]);
    lemma_run_end_is(a + b, from, class, end);
}

/// The place of a character does not depend on the text after it.
pub proof fn lemma_place_stable(a: Seq<char>, b: Seq<char>, at: int)
    requires
        0 <= at <= a.len(),
    ensures
        line_at(a + b, at) == line_at(a, at),
        column_at(a + b, at) == column_at(a, at),
    decreases at,
{
    if at > 0 {
        lemma_place_stable(a, b, at - 1);
        assert((a + b)[at - 1] == a[at - 1]);
    }
}

/// A pattern that stands within the text stands there in any longer text,
/// and no pattern comes to stand within the text by what follows it.
pub proof fn lemma_occurs_at_stable(a: Seq<char>, b: Seq<char>, at: int, pattern: Seq<char>)
    requires
        0 <= at,
        at + pattern.len() <= a.len(),
    ensures
        occurs_at(a + b, at, pattern) == occurs_at(a, at, pattern),
{
    assert((a + b).subrange(at, at + pattern.len()) =~= a.subrange(at, at + pattern.len()));
}

/// Whether the token that starts in `s` at `at` is settled: it ends before the
/// end of `s`, or it is a comment that is closed within `s`, by a line feed
/// or by `*/`.
pub open spec fn is_settled(s: Seq<char>, at: int) -> bool {
    ||| scan(s, at).end < s.len()
    ||| occurs_at(s, at, "//"@) && run_end(s, at + 2, CharClass::LineText) < s.len()
    ||| occurs_at(s, at, "/*"@) && first_occurrence(s, at + 2, "*/"@) is Some
}

/// A settled token does not depend on what follows: it is the same token in
/// any longer text.
pub proof fn lemma_scan_stable(a: Seq<char>, b: Seq<char>, at: int)
    requires
        0 <= at <= a.len(),
        is_settled(a, at),
    ensures
        scan(a + b, at) == scan(a, at),
{
    let s = a + b;
    lemma_scan_advances(a, at);
    reveal_strlit("//");
    reveal_strlit("/*");
    reveal_strlit("*/");
    assert(at + 2 <= a.len());
    assert(s[at] == a[at]);
    assert(s[at + 1] == a[at + 1]);
    lemma_occurs_at_stable(a, b, at, "//"@);
    lemma_occurs_at_stable(a, b, at, "/*"@);
    lemma_occurs_at_short(a, at, "//"@);
    lemma_occurs_at_short(a, at, "/*"@);
    if occurs_at(a, at, "//"@) {
        let eol = run_end(a, at + 2, CharClass::LineText);
        lemma_run_end(a, at + 2, CharClass::LineText);
        lemma_run_end_stable(a, b, at + 2, CharClass::LineText);
        assert(s.subrange(at + 2, eol) =~= a.subrange(at + 2, eol));
    } else if occurs_at(a, at, "/*"@) {
        let close = first_occurrence(a, at + 2, "*/"@).unwrap();
        assert(is_first_occurrence(a, at + 2, "*/"@, close));
        assert forall|k: int| at + 2 <= k < close implies !occurs_at(s, k, "*/"@) by {
            lemma_occurs_at_stable(a, b, k, "*/"@);
        }
        lemma_occurs_at_stable(a, b, close, "*/"@);
        lemma_first_occurrence_found(s, at + 2, "*/"@, close);
        assert(s.subrange(at + 2, close) =~= a.subrange(at + 2, close));
    } else {
        lemma_punctuation_at(a, at);
        lemma_punctuation_at(s, at);
        lemma_punctuation_spellings();
        if at + 2 < a.len() {
            assert(s[at + 2] == a[at + 2]);
        }
        assert(munch(s, at) == munch(a, at));
        if punctuation_at(a, at) is Some {
        } else if is_letter_char(a[at]) {
            let end = run_end(a, at, CharClass::Letter);
            lemma_run_end_stable(a, b, at, CharClass::Letter);
            assert(s.subrange(at, end) =~= a.subrange(at, end));
        } else if is_digit_char(a[at]) {
            let end = run_end(a, at, CharClass::NumeralPart);
            lemma_run_end_stable(a, b, at, CharClass::NumeralPart);
            assert(s.subrange(at, end) =~= a.subrange(at, end));
        }
    }
}

/// Asking for the next token gives the same in any longer text, where the
/// token ends before the end of the text.
pub proof fn lemma_next_step_stable(a: Seq<char>, b: Seq<char>, from: int)
    requires
        0 <= from <= a.len(),
        next_step(a, from).end < a.len(),
    ensures
        next_step(a + b, from) == next_step(a, from),
{
    let at = run_end(a, from, CharClass::Space);
    lemma_run_end(a, from, CharClass::Space);
    lemma_scan_advances(a, at);
    lemma_run_end_stable(a, b, from, CharClass::Space);
    lemma_scan_stable(a, b, at);
    lemma_place_stable(a, b, at);
}

/// More text changes at most the last token: all the tokens of a text but
/// the last are, in the same order, the first tokens of any longer text.
pub proof fn lemma_run_from_stable(a: Seq<char>, b: Seq<char>, from: int)
    requires
        0 <= from <= a.len(),
    ensures
        run_from(a, from).tokens.len() - 1 <= run_from(a + b, from).tokens.len(),
        forall|i: int|
            0 <= i < run_from(a, from).tokens.len() - 1 ==> run_from(a + b, from).tokens[i]
                == #[trigger] run_from(a, from).tokens[i],
    decreases a.len() - from,
{
    lemma_next_step_advances(a, from);
    let step = next_step(a, from);
    let short = run_from(a, from).tokens;
    let long = run_from(a + b, from).tokens;
    if step.token matches Ok(token) && token.kind != TokenType::End {
        let token = step.token.unwrap();
        let rest = run_from(a, step.end).tokens;
        assert(short == seq![token] + rest);
        if rest.len() > 0 {
            lemma_next_step_advances(a, step.end);
            lemma_run_end(a, step.end, CharClass::Space);
            lemma_scan_advances(a, run_end(a, step.end, CharClass::Space));
            assert(step.end < a.len());
            lemma_next_step_stable(a, b, from);
            lemma_run_from_stable(a, b, step.end);
            let longer = run_from(a + b, step.end).tokens;
            assert(long == seq![token] + longer);
            assert forall|i: int| 0 <= i < short.len() - 1 implies long[i]
                == #[trigger] short[i] by {
                if i > 0 {
                    assert(short[i] == rest[i - 1]);
                    assert(longer[i - 1] == rest[i - 1]);
                    assert(long[i] == longer[i - 1]);
                }
            }
        }
    } else {
        assert(short.len() == 0);
    }
}

/// A run counted from a place within the text is the run of the text from
/// that place on.
pub proof fn lemma_run_end_suffix(s: Seq<char>, at: int, from: int, class: CharClass)
    requires
        0 <= at,
        0 <= from,
        at + from <= s.len(),
    ensures
        run_end(s, at + from, class) == at + run_end(s.skip(at), from, class),
    decreases s.len() - at - from,
{
    if at + from < s.len() {
        assert(s.skip(at)[from] == s[at + from]);
        if class.contains(s[at + from]) {
            lemma_run_end_suffix(s, at, from + 1, class);
        }
    }
}

/// A pattern stands at a place of the text exactly where it stands in the
/// text from an earlier place on.
pub proof fn lemma_occurs_at_suffix(s: Seq<char>, at: int, k: int, pattern: Seq<char>)
    requires
        0 <= at <= s.len(),
        0 <= k,
    ensures
        occurs_at(s, at + k, pattern) == occurs_at(s.skip(at), k, pattern),
{
    if at + k + pattern.len() <= s.len() {
        assert(s.skip(at).subrange(k, k + pattern.len()) =~= s.subrange(
            at + k,
            at + k + pattern.len(),
        ));
    }
}

/// The first occurrence of a pattern after a place of the text is its first
/// occurrence in the text from an earlier place on.
pub proof fn lemma_first_occurrence_suffix(s: Seq<char>, at: int, from: int, pattern: Seq<char>)
    requires
        0 <= at <= s.len(),
        0 <= from,
    ensures
        first_occurrence(s, at + from, pattern) == match first_occurrence(
            s.skip(at),
            from,
            pattern,
        ) {
            Some(found) => Some(at + found),
            None => None,
        },
{
    let rest = s.skip(at);
    lemma_first_occurrence(rest, from, pattern);
    match first_occurrence(rest, from, pattern) {
        Some(found) => {
            lemma_occurs_at_suffix(s, at, found, pattern);
            assert forall|k: int| at + from <= k < at + found implies !occurs_at(s, k, pattern) by {
                lemma_occurs_at_suffix(s, at, k - at, pattern);
            }
            lemma_first_occurrence_found(s, at + from, pattern, at + found);
        },
        None => {
            assert forall|k: int| at + from <= k implies !occurs_at(s, k, pattern) by {
                lemma_occurs_at_suffix(s, at, k - at, pattern);
            }
            lemma_first_occurrence_none(s, at + from, pattern);
        },
    }
}

/// A token depends only on the text from its start on: it is the token that
/// starts the rest of the text.
pub proof fn lemma_scan_suffix(s: Seq<char>, at: int)
    requires
        0 <= at <= s.len(),
    ensures
        scan(s, at) == (Scan {
            token: scan(s.skip(at), 0).token,
            end: at + scan(s.skip(at), 0).end,
        }),
{
    let rest = s.skip(at);
    if at < s.len() {
        assert(rest[0] == s[at]);
        reveal_strlit("//");
        reveal_strlit("/*");
        reveal_strlit("*/");
        lemma_occurs_at_suffix(s, at, 0, "//"@);
        lemma_occurs_at_suffix(s, at, 0, "/*"@);
        if occurs_at(s, at, "//"@) {
            lemma_run_end_suffix(s, at, 2, CharClass::LineText);
            let eol = run_end(rest, 2, CharClass::LineText);
            lemma_run_end(rest, 2, CharClass::LineText);
            assert(s.subrange(at + 2, at + eol) =~= rest.subrange(2, eol));
        } else if occurs_at(s, at, "/*"@) {
            lemma_first_occurrence_suffix(s, at, 2, "*/"@);
            lemma_first_occurrence(rest, 2, "*/"@);
            match first_occurrence(rest, 2, "*/"@) {
                Some(close) => {
                    assert(s.subrange(at + 2, at + close) =~= rest.subrange(2, close));
                },
                None => {
                    assert(s.subrange(at + 2, s.len() as int) =~= rest.subrange(
                        2,
                        rest.len() as int,
                    ));
                },
            }
        } else {
            lemma_punctuation_at(s, at);
            lemma_punctuation_at(rest, 0);
            if at + 1 < s.len() {
                assert(rest[1] == s[at + 1]);
            }
            if at + 2 < s.len() {
                assert(rest[2] == s[at + 2]);
            }
            assert(munch(rest, 0) == munch(s, at));
            if punctuation_at(s, at) is Some {
            } else if is_letter_char(s[at]) {
                lemma_run_end_suffix(s, at, 0, CharClass::Letter);
                let end = run_end(rest, 0, CharClass::Letter);
                lemma_run_end(rest, 0, CharClass::Letter);
                assert(s.subrange(at, at + end) =~= rest.subrange(0, end));
            } else if is_digit_char(s[at]) {
                lemma_run_end_suffix(s, at, 0, CharClass::NumeralPart);
                let end = run_end(rest, 0, CharClass::NumeralPart);
                lemma_run_end(rest, 0, CharClass::NumeralPart);
                assert(s.subrange(at, at + end) =~= rest.subrange(0, end));
            }
        }
    }
}

/// The kinds of tokens and what they carry, without their places.
pub open spec fn lexemes(tokens: Seq<TokenView>) -> Seq<(TokenType, Payload)> {
    Seq::new(tokens.len(), |i: int| (tokens[i].kind, tokens[i].payload))
}

/// The tokens of a text from a place on are, but for their places, the
/// tokens of the rest of the text; and scanning fails in the one exactly
/// where it fails in the other.
pub proof fn lemma_run_from_suffix(s: Seq<char>, at: int, from: int)
    requires
        0 <= at,
        0 <= from,
        at + from <= s.len(),
    ensures
        lexemes(run_from(s, at + from).tokens) == lexemes(run_from(s.skip(at), from).tokens),
        run_from(s, at + from).failure is Some <==> run_from(s.skip(at), from).failure is Some,
        run_from(s, at + from).end == at + run_from(s.skip(at), from).end,
    decreases s.len() - at - from,
{
    let rest = s.skip(at);
    lemma_next_step_advances(s, at + from);
    lemma_next_step_advances(rest, from);
    lemma_run_end_suffix(s, at, from, CharClass::Space);
    let start = run_end(rest, from, CharClass::Space);
    lemma_run_end(rest, from, CharClass::Space);
    lemma_scan_suffix(s, at + start);
    lemma_scan_suffix(rest, start);
    assert(rest.skip(start) =~= s.skip(at + start));
    let here = next_step(s, at + from);
    let there = next_step(rest, from);
    assert(here.end == at + there.end);
    match there.token {
        Ok(token) => {
            if token.kind != TokenType::End {
                lemma_run_from_suffix(s, at, there.end);
                let first = here.token.unwrap();
                let tail = run_from(s, here.end).tokens;
                let rest_tail = run_from(rest, there.end).tokens;
                assert(run_from(s, at + from).tokens == seq![first] + tail);
                assert(run_from(rest, from).tokens == seq![token] + rest_tail);
                assert(lexemes(seq![first] + tail) =~= seq![(first.kind, first.payload)] + lexemes(
                    tail,
                ));
                assert(lexemes(seq![token] + rest_tail) =~= seq![(token.kind, token.payload)]
                    + lexemes(rest_tail));
            } else {
                assert(lexemes(run_from(s, at + from).tokens) =~= lexemes(
                    run_from(rest, from).tokens,
                ));
            }
        },
        Err(_) => {
            assert(lexemes(run_from(s, at + from).tokens) =~= lexemes(run_from(rest, from).tokens));
        },
    }
}

/// Whether every token of `s` from `from` on is settled, and scanning does
/// not fail.
pub open spec fn run_settled(s: Seq<char>, from: int) -> bool
    decreases s.len() - from,
    when 0 <= from <= s.len()
    via run_settled_decreases
{
    let step = next_step(s, from);
    match step.token {
        Err(_) => false,
        Ok(token) => token.kind == TokenType::End || (is_settled(
            s,
            run_end(s, from, CharClass::Space),
        ) && run_settled(s, step.end)),
    }
}

#[via_fn]
proof fn run_settled_decreases(s: Seq<char>, from: int) {
    lemma_next_step_advances(s, from);
}

/// The tokens of a text whose tokens are settled are the first tokens of any
/// longer text, and the tokens of the longer text go on with those that
/// start after the shorter text.
pub proof fn lemma_run_from_prefix(a: Seq<char>, b: Seq<char>, from: int)
    requires
        0 <= from <= a.len(),
        run_settled(a, from),
    ensures
        run_from(a + b, from).tokens == run_from(a, from).tokens + run_from(
            a + b,
            a.len() as int,
        ).tokens,
        run_from(a + b, from).failure == run_from(a + b, a.len() as int).failure,
        run_from(a + b, from).end == run_from(a + b, a.len() as int).end,
    decreases a.len() - from,
{
    let s = a + b;
    lemma_next_step_advances(a, from);
    lemma_run_end(a, from, CharClass::Space);
    let at = run_end(a, from, CharClass::Space);
    let step = next_step(a, from);
    let token = step.token.unwrap();
    if token.kind == TokenType::End {
        lemma_scan_advances(a, at);
        assert(at == a.len());
        assert forall|k: int| from <= k < a.len() implies CharClass::Space.contains(
            #[trigger] s[k],
        ) by {
            assert(CharClass::Space.contains(a[k]));
        }
        lemma_run_end_within(s, from, CharClass::Space, a.len() as int);
        assert(next_step(s, from) == next_step(s, a.len() as int));
        assert(run_from(a, from).tokens =~= Seq::<TokenView>::empty());
        assert(run_from(a, from).tokens + run_from(s, a.len() as int).tokens =~= run_from(
            s,
            a.len() as int,
        ).tokens);
        lemma_next_step_advances(s, from);
        lemma_next_step_advances(s, a.len() as int);
    } else {
        lemma_scan_advances(a, at);
        assert forall|k: int| from <= k < at implies CharClass::Space.contains(#[trigger] s[k]) by {
            assert(CharClass::Space.contains(a[k]));
        }
        assert(s[at] == a[at]);
        lemma_run_end_is(s, from, CharClass::Space, at);
        lemma_scan_stable(a, b, at);
        lemma_place_stable(a, b, at);
        assert(next_step(s, from) == step);
        lemma_run_from_prefix(a, b, step.end);
        lemma_next_step_advances(s, from);
        let rest = run_from(a, step.end).tokens;
        let later = run_from(s, a.len() as int).tokens;
        assert(run_from(s, from).tokens == seq![token] + run_from(s, step.end).tokens);
        assert(run_from(a, from).tokens == seq![token] + rest);
        assert(seq![token] + (rest + later) =~= (seq![token] + rest) + later);
    }
}

/// Texts compose: where every token of a text is settled, the tokens of that
/// text followed by another are, but for their places, the tokens of the one
/// followed by the tokens of the other; and scanning the whole fails exactly
/// where scanning the other fails.
pub proof fn lemma_run_composes(a: Seq<char>, b: Seq<char>)
    requires
        run_settled(a, 0),
    ensures
        lexemes(run_from(a + b, 0).tokens) == lexemes(run_from(a, 0).tokens) + lexemes(
            run_from(b, 0).tokens,
        ),
        run_from(a + b, 0).failure is Some <==> run_from(b, 0).failure is Some,
        run_from(a + b, 0).end == a.len() + run_from(b, 0).end,
{
    let s = a + b;
    lemma_run_from_prefix(a, b, 0);
    lemma_run_from_suffix(s, a.len() as int, 0);
    assert(s.skip(a.len() as int) =~= b);
    let first = run_from(a, 0).tokens;
    let second = run_from(s, a.len() as int).tokens;
    assert(lexemes(first + second) =~= lexemes(first) + lexemes(second));
}

} // verus!

//! The scanner: a cursor over a source text that gives one token per call.

use vstd::prelude::*;
use vstd::string::*;
use crate::chars::{
    is_digit, is_digit_char, is_letter, is_letter_char, is_space, is_space_char, CharClass,
};
use crate::grammar::{
    block_comment_at, char_at, identifier_at, lemma_next_step_advances, lemma_punctuation_spellings,
    lemma_scan_by_lookahead, munch, next_step, numeral_at, run_from, without_separators,
};
use crate::number::{is_float_text, lemma_decimal_len_bounds, parse_integer};
use crate::ring::{keep_last, Ring};
use crate::text::{
    chars_of, column_at, first_occurrence, is_first_occurrence, lemma_first_occurrence_found,
    lemma_first_occurrence_none, lemma_position_bounds, lemma_run_end, lemma_run_end_is, line_at,
    occurs_at, run_end, string_of, trim_both, trim_left,
};
use crate::theorems::{lemma_next_step_well_formed, lemma_run_from_ends, lemma_run_from_well_formed};
use crate::token::{lookup_keyword, LexError, Payload, Token, TokenType, TokenValue, TokenView};

verus! {

/// Where the scanner stands in its text.
#[derive(Clone, Copy)]
struct Cursor {
    pos: usize,
    line: i32,
    column: i32,
}

/// A scanner over one source text. It reads the text from its start to its
/// end, once, and gives the tokens in the order in which they are written.
///
/// An identifier is a run of letters and underscores. A digit does not go on
/// with it: `a1` is the identifier `a` and the number `1`. A numeral is a run
/// of digits, decimal points and underscores; the underscores only group the
/// digits, and a decimal point makes the number a `Float`, which is carried
/// as the text that writes it. Comments do not nest: the first `*/` closes a
/// block comment.
pub struct Lexer {
    input: Vec<char>,
    cursor: Cursor,
}

/// The result of asking for a token, as a mathematical value.
pub open spec fn token_result_view(r: Result<Token, LexError>) -> Result<TokenView, LexError> {
    match r {
        Ok(token) => Ok(token@),
        Err(e) => Err(e),
    }
}

/// The tokens of `tokens`, as mathematical values.
pub open spec fn token_views(tokens: Seq<Token>) -> Seq<TokenView> {
    Seq::new(tokens.len(), |i: int| tokens[i]@)
}

impl Lexer {
    #[verifier::type_invariant]
    spec fn inv(self) -> bool {
        &&& self.input.len() < i32::MAX
        &&& self.cursor.pos <= self.input.len()
        &&& self.cursor.line == line_at(self.input@, self.cursor.pos as int)
        &&& self.cursor.column == column_at(self.input@, self.cursor.pos as int)
    }

    /// The text that the scanner reads.
    pub closed spec fn source(&self) -> Seq<char> {
        self.input@
    }

    /// How many characters of the text the scanner has consumed.
    pub closed spec fn offset(&self) -> int {
        self.cursor.pos as int
    }

    /// A scanner at the start of `input`. Lines and columns are counted in an
    /// `i32`, so `input` must hold fewer than `i32::MAX` characters.
    pub fn new(input: &str) -> (lexer: Lexer)
        requires
            input@.len() < i32::MAX,
        ensures
            lexer.source() == input@,
            lexer.offset() == 0,
    {
        Lexer { input: chars_of(input), cursor: Cursor { pos: 0, line: 1, column: 1 } }
    }

    /// A scanner at the start of `input`, unless `input` is too long for its
    /// lines and columns to be counted.
    pub fn try_new(input: &str) -> (lexer: Option<Lexer>)
        ensures
            lexer is Some <==> input@.len() < i32::MAX,
            lexer matches Some(lexer) ==> lexer.source() == input@ && lexer.offset() == 0,
    {
        let chars = chars_of(input);
        if chars.len() < i32::MAX as usize {
            Some(Lexer { input: chars, cursor: Cursor { pos: 0, line: 1, column: 1 } })
        } else {
            None
        }
    }

    /// The line of the next character, counted from 1.
    pub fn line(&self) -> (line: i32)
        ensures
            line == line_at(self.source(), self.offset()),
    {
        proof {
            use_type_invariant(self);
        }
        self.cursor.line
    }

    /// The column of the next character, counted from 1.
    pub fn column(&self) -> (column: i32)
        ensures
            column == column_at(self.source(), self.offset()),
    {
        proof {
            use_type_invariant(self);
        }
        self.cursor.column
    }

    /// Scans the rest of the text: the tokens from the cursor to the end, in
    /// the order of the text and without the `End` that closes them. Scanning
    /// stops at the first malformed numeral, which is the error.
    pub fn lex(&mut self) -> (r: Result<Vec<Token>, LexError>)
        ensures
            final(self).source() == old(self).source(),
            final(self).offset() == run_from(old(self).source(), old(self).offset()).end,
            match r {
                Ok(tokens) => {
                    &&& run_from(old(self).source(), old(self).offset()).failure is None
                    &&& token_views(tokens@) == run_from(
                        old(self).source(),
                        old(self).offset(),
                    ).tokens
                },
                Err(e) => run_from(old(self).source(), old(self).offset()).failure == Some(e),
            },
            r matches Ok(tokens) ==> forall|i: int|
                0 <= i < tokens.len() ==> (#[trigger] tokens[i])@.well_formed()
                    && tokens[i].token_type != TokenType::End,
            r is Ok ==> final(self).offset() == old(self).source().len(),
            0 <= old(self).offset() <= final(self).offset() <= old(self).source().len(),
    {
        let ghost src = self.source();
        let ghost from = self.offset();
        let mut tokens: Vec<Token> = Vec::new();
        proof {
            use_type_invariant(&*self);
            assert(token_views(tokens@) =~= Seq::<TokenView>::empty());
            let all = run_from(src, from).tokens;
            assert(token_views(tokens@) + all =~= all);
        }
        loop
            invariant
                src == old(self).source(),
                from == old(self).offset(),
                self.source() == src,
                0 <= from <= self.offset() <= src.len(),
                run_from(src, from).tokens == token_views(tokens@) + run_from(
                    src,
                    self.offset(),
                ).tokens,
                run_from(src, from).failure == run_from(src, self.offset()).failure,
                run_from(src, from).end == run_from(src, self.offset()).end,
            decreases src.len() - self.offset(),
        {
            let ghost here = self.offset();
            proof {
                lemma_next_step_advances(src, here);
            }
            match self.next_token() {
                Err(e) => {
                    return Err(e);
                },
                Ok(tok) => {
                    if tok.token_type == TokenType::End {
                        proof {
                            let views = token_views(tokens@);
                            assert(views + Seq::<TokenView>::empty() =~= views);
                            lemma_run_from_well_formed(src, from);
                            lemma_run_from_ends(src, from);
                            assert forall|i: int| 0 <= i < tokens.len() implies (
                            #[trigger] tokens[i])@.well_formed() && tokens[i].token_type
                                != TokenType::End by {
                                assert(views[i] == tokens[i]@);
                            }
                        }
                        return Ok(tokens);
                    }
                    proof {
                        let before = token_views(tokens@);
                        let rest = run_from(src, self.offset()).tokens;
                        assert(token_views(tokens@.push(tok)) =~= before.push(tok@));
                        assert(before + (seq![tok@] + rest) =~= before.push(tok@) + rest);
                    }
                    tokens.push(tok);
                },
            }
        }
    }

    /// A token of kind `t` that carries `v` and starts at the given line and
    /// column.
    fn gen_token(t: TokenType, v: TokenValue, line: i32, column: i32) -> (token: Token)
        requires
            v@.len() <= i32::MAX,
        ensures
            token@ == (TokenView {
                kind: t,
                payload: v@,
                line: line as int,
                column: column as int,
                range: v@.len() as int,
            }),
    {
        let range = v.len() as i32;
        Token { token_type: t, value: v, line, column, range }
    }

    /// Consumes the next character and returns it; at the end of the text
    /// there is none, and nothing is consumed.
    pub fn read_char(&mut self) -> (c: Option<char>)
        ensures
            final(self).source() == old(self).source(),
            c == char_at(old(self).source(), old(self).offset()),
            final(self).offset() == old(self).offset() + (if c is Some {
                1int
            } else {
                0int
            }),
            0 <= old(self).offset() <= final(self).offset() <= old(self).source().len(),
    {
        proof {
            use_type_invariant(&*self);
            lemma_position_bounds(self.input@, self.cursor.pos as int);
        }
        if self.cursor.pos < self.input.len() {
            let next = self.input[self.cursor.pos];
            if next == '\n' {
                self.cursor = Cursor {
                    pos: self.cursor.pos + 1,
                    line: self.cursor.line + 1,
                    column: 1,
                };
            } else {
                self.cursor = Cursor {
                    pos: self.cursor.pos + 1,
                    line: self.cursor.line,
                    column: self.cursor.column + 1,
                };
            }
            Some(next)
        } else {
            None
        }
    }

    /// Returns the next character without consuming it; at the end of the
    /// text there is none.
    pub fn peek_char(&self) -> (c: Option<char>)
        ensures
            c == char_at(self.source(), self.offset()),
            0 <= self.offset() <= self.source().len(),
    {
        proof {
            use_type_invariant(self);
        }
        if self.cursor.pos < self.input.len() {
            Some(self.input[self.cursor.pos])
        } else {
            None
        }
    }

    /// Consumes the next character if it is `ch`, and tells whether it was.
    pub fn peek_char_eq_consume(&mut self, ch: char) -> (r: bool)
        ensures
            final(self).source() == old(self).source(),
            r == (char_at(old(self).source(), old(self).offset()) == Some(ch)),
            final(self).offset() == old(self).offset() + (if r {
                1int
            } else {
                0int
            }),
            0 <= old(self).offset() <= final(self).offset() <= old(self).source().len(),
    {
        match self.peek_char() {
            Some(peek_ch) => {
                if peek_ch == ch {
                    self.read_char();
                    true
                } else {
                    false
                }
            },
            None => false,
        }
    }

    /// Consumes the whitespace that the cursor stands at.
    pub fn skip_whitespace(&mut self)
        ensures
            final(self).source() == old(self).source(),
            final(self).offset() == run_end(
                old(self).source(),
                old(self).offset(),
                CharClass::Space,
            ),
            0 <= old(self).offset() <= final(self).offset() <= old(self).source().len(),
    {
        let ghost src = self.source();
        let ghost from = self.offset();
        proof {
            use_type_invariant(&*self);
        }
        loop
            invariant
                self.source() == src,
                0 <= from <= self.offset() <= src.len(),
                forall|k: int| from <= k < self.offset() ==> is_space_char(#[trigger] src[k]),
            ensures
                self.source() == src,
                0 <= from <= self.offset() <= src.len(),
                forall|k: int| from <= k < self.offset() ==> is_space_char(#[trigger] src[k]),
                self.offset() < src.len() ==> !is_space_char(src[self.offset()]),
            decreases src.len() - self.offset(),
        {
            match self.peek_char() {
                Some(c) => {
                    if !is_space(c) {
                        break ;
                    }
                    self.read_char();
                },
                None => {
                    break ;
                },
            }
        }
        proof {
            lemma_run_end_is(src, from, CharClass::Space, self.offset());
        }
    }

    /// Tells whether the next character is a letter or an underscore.
    pub fn peek_is_letter(&self) -> (r: bool)
        ensures
            r == (char_at(self.source(), self.offset()) matches Some(c) && is_letter_char(c)),
    {
        match self.peek_char() {
            Some(ch) => is_letter(ch),
            None => false,
        }
    }

    /// Consumes the text up to the first occurrence of `until` and that
    /// occurrence, and returns what stands before it. Where `until` does not
    /// occur, the rest of the text is consumed and returned.
    pub fn read_string_until(&mut self, until: &str) -> (text: String)
        ensures
            final(self).source() == old(self).source(),
            match first_occurrence(old(self).source(), old(self).offset(), until@) {
                Some(at) => {
                    &&& text@ == old(self).source().subrange(old(self).offset(), at)
                    &&& final(self).offset() == at + until@.len()
                },
                None => {
                    &&& text@ == old(self).source().subrange(
                        old(self).offset(),
                        old(self).source().len() as int,
                    )
                    &&& final(self).offset() == old(self).source().len()
                },
            },
            0 <= old(self).offset() <= final(self).offset() <= old(self).source().len(),
    {
        let ghost src = self.source();
        let ghost from = self.offset();
        proof {
            use_type_invariant(&*self);
        }
        let start = self.cursor.pos;
        let target = chars_of(until);
        if target.len() == 0 {
            proof {
                assert(src.subrange(from, from) =~= until@);
                lemma_first_occurrence_found(src, from, until@, from);
            }
            return String::new();
        }
        let mut recent_chars = Ring::new(target.len());
        let mut found = false;
        while !found
            invariant
                self.source() == src,
                src == self.input@,
                target@ == until@,
                target.len() > 0,
                start == from,
                self.offset() == self.cursor.pos,
                from <= self.offset() <= src.len(),
                recent_chars.capacity() == target.len(),
                recent_chars@ == keep_last(src.subrange(from, self.offset()), target.len() as nat),
                found ==> is_first_occurrence(src, from, until@, self.offset() - until@.len()),
                !found ==> forall|k: int|
                    from <= k && k + until@.len() <= self.offset() ==> !occurs_at(src, k, until@),
            ensures
                found ==> is_first_occurrence(src, from, until@, self.offset() - until@.len()),
                !found ==> self.offset() == src.len() && forall|k: int|
                    from <= k ==> !occurs_at(src, k, until@),
                self.source() == src,
                src == self.input@,
                self.offset() == self.cursor.pos,
                from <= self.offset() <= src.len(),
            decreases src.len() - self.offset() + (if found { 0int } else { 1int }),
        {
            match self.read_char() {
                Some(c) => {
                    proof {
                        let before = src.subrange(from, self.offset() - 1);
                        assert(src.subrange(from, self.offset()) =~= before.push(c));
                        assert(keep_last(
                            keep_last(before, target.len() as nat).push(c),
                            target.len() as nat,
                        ) =~= keep_last(before.push(c), target.len() as nat));
                    }
                    recent_chars.insert(c);
                    if recent_chars.holds(&target) {
                        found = true;
                        proof {
                            let n = until@.len() as int;
                            let read = src.subrange(from, self.offset());
                            assert(read.len() >= n);
                            assert(src.subrange(self.offset() - n, self.offset()) =~= keep_last(
                                read,
                                n as nat,
                            ));
                        }
                    } else {
                        proof {
                            let n = until@.len() as int;
                            let read = src.subrange(from, self.offset());
                            if read.len() >= n {
                                assert(src.subrange(self.offset() - n, self.offset()) =~= keep_last(
                                    read,
                                    n as nat,
                                ));
                            }
                        }
                    }
                },
                None => {
                    break ;
                },
            }
        }
        proof {
            if found {
                lemma_first_occurrence_found(src, from, until@, self.offset() - until@.len());
            } else {
                lemma_first_occurrence_none(src, from, until@);
            }
        }
        let end = if found {
            self.cursor.pos - target.len()
        } else {
            self.cursor.pos
        };
        string_of(&self.input, start, end)
    }

    /// Consumes the rest of the line and the line feed that ends it, and
    /// returns the line without the line feed.
    pub fn read_until_eol(&mut self) -> (line: String)
        ensures
            final(self).source() == old(self).source(),
            line@ == old(self).source().subrange(
                old(self).offset(),
                run_end(old(self).source(), old(self).offset(), CharClass::LineText),
            ),
            final(self).offset() == ({
                let eol = run_end(old(self).source(), old(self).offset(), CharClass::LineText);
                if eol < old(self).source().len() {
                    eol + 1
                } else {
                    eol
                }
            }),
            0 <= old(self).offset() <= final(self).offset() <= old(self).source().len(),
    {
        let ghost src = self.source();
        let ghost from = self.offset();
        proof {
            use_type_invariant(&*self);
        }
        let mut line = String::new();
        let mut ended = false;
        while !ended
            invariant
                self.source() == src,
                0 <= from <= self.offset() <= src.len(),
                !ended ==> line@ == src.subrange(from, self.offset()),
                !ended ==> forall|k: int| from <= k < self.offset() ==> src[k] != '\n',
                ended ==> {
                    let eol = run_end(src, from, CharClass::LineText);
                    &&& line@ == src.subrange(from, eol)
                    &&& self.offset() == if eol < src.len() {
                        eol + 1
                    } else {
                        eol
                    }
                },
            decreases src.len() - self.offset() + (if ended { 0int } else { 1int }),
        {
            match self.read_char() {
                Some(c) => {
                    if c == '\n' {
                        ended = true;
                        proof {
                            lemma_run_end_is(src, from, CharClass::LineText, self.offset() - 1);
                        }
                    } else {
                        proof {
                            assert(src.subrange(from, self.offset()) =~= src.subrange(
                                from,
                                self.offset() - 1,
                            ).push(c));
                        }
                        line.push(c);
                    }
                },
                None => {
                    ended = true;
                    proof {
                        lemma_run_end_is(src, from, CharClass::LineText, self.offset());
                    }
                },
            }
        }
        line
    }

    /// Reads the block comment whose opener was consumed last, and returns
    /// what it carries.
    fn read_block_comment(&mut self) -> (body: String)
        requires
            old(self).offset() >= 2,
        ensures
            final(self).source() == old(self).source(),
            final(self).offset() == block_comment_at(
                old(self).source(),
                old(self).offset() - 2,
            ).end,
            block_comment_at(old(self).source(), old(self).offset() - 2).token == Some(
                (TokenType::Comment, Payload::Text(body@)),
            ),
            body@.len() < i32::MAX,
    {
        let ghost src = self.source();
        let ghost from = self.offset();
        proof {
            use_type_invariant(&*self);
            reveal_strlit("*/");
        }
        let start = self.cursor.pos;
        let text = self.read_string_until("*/");
        proof {
            use_type_invariant(&*self);
            if let Some(close) = first_occurrence(src, from, "*/"@) {
                assert(is_first_occurrence(src, from, "*/"@, close));
            }
        }
        let closed = self.cursor.pos - start > text.as_str().unicode_len();
        if closed {
            trim_both(text.as_str())
        } else {
            trim_left(text.as_str())
        }
    }

    /// Reads the identifier whose first character `first` was consumed last,
    /// and returns its token.
    fn read_symbol(&mut self, first: char, line: i32, column: i32) -> (token: Token)
        requires
            old(self).offset() >= 1,
            old(self).source()[old(self).offset() - 1] == first,
            is_letter_char(first),
        ensures
            final(self).source() == old(self).source(),
            final(self).offset() == identifier_at(old(self).source(), old(self).offset() - 1).end,
            identifier_at(old(self).source(), old(self).offset() - 1).token == Some(
                (token.token_type, token.value@),
            ),
            token.line == line,
            token.column == column,
            token.range == token.value@.len(),
    {
        let ghost src = self.source();
        let ghost at = self.offset() - 1;
        proof {
            use_type_invariant(&*self);
        }
        let mut ident = String::new();
        ident.push(first);
        proof {
            assert(ident@ =~= src.subrange(at, at + 1));
        }
        while self.peek_is_letter()
            invariant
                self.source() == src,
                0 <= at < self.offset() <= src.len(),
                ident@ == src.subrange(at, self.offset()),
                forall|k: int| at <= k < self.offset() ==> is_letter_char(#[trigger] src[k]),
            decreases src.len() - self.offset(),
        {
            let c = self.read_char().unwrap();
            ident.push(c);
            proof {
                assert(src.subrange(at, self.offset()) =~= src.subrange(at, self.offset() - 1).push(
                    c,
                ));
            }
        }
        proof {
            lemma_run_end_is(src, at, CharClass::Letter, self.offset());
        }
        let kind = lookup_keyword(ident.as_str());
        if kind == TokenType::Symbol {
            Lexer::gen_token(kind, TokenValue::String(ident), line, column)
        } else {
            Lexer::gen_token(kind, TokenValue::Empty, line, column)
        }
    }

    /// Reads the numeral whose first character `first` was consumed last, and
    /// returns its token; a numeral that writes no number is an error.
    fn read_number(&mut self, first: char, line: i32, column: i32) -> (r: Result<Token, LexError>)
        requires
            old(self).offset() >= 1,
            old(self).source()[old(self).offset() - 1] == first,
            is_digit_char(first),
        ensures
            final(self).source() == old(self).source(),
            final(self).offset() == numeral_at(old(self).source(), old(self).offset() - 1).end,
            match r {
                Ok(token) => {
                    &&& numeral_at(old(self).source(), old(self).offset() - 1).token == Some(
                        (token.token_type, token.value@),
                    )
                    &&& token.line == line
                    &&& token.column == column
                    &&& token.range == token.value@.len()
                },
                Err(e) => {
                    &&& numeral_at(old(self).source(), old(self).offset() - 1).token is None
                    &&& e == (LexError::MalformedNumeral { line, column })
                },
            },
    {
        let ghost src = self.source();
        let ghost at = self.offset() - 1;
        proof {
            use_type_invariant(&*self);
        }
        let mut number: Vec<char> = Vec::new();
        number.push(first);
        let mut has_decimal = false;
        proof {
            let run = src.subrange(at, at + 1);
            assert(run.drop_last() =~= Seq::<char>::empty());
            assert(without_separators(run.drop_last()) =~= Seq::<char>::empty());
            assert(number@ =~= without_separators(run));
            assert(!number@.contains('.'));
        }
        loop
            invariant
                self.source() == src,
                src.len() < i32::MAX,
                0 <= at < self.offset() <= src.len(),
                number@ == without_separators(src.subrange(at, self.offset())),
                has_decimal == number@.contains('.'),
                forall|k: int|
                    at <= k < self.offset() ==> CharClass::NumeralPart.contains(#[trigger] src[k]),
                number@.len() <= self.offset() - at,
            ensures
                self.source() == src,
                src.len() < i32::MAX,
                0 <= at < self.offset() <= src.len(),
                number@ == without_separators(src.subrange(at, self.offset())),
                has_decimal == number@.contains('.'),
                self.offset() == run_end(src, at, CharClass::NumeralPart),
                number@.len() <= self.offset() - at,
            decreases src.len() - self.offset(),
        {
            let ghost before = src.subrange(at, self.offset());
            let ghost digits = number@;
            match self.peek_char() {
                Some(c) => {
                    if is_digit(c) || c == '.' {
                        if c == '.' {
                            has_decimal = true;
                        }
                        self.read_char();
                        number.push(c);
                        proof {
                            let run = src.subrange(at, self.offset());
                            assert(run.drop_last() =~= before);
                            assert(number@.last() == c);
                            if digits.contains('.') {
                                let i = choose|i: int| 0 <= i < digits.len() && digits[i] == '.';
                                assert(number@[i] == '.');
                            }
                            if number@.contains('.') && c != '.' {
                                let i = choose|i: int| 0 <= i < number@.len() && number@[i] == '.';
                                assert(digits[i] == '.');
                            }
                        }
                    } else if c == '_' {
                        self.read_char();
                        proof {
                            let run = src.subrange(at, self.offset());
                            assert(run.drop_last() =~= before);
                        }
                    } else {
                        proof {
                            lemma_run_end_is(src, at, CharClass::NumeralPart, self.offset());
                        }
                        break ;
                    }
                },
                None => {
                    proof {
                        lemma_run_end_is(src, at, CharClass::NumeralPart, self.offset());
                    }
                    break ;
                },
            }
        }
        if has_decimal {
            if is_float_text(&number) {
                let text = string_of(&number, 0, number.len());
                proof {
                    assert(number@.subrange(0, number@.len() as int) =~= number@);
                }
                Ok(Lexer::gen_token(TokenType::Float, TokenValue::Float(text), line, column))
            } else {
                Err(LexError::MalformedNumeral { line, column })
            }
        } else {
            match parse_integer(&number) {
                Some(v) => {
                    proof {
                        lemma_decimal_len_bounds(v as int);
                    }
                    Ok(Lexer::gen_token(TokenType::Integer, TokenValue::Integer(v), line, column))
                },
                None => Err(LexError::MalformedNumeral { line, column }),
            }
        }
    }

    /// Reads the operator or punctuation mark whose first character `first`
    /// was consumed last: of the marks that are written there the longest.
    /// Where `first` starts no mark there is none, and nothing more is
    /// consumed.
    fn read_mark(&mut self, first: char) -> (mark: Option<TokenType>)
        requires
            old(self).offset() >= 1,
            old(self).source()[old(self).offset() - 1] == first,
        ensures
            final(self).source() == old(self).source(),
            mark == munch(old(self).source(), old(self).offset() - 1),
            final(self).offset() == old(self).offset() - 1 + (match mark {
                Some(kind) => kind.spelling().len() as int,
                None => 1,
            }),
    {
        proof {
            use_type_invariant(&*self);
            lemma_punctuation_spellings();
        }
        match first {
            '=' => {
                if self.peek_char_eq_consume('=') {
                    Some(TokenType::Equal)
                } else {
                    Some(TokenType::Assign)
                }
            },
            '+' => {
                if self.peek_char_eq_consume('=') {
                    Some(TokenType::PlusAssign)
                } else if self.peek_char_eq_consume('+') {
                    Some(TokenType::PlusPlus)
                } else {
                    Some(TokenType::Plus)
                }
            },
            '-' => {
                if self.peek_char_eq_consume('=') {
                    Some(TokenType::MinusAssign)
                } else if self.peek_char_eq_consume('-') {
                    Some(TokenType::MinusMinus)
                } else {
                    Some(TokenType::Minus)
                }
            },
            '*' => {
                if self.peek_char_eq_consume('=') {
                    Some(TokenType::AsteriskAssign)
                } else {
                    Some(TokenType::Asterisk)
                }
            },
            '/' => {
                if self.peek_char_eq_consume('=') {
                    Some(TokenType::SlashAssign)
                } else {
                    Some(TokenType::Slash)
                }
            },
            '%' => {
                if self.peek_char_eq_consume('=') {
                    Some(TokenType::PercentAssign)
                } else {
                    Some(TokenType::Percent)
                }
            },
            '&' => {
                if self.peek_char_eq_consume('&') {
                    Some(TokenType::And)
                } else if self.peek_char_eq_consume('=') {
                    Some(TokenType::BitAndAssign)
                } else {
                    Some(TokenType::BitAnd)
                }
            },
            '|' => {
                if self.peek_char_eq_consume('|') {
                    Some(TokenType::Or)
                } else if self.peek_char_eq_consume('=') {
                    Some(TokenType::BitOrAssign)
                } else {
                    Some(TokenType::BitOr)
                }
            },
            '^' => {
                if self.peek_char_eq_consume('=') {
                    Some(TokenType::BitXorAssign)
                } else {
                    Some(TokenType::BitXor)
                }
            },
            '<' => {
                if self.peek_char_eq_consume('=') {
                    Some(TokenType::LowerThanEqual)
                } else if self.peek_char_eq_consume('<') {
                    if self.peek_char_eq_consume('=') {
                        Some(TokenType::BitLeftAssign)
                    } else {
                        Some(TokenType::BitLeft)
                    }
                } else {
                    Some(TokenType::LowerThan)
                }
            },
            '>' => {
                if self.peek_char_eq_consume('=') {
                    Some(TokenType::GreaterThanEqual)
                } else if self.peek_char_eq_consume('>') {
                    if self.peek_char_eq_consume('=') {
                        Some(TokenType::BitRightAssign)
                    } else {
                        Some(TokenType::BitRight)
                    }
                } else {
                    Some(TokenType::GreaterThan)
                }
            },
            '!' => {
                if self.peek_char_eq_consume('=') {
                    Some(TokenType::NotEqual)
                } else {
                    Some(TokenType::Bang)
                }
            },
            ';' => Some(TokenType::Semicolon),
            ':' => Some(TokenType::Colon),
            ',' => Some(TokenType::Comma),
            '{' => Some(TokenType::LeftBrace),
            '}' => Some(TokenType::RightBrace),
            '(' => Some(TokenType::LeftBracket),
            ')' => Some(TokenType::RightBracket),
            '[' => Some(TokenType::LeftSquare),
            ']' => Some(TokenType::RightSquare),
            '#' => Some(TokenType::Directive),
            '.' => {
                if self.peek_char_eq_consume('.') {
                    if self.peek_char_eq_consume('.') {
                        Some(TokenType::Elipsis)
                    } else {
                        Some(TokenType::Range)
                    }
                } else {
                    None
                }
            },
            _ => None,
        }
    }

    /// Skips whitespace and scans the token that follows. At the end of the
    /// text the token is `End`, and it is `End` again at every later call. A
    /// numeral that writes no number is consumed and is an error.
    pub fn next_token(&mut self) -> (r: Result<Token, LexError>)
        ensures
            final(self).source() == old(self).source(),
            final(self).offset() == next_step(old(self).source(), old(self).offset()).end,
            token_result_view(r) == next_step(old(self).source(), old(self).offset()).token,
            r matches Ok(token) ==> token@.well_formed(),
            0 <= old(self).offset() <= final(self).offset() <= old(self).source().len(),
    {
        let ghost src = self.source();
        let ghost from = self.offset();
        proof {
            use_type_invariant(&*self);
            lemma_next_step_advances(src, from);
            lemma_next_step_well_formed(src, from);
        }
        self.skip_whitespace();
        let ghost at = self.offset();
        let line = self.line();
        let column = self.column();
        proof {
            use_type_invariant(&*self);
            lemma_scan_by_lookahead(src, at);
        }
        match self.read_char() {
            Some(ch) => {
                if ch == '/' && self.peek_char_eq_consume('/') {
                    let text = self.read_until_eol();
                    let body = trim_left(text.as_str());
                    proof {
                        lemma_run_end(src, at + 2, CharClass::LineText);
                    }
                    Ok(Lexer::gen_token(TokenType::Comment, TokenValue::String(body), line, column))
                } else if ch == '/' && self.peek_char_eq_consume('*') {
                    let body = self.read_block_comment();
                    Ok(Lexer::gen_token(TokenType::Comment, TokenValue::String(body), line, column))
                } else {
                    match self.read_mark(ch) {
                        Some(kind) => Ok(
                            Lexer::gen_token(kind, TokenValue::Empty, line, column),
                        ),
                        None => {
                            if is_letter(ch) {
                                Ok(self.read_symbol(ch, line, column))
                            } else if is_digit(ch) {
                                self.read_number(ch, line, column)
                            } else {
                                Ok(
                                    Lexer::gen_token(
                                        TokenType::Illegal,
                                        TokenValue::Empty,
                                        line,
                                        column,
                                    ),
                                )
                            }
                        },
                    }
                }
            },
            None => Ok(Lexer::gen_token(TokenType::End, TokenValue::Empty, line, column)),
        }
    }
}

} // verus!

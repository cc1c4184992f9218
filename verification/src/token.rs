//! Tokens: their kinds, their payloads and the table of reserved words.

use vstd::prelude::*;
use vstd::string::*;
use crate::number::{decimal_len, decimal_length, is_float_literal};

verus! {

/// `str::eq`: two string slices are equal exactly when they hold the same
/// characters in the same order.
pub assume_specification[ <str as PartialEq>::eq ](a: &str, b: &str) -> (r: bool)
    ensures
        r == (a@ == b@),
;

/// The kind of a token.
#[derive(Debug, Clone, Copy, PartialEq, Eq, Hash, Structural)]
pub enum TokenType {
    /// An input character that starts no token.
    Illegal,
    /// The end of the input.
    End,
    /// `==`
    Equal,
    /// `=`
    Assign,
    /// `+`
    Plus,
    /// `++`
    PlusPlus,
    /// `+=`
    PlusAssign,
    /// `-`
    Minus,
    /// `--`
    MinusMinus,
    /// `-=`
    MinusAssign,
    /// `*`
    Asterisk,
    /// `*=`
    AsteriskAssign,
    /// `/`
    Slash,
    /// `/=`
    SlashAssign,
    /// `%`
    Percent,
    /// `%=`
    PercentAssign,
    /// `&&`
    And,
    /// `&`
    BitAnd,
    /// `&=`
    BitAndAssign,
    /// `||`
    Or,
    /// `|`
    BitOr,
    /// `|=`
    BitOrAssign,
    /// `^`
    BitXor,
    /// `^=`
    BitXorAssign,
    /// `<`
    LowerThan,
    /// `<=`
    LowerThanEqual,
    /// `<<`
    BitLeft,
    /// `<<=`
    BitLeftAssign,
    /// `>`
    GreaterThan,
    /// `>=`
    GreaterThanEqual,
    /// `>>`
    BitRight,
    /// `>>=`
    BitRightAssign,
    /// `!=`
    NotEqual,
    /// `!`
    Bang,
    /// `:`
    Colon,
    /// `;`
    Semicolon,
    /// `,`
    Comma,
    /// `{`
    LeftBrace,
    /// `}`
    RightBrace,
    /// `(`
    LeftBracket,
    /// `)`
    RightBracket,
    /// `[`
    LeftSquare,
    /// `]`
    RightSquare,
    /// `...`
    Elipsis,
    /// `..`
    Range,
    /// `#`
    Directive,
    /// `const`
    Const,
    /// `new`
    New,
    /// `static`
    Static,
    /// `stock`
    Stock,
    /// `forward`
    Forward,
    /// `public`
    Public,
    /// `native`
    Native,
    /// `operator`
    Operator,
    /// `char`
    Char,
    /// `enum`
    Enum,
    /// `state`
    State,
    /// `if`
    If,
    /// `else`
    Else,
    /// `switch`
    Switch,
    /// `case`
    Case,
    /// `default`
    Default,
    /// `for`
    For,
    /// `while`
    While,
    /// `do`
    Do,
    /// `break`
    Break,
    /// `continue`
    Continue,
    /// `goto`
    Goto,
    /// `return`
    Return,
    /// `sizeof`
    Sizeof,
    /// `tagof`
    Tagof,
    /// `__emit`
    Emit,
    /// A whole number.
    Integer,
    /// A number with a decimal point.
    Float,
    /// An identifier that is no keyword.
    Symbol,
    /// A label. The scanner gives no token of this kind.
    Label,
    /// A quoted string. The scanner gives no token of this kind.
    Literal,
    /// A comment.
    Comment,
}

impl TokenType {
    /// The text that stands for the kind: the spelling of an operator, a
    /// punctuation mark or a keyword, and the name of every other kind.
    pub open spec fn spelling(self) -> Seq<char> {
        match self {
            TokenType::Illegal => "Illegal"@,
            TokenType::End => "End"@,
            TokenType::Equal => "=="@,
            TokenType::Assign => "="@,
            TokenType::Plus => "+"@,
            TokenType::PlusPlus => "++"@,
            TokenType::PlusAssign => "+="@,
            TokenType::Minus => "-"@,
            TokenType::MinusMinus => "--"@,
            TokenType::MinusAssign => "-="@,
            TokenType::Asterisk => "*"@,
            TokenType::AsteriskAssign => "*="@,
            TokenType::Slash => "/"@,
            TokenType::SlashAssign => "/="@,
            TokenType::Percent => "%"@,
            TokenType::PercentAssign => "%="@,
            TokenType::And => "&&"@,
            TokenType::BitAnd => "&"@,
            TokenType::BitAndAssign => "&="@,
            TokenType::Or => "||"@,
            TokenType::BitOr => "|"@,
            TokenType::BitOrAssign => "|="@,
            TokenType::BitXor => "^"@,
            TokenType::BitXorAssign => "^="@,
            TokenType::LowerThan => "<"@,
            TokenType::LowerThanEqual => "<="@,
            TokenType::BitLeft => "<<"@,
            TokenType::BitLeftAssign => "<<="@,
            TokenType::GreaterThan => ">"@,
            TokenType::GreaterThanEqual => ">="@,
            TokenType::BitRight => ">>"@,
            TokenType::BitRightAssign => ">>="@,
            TokenType::NotEqual => "!="@,
            TokenType::Bang => "!"@,
            TokenType::Colon => ":"@,
            TokenType::Semicolon => ";"@,
            TokenType::Comma => ","@,
            TokenType::LeftBrace => "{"@,
            TokenType::RightBrace => "}"@,
            TokenType::LeftBracket => "("@,
            TokenType::RightBracket => ")"@,
            TokenType::LeftSquare => "["@,
            TokenType::RightSquare => "]"@,
            TokenType::Elipsis => "..."@,
            TokenType::Range => ".."@,
            TokenType::Directive => "#"@,
            TokenType::Const => "const"@,
            TokenType::New => "new"@,
            TokenType::Static => "static"@,
            TokenType::Stock => "stock"@,
            TokenType::Forward => "forward"@,
            TokenType::Public => "public"@,
            TokenType::Native => "native"@,
            TokenType::Operator => "operator"@,
            TokenType::Char => "char"@,
            TokenType::Enum => "enum"@,
            TokenType::State => "state"@,
            TokenType::If => "if"@,
            TokenType::Else => "else"@,
            TokenType::Switch => "switch"@,
            TokenType::Case => "case"@,
            TokenType::Default => "default"@,
            TokenType::For => "for"@,
            TokenType::While => "while"@,
            TokenType::Do => "do"@,
            TokenType::Break => "break"@,
            TokenType::Continue => "continue"@,
            TokenType::Goto => "goto"@,
            TokenType::Return => "return"@,
            TokenType::Sizeof => "sizeof"@,
            TokenType::Tagof => "tagof"@,
            TokenType::Emit => "__emit"@,
            TokenType::Integer => "Integer"@,
            TokenType::Float => "Float"@,
            TokenType::Symbol => "Symbol"@,
            TokenType::Label => "Label"@,
            TokenType::Literal => "Literal"@,
            TokenType::Comment => "Comment"@,
        }
    }

    /// Whether the kind is an operator or a punctuation mark, written always
    /// with the same one to three characters.
    pub open spec fn is_punctuation(self) -> bool {
        match self {
            TokenType::Equal
            | TokenType::Assign
            | TokenType::Plus
            | TokenType::PlusPlus
            | TokenType::PlusAssign
            | TokenType::Minus
            | TokenType::MinusMinus
            | TokenType::MinusAssign
            | TokenType::Asterisk
            | TokenType::AsteriskAssign
            | TokenType::Slash
            | TokenType::SlashAssign
            | TokenType::Percent
            | TokenType::PercentAssign
            | TokenType::And
            | TokenType::BitAnd
            | TokenType::BitAndAssign
            | TokenType::Or
            | TokenType::BitOr
            | TokenType::BitOrAssign
            | TokenType::BitXor
            | TokenType::BitXorAssign
            | TokenType::LowerThan
            | TokenType::LowerThanEqual
            | TokenType::BitLeft
            | TokenType::BitLeftAssign
            | TokenType::GreaterThan
            | TokenType::GreaterThanEqual
            | TokenType::BitRight
            | TokenType::BitRightAssign
            | TokenType::NotEqual
            | TokenType::Bang
            | TokenType::Colon
            | TokenType::Semicolon
            | TokenType::Comma
            | TokenType::LeftBrace
            | TokenType::RightBrace
            | TokenType::LeftBracket
            | TokenType::RightBracket
            | TokenType::LeftSquare
            | TokenType::RightSquare
            | TokenType::Elipsis
            | TokenType::Range
            | TokenType::Directive => true,
            _ => false,
        }
    }

    /// Whether the kind is a reserved word.
    pub open spec fn is_keyword(self) -> bool {
        match self {
            TokenType::Const
            | TokenType::New
            | TokenType::Static
            | TokenType::Stock
            | TokenType::Forward
            | TokenType::Public
            | TokenType::Native
            | TokenType::Operator
            | TokenType::Char
            | TokenType::Enum
            | TokenType::State
            | TokenType::If
            | TokenType::Else
            | TokenType::Switch
            | TokenType::Case
            | TokenType::Default
            | TokenType::For
            | TokenType::While
            | TokenType::Do
            | TokenType::Break
            | TokenType::Continue
            | TokenType::Goto
            | TokenType::Return
            | TokenType::Sizeof
            | TokenType::Tagof
            | TokenType::Emit => true,
            _ => false,
        }
    }

    /// The text that stands for the kind, as a string.
    pub fn to_string(&self) -> (text: String)
        ensures
            text@ == self.spelling(),
    {
        match self {
            TokenType::Illegal => String::from_str("Illegal"),
            TokenType::End => String::from_str("End"),
            TokenType::Equal => String::from_str("=="),
            TokenType::Assign => String::from_str("="),
            TokenType::Plus => String::from_str("+"),
            TokenType::PlusPlus => String::from_str("++"),
            TokenType::PlusAssign => String::from_str("+="),
            TokenType::Minus => String::from_str("-"),
            TokenType::MinusMinus => String::from_str("--"),
            TokenType::MinusAssign => String::from_str("-="),
            TokenType::Asterisk => String::from_str("*"),
            TokenType::AsteriskAssign => String::from_str("*="),
            TokenType::Slash => String::from_str("/"),
            TokenType::SlashAssign => String::from_str("/="),
            TokenType::Percent => String::from_str("%"),
            TokenType::PercentAssign => String::from_str("%="),
            TokenType::And => String::from_str("&&"),
            TokenType::BitAnd => String::from_str("&"),
            TokenType::BitAndAssign => String::from_str("&="),
            TokenType::Or => String::from_str("||"),
            TokenType::BitOr => String::from_str("|"),
            TokenType::BitOrAssign => String::from_str("|="),
            TokenType::BitXor => String::from_str("^"),
            TokenType::BitXorAssign => String::from_str("^="),
            TokenType::LowerThan => String::from_str("<"),
            TokenType::LowerThanEqual => String::from_str("<="),
            TokenType::BitLeft => String::from_str("<<"),
            TokenType::BitLeftAssign => String::from_str("<<="),
            TokenType::GreaterThan => String::from_str(">"),
            TokenType::GreaterThanEqual => String::from_str(">="),
            TokenType::BitRight => String::from_str(">>"),
            TokenType::BitRightAssign => String::from_str(">>="),
            TokenType::NotEqual => String::from_str("!="),
            TokenType::Bang => String::from_str("!"),
            TokenType::Colon => String::from_str(":"),
            TokenType::Semicolon => String::from_str(";"),
            TokenType::Comma => String::from_str(","),
            TokenType::LeftBrace => String::from_str("{"),
            TokenType::RightBrace => String::from_str("}"),
            TokenType::LeftBracket => String::from_str("("),
            TokenType::RightBracket => String::from_str(")"),
            TokenType::LeftSquare => String::from_str("["),
            TokenType::RightSquare => String::from_str("]"),
            TokenType::Elipsis => String::from_str("..."),
            TokenType::Range => String::from_str(".."),
            TokenType::Directive => String::from_str("#"),
            TokenType::Const => String::from_str("const"),
            TokenType::New => String::from_str("new"),
            TokenType::Static => String::from_str("static"),
            TokenType::Stock => String::from_str("stock"),
            TokenType::Forward => String::from_str("forward"),
            TokenType::Public => String::from_str("public"),
            TokenType::Native => String::from_str("native"),
            TokenType::Operator => String::from_str("operator"),
            TokenType::Char => String::from_str("char"),
            TokenType::Enum => String::from_str("enum"),
            TokenType::State => String::from_str("state"),
            TokenType::If => String::from_str("if"),
            TokenType::Else => String::from_str("else"),
            TokenType::Switch => String::from_str("switch"),
            TokenType::Case => String::from_str("case"),
            TokenType::Default => String::from_str("default"),
            TokenType::For => String::from_str("for"),
            TokenType::While => String::from_str("while"),
            TokenType::Do => String::from_str("do"),
            TokenType::Break => String::from_str("break"),
            TokenType::Continue => String::from_str("continue"),
            TokenType::Goto => String::from_str("goto"),
            TokenType::Return => String::from_str("return"),
            TokenType::Sizeof => String::from_str("sizeof"),
            TokenType::Tagof => String::from_str("tagof"),
            TokenType::Emit => String::from_str("__emit"),
            TokenType::Integer => String::from_str("Integer"),
            TokenType::Float => String::from_str("Float"),
            TokenType::Symbol => String::from_str("Symbol"),
            TokenType::Label => String::from_str("Label"),
            TokenType::Literal => String::from_str("Literal"),
            TokenType::Comment => String::from_str("Comment"),
        }
    }
}

impl Default for TokenType {
    fn default() -> (kind: TokenType)
        ensures
            kind == TokenType::Illegal,
    {
        TokenType::Illegal
    }
}

/// What a token carries besides its kind, as a mathematical value.
pub ghost enum Payload {
    /// Nothing.
    Empty,
    /// The characters of an identifier or of a comment.
    Text(Seq<char>),
    /// The value of a whole number.
    Integer(int),
    /// The digits and the decimal point of a number, as they were written.
    Float(Seq<char>),
}

impl Payload {
    /// How many characters it takes to write the payload: the length of a
    /// text, the number of characters of a whole number in base ten, the
    /// length of what writes a number with a decimal point, and 0 for nothing.
    pub open spec fn len(self) -> nat {
        match self {
            Payload::Empty => 0,
            Payload::Text(text) => text.len(),
            Payload::Integer(v) => decimal_len(v),
            Payload::Float(text) => text.len(),
        }
    }

    /// Whether a token of kind `kind` may carry the payload: a text for a
    /// symbol, a label, a quoted string or a comment, a whole number for an
    /// integer, the text of a number with a decimal point for a float, and
    /// nothing for any other kind.
    pub open spec fn fits(self, kind: TokenType) -> bool {
        match kind {
            TokenType::Symbol | TokenType::Label | TokenType::Literal | TokenType::Comment => {
                self is Text
            },
            TokenType::Integer => self is Integer,
            TokenType::Float => self matches Payload::Float(text) && is_float_literal(text),
            _ => self is Empty,
        }
    }
}

/// What a token carries besides its kind.
///
/// A number with a decimal point is carried as the text that writes it: its
/// digits and its point, without the underscores that grouped the digits.
#[derive(Debug, Clone, PartialEq, Eq)]
pub enum TokenValue {
    /// Nothing.
    Empty,
    /// The text of an identifier or of a comment.
    String(String),
    /// The value of a whole number.
    Integer(i32),
    /// The text of a number with a decimal point.
    Float(String),
}

impl View for TokenValue {
    type V = Payload;

    open spec fn view(&self) -> Payload {
        match self {
            TokenValue::Empty => Payload::Empty,
            TokenValue::String(text) => Payload::Text(text@),
            TokenValue::Integer(v) => Payload::Integer(*v as int),
            TokenValue::Float(text) => Payload::Float(text@),
        }
    }
}

impl TokenValue {
    /// How many characters it takes to write the payload.
    pub fn len(&self) -> (n: usize)
        ensures
            n == self@.len(),
    {
        match self {
            TokenValue::Empty => 0,
            TokenValue::String(text) => text.as_str().unicode_len(),
            TokenValue::Integer(v) => decimal_length(*v),
            TokenValue::Float(text) => text.as_str().unicode_len(),
        }
    }
}

/// A token, as a mathematical value.
pub ghost struct TokenView {
    /// The kind of the token.
    pub kind: TokenType,
    /// What the token carries.
    pub payload: Payload,
    /// The line on which the token starts, counted from 1.
    pub line: int,
    /// The column at which the token starts, counted from 1.
    pub column: int,
    /// How many characters it takes to write the payload.
    pub range: int,
}

impl TokenView {
    /// Whether the payload is one that the kind may carry, the position counts
    /// from 1, and the range is the length of the payload.
    pub open spec fn well_formed(self) -> bool {
        &&& self.payload.fits(self.kind)
        &&& self.line >= 1
        &&& self.column >= 1
        &&& self.range == self.payload.len()
    }
}

/// A token: its kind, what it carries, where it starts and how long its
/// payload is.
#[derive(Debug, Clone, PartialEq, Eq)]
pub struct Token {
    /// The kind of the token.
    pub token_type: TokenType,
    /// What the token carries.
    pub value: TokenValue,
    /// The line on which the token starts, counted from 1.
    pub line: i32,
    /// The column at which the token starts, counted from 1.
    pub column: i32,
    /// How many characters it takes to write the payload.
    pub range: i32,
}

impl View for Token {
    type V = TokenView;

    open spec fn view(&self) -> TokenView {
        TokenView {
            kind: self.token_type,
            payload: self.value@,
            line: self.line as int,
            column: self.column as int,
            range: self.range as int,
        }
    }
}

/// Why a source text could not be scanned to its end.
#[derive(Debug, Clone, Copy, PartialEq, Eq, Structural)]
pub enum LexError {
    /// The numeral that starts at this line and column writes no number: it
    /// holds a digit that is not an ASCII digit, more than one decimal point,
    /// or a whole number above `i32::MAX`.
    MalformedNumeral {
        /// The line on which the numeral starts, counted from 1.
        line: i32,
        /// The column at which the numeral starts, counted from 1.
        column: i32,
    },
}

/// Whether `kind` is the reserved word that is written `text`.
pub open spec fn is_keyword_for(text: Seq<char>, kind: TokenType) -> bool {
    kind.is_keyword() && kind.spelling() == text
}

/// The kind of an identifier: the reserved word that is written exactly so,
/// and `Symbol` where there is none.
pub open spec fn keyword_kind(text: Seq<char>) -> TokenType {
    if exists|kind: TokenType| is_keyword_for(text, kind) {
        choose|kind: TokenType| is_keyword_for(text, kind)
    } else {
        TokenType::Symbol
    }
}

/// The length and the characters of every reserved word.
pub proof fn lemma_keyword_spellings()
    ensures
        TokenType::Const.spelling().len() == 5,
        TokenType::Const.spelling()[0] == 'c',
        TokenType::Const.spelling()[1] == 'o',
        TokenType::Const.spelling()[2] == 'n',
        TokenType::Const.spelling()[3] == 's',
        TokenType::Const.spelling()[4] == 't',
        TokenType::New.spelling().len() == 3,
        TokenType::New.spelling()[0] == 'n',
        TokenType::New.spelling()[1] == 'e',
        TokenType::New.spelling()[2] == 'w',
        TokenType::Static.spelling().len() == 6,
        TokenType::Static.spelling()[0] == 's',
        TokenType::Static.spelling()[1] == 't',
        TokenType::Static.spelling()[2] == 'a',
        TokenType::Static.spelling()[3] == 't',
        TokenType::Static.spelling()[4] == 'i',
        TokenType::Static.spelling()[5] == 'c',
        TokenType::Stock.spelling().len() == 5,
        TokenType::Stock.spelling()[0] == 's',
        TokenType::Stock.spelling()[1] == 't',
        TokenType::Stock.spelling()[2] == 'o',
        TokenType::Stock.spelling()[3] == 'c',
        TokenType::Stock.spelling()[4] == 'k',
        TokenType::Forward.spelling().len() == 7,
        TokenType::Forward.spelling()[0] == 'f',
        TokenType::Forward.spelling()[1] == 'o',
        TokenType::Forward.spelling()[2] == 'r',
        TokenType::Forward.spelling()[3] == 'w',
        TokenType::Forward.spelling()[4] == 'a',
        TokenType::Forward.spelling()[5] == 'r',
        TokenType::Forward.spelling()[6] == 'd',
        TokenType::Public.spelling().len() == 6,
        TokenType::Public.spelling()[0] == 'p',
        TokenType::Public.spelling()[1] == 'u',
        TokenType::Public.spelling()[2] == 'b',
        TokenType::Public.spelling()[3] == 'l',
        TokenType::Public.spelling()[4] == 'i',
        TokenType::Public.spelling()[5] == 'c',
        TokenType::Native.spelling().len() == 6,
        TokenType::Native.spelling()[0] == 'n',
        TokenType::Native.spelling()[1] == 'a',
        TokenType::Native.spelling()[2] == 't',
        TokenType::Native.spelling()[3] == 'i',
        TokenType::Native.spelling()[4] == 'v',
        TokenType::Native.spelling()[5] == 'e',
        TokenType::Operator.spelling().len() == 8,
        TokenType::Operator.spelling()[0] == 'o',
        TokenType::Operator.spelling()[1] == 'p',
        TokenType::Operator.spelling()[2] == 'e',
        TokenType::Operator.spelling()[3] == 'r',
        TokenType::Operator.spelling()[4] == 'a',
        TokenType::Operator.spelling()[5] == 't',
        TokenType::Operator.spelling()[6] == 'o',
        TokenType::Operator.spelling()[7] == 'r',
        TokenType::Char.spelling().len() == 4,
        TokenType::Char.spelling()[0] == 'c',
        TokenType::Char.spelling()[1] == 'h',
        TokenType::Char.spelling()[2] == 'a',
        TokenType::Char.spelling()[3] == 'r',
        TokenType::Enum.spelling().len() == 4,
        TokenType::Enum.spelling()[0] == 'e',
        TokenType::Enum.spelling()[1] == 'n',
        TokenType::Enum.spelling()[2] == 'u',
        TokenType::Enum.spelling()[3] == 'm',
        TokenType::State.spelling().len() == 5,
        TokenType::State.spelling()[0] == 's',
        TokenType::State.spelling()[1] == 't',
        TokenType::State.spelling()[2] == 'a',
        TokenType::State.spelling()[3] == 't',
        TokenType::State.spelling()[4] == 'e',
        TokenType::If.spelling().len() == 2,
        TokenType::If.spelling()[0] == 'i',
        TokenType::If.spelling()[1] == 'f',
        TokenType::Else.spelling().len() == 4,
        TokenType::Else.spelling()[0] == 'e',
        TokenType::Else.spelling()[1] == 'l',
        TokenType::Else.spelling()[2] == 's',
        TokenType::Else.spelling()[3] == 'e',
        TokenType::Switch.spelling().len() == 6,
        TokenType::Switch.spelling()[0] == 's',
        TokenType::Switch.spelling()[1] == 'w',
        TokenType::Switch.spelling()[2] == 'i',
        TokenType::Switch.spelling()[3] == 't',
        TokenType::Switch.spelling()[4] == 'c',
        TokenType::Switch.spelling()[5] == 'h',
        TokenType::Case.spelling().len() == 4,
        TokenType::Case.spelling()[0] == 'c',
        TokenType::Case.spelling()[1] == 'a',
        TokenType::Case.spelling()[2] == 's',
        TokenType::Case.spelling()[3] == 'e',
        TokenType::Default.spelling().len() == 7,
        TokenType::Default.spelling()[0] == 'd',
        TokenType::Default.spelling()[1] == 'e',
        TokenType::Default.spelling()[2] == 'f',
        TokenType::Default.spelling()[3] == 'a',
        TokenType::Default.spelling()[4] == 'u',
        TokenType::Default.spelling()[5] == 'l',
        TokenType::Default.spelling()[6] == 't',
        TokenType::For.spelling().len() == 3,
        TokenType::For.spelling()[0] == 'f',
        TokenType::For.spelling()[1] == 'o',
        TokenType::For.spelling()[2] == 'r',
        TokenType::While.spelling().len() == 5,
        TokenType::While.spelling()[0] == 'w',
        TokenType::While.spelling()[1] == 'h',
        TokenType::While.spelling()[2] == 'i',
        TokenType::While.spelling()[3] == 'l',
        TokenType::While.spelling()[4] == 'e',
        TokenType::Do.spelling().len() == 2,
        TokenType::Do.spelling()[0] == 'd',
        TokenType::Do.spelling()[1] == 'o',
        TokenType::Break.spelling().len() == 5,
        TokenType::Break.spelling()[0] == 'b',
        TokenType::Break.spelling()[1] == 'r',
        TokenType::Break.spelling()[2] == 'e',
        TokenType::Break.spelling()[3] == 'a',
        TokenType::Break.spelling()[4] == 'k',
        TokenType::Continue.spelling().len() == 8,
        TokenType::Continue.spelling()[0] == 'c',
        TokenType::Continue.spelling()[1] == 'o',
        TokenType::Continue.spelling()[2] == 'n',
        TokenType::Continue.spelling()[3] == 't',
        TokenType::Continue.spelling()[4] == 'i',
        TokenType::Continue.spelling()[5] == 'n',
        TokenType::Continue.spelling()[6] == 'u',
        TokenType::Continue.spelling()[7] == 'e',
        TokenType::Goto.spelling().len() == 4,
        TokenType::Goto.spelling()[0] == 'g',
        TokenType::Goto.spelling()[1] == 'o',
        TokenType::Goto.spelling()[2] == 't',
        TokenType::Goto.spelling()[3] == 'o',
        TokenType::Return.spelling().len() == 6,
        TokenType::Return.spelling()[0] == 'r',
        TokenType::Return.spelling()[1] == 'e',
        TokenType::Return.spelling()[2] == 't',
        TokenType::Return.spelling()[3] == 'u',
        TokenType::Return.spelling()[4] == 'r',
        TokenType::Return.spelling()[5] == 'n',
        TokenType::Sizeof.spelling().len() == 6,
        TokenType::Sizeof.spelling()[0] == 's',
        TokenType::Sizeof.spelling()[1] == 'i',
        TokenType::Sizeof.spelling()[2] == 'z',
        TokenType::Sizeof.spelling()[3] == 'e',
        TokenType::Sizeof.spelling()[4] == 'o',
        TokenType::Sizeof.spelling()[5] == 'f',
        TokenType::Tagof.spelling().len() == 5,
        TokenType::Tagof.spelling()[0] == 't',
        TokenType::Tagof.spelling()[1] == 'a',
        TokenType::Tagof.spelling()[2] == 'g',
        TokenType::Tagof.spelling()[3] == 'o',
        TokenType::Tagof.spelling()[4] == 'f',
        TokenType::Emit.spelling().len() == 6,
        TokenType::Emit.spelling()[0] == '_',
        TokenType::Emit.spelling()[1] == '_',
        TokenType::Emit.spelling()[2] == 'e',
        TokenType::Emit.spelling()[3] == 'm',
        TokenType::Emit.spelling()[4] == 'i',
        TokenType::Emit.spelling()[5] == 't',
{
    reveal_strlit("const");
    reveal_strlit("new");
    reveal_strlit("static");
    reveal_strlit("stock");
    reveal_strlit("forward");
    reveal_strlit("public");
    reveal_strlit("native");
    reveal_strlit("operator");
    reveal_strlit("char");
    reveal_strlit("enum");
    reveal_strlit("state");
    reveal_strlit("if");
    reveal_strlit("else");
    reveal_strlit("switch");
    reveal_strlit("case");
    reveal_strlit("default");
    reveal_strlit("for");
    reveal_strlit("while");
    reveal_strlit("do");
    reveal_strlit("break");
    reveal_strlit("continue");
    reveal_strlit("goto");
    reveal_strlit("return");
    reveal_strlit("sizeof");
    reveal_strlit("tagof");
    reveal_strlit("__emit");
}

/// No two reserved words are written alike.
pub proof fn lemma_keyword_unique(a: TokenType, b: TokenType)
    requires
        a.is_keyword(),
        b.is_keyword(),
        a.spelling() == b.spelling(),
    ensures
        a == b,
{
    lemma_keyword_spellings();
}

/// Looking up the spelling of a reserved word gives that reserved word.
pub proof fn lemma_keyword_kind_of_spelling(kind: TokenType)
    requires
        kind.is_keyword(),
    ensures
        keyword_kind(kind.spelling()) == kind,
{
    assert(is_keyword_for(kind.spelling(), kind));
    lemma_keyword_unique(keyword_kind(kind.spelling()), kind);
}

/// The kind of an identifier is `Symbol` or a reserved word, and a reserved
/// word only where the identifier is written as the reserved word is.
pub proof fn lemma_keyword_kind(text: Seq<char>)
    ensures
        keyword_kind(text) == TokenType::Symbol || keyword_kind(text).is_keyword(),
        keyword_kind(text).is_keyword() ==> keyword_kind(text).spelling() == text,
{
    if exists|kind: TokenType| is_keyword_for(text, kind) {
        let kind = choose|kind: TokenType| is_keyword_for(text, kind);
        assert(is_keyword_for(text, kind));
    }
}

/// Classifies the text of an identifier: a reserved word gives its own kind,
/// any other text gives `Symbol`. The match is exact and case-sensitive.
pub fn lookup_keyword(kw: &str) -> (kind: TokenType)
    ensures
        kind == keyword_kind(kw@),
{
    let kind =
    if kw.eq("const") {
        TokenType::Const
    }     else if kw.eq("new") {
        TokenType::New
    }     else if kw.eq("static") {
        TokenType::Static
    }     else if kw.eq("stock") {
        TokenType::Stock
    }     else if kw.eq("forward") {
        TokenType::Forward
    }     else if kw.eq("public") {
        TokenType::Public
    }     else if kw.eq("native") {
        TokenType::Native
    }     else if kw.eq("operator") {
        TokenType::Operator
    }     else if kw.eq("char") {
        TokenType::Char
    }     else if kw.eq("enum") {
        TokenType::Enum
    }     else if kw.eq("state") {
        TokenType::State
    }     else if kw.eq("if") {
        TokenType::If
    }     else if kw.eq("else") {
        TokenType::Else
    }     else if kw.eq("switch") {
        TokenType::Switch
    }     else if kw.eq("case") {
        TokenType::Case
    }     else if kw.eq("default") {
        TokenType::Default
    }     else if kw.eq("for") {
        TokenType::For
    }     else if kw.eq("while") {
        TokenType::While
    }     else if kw.eq("do") {
        TokenType::Do
    }     else if kw.eq("break") {
        TokenType::Break
    }     else if kw.eq("continue") {
        TokenType::Continue
    }     else if kw.eq("goto") {
        TokenType::Goto
    }     else if kw.eq("return") {
        TokenType::Return
    }     else if kw.eq("sizeof") {
        TokenType::Sizeof
    }     else if kw.eq("tagof") {
        TokenType::Tagof
    }     else if kw.eq("__emit") {
        TokenType::Emit
    } else {
        TokenType::Symbol
    };
    proof {
        if kind == TokenType::Symbol {
            assert forall|other: TokenType| !is_keyword_for(kw@, other) by {}
        } else {
            assert(is_keyword_for(kw@, kind));
            lemma_keyword_unique(keyword_kind(kw@), kind);
        }
    }
    kind
}

} // verus!

use vstd::prelude::*;

verus! {

/// One lexical token.
///
/// `Integer` and `Float` carry the exact matched substring, including any
/// base prefix, digit separators and decimal point; turning that text into a
/// numeric value is deferred to a later stage.  `Character` and `String`
/// carry fully decoded payloads (escape sequences resolved).  `Identifier`
/// carries the matched name.
#[derive(Clone, Debug, PartialEq, Eq)]
pub enum Token {
    // Separators
    Comma,
    Semicolon,
    ParenthesesOpen,
    ParenthesesClose,
    BracketsOpen,
    BracketsClose,
    BracesOpen,
    BracesClose,
    // Operators
    Scope,
    ReturnType,
    Equals,
    NotEqual,
    GreaterEqual,
    LesserEqual,
    Increment,
    Decrement,
    ExclamationAssign,
    AmpersandAssign,
    VerticalPipeAssign,
    CaretAssign,
    MinusAssign,
    StarAssign,
    SlashAssign,
    PercentAssign,
    TildeAssign,
    AtAssign,
    PoundAssign,
    DolarAssign,
    Period,
    Colon,
    Assign,
    Greater,
    Lesser,
    Exclamation,
    Ampersand,
    VerticalPipe,
    Caret,
    Plus,
    Minus,
    Star,
    Slash,
    Percent,
    Tilde,
    At,
    NumberSign,
    Dolar,
    // Keywords
    Module,
    Import,
    Export,
    Variable,
    Function,
    Ret,
    As,
    Is,
    Type,
    Match,
    If,
    Else,
    Discard,
    ThisType,
    ThisObj,
    // Literals
    Boolean(bool),
    Integer(String),
    Float(String),
    Character(char),
    String(String),
    // Identifiers
    Identifier(String),
}

/// The mathematical image of a [`Token`]: the same categories, with every
/// text payload replaced by its character sequence.  Contracts speak of
/// token views, never of heap strings.
pub enum TokenView {
    // Separators
    Comma,
    Semicolon,
    ParenthesesOpen,
    ParenthesesClose,
    BracketsOpen,
    BracketsClose,
    BracesOpen,
    BracesClose,
    // Operators
    Scope,
    ReturnType,
    Equals,
    NotEqual,
    GreaterEqual,
    LesserEqual,
    Increment,
    Decrement,
    ExclamationAssign,
    AmpersandAssign,
    VerticalPipeAssign,
    CaretAssign,
    MinusAssign,
    StarAssign,
    SlashAssign,
    PercentAssign,
    TildeAssign,
    AtAssign,
    PoundAssign,
    DolarAssign,
    Period,
    Colon,
    Assign,
    Greater,
    Lesser,
    Exclamation,
    Ampersand,
    VerticalPipe,
    Caret,
    Plus,
    Minus,
    Star,
    Slash,
    Percent,
    Tilde,
    At,
    NumberSign,
    Dolar,
    // Keywords
    Module,
    Import,
    Export,
    Variable,
    Function,
    Ret,
    As,
    Is,
    Type,
    Match,
    If,
    Else,
    Discard,
    ThisType,
    ThisObj,
    // Literals
    Boolean(bool),
    Integer(Seq<char>),
    Float(Seq<char>),
    Character(char),
    String(Seq<char>),
    // Identifiers
    Identifier(Seq<char>),
}

impl View for Token {
    type V = TokenView;

    open spec fn view(&self) -> TokenView {
        match self {
            Token::Comma => TokenView::Comma,
            Token::Semicolon => TokenView::Semicolon,
            Token::ParenthesesOpen => TokenView::ParenthesesOpen,
            Token::ParenthesesClose => TokenView::ParenthesesClose,
            Token::BracketsOpen => TokenView::BracketsOpen,
            Token::BracketsClose => TokenView::BracketsClose,
            Token::BracesOpen => TokenView::BracesOpen,
            Token::BracesClose => TokenView::BracesClose,
            Token::Scope => TokenView::Scope,
            Token::ReturnType => TokenView::ReturnType,
            Token::Equals => TokenView::Equals,
            Token::NotEqual => TokenView::NotEqual,
            Token::GreaterEqual => TokenView::GreaterEqual,
            Token::LesserEqual => TokenView::LesserEqual,
            Token::Increment => TokenView::Increment,
            Token::Decrement => TokenView::Decrement,
            Token::ExclamationAssign => TokenView::ExclamationAssign,
            Token::AmpersandAssign => TokenView::AmpersandAssign,
            Token::VerticalPipeAssign => TokenView::VerticalPipeAssign,
            Token::CaretAssign => TokenView::CaretAssign,
            Token::MinusAssign => TokenView::MinusAssign,
            Token::StarAssign => TokenView::StarAssign,
            Token::SlashAssign => TokenView::SlashAssign,
            Token::PercentAssign => TokenView::PercentAssign,
            Token::TildeAssign => TokenView::TildeAssign,
            Token::AtAssign => TokenView::AtAssign,
            Token::PoundAssign => TokenView::PoundAssign,
            Token::DolarAssign => TokenView::DolarAssign,
            Token::Period => TokenView::Period,
            Token::Colon => TokenView::Colon,
            Token::Assign => TokenView::Assign,
            Token::Greater => TokenView::Greater,
            Token::Lesser => TokenView::Lesser,
            Token::Exclamation => TokenView::Exclamation,
            Token::Ampersand => TokenView::Ampersand,
            Token::VerticalPipe => TokenView::VerticalPipe,
            Token::Caret => TokenView::Caret,
            Token::Plus => TokenView::Plus,
            Token::Minus => TokenView::Minus,
            Token::Star => TokenView::Star,
            Token::Slash => TokenView::Slash,
            Token::Percent => TokenView::Percent,
            Token::Tilde => TokenView::Tilde,
            Token::At => TokenView::At,
            Token::NumberSign => TokenView::NumberSign,
            Token::Dolar => TokenView::Dolar,
            Token::Module => TokenView::Module,
            Token::Import => TokenView::Import,
            Token::Export => TokenView::Export,
            Token::Variable => TokenView::Variable,
            Token::Function => TokenView::Function,
            Token::Ret => TokenView::Ret,
            Token::As => TokenView::As,
            Token::Is => TokenView::Is,
            Token::Type => TokenView::Type,
            Token::Match => TokenView::Match,
            Token::If => TokenView::If,
            Token::Else => TokenView::Else,
            Token::Discard => TokenView::Discard,
            Token::ThisType => TokenView::ThisType,
            Token::ThisObj => TokenView::ThisObj,
            Token::Boolean(b) => TokenView::Boolean(*b),
            Token::Integer(s) => TokenView::Integer(s@),
            Token::Float(s) => TokenView::Float(s@),
            Token::Character(c) => TokenView::Character(*c),
            Token::String(s) => TokenView::String(s@),
            Token::Identifier(s) => TokenView::Identifier(s@),
        }
    }
}

/// Lifts a recognizer's result to the spec level: the token is replaced by
/// its view and the consumed length by a mathematical natural.
pub open spec fn tok_result(r: Option<(Token, usize)>) -> Option<(TokenView, nat)> {
    match r {
        Some((t, n)) => Some((t@, n as nat)),
        None => None,
    }
}

/// Lifts a (token, skip, consumed) result to the spec level.
pub open spec fn tok3_result(r: Option<(Token, usize, usize)>) -> Option<(TokenView, nat, nat)> {
    match r {
        Some((t, k, n)) => Some((t@, k as nat, n as nat)),
        None => None,
    }
}

/// Lifts a sequence of (token, offset, length) match records to the spec
/// level.
pub open spec fn records_view(v: Seq<(Token, usize, usize)>) -> Seq<(TokenView, nat, nat)> {
    v.map(|i: int, e: (Token, usize, usize)| (e.0@, e.1 as nat, e.2 as nat))
}

} // verus!

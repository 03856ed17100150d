//! The lexical atoms the tokenizer produces and the parser consumes.

use vstd::prelude::*;

verus! {

/// A token of an infix or RPN expression over 64-bit integers.
///
/// `ArgCount` never appears in tokenizer output: the shunting-yard pass
/// injects it in front of each function of the RPN output to record the
/// arity of the call.
#[derive(Debug, PartialEq)]
pub enum Token {
    /// A parsed numeric literal.
    Number(i64),
    /// An identifier resolved at evaluation time to a mutable binding.
    Variable(String),
    /// An identifier resolved at evaluation time to an immutable binding.
    Constant(String),
    /// An infix operator symbol.
    BinaryOperator(String),
    /// A prefix or postfix operator symbol.
    UnaryOperator(String),
    /// An n-ary call site; in the source it is immediately followed by a
    /// grouping-open token.
    Function(String),
    /// The arity of the next function of the RPN output.
    ArgCount(usize),
    /// The opening character of a configured grouping pair.
    GroupingOpen(char),
    /// The closing character of a configured grouping pair.
    GroupingClose(char),
    /// The argument separator.
    Comma,
}

/// The mathematical image of a [`Token`]: names become character sequences.
pub enum TokenV {
    Number(i64),
    Variable(Seq<char>),
    Constant(Seq<char>),
    BinaryOperator(Seq<char>),
    UnaryOperator(Seq<char>),
    Function(Seq<char>),
    ArgCount(usize),
    GroupingOpen(char),
    GroupingClose(char),
    Comma,
}

impl View for Token {
    type V = TokenV;

    open spec fn view(&self) -> TokenV {
        match self {
            Token::Number(n) => TokenV::Number(*n),
            Token::Variable(s) => TokenV::Variable(s@),
            Token::Constant(s) => TokenV::Constant(s@),
            Token::BinaryOperator(s) => TokenV::BinaryOperator(s@),
            Token::UnaryOperator(s) => TokenV::UnaryOperator(s@),
            Token::Function(s) => TokenV::Function(s@),
            Token::ArgCount(n) => TokenV::ArgCount(*n),
            Token::GroupingOpen(c) => TokenV::GroupingOpen(*c),
            Token::GroupingClose(c) => TokenV::GroupingClose(*c),
            Token::Comma => TokenV::Comma,
        }
    }
}

impl Clone for Token {
    /// Clones the token; the copy carries the same image.
    fn clone(&self) -> (r: Token)
        ensures
            r@ == self@,
    {
        match self {
            Token::Number(n) => Token::Number(*n),
            Token::Variable(s) => Token::Variable(s.clone()),
            Token::Constant(s) => Token::Constant(s.clone()),
            Token::BinaryOperator(s) => Token::BinaryOperator(s.clone()),
            Token::UnaryOperator(s) => Token::UnaryOperator(s.clone()),
            Token::Function(s) => Token::Function(s.clone()),
            Token::ArgCount(n) => Token::ArgCount(*n),
            Token::GroupingOpen(c) => Token::GroupingOpen(*c),
            Token::GroupingClose(c) => Token::GroupingClose(*c),
            Token::Comma => Token::Comma,
        }
    }
}

/// The images of a sequence of tokens.
pub open spec fn views_of(ts: Seq<Token>) -> Seq<TokenV> {
    ts.map_values(|t: Token| t@)
}

impl TokenV {
    /// Whether this is a numeric literal.
    pub open spec fn is_number(self) -> bool {
        self is Number
    }

    /// Whether this is a grouping-open token.
    pub open spec fn is_grouping_open(self) -> bool {
        self is GroupingOpen
    }

    /// Whether this is a grouping-close token.
    pub open spec fn is_grouping_close(self) -> bool {
        self is GroupingClose
    }

    /// Whether this is a function call site.
    pub open spec fn is_function(self) -> bool {
        self is Function
    }

    /// Whether this token carries the given grouping character.
    pub open spec fn contains_symbol(self, symbol: char) -> bool {
        match self {
            TokenV::GroupingOpen(c) => c == symbol,
            TokenV::GroupingClose(c) => c == symbol,
            _ => false,
        }
    }
}

impl Token {
    /// Whether this is a numeric literal.
    pub fn is_number(&self) -> (r: bool)
        ensures
            r == self@.is_number(),
    {
        matches!(self, Token::Number(_))
    }

    /// Whether this is a grouping-open token.
    pub fn is_grouping_open(&self) -> (r: bool)
        ensures
            r == self@.is_grouping_open(),
    {
        matches!(self, Token::GroupingOpen(_))
    }

    /// Whether this is a grouping-close token.
    pub fn is_grouping_close(&self) -> (r: bool)
        ensures
            r == self@.is_grouping_close(),
    {
        matches!(self, Token::GroupingClose(_))
    }

    /// Whether this is a function call site.
    pub fn is_function(&self) -> (r: bool)
        ensures
            r == self@.is_function(),
    {
        matches!(self, Token::Function(_))
    }

    /// Whether this token carries the given grouping character.
    pub fn contains_symbol(&self, symbol: char) -> (r: bool)
        ensures
            r == self@.contains_symbol(symbol),
    {
        match self {
            Token::GroupingOpen(c) => *c == symbol,
            Token::GroupingClose(c) => *c == symbol,
            _ => false,
        }
    }
}

} // verus!

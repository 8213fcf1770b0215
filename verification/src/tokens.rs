//! Tokens: the unit of the lexer's output and of the evaluator's operand
//! stack.

use vstd::prelude::*;

use crate::reference_set::ReferenceSet;
use crate::references::Reference;
use crate::text::chars_of;
use crate::text::string_of;

verus! {

/// The lexical category of a token.
#[derive(Clone, Copy, Debug, Default, PartialEq, Eq, Structural)]
pub enum TokenType {
    Function,
    FuncClose,
    FuncArgSep,
    Reference,
    Number,
    #[default]
    String,
    Boolean,
    Operator,
    LeftParen,
    RightParen,
}

/// Why a formula has no value.
#[derive(Clone, Copy, Debug, PartialEq, Eq, Structural)]
pub enum FormulaError {
    /// The text is not a formula: a function name without its parenthesis, a
    /// leading comma, or a call with more arguments than a token can count.
    Lex,
    /// The postfix program leaves no value; unbalanced parentheses end here.
    NoValue,
    /// An operator lacks an operand, or has one of the wrong kind.
    Operand,
    /// A function is unknown, or called with arguments it does not take.
    Function,
    /// A number is wanted where the text is none.
    Coercion,
    /// A range holds more references than the machine can count.
    TooLarge,
    /// A cell's formula depends on its own value.
    Cycle,
    /// The host answered a question that was not asked, or not the one asked.
    Protocol,
}

/// A token, as a value.
#[derive(Debug, Default)]
pub struct Token {
    pub token_type: TokenType,
    /// Number text, string contents, `TRUE` or `FALSE`, the operator's
    /// symbol, or the upper-case name of a function.
    pub content: String,
    /// For a function: how many arguments the call has.
    pub function_n_args: Option<u8>,
    /// For a reference: the cells referred to.
    pub reference_set: Option<ReferenceSet>,
}

/// What a token holds, as mathematics.
pub struct TokenView {
    pub kind: TokenType,
    pub content: Seq<char>,
    pub arity: Option<u8>,
    pub refs: Option<Seq<Reference>>,
}

impl View for Token {
    type V = TokenView;

    open spec fn view(&self) -> TokenView {
        TokenView {
            kind: self.token_type,
            content: self.content@,
            arity: self.function_n_args,
            refs: match self.reference_set {
                Some(set) => Some(set@),
                None => None,
            },
        }
    }
}

impl Clone for Token {
    fn clone(&self) -> (copy: Self)
        ensures
            copy@ == self@,
    {
        Token {
            token_type: self.token_type,
            content: self.content.clone(),
            function_n_args: self.function_n_args,
            reference_set: match &self.reference_set {
                Some(set) => Some(set.clone()),
                None => None,
            },
        }
    }
}

/// The views of a sequence of tokens.
pub open spec fn views(tokens: Seq<Token>) -> Seq<TokenView> {
    Seq::new(tokens.len(), |i: int| tokens[i]@)
}

/// Appending a token appends its view.
pub proof fn lemma_views_push(tokens: Seq<Token>, token: Token)
    ensures
        views(tokens.push(token)) == views(tokens).push(token@),
        views(tokens.push(token)).drop_last() == views(tokens),
{
    assert(views(tokens.push(token)) =~= views(tokens).push(token@));
    assert(views(tokens.push(token)).drop_last() =~= views(tokens));
}

/// The view of a token without arity or references.
pub open spec fn plain(kind: TokenType, content: Seq<char>) -> TokenView {
    TokenView { kind, content, arity: None, refs: None }
}

/// The view of a function token.
pub open spec fn function_token(name: Seq<char>, arity: u8) -> TokenView {
    TokenView { kind: TokenType::Function, content: name, arity: Some(arity), refs: None }
}

/// The view of a reference token.
pub open spec fn reference_token(refs: Seq<Reference>) -> TokenView {
    TokenView { kind: TokenType::Reference, content: Seq::empty(), arity: None, refs: Some(refs) }
}

impl Token {
    /// A token of the given kind and content.
    pub fn new(token_type: TokenType, content: String) -> (token: Token)
        ensures
            token@ == plain(token_type, content@),
    {
        Token { token_type, content, function_n_args: None, reference_set: None }
    }

    /// A function token with its name and number of arguments.
    pub fn function(content: String, n_args: u8) -> (token: Token)
        ensures
            token@ == function_token(content@, n_args),
    {
        Token {
            token_type: TokenType::Function,
            content,
            function_n_args: Some(n_args),
            reference_set: None,
        }
    }

    /// A reference token for a set of cells.
    pub fn reference(refs: ReferenceSet) -> (token: Token)
        ensures
            token@ == reference_token(refs@),
    {
        Token {
            token_type: TokenType::Reference,
            content: String::new(),
            function_n_args: None,
            reference_set: Some(refs),
        }
    }

    /// A token of the given kind whose content is `chars`.
    pub fn of_chars(token_type: TokenType, chars: &Vec<char>) -> (token: Token)
        ensures
            token@ == plain(token_type, chars@),
    {
        Token::new(token_type, string_of(chars))
    }
}

/// The operators of the formula language.
#[derive(Clone, Copy, Debug, PartialEq, Eq, Structural)]
pub enum Symbol {
    /// `:`, the rectangle between two references.
    Range,
    /// `,` between references: their union.
    Union,
    /// A space between references: their intersection.
    Intersect,
    /// `-1`, the negation that the lexer makes of a leading `-`.
    Negate,
    /// `%`, division by 100.
    Percent,
    /// `^`.
    Power,
    /// `*`.
    Multiply,
    /// `/`.
    Divide,
    /// `+`.
    Add,
    /// `-` between two operands.
    Subtract,
    /// `&`, concatenation of texts.
    Concat,
    /// `=`.
    Equal,
    /// `<`.
    Less,
    /// `>`.
    Greater,
    /// `<=`.
    LessEqual,
    /// `>=`.
    GreaterEqual,
    /// `<>`.
    NotEqual,
    /// `@`, reserved.
    At,
    /// `#`, reserved.
    Hash,
}

/// The operator that a single character spells.
pub open spec fn single_symbol(c: char) -> Option<Symbol> {
    if c == ':' {
        Some(Symbol::Range)
    } else if c == ',' {
        Some(Symbol::Union)
    } else if c == ' ' {
        Some(Symbol::Intersect)
    } else if c == '%' {
        Some(Symbol::Percent)
    } else if c == '^' {
        Some(Symbol::Power)
    } else if c == '*' {
        Some(Symbol::Multiply)
    } else if c == '/' {
        Some(Symbol::Divide)
    } else if c == '+' {
        Some(Symbol::Add)
    } else if c == '-' {
        Some(Symbol::Subtract)
    } else if c == '&' {
        Some(Symbol::Concat)
    } else if c == '=' {
        Some(Symbol::Equal)
    } else if c == '<' {
        Some(Symbol::Less)
    } else if c == '>' {
        Some(Symbol::Greater)
    } else if c == '@' {
        Some(Symbol::At)
    } else if c == '#' {
        Some(Symbol::Hash)
    } else {
        None
    }
}

/// The comparison that two characters spell together.
pub open spec fn double_symbol(first: char, second: char) -> Option<Symbol> {
    if first == '>' && second == '=' {
        Some(Symbol::GreaterEqual)
    } else if first == '<' && second == '=' {
        Some(Symbol::LessEqual)
    } else if first == '<' && second == '>' {
        Some(Symbol::NotEqual)
    } else {
        None
    }
}

/// The operator that the content of an operator token spells.
pub open spec fn symbol_of(s: Seq<char>) -> Option<Symbol> {
    if s.len() == 1 {
        single_symbol(s[0])
    } else if s.len() == 2 {
        if s[0] == '-' && s[1] == '1' {
            Some(Symbol::Negate)
        } else {
            double_symbol(s[0], s[1])
        }
    } else {
        None
    }
}

/// How tightly an operator binds; 0 for the reserved ones and for what is no
/// operator.
pub open spec fn precedence_of(symbol: Option<Symbol>) -> u8 {
    match symbol {
        Some(Symbol::Range) => 9,
        Some(Symbol::Union) => 8,
        Some(Symbol::Intersect) => 8,
        Some(Symbol::Negate) => 7,
        Some(Symbol::Percent) => 6,
        Some(Symbol::Power) => 5,
        Some(Symbol::Multiply) => 4,
        Some(Symbol::Divide) => 4,
        Some(Symbol::Add) => 3,
        Some(Symbol::Subtract) => 3,
        Some(Symbol::Concat) => 2,
        Some(Symbol::Equal) => 1,
        Some(Symbol::Less) => 1,
        Some(Symbol::Greater) => 1,
        Some(Symbol::LessEqual) => 1,
        Some(Symbol::GreaterEqual) => 1,
        Some(Symbol::NotEqual) => 1,
        _ => 0,
    }
}

/// The operator that one character spells.
pub fn single_symbol_of(c: char) -> (symbol: Option<Symbol>)
    ensures
        symbol == single_symbol(c),
{
    if c == ':' {
        Some(Symbol::Range)
    } else if c == ',' {
        Some(Symbol::Union)
    } else if c == ' ' {
        Some(Symbol::Intersect)
    } else if c == '%' {
        Some(Symbol::Percent)
    } else if c == '^' {
        Some(Symbol::Power)
    } else if c == '*' {
        Some(Symbol::Multiply)
    } else if c == '/' {
        Some(Symbol::Divide)
    } else if c == '+' {
        Some(Symbol::Add)
    } else if c == '-' {
        Some(Symbol::Subtract)
    } else if c == '&' {
        Some(Symbol::Concat)
    } else if c == '=' {
        Some(Symbol::Equal)
    } else if c == '<' {
        Some(Symbol::Less)
    } else if c == '>' {
        Some(Symbol::Greater)
    } else if c == '@' {
        Some(Symbol::At)
    } else if c == '#' {
        Some(Symbol::Hash)
    } else {
        None
    }
}

/// The comparison that two characters spell together.
pub fn double_symbol_of(first: char, second: char) -> (symbol: Option<Symbol>)
    ensures
        symbol == double_symbol(first, second),
{
    if first == '>' && second == '=' {
        Some(Symbol::GreaterEqual)
    } else if first == '<' && second == '=' {
        Some(Symbol::LessEqual)
    } else if first == '<' && second == '>' {
        Some(Symbol::NotEqual)
    } else {
        None
    }
}

/// The operator that `content` spells, if it spells one.
pub fn operator_symbol(content: &str) -> (symbol: Option<Symbol>)
    ensures
        symbol == symbol_of(content@),
{
    let chars = chars_of(content);
    if chars.len() == 1 {
        single_symbol_of(chars[0])
    } else if chars.len() == 2 {
        if chars[0] == '-' && chars[1] == '1' {
            Some(Symbol::Negate)
        } else {
            double_symbol_of(chars[0], chars[1])
        }
    } else {
        None
    }
}

/// How tightly the operator spelled by `operator` binds: 9 for `:` down to 1
/// for the comparisons, and 0 for anything else.
pub fn get_operator_precedence(operator: &str) -> (precedence: u8)
    ensures
        precedence == precedence_of(symbol_of(operator@)),
{
    match operator_symbol(operator) {
        Some(Symbol::Range) => 9,
        Some(Symbol::Union) => 8,
        Some(Symbol::Intersect) => 8,
        Some(Symbol::Negate) => 7,
        Some(Symbol::Percent) => 6,
        Some(Symbol::Power) => 5,
        Some(Symbol::Multiply) => 4,
        Some(Symbol::Divide) => 4,
        Some(Symbol::Add) => 3,
        Some(Symbol::Subtract) => 3,
        Some(Symbol::Concat) => 2,
        Some(Symbol::Equal) => 1,
        Some(Symbol::Less) => 1,
        Some(Symbol::Greater) => 1,
        Some(Symbol::LessEqual) => 1,
        Some(Symbol::GreaterEqual) => 1,
        Some(Symbol::NotEqual) => 1,
        _ => 0,
    }
}

} // verus!

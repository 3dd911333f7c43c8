//! Lexical categories and the token record that the scanner produces.
use crate::number::{is_numeral, numeral};
use crate::text::spells;
use vstd::prelude::*;
use vstd::std_specs::cmp::PartialEqSpecImpl;
use vstd::string::StringExecFns;

verus! {

/// The closed set of lexical categories.
#[derive(Clone, Copy, Debug, PartialEq, Eq, Structural)]
pub enum TokenType {
    // Single-character tokens.
    LeftParen,
    RightParen,
    LeftBrace,
    RightBrace,
    COMMA,
    DOT,
    MINUS,
    PLUS,
    COLON,
    SLASH,
    STAR,
    QUOTESTRING,
    // One or two character tokens.
    BANG,
    BangEqual,
    EQUAL,
    EqualEqual,
    GREATER,
    GreaterEqual,
    LESS,
    LessEqual,
    // Literals.
    IDENTIFIER,
    STRING,
    NUMBER,
    // Whitespace and statement end.
    SPACE,
    SLASHRETURN,
    TAB,
    NEWLINE,
    SEMICOLON,
    // Keywords.
    AND,
    CLASS,
    ELSE,
    FALSE,
    FUN,
    FOR,
    IF,
    NIL,
    OR,
    PRINT,
    RETURN,
    SUPER,
    THIS,
    TRUE,
    VAR,
    WHILE,
    EOF,
}

/// The category that a single character stands for on its own, if any.
pub open spec fn symbol_type(c: char) -> Option<TokenType> {
    if c == '(' {
        Some(TokenType::LeftParen)
    } else if c == ')' {
        Some(TokenType::RightParen)
    } else if c == '{' {
        Some(TokenType::LeftBrace)
    } else if c == '}' {
        Some(TokenType::RightBrace)
    } else if c == ',' {
        Some(TokenType::COMMA)
    } else if c == '.' {
        Some(TokenType::DOT)
    } else if c == '-' {
        Some(TokenType::MINUS)
    } else if c == '+' {
        Some(TokenType::PLUS)
    } else if c == ':' {
        Some(TokenType::COLON)
    } else if c == '/' {
        Some(TokenType::SLASH)
    } else if c == '*' {
        Some(TokenType::STAR)
    } else if c == '"' {
        Some(TokenType::QUOTESTRING)
    } else if c == '!' {
        Some(TokenType::BANG)
    } else if c == '=' {
        Some(TokenType::EQUAL)
    } else if c == '>' {
        Some(TokenType::GREATER)
    } else if c == '<' {
        Some(TokenType::LESS)
    } else if c == ' ' {
        Some(TokenType::SPACE)
    } else if c == '\r' {
        Some(TokenType::SLASHRETURN)
    } else if c == '\t' {
        Some(TokenType::TAB)
    } else if c == '\n' {
        Some(TokenType::NEWLINE)
    } else if c == ';' {
        Some(TokenType::SEMICOLON)
    } else if c == '\0' {
        Some(TokenType::EOF)
    } else {
        None
    }
}

/// The two-character category that `first` begins when `=` follows it.
pub open spec fn paired_type(first: TokenType) -> Option<TokenType> {
    match first {
        TokenType::BANG => Some(TokenType::BangEqual),
        TokenType::EQUAL => Some(TokenType::EqualEqual),
        TokenType::GREATER => Some(TokenType::GreaterEqual),
        TokenType::LESS => Some(TokenType::LessEqual),
        _ => None,
    }
}

/// The category that a reserved word names, if `text` is one.
pub open spec fn keyword_type(text: Seq<char>) -> Option<TokenType> {
    if text == "and"@ {
        Some(TokenType::AND)
    } else if text == "class"@ {
        Some(TokenType::CLASS)
    } else if text == "else"@ {
        Some(TokenType::ELSE)
    } else if text == "false"@ {
        Some(TokenType::FALSE)
    } else if text == "for"@ {
        Some(TokenType::FOR)
    } else if text == "fun"@ {
        Some(TokenType::FUN)
    } else if text == "if"@ {
        Some(TokenType::IF)
    } else if text == "nil"@ {
        Some(TokenType::NIL)
    } else if text == "or"@ {
        Some(TokenType::OR)
    } else if text == "print"@ {
        Some(TokenType::PRINT)
    } else if text == "return"@ {
        Some(TokenType::RETURN)
    } else if text == "super"@ {
        Some(TokenType::SUPER)
    } else if text == "this"@ {
        Some(TokenType::THIS)
    } else if text == "true"@ {
        Some(TokenType::TRUE)
    } else if text == "var"@ {
        Some(TokenType::VAR)
    } else if text == "while"@ {
        Some(TokenType::WHILE)
    } else {
        None
    }
}

/// The name under which a category is displayed.
pub open spec fn category_name(t: TokenType) -> Seq<char> {
    match t {
        TokenType::LeftParen => "LeftParen"@,
        TokenType::RightParen => "RightParen"@,
        TokenType::LeftBrace => "LeftBrace"@,
        TokenType::RightBrace => "RightBrace"@,
        TokenType::COMMA => "COMMA"@,
        TokenType::DOT => "DOT"@,
        TokenType::MINUS => "MINUS"@,
        TokenType::PLUS => "PLUS"@,
        TokenType::COLON => "COLON"@,
        TokenType::SLASH => "SLASH"@,
        TokenType::STAR => "STAR"@,
        TokenType::QUOTESTRING => "QUOTESTRING"@,
        TokenType::BANG => "BANG"@,
        TokenType::BangEqual => "BangEqual"@,
        TokenType::EQUAL => "EQUAL"@,
        TokenType::EqualEqual => "EqualEqual"@,
        TokenType::GREATER => "GREATER"@,
        TokenType::GreaterEqual => "GreaterEqual"@,
        TokenType::LESS => "LESS"@,
        TokenType::LessEqual => "LessEqual"@,
        TokenType::IDENTIFIER => "IDENTIFIER"@,
        TokenType::STRING => "STRING"@,
        TokenType::NUMBER => "NUMBER"@,
        TokenType::SPACE => "SPACE"@,
        TokenType::SLASHRETURN => "SLASHRETURN"@,
        TokenType::TAB => "TAB"@,
        TokenType::NEWLINE => "NEWLINE"@,
        TokenType::SEMICOLON => "SEMICOLON"@,
        TokenType::AND => "AND"@,
        TokenType::CLASS => "CLASS"@,
        TokenType::ELSE => "ELSE"@,
        TokenType::FALSE => "FALSE"@,
        TokenType::FUN => "FUN"@,
        TokenType::FOR => "FOR"@,
        TokenType::IF => "IF"@,
        TokenType::NIL => "NIL"@,
        TokenType::OR => "OR"@,
        TokenType::PRINT => "PRINT"@,
        TokenType::RETURN => "RETURN"@,
        TokenType::SUPER => "SUPER"@,
        TokenType::THIS => "THIS"@,
        TokenType::TRUE => "TRUE"@,
        TokenType::VAR => "VAR"@,
        TokenType::WHILE => "WHILE"@,
        TokenType::EOF => "EOF"@,
    }
}

impl TokenType {
    /// The category of a character that is a token, or white space, by itself.
    pub fn from_symbol(c: char) -> (r: Option<TokenType>)
        ensures
            r == symbol_type(c),
    {
        if c == '(' {
            Some(TokenType::LeftParen)
        } else if c == ')' {
            Some(TokenType::RightParen)
        } else if c == '{' {
            Some(TokenType::LeftBrace)
        } else if c == '}' {
            Some(TokenType::RightBrace)
        } else if c == ',' {
            Some(TokenType::COMMA)
        } else if c == '.' {
            Some(TokenType::DOT)
        } else if c == '-' {
            Some(TokenType::MINUS)
        } else if c == '+' {
            Some(TokenType::PLUS)
        } else if c == ':' {
            Some(TokenType::COLON)
        } else if c == '/' {
            Some(TokenType::SLASH)
        } else if c == '*' {
            Some(TokenType::STAR)
        } else if c == '"' {
            Some(TokenType::QUOTESTRING)
        } else if c == '!' {
            Some(TokenType::BANG)
        } else if c == '=' {
            Some(TokenType::EQUAL)
        } else if c == '>' {
            Some(TokenType::GREATER)
        } else if c == '<' {
            Some(TokenType::LESS)
        } else if c == ' ' {
            Some(TokenType::SPACE)
        } else if c == '\r' {
            Some(TokenType::SLASHRETURN)
        } else if c == '\t' {
            Some(TokenType::TAB)
        } else if c == '\n' {
            Some(TokenType::NEWLINE)
        } else if c == ';' {
            Some(TokenType::SEMICOLON)
        } else if c == '\0' {
            Some(TokenType::EOF)
        } else {
            None
        }
    }

    /// The category of a reserved word.
    pub fn keyword(text: &[char]) -> (r: Option<TokenType>)
        ensures
            r == keyword_type(text@),
    {
        if spells(text, "and") {
            Some(TokenType::AND)
        } else if spells(text, "class") {
            Some(TokenType::CLASS)
        } else if spells(text, "else") {
            Some(TokenType::ELSE)
        } else if spells(text, "false") {
            Some(TokenType::FALSE)
        } else if spells(text, "for") {
            Some(TokenType::FOR)
        } else if spells(text, "fun") {
            Some(TokenType::FUN)
        } else if spells(text, "if") {
            Some(TokenType::IF)
        } else if spells(text, "nil") {
            Some(TokenType::NIL)
        } else if spells(text, "or") {
            Some(TokenType::OR)
        } else if spells(text, "print") {
            Some(TokenType::PRINT)
        } else if spells(text, "return") {
            Some(TokenType::RETURN)
        } else if spells(text, "super") {
            Some(TokenType::SUPER)
        } else if spells(text, "this") {
            Some(TokenType::THIS)
        } else if spells(text, "true") {
            Some(TokenType::TRUE)
        } else if spells(text, "var") {
            Some(TokenType::VAR)
        } else if spells(text, "while") {
            Some(TokenType::WHILE)
        } else {
            None
        }
    }

    /// The two-character category that this one turns into before `=`.
    pub fn paired(self) -> (r: Option<TokenType>)
        ensures
            r == paired_type(self),
    {
        match self {
            TokenType::BANG => Some(TokenType::BangEqual),
            TokenType::EQUAL => Some(TokenType::EqualEqual),
            TokenType::GREATER => Some(TokenType::GreaterEqual),
            TokenType::LESS => Some(TokenType::LessEqual),
            _ => None,
        }
    }

    /// The displayed name of the category.
    pub fn name(self) -> (r: String)
        ensures
            r@ == category_name(self),
    {
        let text: &str = match self {
            TokenType::LeftParen => "LeftParen",
            TokenType::RightParen => "RightParen",
            TokenType::LeftBrace => "LeftBrace",
            TokenType::RightBrace => "RightBrace",
            TokenType::COMMA => "COMMA",
            TokenType::DOT => "DOT",
            TokenType::MINUS => "MINUS",
            TokenType::PLUS => "PLUS",
            TokenType::COLON => "COLON",
            TokenType::SLASH => "SLASH",
            TokenType::STAR => "STAR",
            TokenType::QUOTESTRING => "QUOTESTRING",
            TokenType::BANG => "BANG",
            TokenType::BangEqual => "BangEqual",
            TokenType::EQUAL => "EQUAL",
            TokenType::EqualEqual => "EqualEqual",
            TokenType::GREATER => "GREATER",
            TokenType::GreaterEqual => "GreaterEqual",
            TokenType::LESS => "LESS",
            TokenType::LessEqual => "LessEqual",
            TokenType::IDENTIFIER => "IDENTIFIER",
            TokenType::STRING => "STRING",
            TokenType::NUMBER => "NUMBER",
            TokenType::SPACE => "SPACE",
            TokenType::SLASHRETURN => "SLASHRETURN",
            TokenType::TAB => "TAB",
            TokenType::NEWLINE => "NEWLINE",
            TokenType::SEMICOLON => "SEMICOLON",
            TokenType::AND => "AND",
            TokenType::CLASS => "CLASS",
            TokenType::ELSE => "ELSE",
            TokenType::FALSE => "FALSE",
            TokenType::FUN => "FUN",
            TokenType::FOR => "FOR",
            TokenType::IF => "IF",
            TokenType::NIL => "NIL",
            TokenType::OR => "OR",
            TokenType::PRINT => "PRINT",
            TokenType::RETURN => "RETURN",
            TokenType::SUPER => "SUPER",
            TokenType::THIS => "THIS",
            TokenType::TRUE => "TRUE",
            TokenType::VAR => "VAR",
            TokenType::WHILE => "WHILE",
            TokenType::EOF => "EOF",
        };
        String::from_str(text)
    }
}

/// One lexical unit of the source.
#[derive(Debug)]
pub struct Token {
    pub token_type: TokenType,
    lexeme: String,
    pub literal: Option<String>,
    pub line: usize,
}

/// What a token is, as plain values.
pub struct TokenView {
    pub kind: TokenType,
    pub lexeme: Seq<char>,
    pub literal: Option<Seq<char>>,
    pub line: nat,
}

/// Whether a token carries what its category promises: a number its text,
/// which is a number literal, and a string its content.
pub open spec fn well_formed(t: TokenView) -> bool {
    &&& t.kind == TokenType::NUMBER ==> t.literal is Some && is_numeral(t.literal->0)
    &&& t.kind == TokenType::STRING ==> t.literal is Some
}

/// The characters of an optional text.
pub open spec fn text_view(text: Option<String>) -> Option<Seq<char>> {
    match text {
        Some(s) => Some(s@),
        None => None,
    }
}

/// Copies an optional text.
pub fn copy_text(text: &Option<String>) -> (r: Option<String>)
    ensures
        r == *text,
{
    match text {
        Some(s) => Some(s.clone()),
        None => None,
    }
}

impl View for Token {
    type V = TokenView;

    closed spec fn view(&self) -> TokenView {
        TokenView {
            kind: self.token_type,
            lexeme: self.lexeme@,
            literal: text_view(self.literal),
            line: self.line as nat,
        }
    }
}

/// The tokens of a sequence as plain data.
pub open spec fn token_views(tokens: Seq<Token>) -> Seq<TokenView> {
    Seq::new(tokens.len(), |i: int| tokens[i]@)
}

impl Clone for Token {
    fn clone(&self) -> (r: Token)
        ensures
            r == *self,
    {
        Token {
            token_type: self.token_type,
            lexeme: self.lexeme.clone(),
            literal: copy_text(&self.literal),
            line: self.line,
        }
    }
}

impl PartialEq for Token {
    fn eq(&self, other: &Token) -> (r: bool) {
        let same_literal = match (&self.literal, &other.literal) {
            (Some(a), Some(b)) => *a == *b,
            (None, None) => true,
            _ => false,
        };
        self.token_type == other.token_type && self.lexeme == other.lexeme && same_literal
            && self.line == other.line
    }
}

impl PartialEqSpecImpl for Token {
    open spec fn obeys_eq_spec() -> bool {
        true
    }

    open spec fn eq_spec(&self, other: &Token) -> bool {
        self@ == other@
    }
}

impl Token {
    /// A token of the given category, lexeme, payload and line.
    pub fn new(t_type: TokenType, lexeme: String, literal: Option<String>, line: usize) -> (r:
        Token)
        ensures
            r@ == (TokenView {
                kind: t_type,
                lexeme: lexeme@,
                literal: text_view(literal),
                line: line as nat,
            }),
    {
        Token { token_type: t_type, lexeme, literal, line }
    }

    /// Whether the token carries what its category promises.
    pub fn is_well_formed(&self) -> (r: bool)
        ensures
            r == well_formed(self@),
    {
        match self.token_type {
            TokenType::NUMBER => match &self.literal {
                Some(text) => numeral(text.as_str()),
                None => false,
            },
            TokenType::STRING => self.literal.is_some(),
            _ => true,
        }
    }

    /// The displayed name of the token's category.
    pub fn to_string(self) -> (r: String)
        ensures
            r@ == category_name(self@.kind),
    {
        self.token_type.name()
    }

    /// The token's lexeme, taken out of it.
    pub fn to_lexme(self) -> (r: String)
        ensures
            r@ == self@.lexeme,
    {
        self.lexeme
    }

    /// The category of the token.
    pub fn typ(&self) -> (r: &TokenType)
        ensures
            *r == self@.kind,
    {
        &self.token_type
    }

    /// The text that the token was read from.
    pub fn lexeme(&self) -> (r: &str)
        ensures
            r@ == self@.lexeme,
    {
        self.lexeme.as_str()
    }

    /// The literal payload, where the token has one.
    pub fn literal(&self) -> (r: &Option<String>)
        ensures
            text_view(*r) == self@.literal,
    {
        &self.literal
    }

    /// The line on which the token was read.
    pub fn line(&self) -> (r: usize)
        ensures
            r == self@.line,
    {
        self.line
    }
}

} // verus!

//! The values that a program computes with.
use crate::number::{equal, is_numeral, number_of_text, number_text, parse, same_number, to_text};
use crate::token::{Token, TokenType, TokenView};
use vstd::prelude::*;
use vstd::std_specs::cmp::PartialEqSpecImpl;
use vstd::string::StringExecFns;

verus! {

/// A runtime value. A number is held as the bit pattern of its double.
#[derive(Debug)]
pub enum Value {
    Boolean(bool),
    Nil,
    Number(u64),
    String(String),
}

/// A value as plain data.
pub enum ValueView {
    Boolean(bool),
    Nil,
    Number(u64),
    String(Seq<char>),
}

impl View for Value {
    type V = ValueView;

    open spec fn view(&self) -> ValueView {
        match self {
            Value::Boolean(b) => ValueView::Boolean(*b),
            Value::Nil => ValueView::Nil,
            Value::Number(n) => ValueView::Number(*n),
            Value::String(s) => ValueView::String(s@),
        }
    }
}

/// Equality of values: by content within one variant, numbers by IEEE
/// equality; values of different variants are never equal.
pub open spec fn values_equal(a: ValueView, b: ValueView) -> bool {
    match (a, b) {
        (ValueView::Boolean(x), ValueView::Boolean(y)) => x == y,
        (ValueView::Nil, ValueView::Nil) => true,
        (ValueView::Number(x), ValueView::Number(y)) => same_number(x, y),
        (ValueView::String(x), ValueView::String(y)) => x == y,
        _ => false,
    }
}

/// The text under which a value is displayed.
pub open spec fn value_text(v: ValueView) -> Seq<char> {
    match v {
        ValueView::Boolean(b) => if b {
            "true"@
        } else {
            "false"@
        },
        ValueView::Nil => "nil"@,
        ValueView::Number(n) => number_text(n),
        ValueView::String(s) => s,
    }
}

/// Whether a token can be turned into a value: `true`, `false`, `nil`, a
/// number whose payload is a number literal, or a string with its payload.
pub open spec fn is_literal(t: TokenView) -> bool {
    match t.kind {
        TokenType::FALSE | TokenType::TRUE | TokenType::NIL => true,
        TokenType::NUMBER => t.literal is Some && is_numeral(t.literal->0),
        TokenType::STRING => t.literal is Some,
        _ => false,
    }
}

/// The value that a literal token denotes.
pub open spec fn literal_value(t: TokenView) -> ValueView {
    match t.kind {
        TokenType::FALSE => ValueView::Boolean(false),
        TokenType::TRUE => ValueView::Boolean(true),
        TokenType::NUMBER => ValueView::Number(number_of_text(t.literal->0)->0),
        TokenType::STRING => ValueView::String(t.literal->0),
        _ => ValueView::Nil,
    }
}

impl Clone for Value {
    fn clone(&self) -> (r: Value)
        ensures
            r == *self,
    {
        match self {
            Value::Boolean(b) => Value::Boolean(*b),
            Value::Nil => Value::Nil,
            Value::Number(n) => Value::Number(*n),
            Value::String(s) => Value::String(s.clone()),
        }
    }
}

impl PartialEq for Value {
    fn eq(&self, other: &Value) -> (r: bool) {
        match (self, other) {
            (Value::Boolean(s), Value::Boolean(o)) => *s == *o,
            (Value::Nil, Value::Nil) => true,
            (Value::Number(s), Value::Number(o)) => equal(*s, *o),
            (Value::String(s), Value::String(o)) => *s == *o,
            _ => false,
        }
    }
}

impl PartialEqSpecImpl for Value {
    open spec fn obeys_eq_spec() -> bool {
        true
    }

    open spec fn eq_spec(&self, other: &Value) -> bool {
        values_equal(self@, other@)
    }
}

impl Value {
    /// The value of a literal token.
    pub fn from_token(token: Token) -> (r: Value)
        requires
            is_literal(token@),
        ensures
            r@ == literal_value(token@),
    {
        match *token.typ() {
            TokenType::FALSE => Value::Boolean(false),
            TokenType::TRUE => Value::Boolean(true),
            TokenType::NUMBER => {
                match token.literal() {
                    Some(text) => {
                        match parse(text.as_str()) {
                            Some(bits) => Value::Number(bits),
                            None => Value::Nil,
                        }
                    },
                    None => Value::Nil,
                }
            },
            TokenType::STRING => {
                match token.literal() {
                    Some(text) => Value::String(text.clone()),
                    None => Value::Nil,
                }
            },
            _ => Value::Nil,
        }
    }

    /// The text under which the value is displayed.
    pub fn to_string(&self) -> (r: String)
        ensures
            r@ == value_text(self@),
    {
        match self {
            Value::Boolean(b) => {
                if *b {
                    String::from_str("true")
                } else {
                    String::from_str("false")
                }
            },
            Value::Nil => String::from_str("nil"),
            Value::Number(n) => to_text(*n),
            Value::String(s) => s.clone(),
        }
    }
}

} // verus!

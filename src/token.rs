use vstd::prelude::*;

verus! {

/// A unary prefix function; its argument is in degrees.
#[derive(Clone, Copy, Debug, PartialEq, Eq, Structural)]
pub enum Func {
    Sin,
    Cos,
    Tan,
}

/// A lexical unit of an expression.
///
/// A numeric literal is the span `start..end` of the input's characters
/// that spells it.
#[derive(Clone, Copy, Debug, PartialEq, Eq, Structural)]
pub enum Token {
    Number { start: usize, end: usize },
    Operator(char),
    Function(Func),
    OpenParen,
    CloseParen,
}

/// The five binary operators of the grammar.
pub open spec fn is_operator_symbol(c: char) -> bool {
    c == '+' || c == '-' || c == '*' || c == '/' || c == '^'
}

/// Binding strength of a binary operator; an unknown symbol binds weakest.
pub open spec fn spec_precedence(op: char) -> i32 {
    if op == '+' || op == '-' {
        1
    } else if op == '*' || op == '/' {
        2
    } else if op == '^' {
        3
    } else {
        0
    }
}

pub fn precedence(op: char) -> (r: i32)
    ensures
        r == spec_precedence(op),
{
    match op {
        '+' | '-' => 1,
        '*' | '/' => 2,
        '^' => 3,
        _ => 0,
    }
}

} // verus!

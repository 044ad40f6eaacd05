use vstd::prelude::*;
use crate::token::{Func, Token};

verus! {

/// The computation an expression denotes. `Zero` and `One` stand for the
/// values supplied where an operand is missing.
#[derive(Debug, PartialEq, Eq)]
pub enum Expr {
    Number { start: usize, end: usize },
    Zero,
    One,
    Binary(char, Box<Expr>, Box<Expr>),
    Call(Func, Box<Expr>),
}

/// The top of `stack`, or `default` where it is empty.
pub open spec fn top_or(stack: Seq<Expr>, default: Expr) -> Expr {
    if stack.len() > 0 {
        stack.last()
    } else {
        default
    }
}

/// `stack` without its top (an empty stack stays empty).
pub open spec fn pop_or_empty(stack: Seq<Expr>) -> Seq<Expr> {
    if stack.len() > 0 {
        stack.drop_last()
    } else {
        stack
    }
}

/// The value supplied for a missing right operand of `op`: one for a
/// division, zero otherwise.
pub open spec fn missing_right(op: char) -> Expr {
    if op == '/' {
        Expr::One
    } else {
        Expr::Zero
    }
}

/// The operand stack after one more postfix token.
pub open spec fn eval_step(stack: Seq<Expr>, t: Token) -> Seq<Expr> {
    match t {
        Token::Number { start, end } => stack.push(Expr::Number { start, end }),
        Token::Operator(op) => {
            let b = top_or(stack, missing_right(op));
            let rest = pop_or_empty(stack);
            let a = top_or(rest, Expr::Zero);
            pop_or_empty(rest).push(Expr::Binary(op, Box::new(a), Box::new(b)))
        },
        Token::Function(f) => {
            let v = top_or(stack, Expr::Zero);
            pop_or_empty(stack).push(Expr::Call(f, Box::new(v)))
        },
        _ => stack,
    }
}

/// The operand stack after all of `postfix`.
pub open spec fn eval_stack(postfix: Seq<Token>) -> Seq<Expr>
    decreases postfix.len(),
{
    if postfix.len() == 0 {
        Seq::empty()
    } else {
        eval_step(eval_stack(postfix.drop_last()), postfix.last())
    }
}

/// What a postfix sequence evaluates to: the top of the final stack, or zero
/// where nothing is left on it.
pub open spec fn eval_postfix(postfix: Seq<Token>) -> Expr {
    top_or(eval_stack(postfix), Expr::Zero)
}

/// Evaluates a postfix sequence on an operand stack. A missing operand is
/// taken as zero (one for the right operand of a division); parentheses are
/// ignored; an empty final stack gives zero.
pub fn evaluate_rpn(queue: Vec<Token>) -> (r: Expr)
    ensures
        r == eval_postfix(queue@),
{
    let mut stack: Vec<Expr> = Vec::new();
    let n = queue.len();
    let mut i: usize = 0;
    while i < n
        invariant
            n == queue@.len(),
            i <= n,
            stack@ == eval_stack(queue@.take(i as int)),
        decreases n - i,
    {
        let token = queue[i];
        proof {
            assert(queue@.take(i as int + 1).drop_last() =~= queue@.take(i as int));
        }
        match token {
            Token::Number { start, end } => stack.push(Expr::Number { start, end }),
            Token::Operator(op) => {
                let b = match stack.pop() {
                    Some(v) => v,
                    None => if op == '/' {
                        Expr::One
                    } else {
                        Expr::Zero
                    },
                };
                let a = match stack.pop() {
                    Some(v) => v,
                    None => Expr::Zero,
                };
                stack.push(Expr::Binary(op, Box::new(a), Box::new(b)));
            },
            Token::Function(f) => {
                let v = match stack.pop() {
                    Some(v) => v,
                    None => Expr::Zero,
                };
                stack.push(Expr::Call(f, Box::new(v)));
            },
            _ => {},
        }
        i = i + 1;
    }
    proof {
        assert(queue@.take(n as int) =~= queue@);
    }
    match stack.pop() {
        Some(v) => v,
        None => Expr::Zero,
    }
}

} // verus!

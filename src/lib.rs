//! An arithmetic expression calculator: a tokenizer, an infix-to-postfix
//! converter (shunting-yard) and a postfix evaluator that builds the tree of
//! the computation. Numeric literals are carried as spans of the input; the
//! caller turns them into numbers and folds the tree.
use vstd::prelude::*;

pub mod token;
pub mod lexer;
pub mod postfix;
pub mod eval;

use crate::eval::{Expr, eval_postfix, evaluate_rpn, eval_stack};
use crate::lexer::{lex, lex_from, tokenize};
use crate::postfix::{shunting_yard, to_postfix, convert_prefix};
use crate::token::Token;

verus! {

/// The computation that the text `s` denotes: its tokens, reordered into
/// postfix, evaluated on an operand stack.
pub open spec fn calculation(s: Seq<char>) -> Expr {
    eval_postfix(to_postfix(lex(s)))
}

/// Reads an arithmetic expression and returns the tree of its computation.
/// Numbers in the tree are spans of `expr`'s characters.
pub fn calculate(expr: &str) -> (r: Expr)
    ensures
        r == calculation(expr@),
{
    let tokens = tokenize(expr);
    let rpn = shunting_yard(tokens);
    evaluate_rpn(rpn)
}

/// The result depends on the text alone: two calculations of one text
/// agree.
pub proof fn lemma_calculate_deterministic(s: Seq<char>, t: Seq<char>)
    requires
        s == t,
    ensures
        calculation(s) == calculation(t),
{
}

/// An empty text evaluates to zero: the empty operand stack at the end is
/// read as zero.
pub proof fn lemma_calculate_empty()
    ensures
        calculation(Seq::empty()) == Expr::Zero,
{
    let s = Seq::<char>::empty();
    assert(lex_from(s, 0) =~= Seq::empty());
    assert(lex(s) =~= Seq::empty());
    assert(convert_prefix(lex(s)) == (Seq::<Token>::empty(), Seq::<Token>::empty()));
    assert(to_postfix(lex(s)) =~= Seq::empty());
    assert(eval_stack(to_postfix(lex(s))) =~= Seq::empty());
}

} // verus!

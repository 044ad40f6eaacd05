use vstd::prelude::*;
use crate::token::{Token, precedence, spec_precedence};
use vstd::multiset::lemma_multiset_empty_len;
use vstd::seq_lib::group_to_multiset_ensures;

verus! {

/// Moves operators from the top of `ops` to `out` while the top is an
/// operator that binds at least as tightly as `op`.
pub open spec fn pop_tighter(out: Seq<Token>, ops: Seq<Token>, op: char) -> (Seq<Token>, Seq<Token>)
    decreases ops.len(),
{
    if ops.len() > 0 {
        match ops.last() {
            Token::Operator(top) => if spec_precedence(op) <= spec_precedence(top) {
                pop_tighter(out.push(ops.last()), ops.drop_last(), op)
            } else {
                (out, ops)
            },
            _ => (out, ops),
        }
    } else {
        (out, ops)
    }
}

/// Moves entries from the top of `ops` to `out` until an opening parenthesis
/// is popped (and dropped), or `ops` runs out.
pub open spec fn pop_group(out: Seq<Token>, ops: Seq<Token>) -> (Seq<Token>, Seq<Token>)
    decreases ops.len(),
{
    if ops.len() == 0 {
        (out, ops)
    } else if ops.last() is OpenParen {
        (out, ops.drop_last())
    } else {
        pop_group(out.push(ops.last()), ops.drop_last())
    }
}

/// The output queue and operator stack after reading one more token.
pub open spec fn convert_step(out: Seq<Token>, ops: Seq<Token>, t: Token) -> (Seq<Token>, Seq<Token>) {
    match t {
        Token::Number { .. } => (out.push(t), ops),
        Token::Function(_) => (out, ops.push(t)),
        Token::Operator(op) => {
            let (o, s) = pop_tighter(out, ops, op);
            (o, s.push(t))
        },
        Token::OpenParen => (out, ops.push(t)),
        Token::CloseParen => pop_group(out, ops),
    }
}

/// The output queue and operator stack after reading all of `tokens`.
pub open spec fn convert_prefix(tokens: Seq<Token>) -> (Seq<Token>, Seq<Token>)
    decreases tokens.len(),
{
    if tokens.len() == 0 {
        (Seq::empty(), Seq::empty())
    } else {
        let (o, s) = convert_prefix(tokens.drop_last());
        convert_step(o, s, tokens.last())
    }
}

/// `out` followed by the entries of `ops`, top first.
pub open spec fn drain(out: Seq<Token>, ops: Seq<Token>) -> Seq<Token>
    decreases ops.len(),
{
    if ops.len() == 0 {
        out
    } else {
        drain(out.push(ops.last()), ops.drop_last())
    }
}

/// The postfix order of an infix token sequence.
pub open spec fn to_postfix(tokens: Seq<Token>) -> Seq<Token> {
    let (o, s) = convert_prefix(tokens);
    drain(o, s)
}

/// Reorders infix tokens into postfix order: numbers go straight to the
/// output, operators wait on a stack until an operator that binds no more
/// tightly arrives (so all operators are left-associative), functions and
/// opening parentheses wait until a closing parenthesis or the end. A closing
/// parenthesis without a match empties the stack into the output; an opening
/// one without a match is passed on at the end.
pub fn shunting_yard(tokens: Vec<Token>) -> (output: Vec<Token>)
    ensures
        output@ == to_postfix(tokens@),
{
    let mut output: Vec<Token> = Vec::new();
    let mut operators: Vec<Token> = Vec::new();
    let n = tokens.len();
    let mut i: usize = 0;
    while i < n
        invariant
            n == tokens@.len(),
            i <= n,
            (output@, operators@) == convert_prefix(tokens@.take(i as int)),
        decreases n - i,
    {
        let token = tokens[i];
        proof {
            assert(tokens@.take(i as int + 1).drop_last() =~= tokens@.take(i as int));
        }
        match token {
            Token::Number { .. } => output.push(token),
            Token::Function(_) => operators.push(token),
            Token::Operator(op) => {
                loop
                    invariant
                        pop_tighter(output@, operators@, op)
                            == pop_tighter(
                            convert_prefix(tokens@.take(i as int)).0,
                            convert_prefix(tokens@.take(i as int)).1,
                            op,
                        ),
                    ensures
                        (output@, operators@) == pop_tighter(
                            convert_prefix(tokens@.take(i as int)).0,
                            convert_prefix(tokens@.take(i as int)).1,
                            op,
                        ),
                    decreases operators@.len(),
                {
                    let len = operators.len();
                    if len == 0 {
                        break;
                    }
                    let top = operators[len - 1];
                    match top {
                        Token::Operator(top_op) => {
                            if precedence(op) <= precedence(top_op) {
                                let popped = operators.pop().unwrap();
                                output.push(popped);
                            } else {
                                break;
                            }
                        },
                        _ => break,
                    }
                }
                operators.push(token);
            },
            Token::OpenParen => operators.push(token),
            Token::CloseParen => {
                loop
                    invariant_except_break
                        pop_group(output@, operators@) == pop_group(
                            convert_prefix(tokens@.take(i as int)).0,
                            convert_prefix(tokens@.take(i as int)).1,
                        ),
                    ensures
                        (output@, operators@) == pop_group(
                            convert_prefix(tokens@.take(i as int)).0,
                            convert_prefix(tokens@.take(i as int)).1,
                        ),
                    decreases operators@.len(),
                {
                    match operators.pop() {
                        Some(top) => {
                            match top {
                                Token::OpenParen => break,
                                _ => output.push(top),
                            }
                        },
                        None => break,
                    }
                }
            },
        }
        i = i + 1;
    }
    proof {
        assert(tokens@.take(n as int) =~= tokens@);
    }
    loop
        invariant
            drain(output@, operators@) == to_postfix(tokens@),
        ensures
            output@ == to_postfix(tokens@),
        decreases operators@.len(),
    {
        match operators.pop() {
            Some(op) => output.push(op),
            None => break,
        }
    }
    output
}

/// Number of opening parentheses in `s`.
pub open spec fn open_count(s: Seq<Token>) -> nat
    decreases s.len(),
{
    if s.len() == 0 {
        0
    } else {
        open_count(s.drop_last()) + if s.last() is OpenParen { 1nat } else { 0nat }
    }
}

/// Number of closing parentheses in `s`.
pub open spec fn close_count(s: Seq<Token>) -> nat
    decreases s.len(),
{
    if s.len() == 0 {
        0
    } else {
        close_count(s.drop_last()) + if s.last() is CloseParen { 1nat } else { 0nat }
    }
}

/// Opening minus closing parentheses in `s`.
pub open spec fn depth(s: Seq<Token>) -> int {
    open_count(s) - close_count(s)
}

/// Every prefix of `s` closes no more parentheses than it opened, and `s`
/// closes all it opens.
pub open spec fn balanced(s: Seq<Token>) -> bool {
    &&& forall|k: int| 0 <= k <= s.len() ==> #[trigger] depth(s.take(k)) >= 0
    &&& depth(s) == 0
}

/// What the operator stack can hold: no numbers, no closing parentheses.
spec fn stack_tokens(ops: Seq<Token>) -> bool {
    forall|j: int| 0 <= j < ops.len() ==> !(#[trigger] ops[j] is Number) && !(ops[j] is CloseParen)
}

proof fn lemma_counts_push(s: Seq<Token>, t: Token)
    ensures
        open_count(s.push(t)) == open_count(s) + if t is OpenParen { 1nat } else { 0nat },
        close_count(s.push(t)) == close_count(s) + if t is CloseParen { 1nat } else { 0nat },
{
    assert(s.push(t).drop_last() =~= s);
}

proof fn lemma_pop_tighter(out: Seq<Token>, ops: Seq<Token>, op: char)
    requires
        stack_tokens(ops),
    ensures
        stack_tokens(pop_tighter(out, ops, op).1),
        open_count(pop_tighter(out, ops, op).1) == open_count(ops),
        pop_tighter(out, ops, op).0.len() + pop_tighter(out, ops, op).1.len()
            == out.len() + ops.len(),
    decreases ops.len(),
{
    if ops.len() > 0 {
        if let Token::Operator(top) = ops.last() {
            if spec_precedence(op) <= spec_precedence(top) {
                lemma_pop_tighter(out.push(ops.last()), ops.drop_last(), op);
            }
        }
    }
}

proof fn lemma_pop_group(out: Seq<Token>, ops: Seq<Token>)
    requires
        stack_tokens(ops),
        open_count(ops) > 0,
    ensures
        stack_tokens(pop_group(out, ops).1),
        open_count(pop_group(out, ops).1) + 1 == open_count(ops),
        pop_group(out, ops).0.len() + pop_group(out, ops).1.len() + 1 == out.len() + ops.len(),
    decreases ops.len(),
{
    if !(ops.last() is OpenParen) {
        lemma_pop_group(out.push(ops.last()), ops.drop_last());
    }
}

proof fn lemma_convert_prefix(tokens: Seq<Token>)
    requires
        forall|k: int| 0 <= k <= tokens.len() ==> #[trigger] depth(tokens.take(k)) >= 0,
    ensures
        stack_tokens(convert_prefix(tokens).1),
        open_count(convert_prefix(tokens).1) == depth(tokens),
        convert_prefix(tokens).0.len() + convert_prefix(tokens).1.len() + open_count(tokens)
            + close_count(tokens) == tokens.len() + open_count(convert_prefix(tokens).1),
    decreases tokens.len(),
{
    if tokens.len() > 0 {
        let prev = tokens.drop_last();
        assert forall|k: int| 0 <= k <= prev.len() implies #[trigger] depth(prev.take(k)) >= 0 by {
            assert(prev.take(k) =~= tokens.take(k));
        }
        lemma_convert_prefix(prev);
        let (o, s) = convert_prefix(prev);
        let t = tokens.last();
        assert(prev.push(t) =~= tokens);
        lemma_counts_push(prev, t);
        match t {
            Token::Operator(op) => {
                lemma_pop_tighter(o, s, op);
                lemma_counts_push(pop_tighter(o, s, op).1, t);
            },
            Token::CloseParen => {
                assert(tokens.take(tokens.len() as int) =~= tokens);
                assert(depth(tokens.take(tokens.len() as int)) >= 0);
                lemma_pop_group(o, s);
            },
            _ => {
                lemma_counts_push(s, t);
            },
        }
    }
}

proof fn lemma_drain_len(out: Seq<Token>, ops: Seq<Token>)
    ensures
        drain(out, ops).len() == out.len() + ops.len(),
    decreases ops.len(),
{
    if ops.len() > 0 {
        lemma_drain_len(out.push(ops.last()), ops.drop_last());
    }
}

/// Conversion drops exactly the parentheses of a balanced expression: the
/// postfix sequence is shorter than the infix one by two tokens for each
/// pair of parentheses.
pub proof fn lemma_postfix_len_balanced(tokens: Seq<Token>)
    requires
        balanced(tokens),
    ensures
        to_postfix(tokens).len() == tokens.len() - 2 * open_count(tokens),
{
    lemma_convert_prefix(tokens);
    let (o, s) = convert_prefix(tokens);
    lemma_drain_len(o, s);
}

/// `s` with its parentheses left out.
pub open spec fn without_parens(s: Seq<Token>) -> Seq<Token>
    decreases s.len(),
{
    if s.len() == 0 {
        s
    } else if s.last() is OpenParen || s.last() is CloseParen {
        without_parens(s.drop_last())
    } else {
        without_parens(s.drop_last()).push(s.last())
    }
}

proof fn lemma_without_parens_push(s: Seq<Token>, t: Token)
    ensures
        without_parens(s.push(t)) == if t is OpenParen || t is CloseParen {
            without_parens(s)
        } else {
            without_parens(s).push(t)
        },
{
    assert(s.push(t).drop_last() =~= s);
}

proof fn lemma_pop_tighter_keeps(out: Seq<Token>, ops: Seq<Token>, op: char)
    ensures
        pop_tighter(out, ops, op).0.to_multiset().add(
            without_parens(pop_tighter(out, ops, op).1).to_multiset(),
        ) == out.to_multiset().add(without_parens(ops).to_multiset()),
    decreases ops.len(),
{
    broadcast use group_to_multiset_ensures, lemma_multiset_empty_len;

    if ops.len() > 0 {
        if let Token::Operator(top) = ops.last() {
            if spec_precedence(op) <= spec_precedence(top) {
                lemma_pop_tighter_keeps(out.push(ops.last()), ops.drop_last(), op);
                assert(out.push(ops.last()).to_multiset().add(
                    without_parens(ops.drop_last()).to_multiset(),
                ) =~= out.to_multiset().add(without_parens(ops).to_multiset()));
            }
        }
    }
}

proof fn lemma_pop_group_keeps(out: Seq<Token>, ops: Seq<Token>)
    requires
        stack_tokens(ops),
    ensures
        pop_group(out, ops).0.to_multiset().add(without_parens(pop_group(out, ops).1).to_multiset())
            == out.to_multiset().add(without_parens(ops).to_multiset()),
    decreases ops.len(),
{
    broadcast use group_to_multiset_ensures, lemma_multiset_empty_len;

    if ops.len() > 0 {
        if ops.last() is OpenParen {
        } else {
            assert(ops.last() == ops[ops.len() - 1]);
            lemma_pop_group_keeps(out.push(ops.last()), ops.drop_last());
            assert(out.push(ops.last()).to_multiset().add(
                without_parens(ops.drop_last()).to_multiset(),
            ) =~= out.to_multiset().add(without_parens(ops).to_multiset()));
        }
    }
}

proof fn lemma_pop_group_stack(out: Seq<Token>, ops: Seq<Token>)
    requires
        stack_tokens(ops),
    ensures
        stack_tokens(pop_group(out, ops).1),
    decreases ops.len(),
{
    if ops.len() > 0 && !(ops.last() is OpenParen) {
        lemma_pop_group_stack(out.push(ops.last()), ops.drop_last());
    }
}

proof fn lemma_convert_keeps(tokens: Seq<Token>)
    ensures
        stack_tokens(convert_prefix(tokens).1),
        convert_prefix(tokens).0.to_multiset().add(without_parens(convert_prefix(tokens).1).to_multiset())
            == without_parens(tokens).to_multiset(),
    decreases tokens.len(),
{
    broadcast use group_to_multiset_ensures, lemma_multiset_empty_len;

    if tokens.len() == 0 {
        let e = Seq::<Token>::empty();
        assert(e.to_multiset().len() == 0);
        assert(e.to_multiset().add(e.to_multiset()) =~= e.to_multiset());
    } else {
        let prev = tokens.drop_last();
        lemma_convert_keeps(prev);
        let (o, s) = convert_prefix(prev);
        let t = tokens.last();
        assert(prev.push(t) =~= tokens);
        lemma_without_parens_push(prev, t);
        lemma_without_parens_push(s, t);
        match t {
            Token::Operator(op) => {
                lemma_pop_tighter(o, s, op);
                lemma_pop_tighter_keeps(o, s, op);
                let (o2, s2) = pop_tighter(o, s, op);
                lemma_without_parens_push(s2, t);
                assert(o2.to_multiset().add(without_parens(s2.push(t)).to_multiset()) =~= o2.to_multiset().add(
                    without_parens(s2).to_multiset(),
                ).insert(t));
            },
            Token::CloseParen => {
                lemma_pop_group_stack(o, s);
                lemma_pop_group_keeps(o, s);
            },
            Token::Number { .. } => {
                assert(o.push(t).to_multiset().add(without_parens(s).to_multiset()) =~= o.to_multiset().add(
                    without_parens(s).to_multiset(),
                ).insert(t));
            },
            Token::OpenParen => {},
            _ => {
                assert(o.to_multiset().add(without_parens(s.push(t)).to_multiset()) =~= o.to_multiset().add(
                    without_parens(s).to_multiset(),
                ).insert(t));
            },
        }
    }
}

proof fn lemma_drain_keeps(out: Seq<Token>, ops: Seq<Token>)
    ensures
        drain(out, ops).to_multiset() == out.to_multiset().add(ops.to_multiset()),
    decreases ops.len(),
{
    broadcast use group_to_multiset_ensures, lemma_multiset_empty_len;

    if ops.len() == 0 {
        assert(ops.to_multiset().len() == 0);
        assert(out.to_multiset().add(ops.to_multiset()) =~= out.to_multiset());
    } else {
        lemma_drain_keeps(out.push(ops.last()), ops.drop_last());
        assert(ops.drop_last().push(ops.last()) =~= ops);
        assert(out.push(ops.last()).to_multiset().add(ops.drop_last().to_multiset()) =~= out.to_multiset().add(
            ops.to_multiset(),
        ));
    }
}

proof fn lemma_without_parens_stack(ops: Seq<Token>)
    requires
        stack_tokens(ops),
        open_count(ops) == 0,
    ensures
        without_parens(ops) == ops,
    decreases ops.len(),
{
    if ops.len() > 0 {
        assert(ops.last() == ops[ops.len() - 1]);
        lemma_without_parens_stack(ops.drop_last());
        assert(ops.drop_last().push(ops.last()) =~= ops);
    }
}

/// Conversion of a balanced expression is a reordering of its tokens with
/// the parentheses left out: every other token comes out exactly as often
/// as it went in.
pub proof fn lemma_postfix_permutes_balanced(tokens: Seq<Token>)
    requires
        balanced(tokens),
    ensures
        to_postfix(tokens).to_multiset() == without_parens(tokens).to_multiset(),
{
    lemma_convert_prefix(tokens);
    lemma_convert_keeps(tokens);
    let (o, s) = convert_prefix(tokens);
    lemma_without_parens_stack(s);
    lemma_drain_keeps(o, s);
}

} // verus!

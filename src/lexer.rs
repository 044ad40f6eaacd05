use vstd::prelude::*;
use crate::token::{Func, Token, is_operator_symbol};

verus! {

/// Whether `c` is in regex's `\d` class: Unicode's decimal digits (general
/// category Nd), which the ASCII digits are only a part of.
pub uninterp spec fn decimal_digit(c: char) -> bool;

/// Relies on regex's `Regex::is_match` with the class `\d`: whether the one
/// character `c` is a decimal digit.
#[verifier::external_body]
fn is_decimal_digit(c: char) -> (r: bool)
    ensures
        r == decimal_digit(c),
{
    let mut buf = [0u8; 4];
    regex::Regex::new(r"^\d$").unwrap().is_match(c.encode_utf8(&mut buf))
}

/// The end of the run of decimal digits that starts at `i`.
pub open spec fn digits_end(s: Seq<char>, i: int) -> int
    decreases s.len() - i,
{
    if 0 <= i < s.len() && decimal_digit(s[i]) {
        digits_end(s, i + 1)
    } else {
        i
    }
}

/// The end of the numeric literal that starts at `i`: digits, then
/// optionally a point and more digits.
pub open spec fn number_end(s: Seq<char>, i: int) -> int {
    let j = digits_end(s, i);
    if 0 <= j < s.len() && s[j] == '.' {
        digits_end(s, j + 1)
    } else {
        j
    }
}

/// The function whose name is spelled at `i`, if any.
pub open spec fn function_at(s: Seq<char>, i: int) -> Option<Func> {
    if 0 <= i && i + 3 <= s.len() {
        if s[i] == 's' && s[i + 1] == 'i' && s[i + 2] == 'n' {
            Some(Func::Sin)
        } else if s[i] == 'c' && s[i + 1] == 'o' && s[i + 2] == 's' {
            Some(Func::Cos)
        } else if s[i] == 't' && s[i + 1] == 'a' && s[i + 2] == 'n' {
            Some(Func::Tan)
        } else {
            None
        }
    } else {
        None
    }
}

/// The tokens of `s` from position `i` on. At each position the first
/// match wins: a numeric literal (as long as it goes), an operator, a
/// parenthesis, a function name; a character that starts none of them is
/// skipped.
pub open spec fn lex_from(s: Seq<char>, i: int) -> Seq<Token>
    decreases s.len() - i via lex_from_decreases
{
    if i < 0 || i >= s.len() {
        Seq::empty()
    } else if decimal_digit(s[i]) {
        seq![Token::Number { start: i as usize, end: number_end(s, i) as usize }] + lex_from(
            s,
            number_end(s, i),
        )
    } else if is_operator_symbol(s[i]) {
        seq![Token::Operator(s[i])] + lex_from(s, i + 1)
    } else if s[i] == '(' {
        seq![Token::OpenParen] + lex_from(s, i + 1)
    } else if s[i] == ')' {
        seq![Token::CloseParen] + lex_from(s, i + 1)
    } else if function_at(s, i) is Some {
        seq![Token::Function(function_at(s, i)->0)] + lex_from(s, i + 3)
    } else {
        lex_from(s, i + 1)
    }
}

/// The tokens of the whole of `s`.
pub open spec fn lex(s: Seq<char>) -> Seq<Token> {
    lex_from(s, 0)
}

proof fn lemma_digits_end(s: Seq<char>, i: int)
    requires
        0 <= i <= s.len(),
    ensures
        i <= digits_end(s, i) <= s.len(),
        i < s.len() && decimal_digit(s[i]) ==> i < digits_end(s, i),
    decreases s.len() - i,
{
    if i < s.len() && decimal_digit(s[i]) {
        lemma_digits_end(s, i + 1);
    }
}

proof fn lemma_number_end(s: Seq<char>, i: int)
    requires
        0 <= i < s.len(),
        decimal_digit(s[i]),
    ensures
        i < number_end(s, i) <= s.len(),
{
    lemma_digits_end(s, i);
    let j = digits_end(s, i);
    if j < s.len() && s[j] == '.' {
        lemma_digits_end(s, j + 1);
    }
}

#[via_fn]
proof fn lex_from_decreases(s: Seq<char>, i: int) {
    if 0 <= i < s.len() && decimal_digit(s[i]) {
        lemma_number_end(s, i);
    }
}

/// The characters of `s`, in order.
fn chars_of(s: &str) -> (v: Vec<char>)
    ensures
        v@ == s@,
{
    let mut v: Vec<char> = Vec::new();
    for c in it: s.chars()
        invariant
            v@ == it.seq().take(it.index() as int),
    {
        v.push(c);
    }
    v
}

/// The end of the run of decimal digits in `chars` that starts at `from`.
fn scan_digits(chars: &Vec<char>, from: usize) -> (r: usize)
    requires
        from <= chars@.len(),
    ensures
        r == digits_end(chars@, from as int),
        from <= r <= chars@.len(),
{
    let n = chars.len();
    let mut k = from;
    loop
        invariant
            from <= k <= n,
            n == chars@.len(),
            digits_end(chars@, k as int) == digits_end(chars@, from as int),
        ensures
            k == digits_end(chars@, from as int),
            from <= k <= n,
        decreases n - k,
    {
        if k >= n || !is_decimal_digit(chars[k]) {
            break;
        }
        k = k + 1;
    }
    k
}

/// Splits an expression into tokens, scanning left to right; characters
/// that start no token are skipped.
pub fn tokenize(expression: &str) -> (tokens: Vec<Token>)
    ensures
        tokens@ == lex(expression@),
{
    let chars = chars_of(expression);
    let ghost s = expression@;
    let n = chars.len();
    let mut tokens: Vec<Token> = Vec::new();
    let mut i: usize = 0;
    while i < n
        invariant
            chars@ == s,
            n == s.len(),
            i <= n,
            tokens@ + lex_from(s, i as int) == lex(s),
        decreases n - i,
    {
        let c = chars[i];
        let ghost before = tokens@;
        let mut next: usize = i + 1;
        if is_decimal_digit(c) {
            let j = scan_digits(&chars, i);
            let mut end = j;
            if j < n && chars[j] == '.' {
                end = scan_digits(&chars, j + 1);
            }
            proof {
                lemma_number_end(s, i as int);
            }
            tokens.push(Token::Number { start: i, end });
            next = end;
        } else if c == '+' || c == '-' || c == '*' || c == '/' || c == '^' {
            tokens.push(Token::Operator(c));
        } else if c == '(' {
            tokens.push(Token::OpenParen);
        } else if c == ')' {
            tokens.push(Token::CloseParen);
        } else if n - i >= 3 && chars[i] == 's' && chars[i + 1] == 'i' && chars[i + 2] == 'n' {
            tokens.push(Token::Function(Func::Sin));
            next = i + 3;
        } else if n - i >= 3 && chars[i] == 'c' && chars[i + 1] == 'o' && chars[i + 2] == 's' {
            tokens.push(Token::Function(Func::Cos));
            next = i + 3;
        } else if n - i >= 3 && chars[i] == 't' && chars[i + 1] == 'a' && chars[i + 2] == 'n' {
            tokens.push(Token::Function(Func::Tan));
            next = i + 3;
        }
        proof {
            if tokens@.len() > before.len() {
                let t = tokens@.last();
                assert(tokens@ =~= before.push(t));
                assert(before.push(t) + lex_from(s, next as int) =~= before + (seq![t] + lex_from(
                    s,
                    next as int,
                )));
            } else {
                assert(tokens@ =~= before);
            }
        }
        i = next;
    }
    tokens
}

} // verus!

use rusculator::calculate;
use rusculator::eval::{evaluate_rpn, Expr};
use rusculator::lexer::tokenize;
use rusculator::postfix::shunting_yard;
use rusculator::token::{precedence, Func, Token};

fn literal(chars: &[char], start: usize, end: usize) -> f64 {
    chars[start..end].iter().collect::<String>().parse().unwrap_or(0.0)
}

fn value(chars: &[char], e: &Expr) -> f64 {
    match e {
        Expr::Number { start, end } => literal(chars, *start, *end),
        Expr::Zero => 0.0,
        Expr::One => 1.0,
        Expr::Binary(op, a, b) => {
            let (a, b) = (value(chars, a), value(chars, b));
            match op {
                '+' => a + b,
                '-' => a - b,
                '*' => a * b,
                '/' => a / b,
                '^' => a.powf(b),
                _ => panic!("Unsupported operator"),
            }
        }
        Expr::Call(f, v) => {
            let v = value(chars, v).to_radians();
            match f {
                Func::Sin => v.sin(),
                Func::Cos => v.cos(),
                Func::Tan => v.tan(),
            }
        }
    }
}

fn number_of(expr: &str) -> f64 {
    let chars: Vec<char> = expr.chars().collect();
    value(&chars, &calculate(expr))
}

fn answer(expr: &str) -> String {
    format!("{}", number_of(expr))
}

fn num(start: usize, end: usize) -> Expr {
    Expr::Number { start, end }
}

fn bin(op: char, a: Expr, b: Expr) -> Expr {
    Expr::Binary(op, Box::new(a), Box::new(b))
}

#[test]
fn addition() {
    assert_eq!(answer("2+3"), "5");
}

#[test]
fn multiplication_before_addition() {
    assert_eq!(answer("2+3*4"), "14");
}

#[test]
fn parentheses_override_precedence() {
    assert_eq!(answer("(2+3)*4"), "20");
}

#[test]
fn power_is_left_associative() {
    assert_eq!(answer("2^3^2"), "64");
    assert_eq!(
        calculate("2^3^2"),
        bin('^', bin('^', num(0, 1), num(2, 3)), num(4, 5))
    );
}

#[test]
fn cosine_of_zero_degrees() {
    assert_eq!(answer("cos(0)"), "1");
}

#[test]
fn sine_of_ninety_degrees() {
    assert!((number_of("sin(90)") - 1.0).abs() < 1e-9);
}

#[test]
fn tangent_of_forty_five_degrees() {
    assert!((number_of("tan(45)") - 1.0).abs() < 1e-9);
}

#[test]
fn repeated_calculation_agrees() {
    let text = "(1.5+2)*3^2/sin(30)";
    assert_eq!(calculate(text), calculate(text));
    assert_eq!(answer(text), answer(text));
}

#[test]
fn postfix_drops_parenthesis_pairs() {
    let infix = tokenize("((2+3))*(4-1)");
    assert_eq!(infix.len(), 13);
    let postfix = shunting_yard(infix);
    assert_eq!(postfix.len(), 7);
    assert!(postfix
        .iter()
        .all(|t| !matches!(t, Token::OpenParen | Token::CloseParen)));
}

#[test]
fn empty_input_is_zero() {
    assert_eq!(calculate(""), Expr::Zero);
    assert_eq!(answer(""), "0");
    assert_eq!(evaluate_rpn(Vec::new()), Expr::Zero);
}

#[test]
fn tokens_of_expression() {
    assert_eq!(
        tokenize("12.5 * cos(x3)"),
        vec![
            Token::Number { start: 0, end: 4 },
            Token::Operator('*'),
            Token::Function(Func::Cos),
            Token::OpenParen,
            Token::Number { start: 12, end: 13 },
            Token::CloseParen,
        ]
    );
}

#[test]
fn literal_stops_at_second_point() {
    assert_eq!(
        tokenize("1.2.3"),
        vec![Token::Number { start: 0, end: 3 }, Token::Number { start: 4, end: 5 }]
    );
    assert_eq!(tokenize("7."), vec![Token::Number { start: 0, end: 2 }]);
    assert_eq!(answer("7.+1"), "8");
}

#[test]
fn unicode_digits_form_a_literal() {
    assert_eq!(tokenize("٣٤"), vec![Token::Number { start: 0, end: 2 }]);
    assert_eq!(answer("٣+1"), "1");
}

#[test]
fn function_names_are_case_sensitive() {
    assert_eq!(tokenize("SIN sinh"), vec![Token::Function(Func::Sin)]);
}

#[test]
fn precedence_table() {
    assert_eq!(precedence('+'), 1);
    assert_eq!(precedence('-'), 1);
    assert_eq!(precedence('*'), 2);
    assert_eq!(precedence('/'), 2);
    assert_eq!(precedence('^'), 3);
    assert_eq!(precedence('%'), 0);
}

#[test]
fn subtraction_and_division_are_left_associative() {
    assert_eq!(answer("10-4-3"), "3");
    assert_eq!(answer("100/10/5"), "2");
}

#[test]
fn postfix_order() {
    let postfix = shunting_yard(tokenize("1+2*3-4"));
    assert_eq!(
        postfix,
        vec![
            Token::Number { start: 0, end: 1 },
            Token::Number { start: 2, end: 3 },
            Token::Number { start: 4, end: 5 },
            Token::Operator('*'),
            Token::Operator('+'),
            Token::Number { start: 6, end: 7 },
            Token::Operator('-'),
        ]
    );
}

#[test]
fn missing_operands_take_defaults() {
    assert_eq!(calculate("2+"), bin('+', Expr::Zero, num(0, 1)));
    assert_eq!(calculate("/"), bin('/', Expr::Zero, Expr::One));
    assert_eq!(answer("2/"), "0");
    assert_eq!(answer("*3"), "0");
    assert_eq!(calculate("sin"), Expr::Call(Func::Sin, Box::new(Expr::Zero)));
}

#[test]
fn unbalanced_parentheses_are_tolerated() {
    assert_eq!(answer("(2+3"), "5");
    assert_eq!(answer("2+3)*4"), "20");
}

#[test]
fn unmatched_open_parenthesis_is_passed_on() {
    assert_eq!(
        shunting_yard(tokenize("(2")),
        vec![Token::Number { start: 1, end: 2 }, Token::OpenParen]
    );
    assert_eq!(shunting_yard(tokenize("2)")), vec![Token::Number { start: 0, end: 1 }]);
}

#[test]
fn top_of_stack_wins_over_leftovers() {
    assert_eq!(answer("2 3"), "3");
}

#[test]
fn function_without_parentheses_takes_the_rest() {
    assert!(number_of("cos 60+30").abs() < 1e-9);
    assert_eq!(
        calculate("cos(60)+30"),
        Expr::Call(Func::Cos, Box::new(bin('+', num(4, 6), num(8, 10))))
    );
    assert!(number_of("cos(60)+30").abs() < 1e-9);
    assert!((number_of("(cos(60))+30") - 30.5).abs() < 1e-9);
}

#[test]
fn unknown_characters_are_skipped() {
    assert_eq!(answer(" 2 +\n3 abc"), "5");
}

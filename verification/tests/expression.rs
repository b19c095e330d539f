use learn_rust::calculator::expression::{infix_binding_power, Expression, Lexer, Token};

fn number(value: &str) -> f64 {
    match value.parse::<f64>() {
        Ok(v) => v,
        Err(_) => 0.0,
    }
}

fn eval(expression: &Expression) -> f64 {
    match expression {
        Expression::Number(text) => number(&text.iter().collect::<String>()),
        Expression::Operation(operator, operands) => {
            let lhs = eval(operands.first().unwrap());
            let rhs = eval(operands.last().unwrap());
            match operator {
                '+' => lhs + rhs,
                '-' => lhs - rhs,
                '*' => lhs * rhs,
                '/' => lhs / rhs,
                '^' => lhs.powf(rhs),
                '\u{221a}' => lhs.powf(1.0 / rhs),
                op => panic!("Bad operator: {}", op),
            }
        }
    }
}

/// An expression with every operation in parentheses.
fn show(expression: &Expression) -> String {
    match expression {
        Expression::Number(text) => text.iter().collect(),
        Expression::Operation(operator, operands) => {
            assert_eq!(operands.len(), 2);
            format!("({} {} {})", show(&operands[0]), operator, show(&operands[1]))
        }
    }
}

fn read(input: &str) -> String {
    show(&Expression::from_str(input).unwrap())
}

fn tokens(input: &str) -> Vec<String> {
    let mut lexer = Lexer::new(input);
    let mut found = Vec::new();
    loop {
        match lexer.next() {
            Token::Number(text) => found.push(text.iter().collect()),
            Token::Op(c) => found.push(format!("op {}", c)),
            Token::Eof => break,
        }
    }
    found
}

#[test]
fn test_1() {
    let s = Expression::from_str("1").unwrap();
    assert_eq!(eval(&s), 1.0);
}

#[test]
fn test_2() {
    let s = Expression::from_str("1 + 2 * 3").unwrap();
    assert_eq!(eval(&s), 7.0);
}

#[test]
fn test_3() {
    let s = Expression::from_str("12 * 2 * 5").unwrap();
    assert_eq!(eval(&s), 120.0);
}

#[test]
fn test_4() {
    let s = Expression::from_str("12 / 3 * (4 - 3 / 2)").unwrap();
    assert_eq!(eval(&s), 10.0);
}

#[test]
fn test_5() {
    let s = Expression::from_str("123/123*(88^2)").unwrap();
    assert_eq!(eval(&s), 7744.0);
}

#[test]
fn a_line_is_cut_into_numbers_and_characters() {
    assert_eq!(tokens("12 / 3.5*(4-x)"), vec![
        "12", "op /", "3.5", "op *", "op (", "4", "op -", "op x", "op )"
    ]);
    assert_eq!(tokens("1 2\t3"), vec!["123"]);
    assert_eq!(tokens("1..2."), vec!["1..2."]);
    assert_eq!(tokens("+"), vec!["op +"]);
    assert!(tokens("").is_empty());
    assert!(tokens(" \n\r\t\u{c}").is_empty());
    assert_eq!(tokens("1\u{a0}2"), vec!["1", "op \u{a0}", "2"]);
}

#[test]
fn reading_past_the_end_gives_the_end() {
    let mut lexer = Lexer::new("7");
    assert!(matches!(lexer.peek(), Token::Number(_)));
    assert!(matches!(lexer.next(), Token::Number(_)));
    assert!(matches!(lexer.peek(), Token::Eof));
    assert!(matches!(lexer.next(), Token::Eof));
    assert!(matches!(lexer.next(), Token::Eof));
}

#[test]
fn stronger_operators_take_their_operands_first() {
    assert_eq!(read("1 + 2 * 3"), "(1 + (2 * 3))");
    assert_eq!(read("1 * 2 + 3"), "((1 * 2) + 3)");
    assert_eq!(read("1 + 2 ^ 3 * 4"), "(1 + ((2 ^ 3) * 4))");
    assert_eq!(read("1 . 2 ^ 3"), "(1.2 ^ 3)");
    assert_eq!(read("2 \u{221a} 9 - 1"), "((2 \u{221a} 9) - 1)");
}

#[test]
fn operators_of_a_kind_group_by_their_side() {
    assert_eq!(read("1 - 2 - 3"), "((1 - 2) - 3)");
    assert_eq!(read("8 / 4 / 2"), "((8 / 4) / 2)");
    assert_eq!(read("1 - 2 + 3"), "((1 - 2) + 3)");
    assert_eq!(read("2 ^ 3 ^ 2"), "(2 ^ (3 ^ 2))");
}

#[test]
fn parentheses_come_first() {
    assert_eq!(read("(1 + 2) * 3"), "((1 + 2) * 3)");
    assert_eq!(read("((1))"), "1");
    assert_eq!(read("(1 2)"), "12");
    assert_eq!(read("2 * (3 + (4 - 1)) / 5"), "((2 * (3 + (4 - 1))) / 5)");
}

#[test]
fn what_follows_an_expression_is_left_unread() {
    assert_eq!(read("1 + 2 ) * 3"), "(1 + 2)");
    assert_eq!(read("4 ) ("), "4");
}

#[test]
fn lines_that_are_no_expressions_are_refused() {
    for line in ["", "   ", "+", "* 2", ")", "1 +", "1 + *", "(1 + 2", "(", "()", "1 x 2", "1 (2)", "(1 + ) 2"] {
        assert!(Expression::from_str(line).is_none());
    }
}

#[test]
fn a_number_is_kept_as_it_was_written() {
    assert_eq!(read("007.50"), "007.50");
    assert_eq!(read("1.2.3"), "1.2.3");
    assert_eq!(eval(&Expression::from_str("1.2.3 + 1").unwrap()), 1.0);
    assert_eq!(eval(&Expression::from_str("2 ^ 0.5 ^ 2").unwrap()), 2.0_f64.powf(0.25));
}

#[test]
fn each_operator_has_its_binding_powers() {
    assert_eq!(infix_binding_power('+'), Some((10, 11)));
    assert_eq!(infix_binding_power('-'), Some((10, 11)));
    assert_eq!(infix_binding_power('*'), Some((20, 21)));
    assert_eq!(infix_binding_power('/'), Some((20, 21)));
    assert_eq!(infix_binding_power('^'), Some((31, 30)));
    assert_eq!(infix_binding_power('\u{221a}'), Some((31, 30)));
    assert_eq!(infix_binding_power('.'), Some((40, 41)));
    assert_eq!(infix_binding_power('%'), None);
    assert_eq!(infix_binding_power('('), None);
}

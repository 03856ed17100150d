use math_engine::context::{Config, DefaultContext};
use math_engine::evaluator::infix_to_rpn;
use math_engine::token::Token;

#[test]
fn unary_ops_test1() {
    let context = &DefaultContext::new_checked();

    assert_eq!(
        infix_to_rpn(
            // -(+10) -> 10 + -
            &[
                Token::UnaryOperator('-'.to_string()),
                Token::GroupingOpen('('),
                Token::UnaryOperator('+'.to_string()),
                Token::Number(10),
                Token::GroupingClose(')')
            ],
            context
        )
        .unwrap(),
        [
            Token::Number(10),
            Token::UnaryOperator('+'.to_string()),
            Token::UnaryOperator('-'.to_string())
        ]
    );
}

#[test]
fn binary_ops_test1() {
    let context = &DefaultContext::new_checked();

    assert_eq!(
        infix_to_rpn(
            // 3 + 2 -> 3 2 +
            &[
                Token::Number(3),
                Token::BinaryOperator('+'.to_string()),
                Token::Number(2)
            ],
            context
        )
        .unwrap(),
        [
            Token::Number(3),
            Token::Number(2),
            Token::BinaryOperator('+'.to_string())
        ]
    );
}

#[test]
fn binary_ops_test2() {
    let context = &DefaultContext::new_checked();

    assert_eq!(
        infix_to_rpn(
            // 2 + 3 * 5 -> 2 3 5 + *
            &[
                Token::Number(2),
                Token::BinaryOperator('+'.to_string()),
                Token::Number(3),
                Token::BinaryOperator('*'.to_string()),
                Token::Number(5)
            ],
            context
        )
        .unwrap(),
        [
            Token::Number(2),
            Token::Number(3),
            Token::Number(5),
            Token::BinaryOperator('*'.to_string()),
            Token::BinaryOperator('+'.to_string())
        ]
    );
}

#[test]
fn binary_ops_test3() {
    let context = &DefaultContext::new_checked();

    assert_eq!(
        infix_to_rpn(
            // 2 ^ 3 ^ 4 - 1
            &[
                Token::Number(2),
                Token::BinaryOperator('^'.to_string()),
                Token::Number(3),
                Token::BinaryOperator('^'.to_string()),
                Token::Number(4),
                Token::BinaryOperator('-'.to_string()),
                Token::Number(1)
            ],
            context
        )
        .unwrap(),
        [
            Token::Number(2),
            Token::Number(3),
            Token::Number(4),
            Token::BinaryOperator('^'.to_string()),
            Token::BinaryOperator('^'.to_string()),
            Token::Number(1),
            Token::BinaryOperator('-'.to_string())
        ]
    );
}

#[test]
fn binary_ops_test4() {
    let context = &DefaultContext::new_checked();

    assert_eq!(
        infix_to_rpn(
            // (5 + (-3)) ^ Max(1, 2*5, (30/2))
            &[
                Token::GroupingOpen('('),
                Token::Number(5),
                Token::BinaryOperator('+'.to_string()),
                Token::GroupingOpen('('),
                Token::UnaryOperator('-'.to_string()),
                Token::Number(3),
                Token::GroupingClose(')'),
                Token::GroupingClose(')'),
                Token::BinaryOperator('^'.to_string()),
                Token::Function("Max".to_string()),
                Token::GroupingOpen('('),
                Token::Number(1),
                Token::Comma,
                Token::Number(2),
                Token::BinaryOperator('*'.to_string()),
                Token::Number(5),
                Token::Comma,
                Token::GroupingOpen('('),
                Token::Number(30),
                Token::BinaryOperator('/'.to_string()),
                Token::Number(2),
                Token::GroupingClose(')'),
                Token::GroupingClose(')'),
            ],
            context
        )
        .unwrap(),
        [
            Token::Number(5),
            Token::Number(3),
            Token::UnaryOperator('-'.to_string()),
            Token::BinaryOperator('+'.to_string()),
            Token::Number(1),
            Token::Number(2),
            Token::Number(5),
            Token::BinaryOperator('*'.to_string()),
            Token::Number(30),
            Token::Number(2),
            Token::BinaryOperator('/'.to_string()),
            Token::ArgCount(3),
            Token::Function("Max".to_string()),
            Token::BinaryOperator('^'.to_string())
        ]
    );
}

#[test]
fn infix_ops_test() {
    let context = &DefaultContext::new_checked();

    assert_eq!(
        infix_to_rpn(
            // 10 mod 2 -> 10 2 mod
            &[
                Token::Number(10),
                Token::BinaryOperator(String::from("mod")),
                Token::Number(2)
            ],
            context
        )
        .unwrap(),
        [
            Token::Number(10),
            Token::Number(2),
            Token::BinaryOperator(String::from("mod"))
        ]
    );
}

#[test]
fn function_test() {
    let context = &DefaultContext::new_checked();

    assert_eq!(
        infix_to_rpn(
            // 5 * Sum(2, 3) -> 2 3 2arg Sum 5 *
            &[
                Token::Number(5),
                Token::BinaryOperator('*'.to_string()),
                Token::Function(String::from("Sum")),
                Token::GroupingOpen('('),
                Token::Number(2),
                Token::Comma,
                Token::Number(3),
                Token::GroupingClose(')'),
            ],
            context
        )
        .unwrap(),
        [
            Token::Number(5),
            Token::Number(2),
            Token::Number(3),
            Token::ArgCount(2),
            Token::Function(String::from("Sum")),
            Token::BinaryOperator('*'.to_string()),
        ]
    );
}

#[test]
fn implicit_mul_test1() {
    let config = Config::new().with_implicit_mul(true);
    let context = DefaultContext::new_checked_with_config(config);

    let infix = &[Token::Number(10), Token::Constant("PI".to_string())];
    let rpn = infix_to_rpn(infix, &context).unwrap();
    assert_eq!(
        rpn,
        &[
            Token::Number(10),
            Token::Constant("PI".to_string()),
            Token::BinaryOperator('*'.to_string())
        ]
    );
}

#[test]
fn implicit_mul_test2() {
    let config = Config::new().with_implicit_mul(true);
    let context = DefaultContext::new_checked_with_config(config);

    let infix = &[
        Token::GroupingOpen('('),
        Token::Number(2),
        Token::GroupingClose(')'),
        Token::GroupingOpen('('),
        Token::Number(3),
        Token::GroupingClose(')'),
    ];

    let rpn = infix_to_rpn(infix, &context).unwrap();
    assert_eq!(
        rpn,
        &[
            Token::Number(2),
            Token::Number(3),
            Token::BinaryOperator('*'.to_string())
        ]
    );
}

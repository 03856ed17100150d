use math_engine::context::{Config, DefaultContext};
use math_engine::evaluator::{Evaluate, Evaluator};
use math_engine::token::Token;

#[test]
fn eval_test() {
    let config = Config::new().with_group_symbol('[', ']');
    let evaluator: Evaluator =
        Evaluator::with_context(DefaultContext::new_checked_with_config(config));

    assert_eq!(evaluator.eval("(2 ^ 3) ^ 4").unwrap(), 4096);
    assert_eq!(evaluator.eval("Min(10, 2) + Max(10, 2)").unwrap(), 12);
    assert_eq!(
        evaluator
            .eval("Sum(1, 2, 3) * 2 - Max(2, 10/2, 2^3)")
            .unwrap(),
        4
    );

    assert!(evaluator.eval("5").is_ok());
    assert!(evaluator.eval("-2").is_ok());
    assert!(evaluator.eval("(10)").is_ok());
    assert!(evaluator.eval("([(25)])").is_ok());
    assert!(evaluator.eval("-(+(6))").is_ok());
    assert!(evaluator.eval("+10").is_ok());
    assert!(evaluator.eval("((10)+(((2)))*(3))").is_ok());
    assert!(evaluator.eval("-(2)^(((4)))").is_ok());
    assert!(evaluator.eval("-(+(-(+(5))))").is_ok());
    assert!(evaluator.eval("10--+2").is_ok());
    assert!(evaluator.eval("+2!").is_ok());
    assert!(evaluator.eval("5 * Sin(40)").is_ok());
    assert!(evaluator.eval("Sin(30) * 5").is_ok());
    assert!(evaluator.eval("Cos(30) * Sin(30)").is_ok());

    assert!(evaluator.eval("((20) + 2").is_err());
    assert!(evaluator.eval("(1,23) + 1").is_err());
    assert!(evaluator.eval("2^").is_err());
    assert!(evaluator.eval("10 2").is_err());
    assert!(evaluator.eval("2 3 +").is_err());
    assert!(evaluator.eval("^10!").is_err());
    assert!(evaluator.eval("8+").is_err());
    assert!(evaluator.eval("([10)]").is_err());
    assert!(evaluator.eval("()+5").is_err());
    assert!(evaluator.eval("()+5").is_err());
    assert!(evaluator.eval("Sum 2 3 4").is_err());
    assert!(evaluator.eval("Max(,)").is_err());
    assert!(evaluator.eval("Max(2, )").is_err());
    assert!(evaluator.eval("Max( ,3)").is_err());
    assert!(evaluator.eval("Max(2, 3,)").is_err());
    assert!(evaluator.eval("Sum((10, 2, 3))").is_err());
    assert!(evaluator.eval("(())").is_err());
    assert!(evaluator.eval("Random(())").is_err());
}

#[test]
fn eval_implicit_mul_test() {
    let config = Config::new().with_implicit_mul(true);
    let context = DefaultContext::new_checked_with_config(config);
    let mut evaluator: Evaluator = Evaluator::with_context(context);

    let _ = evaluator.mut_context().set_variable("x", 10);
    assert_eq!(evaluator.eval("2x").unwrap(), 20);

    let _ = evaluator.mut_context().set_variable("x", 5);
    assert_eq!(evaluator.eval("3x").unwrap(), 15);

    assert!(evaluator.eval("2Sin(50)").is_ok());
    assert!(evaluator.eval("(2)(4)").is_ok());
    assert!(evaluator.eval("2(4)").is_ok());
    assert!(evaluator.eval("(2)4").is_ok());
    assert!(evaluator.eval("Cos(30) * 2").is_ok());
    assert!(evaluator.eval("Cos(30)(2)").is_ok());

    // Not allowed currently due looks like function call
    assert!(evaluator.eval("5x(2)").is_err());

    // Confusing expression
    assert!(evaluator.eval("3 2Sin(50)").is_err());
}

#[test]
fn eval_tokens_test() {
    let evaluator = Evaluator::new();

    // 2 + 3
    assert_eq!(
        evaluator
            .eval_tokens(&[
                Token::Number(3),
                Token::BinaryOperator('+'.to_string()),
                Token::Number(2)
            ])
            .unwrap(),
        5
    );

    // 2 ^ 3 ^ 2
    assert_eq!(
        evaluator
            .eval_tokens(&[
                Token::Number(2),
                Token::BinaryOperator('^'.to_string()),
                Token::Number(3),
                Token::BinaryOperator('^'.to_string()),
                Token::Number(2)
            ])
            .unwrap(),
        512
    );

    // (2 ^ 3) ^ 4
    assert_eq!(
        evaluator
            .eval_tokens(&[
                Token::GroupingOpen('('),
                Token::Number(2),
                Token::BinaryOperator('^'.to_string()),
                Token::Number(3),
                Token::GroupingClose(')'),
                Token::BinaryOperator('^'.to_string()),
                Token::Number(4)
            ])
            .unwrap(),
        4096
    );
}

#[test]
fn eval_using_variable_test() {
    let mut evaluator = Evaluator::new();
    let _ = evaluator.mut_context().set_variable("x", 10);

    assert_eq!(evaluator.eval("x + 2").unwrap(), 12);
}

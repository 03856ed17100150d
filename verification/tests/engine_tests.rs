use math_engine::commands::{CommandInfo, NumberType};
use math_engine::context::DefaultContext;
use math_engine::error::ErrorKind;
use math_engine::eval;
use math_engine::evaluator::{infix_to_rpn, rpn_eval, Evaluator};
use math_engine::ops::{
    Factorial, LogFunction, MaxFunction, MinFunction, PowOperator, SinFunction, SqrtFunction,
};
use math_engine::token::Token;
use math_engine::tokenizer::tokenize;

#[test]
fn eval_precedence_and_associativity() {
    assert_eq!(eval("2 + 3 * 4").unwrap(), 14);
    assert_eq!(eval("2 * 3 + 4").unwrap(), 10);
    assert_eq!(eval("2 - 3 - 4").unwrap(), -5);
    assert_eq!(eval("2 ^ 3 ^ 2").unwrap(), 512);
    assert_eq!(eval("100 / 10 / 2").unwrap(), 5);
    assert_eq!(eval("10 mod 3").unwrap(), 1);
}

#[test]
fn eval_error_kinds() {
    assert_eq!(eval("1/0").unwrap_err().kind(), ErrorKind::DivisionByZero);
    assert_eq!(
        eval("9223372036854775807 + 1").unwrap_err().kind(),
        ErrorKind::Overflow
    );
    assert_eq!(eval("Sqrt(0 - 4)").unwrap_err().kind(), ErrorKind::NAN);
    assert_eq!(
        eval("(0 - 5)!").unwrap_err().kind(),
        ErrorKind::NegativeValue
    );
    assert_eq!(eval("2 $ 3").unwrap_err().kind(), ErrorKind::InvalidInput);
    assert_eq!(eval("((20) + 2").unwrap_err().kind(), ErrorKind::InvalidExpression);
    assert_eq!(eval("Max(,)").unwrap_err().kind(), ErrorKind::InvalidInput);
    assert_eq!(eval("Random(())").unwrap_err().kind(), ErrorKind::InvalidInput);
    assert_eq!(eval("(())").unwrap_err().kind(), ErrorKind::InvalidInput);
    assert_eq!(eval("([10)]").unwrap_err().kind(), ErrorKind::InvalidInput);
    assert_eq!(eval("2 3 +").unwrap_err().kind(), ErrorKind::InvalidInput);
}

#[test]
fn eval_integer_functions() {
    assert_eq!(eval("Sqrt(49)").unwrap(), 7);
    assert_eq!(eval("Sqrt(50)").unwrap(), 7);
    assert_eq!(eval("Log(1000)").unwrap(), 3);
    assert_eq!(eval("Log(8, 2)").unwrap(), 3);
    assert_eq!(eval("Log(9, 2)").unwrap(), 3);
    assert_eq!(eval("Abs(0 - 9)").unwrap(), 9);
    assert_eq!(eval("Sign(0 - 9)").unwrap(), -1);
    assert_eq!(eval("Floor(5) + Ceil(5) + Truncate(5) + Round(5)").unwrap(), 20);
    assert_eq!(eval("5!").unwrap(), 120);
    assert_eq!(eval("Sum(1, 2, 3, 4)").unwrap(), 10);
    assert_eq!(eval("Prod(2, 3, 4)").unwrap(), 24);
    assert_eq!(eval("Avg(1, 2, 4)").unwrap(), 2);
    assert_eq!(eval("Sin(90)").unwrap(), 1);
    assert_eq!(eval("Sin(30)").unwrap(), 0);
    assert_eq!(eval("Cos(0)").unwrap(), 1);
    assert_eq!(eval("Cos(180)").unwrap(), -1);
    assert_eq!(eval("Cos(0 - 360)").unwrap(), 1);
}

#[test]
fn eval_case_insensitive_names() {
    assert_eq!(eval("max(1, 2)").unwrap(), eval("MAX(1, 2)").unwrap());
    assert_eq!(eval("pi").unwrap(), eval("PI").unwrap());

    let mut evaluator = Evaluator::new();
    let _ = evaluator.mut_context().set_variable("speed", 7);
    assert_eq!(evaluator.eval("SPEED + Speed").unwrap(), 14);
}

#[test]
fn constant_blocks_variable() {
    let mut context = DefaultContext::new_checked();
    context.add_constant("k", 42);
    let err = context.set_variable("k", 1).unwrap_err();
    assert_eq!(err.kind(), ErrorKind::InvalidInput);
    let err = context.set_variable("K", 1).unwrap_err();
    assert_eq!(err.kind(), ErrorKind::InvalidInput);
    assert_eq!(context.get_constant("K"), Some(42));
}

#[test]
fn rpn_length_stays_bounded() {
    let context = DefaultContext::new_checked();
    let exprs = ["Sum(1, 2, 3) * 2 - Max(2, 10/2, 2^3)", "1 + 2 * 3 ^ 4", "Min(Max(1, 2), 3)"];
    for text in exprs {
        let tokens = tokenize(text, &context).unwrap();
        let functions = tokens
            .iter()
            .filter(|t| matches!(t, Token::Function(_)))
            .count();
        let rpn = infix_to_rpn(tokens.as_slice(), &context).unwrap();
        assert!(rpn.len() <= 2 * tokens.len() + functions);
    }
}

#[test]
fn random_stays_in_range() {
    assert_eq!(eval("Random()").unwrap(), 0);
    assert_eq!(eval("Random(1)").unwrap(), 0);
    for _ in 0..20 {
        let v = eval("Random(10)").unwrap();
        assert!((0..10).contains(&v));
        let w = eval("Random(5, 8)").unwrap();
        assert!((5..8).contains(&w));
    }
}

#[test]
fn unchecked_context_wraps() {
    let evaluator = Evaluator::with_context(DefaultContext::new_unchecked());
    assert_eq!(
        evaluator.eval("9223372036854775807 + 1").unwrap(),
        i64::MIN
    );
    assert_eq!(evaluator.eval("2 + 3 * 5").unwrap(), 17);
}

#[test]
fn callable_structs_compute() {
    assert_eq!(Factorial.call(6).unwrap(), 720);
    assert_eq!(PowOperator.call(2, 10).unwrap(), 1024);
    assert_eq!(PowOperator.call(2, -1).unwrap(), 0);
    assert_eq!(MaxFunction.call(&[3, 9, 1]).unwrap(), 9);
    assert_eq!(MinFunction.call(&[3, 9, 1]).unwrap(), 1);
    assert_eq!(
        MaxFunction.call(&[]).unwrap_err().kind(),
        ErrorKind::InvalidArgumentCount
    );
    assert_eq!(LogFunction.call(&[100]).unwrap(), 2);
    assert_eq!(SqrtFunction.call(&[81]).unwrap(), 9);
    assert_eq!(SinFunction.call(&[270]).unwrap(), -1);
    assert_eq!(
        Factorial.call(21).unwrap_err().kind(),
        ErrorKind::Overflow
    );
}

#[test]
fn tokenizer_splits_and_classifies() {
    let context = DefaultContext::new_checked();
    let tokens = tokenize("1 + Max(2, x)", &context).unwrap();
    assert_eq!(
        tokens,
        vec![
            Token::Number(1),
            Token::BinaryOperator("+".to_string()),
            Token::Function("Max".to_string()),
            Token::GroupingOpen('('),
            Token::Number(2),
            Token::Comma,
            Token::Variable("x".to_string()),
            Token::GroupingClose(')'),
        ]
    );
    assert!(tokenize("2.5", &context).is_err());
    assert!(tokenize("99999999999999999999", &context).is_err());

    let rpn = rpn_eval(tokens.as_slice(), &context);
    assert_eq!(rpn.unwrap_err().kind(), ErrorKind::InvalidInput);
}

#[test]
fn command_vocabulary() {
    assert_eq!(CommandInfo::Help.name(), "--help");
    assert_eq!(CommandInfo::Run.alias(), Some("--r"));
    assert_eq!(CommandInfo::Eval.name(), "");
    assert_eq!(CommandInfo::Eval.alias(), None);
    assert_eq!(NumberType::try_from("--d"), Ok(NumberType::Decimal));
    assert_eq!(NumberType::try_from("--complex"), Ok(NumberType::Complex));
    assert_eq!(NumberType::try_from("--x"), Err(()));
    assert_eq!(NumberType::default(), NumberType::Decimal);
}

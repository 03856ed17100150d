//! A verified core of a mathematical expression evaluator.
//!
//! An infix expression string is tokenized into a stream of typed tokens,
//! transformed into Reverse Polish Notation by a shunting-yard pass, and
//! evaluated against a context that resolves identifiers to variables,
//! constants and callables.  The engine works over checked 64-bit integer
//! arithmetic; every stage is specified over a mathematical model of its
//! input and proved against that model.

pub mod commands;
pub mod context;
pub mod error;
pub mod evaluator;
pub mod function;
pub mod ignore_case;
pub mod ops;
pub mod shunting_yard;
pub mod token;
pub mod tokenizer;

use vstd::prelude::*;

verus! {

/// Evaluates the expression with the preloaded checked context.  The
/// result agrees with the evaluation pipeline's specification for some
/// sequence of drawn samples; where the sampler is never invoked, it
/// agrees for every one.
pub fn eval(expression: &str) -> (res: Result<i64, error::Error>)
    ensures
        exists|samples: Seq<i64>|
            error::res_matches(
                res,
                #[trigger] evaluator::spec_eval_str(
                    expression@,
                    context::default_checked_view(),
                    samples,
                ),
            ),
        (match tokenizer::spec_tokenize(expression@, context::default_checked_view()) {
            Ok(ts) => evaluator::sampler_free(ts, context::default_checked_view()),
            Err(k) => true,
        }) ==> error::res_matches(
            res,
            evaluator::spec_eval_str(
                expression@,
                context::default_checked_view(),
                Seq::empty(),
            ),
        ),
{
    let ev = evaluator::Evaluator::new();
    ev.eval(expression)
}

} // verus!

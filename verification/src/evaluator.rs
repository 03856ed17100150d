//! The RPN evaluator and the user-facing `Evaluator`.
//!
//! An infix token sequence is converted to Reverse Polish Notation and
//! walked left to right against a value stack; identifiers are resolved
//! through the context, callables are invoked through the registry.  The
//! one source of nondeterminism is the sampling callable: the evaluation
//! is specified as a deterministic function of the input and of the
//! sequence of drawn samples.

use vstd::prelude::*;

use crate::context::{CtxV, DefaultContext};
use crate::error::{res_matches, Error, ErrorKind};
use crate::function::FuncId;
use crate::ignore_case::fold;
use crate::ops::{call_binary, call_function, call_unary, spec_call_binary, spec_call_function,
    spec_call_unary};
use crate::shunting_yard::{infix_to_rpn as yard_infix_to_rpn, spec_infix_to_rpn};
use crate::token::{views_of, Token, TokenV};
use crate::tokenizer::{spec_tokenize, tokenize};

verus! {

/// Whether the RPN invokes the sampling callable anywhere.
pub open spec fn uses_random(rpn: Seq<TokenV>, ctx: CtxV) -> bool {
    exists|i: int|
        0 <= i < rpn.len() && (#[trigger] rpn[i] matches TokenV::Function(name)
            && ctx.funcs.get(fold(name)) matches Some(e) && e.id == FuncId::Random)
}

/// What the walk over RPN from position `i` produces: the single final
/// value of the stack, or the first failure.  `samples` holds the value
/// drawn at each function invocation, indexed by `si`.
pub open spec fn spec_eval_rpn_from(
    rpn: Seq<TokenV>,
    ctx: CtxV,
    i: int,
    values: Seq<i64>,
    argc: Option<usize>,
    samples: Seq<i64>,
    si: int,
) -> Result<i64, ErrorKind>
    decreases rpn.len() - i,
{
    if i < 0 || i >= rpn.len() {
        if values.len() == 1 {
            Ok(values[0])
        } else {
            Err(ErrorKind::InvalidExpression)
        }
    } else {
        match rpn[i] {
            TokenV::Number(n) => spec_eval_rpn_from(
                rpn,
                ctx,
                i + 1,
                values.push(n),
                argc,
                samples,
                si,
            ),
            TokenV::Variable(name) => match ctx.vars.get(fold(name)) {
                Some(v) => spec_eval_rpn_from(rpn, ctx, i + 1, values.push(v), argc, samples, si),
                None => Err(ErrorKind::InvalidInput),
            },
            TokenV::Constant(name) => match ctx.consts.get(fold(name)) {
                Some(v) => spec_eval_rpn_from(rpn, ctx, i + 1, values.push(v), argc, samples, si),
                None => Err(ErrorKind::InvalidInput),
            },
            TokenV::ArgCount(k) => spec_eval_rpn_from(
                rpn,
                ctx,
                i + 1,
                values,
                Some(k),
                samples,
                si,
            ),
            TokenV::UnaryOperator(name) => match ctx.unops.get(fold(name)) {
                None => Err(ErrorKind::InvalidInput),
                Some(e) => if values.len() == 0 {
                    Err(ErrorKind::InvalidExpression)
                } else {
                    match spec_call_unary(e, values.last()) {
                        Ok(v) => spec_eval_rpn_from(
                            rpn,
                            ctx,
                            i + 1,
                            values.drop_last().push(v),
                            argc,
                            samples,
                            si,
                        ),
                        Err(k) => Err(k),
                    }
                },
            },
            TokenV::BinaryOperator(name) => match ctx.binops.get(fold(name)) {
                None => Err(ErrorKind::InvalidInput),
                Some(e) => if values.len() < 2 {
                    Err(ErrorKind::InvalidExpression)
                } else {
                    let rhs = values.last();
                    let lhs = values.drop_last().last();
                    match spec_call_binary(e, lhs, rhs) {
                        Ok(v) => spec_eval_rpn_from(
                            rpn,
                            ctx,
                            i + 1,
                            values.drop_last().drop_last().push(v),
                            argc,
                            samples,
                            si,
                        ),
                        Err(k) => Err(k),
                    }
                },
            },
            TokenV::Function(name) => match ctx.funcs.get(fold(name)) {
                None => Err(ErrorKind::InvalidInput),
                Some(e) => match argc {
                    None => Err(ErrorKind::InvalidInput),
                    Some(k) => {
                        let m = if k <= values.len() {
                            k as int
                        } else {
                            values.len() as int
                        };
                        let args = values.subrange(values.len() - m, values.len() as int);
                        match spec_call_function(e, args, samples[si]) {
                            Ok(v) => spec_eval_rpn_from(
                                rpn,
                                ctx,
                                i + 1,
                                values.take(values.len() - m).push(v),
                                None,
                                samples,
                                si + 1,
                            ),
                            Err(kind) => Err(kind),
                        }
                    },
                },
            },
            TokenV::GroupingOpen(c) => Err(ErrorKind::InvalidInput),
            TokenV::GroupingClose(c) => Err(ErrorKind::InvalidInput),
            TokenV::Comma => Err(ErrorKind::InvalidInput),
        }
    }
}

/// What the walk over a whole RPN sequence produces.
pub open spec fn spec_eval_rpn(rpn: Seq<TokenV>, ctx: CtxV, samples: Seq<i64>) -> Result<
    i64,
    ErrorKind,
> {
    spec_eval_rpn_from(rpn, ctx, 0, Seq::empty(), None, samples, 0)
}

/// What evaluating an infix token sequence produces: the conversion to
/// RPN followed by the walk.
pub open spec fn spec_rpn_eval(tokens: Seq<TokenV>, ctx: CtxV, samples: Seq<i64>) -> Result<
    i64,
    ErrorKind,
> {
    match spec_infix_to_rpn(tokens, ctx) {
        Err(k) => Err(k),
        Ok(rpn) => spec_eval_rpn(rpn, ctx, samples),
    }
}

/// What evaluating an expression string produces: tokenization, the
/// conversion to RPN and the walk.
pub open spec fn spec_eval_str(s: Seq<char>, ctx: CtxV, samples: Seq<i64>) -> Result<
    i64,
    ErrorKind,
> {
    match spec_tokenize(s, ctx) {
        Err(k) => Err(k),
        Ok(ts) => spec_rpn_eval(ts, ctx, samples),
    }
}

/// Where the sampler is never invoked, the drawn samples cannot matter:
/// the walk returns the same result whatever was drawn.
pub proof fn lemma_eval_rpn_samples_irrelevant(
    rpn: Seq<TokenV>,
    ctx: CtxV,
    i: int,
    values: Seq<i64>,
    argc: Option<usize>,
    s1: Seq<i64>,
    si1: int,
    s2: Seq<i64>,
    si2: int,
)
    requires
        !uses_random(rpn, ctx),
    ensures
        spec_eval_rpn_from(rpn, ctx, i, values, argc, s1, si1) == spec_eval_rpn_from(
            rpn,
            ctx,
            i,
            values,
            argc,
            s2,
            si2,
        ),
    decreases rpn.len() - i,
{
    if 0 <= i < rpn.len() {
        match rpn[i] {
            TokenV::Number(n) => {
                lemma_eval_rpn_samples_irrelevant(
                    rpn,
                    ctx,
                    i + 1,
                    values.push(n),
                    argc,
                    s1,
                    si1,
                    s2,
                    si2,
                );
            },
            TokenV::Variable(name) => {
                match ctx.vars.get(fold(name)) {
                    Some(v) => {
                        lemma_eval_rpn_samples_irrelevant(
                            rpn,
                            ctx,
                            i + 1,
                            values.push(v),
                            argc,
                            s1,
                            si1,
                            s2,
                            si2,
                        );
                    },
                    None => {},
                }
            },
            TokenV::Constant(name) => {
                match ctx.consts.get(fold(name)) {
                    Some(v) => {
                        lemma_eval_rpn_samples_irrelevant(
                            rpn,
                            ctx,
                            i + 1,
                            values.push(v),
                            argc,
                            s1,
                            si1,
                            s2,
                            si2,
                        );
                    },
                    None => {},
                }
            },
            TokenV::ArgCount(k) => {
                lemma_eval_rpn_samples_irrelevant(
                    rpn,
                    ctx,
                    i + 1,
                    values,
                    Some(k),
                    s1,
                    si1,
                    s2,
                    si2,
                );
            },
            TokenV::UnaryOperator(name) => {
                match ctx.unops.get(fold(name)) {
                    None => {},
                    Some(e) => {
                        if values.len() > 0 {
                            match spec_call_unary(e, values.last()) {
                                Ok(v) => {
                                    lemma_eval_rpn_samples_irrelevant(
                                        rpn,
                                        ctx,
                                        i + 1,
                                        values.drop_last().push(v),
                                        argc,
                                        s1,
                                        si1,
                                        s2,
                                        si2,
                                    );
                                },
                                Err(k) => {},
                            }
                        }
                    },
                }
            },
            TokenV::BinaryOperator(name) => {
                match ctx.binops.get(fold(name)) {
                    None => {},
                    Some(e) => {
                        if values.len() >= 2 {
                            let rhs = values.last();
                            let lhs = values.drop_last().last();
                            match spec_call_binary(e, lhs, rhs) {
                                Ok(v) => {
                                    lemma_eval_rpn_samples_irrelevant(
                                        rpn,
                                        ctx,
                                        i + 1,
                                        values.drop_last().drop_last().push(v),
                                        argc,
                                        s1,
                                        si1,
                                        s2,
                                        si2,
                                    );
                                },
                                Err(k) => {},
                            }
                        }
                    },
                }
            },
            TokenV::Function(name) => {
                match ctx.funcs.get(fold(name)) {
                    None => {},
                    Some(e) => {
                        assert(e.id != FuncId::Random);
                        match argc {
                            None => {},
                            Some(k) => {
                                let m = if k <= values.len() {
                                    k as int
                                } else {
                                    values.len() as int
                                };
                                let args = values.subrange(
                                    values.len() - m,
                                    values.len() as int,
                                );
                                assert(spec_call_function(e, args, s1[si1])
                                    == spec_call_function(e, args, s2[si2]));
                                match spec_call_function(e, args, s1[si1]) {
                                    Ok(v) => {
                                        lemma_eval_rpn_samples_irrelevant(
                                            rpn,
                                            ctx,
                                            i + 1,
                                            values.take(values.len() - m).push(v),
                                            None,
                                            s1,
                                            si1 + 1,
                                            s2,
                                            si2 + 1,
                                        );
                                    },
                                    Err(kind) => {},
                                }
                            },
                        }
                    },
                }
            },
            TokenV::GroupingOpen(c) => {},
            TokenV::GroupingClose(c) => {},
            TokenV::Comma => {},
        }
    }
}

/// Walks an RPN token sequence against the context.  The result agrees
/// with the specification for some sequence of drawn samples; where the
/// sampler is never invoked, it agrees for every one.
#[verifier::rlimit(60)]
fn eval_rpn(rpn: &Vec<Token>, context: &DefaultContext) -> (res: Result<i64, Error>)
    ensures
        exists|samples: Seq<i64>|
            res_matches(res, #[trigger] spec_eval_rpn(views_of(rpn@), context@, samples)),
        !uses_random(views_of(rpn@), context@) ==> res_matches(
            res,
            spec_eval_rpn(views_of(rpn@), context@, Seq::empty()),
        ),
{
    let ghost ts = views_of(rpn@);
    let ghost ctx = context@;
    let n = rpn.len();
    let mut values: Vec<i64> = Vec::new();
    let mut arg_count: Option<usize> = None;
    let ghost mut drawn: Seq<i64> = Seq::empty();
    let mut i: usize = 0;
    proof {
        assert(values@ =~= Seq::<i64>::empty());
    }
    while i < n
        invariant
            i <= n,
            n == rpn@.len(),
            ts == views_of(rpn@),
            ctx == context@,
            forall|rest: Seq<i64>|
                spec_eval_rpn(ts, ctx, drawn + rest) == #[trigger] spec_eval_rpn_from(
                    ts,
                    ctx,
                    i as int,
                    values@,
                    arg_count,
                    drawn + rest,
                    drawn.len() as int,
                ),
        decreases n - i,
    {
        let ghost values0 = values@;
        let ghost argc0 = arg_count;
        let ghost drawn0 = drawn;
        let token = &rpn[i];
        proof {
            assert(token@ == ts[i as int]);
        }
        match token {
            Token::Number(v) => {
                values.push(*v);
            },
            Token::Variable(name) => {
                match context.get_variable(name.as_str()) {
                    Some(v) => {
                        values.push(v);
                    },
                    None => {
                        proof {
                            lemma_err_exit(ts, ctx, i as int, values0, argc0, drawn);
                        }
                        return Err(Error::new(ErrorKind::InvalidInput, "variable not found"));
                    },
                }
            },
            Token::Constant(name) => {
                match context.get_constant(name.as_str()) {
                    Some(v) => {
                        values.push(v);
                    },
                    None => {
                        proof {
                            lemma_err_exit(ts, ctx, i as int, values0, argc0, drawn);
                        }
                        return Err(Error::new(ErrorKind::InvalidInput, "constant not found"));
                    },
                }
            },
            Token::ArgCount(k) => {
                arg_count = Some(*k);
            },
            Token::UnaryOperator(name) => {
                match context.get_unary_function(name.as_str()) {
                    None => {
                        proof {
                            lemma_err_exit(ts, ctx, i as int, values0, argc0, drawn);
                        }
                        return Err(Error::new(ErrorKind::InvalidInput, "unary operator not found"));
                    },
                    Some(e) => {
                        if values.len() == 0 {
                            proof {
                                lemma_err_exit(ts, ctx, i as int, values0, argc0, drawn);
                            }
                            return Err(
                                Error::new(ErrorKind::InvalidExpression, "missing operand"),
                            );
                        }
                        let x = match values.pop() {
                            Some(v) => v,
                            None => 0,
                        };
                        match call_unary(e, x) {
                            Ok(v) => {
                                values.push(v);
                            },
                            Err(err) => {
                                proof {
                                    lemma_err_exit(ts, ctx, i as int, values0, argc0, drawn);
                                }
                                return Err(err);
                            },
                        }
                    },
                }
            },
            Token::BinaryOperator(name) => {
                match context.get_binary_function(name.as_str()) {
                    None => {
                        proof {
                            lemma_err_exit(ts, ctx, i as int, values0, argc0, drawn);
                        }
                        return Err(
                            Error::new(ErrorKind::InvalidInput, "binary operator not found"),
                        );
                    },
                    Some(e) => {
                        if values.len() < 2 {
                            proof {
                                lemma_err_exit(ts, ctx, i as int, values0, argc0, drawn);
                            }
                            return Err(
                                Error::new(ErrorKind::InvalidExpression, "missing operands"),
                            );
                        }
                        let rhs = match values.pop() {
                            Some(v) => v,
                            None => 0,
                        };
                        let lhs = match values.pop() {
                            Some(v) => v,
                            None => 0,
                        };
                        match call_binary(e, lhs, rhs) {
                            Ok(v) => {
                                values.push(v);
                                proof {
                                    assert(values@ =~= values0.drop_last().drop_last().push(v));
                                }
                            },
                            Err(err) => {
                                proof {
                                    lemma_err_exit(ts, ctx, i as int, values0, argc0, drawn);
                                }
                                return Err(err);
                            },
                        }
                    },
                }
            },
            Token::Function(name) => {
                match context.get_function(name.as_str()) {
                    None => {
                        proof {
                            lemma_err_exit(ts, ctx, i as int, values0, argc0, drawn);
                        }
                        return Err(Error::new(ErrorKind::InvalidInput, "function not found"));
                    },
                    Some(e) => {
                        let k = match arg_count {
                            Some(k) => k,
                            None => {
                                proof {
                                    lemma_err_exit(ts, ctx, i as int, values0, argc0, drawn);
                                }
                                return Err(
                                    Error::new(
                                        ErrorKind::InvalidInput,
                                        "unknown number of arguments",
                                    ),
                                );
                            },
                        };
                        let m = if k <= values.len() {
                            k
                        } else {
                            values.len()
                        };
                        let start = values.len() - m;
                        let mut args: Vec<i64> = Vec::new();
                        let mut idx = start;
                        while idx < values.len()
                            invariant
                                start <= idx <= values@.len(),
                                values@ == values0,
                                start + m == values0.len(),
                                args@ == values0.subrange(start as int, idx as int),
                            decreases values@.len() - idx,
                        {
                            let ghost args0 = args@;
                            args.push(values[idx]);
                            proof {
                                assert(args@ =~= values0.subrange(start as int, idx + 1));
                            }
                            idx = idx + 1;
                        }
                        values.truncate(start);
                        proof {
                            assert(values@ =~= values0.take(start as int));
                        }
                        match call_function(e, args.as_slice()) {
                            Ok(v) => {
                                values.push(v);
                                arg_count = None;
                                proof {
                                    let s = choose|s: i64|
                                        res_matches(
                                            Ok::<i64, Error>(v),
                                            #[trigger] spec_call_function(e, args@, s),
                                        );
                                    let ghost drawn0 = drawn;
                                    drawn = drawn.push(s);
                                    assert forall|rest: Seq<i64>|
                                        spec_eval_rpn(ts, ctx, drawn + rest)
                                            == #[trigger] spec_eval_rpn_from(
                                            ts,
                                            ctx,
                                            i + 1,
                                            values@,
                                            arg_count,
                                            drawn + rest,
                                            drawn.len() as int,
                                        ) by {
                                        assert(drawn + rest =~= drawn0 + (seq![s] + rest));
                                        assert(spec_eval_rpn(ts, ctx, drawn0 + (seq![s] + rest))
                                            == spec_eval_rpn_from(
                                            ts,
                                            ctx,
                                            i as int,
                                            values0,
                                            argc0,
                                            drawn0 + (seq![s] + rest),
                                            drawn0.len() as int,
                                        ));
                                        assert((drawn0 + (seq![s] + rest))[drawn0.len() as int]
                                            == s);
                                    }
                                }
                            },
                            Err(err) => {
                                proof {
                                    let s = choose|s: i64|
                                        res_matches(
                                            Err::<i64, Error>(err),
                                            #[trigger] spec_call_function(e, args@, s),
                                        );
                                    assert(spec_eval_rpn(ts, ctx, drawn) == spec_eval_rpn_from(
                                        ts,
                                        ctx,
                                        i as int,
                                        values0,
                                        argc0,
                                        drawn + Seq::<i64>::empty(),
                                        drawn.len() as int,
                                    )) by {
                                        assert(drawn + Seq::<i64>::empty() =~= drawn);
                                    }
                                    assert(spec_call_function(e, args@, s) matches Err(kk)
                                        && err.spec_kind() == kk);
                                    assert(spec_call_function(
                                        e,
                                        args@,
                                        (drawn + Seq::<i64>::empty())[drawn.len() as int],
                                    ) == spec_call_function(e, args@, s));
                                    if !uses_random(ts, ctx) {
                                        lemma_eval_rpn_samples_irrelevant(
                                            ts,
                                            ctx,
                                            0,
                                            Seq::empty(),
                                            None,
                                            Seq::empty(),
                                            0,
                                            drawn,
                                            0,
                                        );
                                    }
                                }
                                return Err(err);
                            },
                        }
                    },
                }
            },
            Token::GroupingOpen(c) => {
                proof {
                    lemma_err_exit(ts, ctx, i as int, values0, argc0, drawn);
                }
                return Err(Error::new(ErrorKind::InvalidInput, "unexpected token"));
            },
            Token::GroupingClose(c) => {
                proof {
                    lemma_err_exit(ts, ctx, i as int, values0, argc0, drawn);
                }
                return Err(Error::new(ErrorKind::InvalidInput, "unexpected token"));
            },
            Token::Comma => {
                proof {
                    lemma_err_exit(ts, ctx, i as int, values0, argc0, drawn);
                }
                return Err(Error::new(ErrorKind::InvalidInput, "unexpected token"));
            },
        }
        proof {
            assert forall|rest: Seq<i64>|
                spec_eval_rpn(ts, ctx, drawn + rest) == #[trigger] spec_eval_rpn_from(
                    ts,
                    ctx,
                    i + 1,
                    values@,
                    arg_count,
                    drawn + rest,
                    drawn.len() as int,
                ) by {
                assert(spec_eval_rpn(ts, ctx, drawn0 + rest) == spec_eval_rpn_from(
                    ts,
                    ctx,
                    i as int,
                    values0,
                    argc0,
                    drawn0 + rest,
                    drawn0.len() as int,
                ));
            }
        }
        i = i + 1;
    }
    proof {
        assert(spec_eval_rpn(ts, ctx, drawn) == spec_eval_rpn_from(
            ts,
            ctx,
            n as int,
            values@,
            arg_count,
            drawn + Seq::<i64>::empty(),
            drawn.len() as int,
        )) by {
            assert(drawn + Seq::<i64>::empty() =~= drawn);
        }
    }
    if values.len() == 1 {
        let v = values[0];
        proof {
            lemma_final(ts, ctx, drawn, Ok::<i64, Error>(v));
        }
        Ok(v)
    } else {
        let e = Error::of_kind(ErrorKind::InvalidExpression);
        proof {
            lemma_final(ts, ctx, drawn, Err::<i64, Error>(e));
        }
        Err(e)
    }
}

/// The drawn-samples witness also covers the sampler-free statement.
proof fn lemma_final(ts: Seq<TokenV>, ctx: CtxV, drawn: Seq<i64>, res: Result<i64, Error>)
    requires
        res_matches(res, spec_eval_rpn(ts, ctx, drawn)),
    ensures
        exists|samples: Seq<i64>| res_matches(res, #[trigger] spec_eval_rpn(ts, ctx, samples)),
        !uses_random(ts, ctx) ==> res_matches(res, spec_eval_rpn(ts, ctx, Seq::empty())),
{
    assert(res_matches(res, spec_eval_rpn(ts, ctx, drawn)));
    if !uses_random(ts, ctx) {
        lemma_eval_rpn_samples_irrelevant(
            ts,
            ctx,
            0,
            Seq::empty(),
            None,
            drawn,
            0,
            Seq::empty(),
            0,
        );
    }
}

/// A failing step fails the whole walk, whatever samples follow.
proof fn lemma_err_exit(
    ts: Seq<TokenV>,
    ctx: CtxV,
    i: int,
    values: Seq<i64>,
    argc: Option<usize>,
    drawn: Seq<i64>,
)
    requires
        forall|rest: Seq<i64>|
            spec_eval_rpn(ts, ctx, drawn + rest) == #[trigger] spec_eval_rpn_from(
                ts,
                ctx,
                i,
                values,
                argc,
                drawn + rest,
                drawn.len() as int,
            ),
    ensures
        spec_eval_rpn(ts, ctx, drawn) == spec_eval_rpn_from(
            ts,
            ctx,
            i,
            values,
            argc,
            drawn,
            drawn.len() as int,
        ),
        !uses_random(ts, ctx) ==> spec_eval_rpn(ts, ctx, Seq::empty()) == spec_eval_rpn(
            ts,
            ctx,
            drawn,
        ),
{
    if !uses_random(ts, ctx) {
        lemma_eval_rpn_samples_irrelevant(
            ts,
            ctx,
            0,
            Seq::empty(),
            None,
            Seq::empty(),
            0,
            drawn,
            0,
        );
    }
    assert(drawn + Seq::<i64>::empty() =~= drawn);
    assert(spec_eval_rpn(ts, ctx, drawn + Seq::<i64>::empty()) == spec_eval_rpn_from(
        ts,
        ctx,
        i,
        values,
        argc,
        drawn + Seq::<i64>::empty(),
        drawn.len() as int,
    ));
}


/// Whether no evaluation path of the expression can reach the sampler.
pub open spec fn sampler_free(tokens: Seq<TokenV>, ctx: CtxV) -> bool {
    match spec_infix_to_rpn(tokens, ctx) {
        Ok(rpn) => !uses_random(rpn, ctx),
        Err(k) => true,
    }
}

/// Converts an infix token sequence to Reverse Polish Notation and
/// evaluates it against the context.  The result agrees with the
/// specification for some sequence of drawn samples; where the sampler is
/// never invoked, it agrees for every one.
pub fn rpn_eval(tokens: &[Token], context: &DefaultContext) -> (res: Result<i64, Error>)
    ensures
        exists|samples: Seq<i64>|
            res_matches(res, #[trigger] spec_rpn_eval(views_of(tokens@), context@, samples)),
        sampler_free(views_of(tokens@), context@) ==> res_matches(
            res,
            spec_rpn_eval(views_of(tokens@), context@, Seq::empty()),
        ),
{
    let ghost ts = views_of(tokens@);
    let ghost ctx = context@;
    match yard_infix_to_rpn(tokens, context) {
        Err(e) => {
            proof {
                assert(res_matches(Err::<i64, Error>(e), spec_rpn_eval(ts, ctx, Seq::empty())));
            }
            Err(e)
        },
        Ok(rpn) => {
            let r = eval_rpn(&rpn, context);
            proof {
                let s = choose|s: Seq<i64>|
                    res_matches(r, #[trigger] spec_eval_rpn(views_of(rpn@), ctx, s));
                assert(res_matches(r, spec_rpn_eval(ts, ctx, s)));
            }
            r
        },
    }
}

/// Converts an infix token sequence to Reverse Polish Notation.
#[inline(always)]
pub fn infix_to_rpn(tokens: &[Token], context: &DefaultContext) -> (res: Result<Vec<Token>, Error>)
    ensures
        crate::shunting_yard::rpn_res_matches(
            res,
            spec_infix_to_rpn(views_of(tokens@), context@),
        ),
{
    yard_infix_to_rpn(tokens, context)
}

/// A trait for evaluating an expression given as tokens.
pub trait Evaluate {
    /// The result of the evaluation.
    type Output;

    /// Evaluates the expression provided as tokens.
    fn eval_tokens(&self, tokens: &[Token]) -> Self::Output;
}

/// An evaluator: a context together with the pipeline from expression
/// strings to values.
pub struct Evaluator {
    context: DefaultContext,
}

impl View for Evaluator {
    type V = CtxV;

    closed spec fn view(&self) -> CtxV {
        self.context@
    }
}

impl Evaluator {
    /// Constructs an evaluator over the preloaded checked context.
    pub fn new() -> (r: Evaluator)
        ensures
            r@ == crate::context::default_checked_view(),
    {
        let context = DefaultContext::new_checked();
        proof {
            assert(context@ =~= crate::context::default_checked_view());
        }
        Evaluator { context }
    }

    /// Constructs an evaluator over the given context.
    pub fn with_context(context: DefaultContext) -> (r: Evaluator)
        ensures
            r@ == context@,
    {
        Evaluator { context }
    }

    /// The context used by this evaluator.
    pub fn context(&self) -> (r: &DefaultContext)
        ensures
            r@ == self@,
    {
        &self.context
    }

    /// The context used by this evaluator, for mutation between
    /// evaluations.
    pub fn mut_context(&mut self) -> (r: &mut DefaultContext)
        ensures
            r@ == old(self)@,
            final (self)@ == final (r)@,
    {
        &mut self.context
    }

    /// Evaluates an expression string: tokenization, conversion to RPN
    /// and the walk over the result.  The result agrees with the
    /// specification for some sequence of drawn samples; where the
    /// sampler is never invoked, it agrees for every one.
    pub fn eval(&self, expression: &str) -> (res: Result<i64, Error>)
        ensures
            exists|samples: Seq<i64>|
                res_matches(res, #[trigger] spec_eval_str(expression@, self@, samples)),
            (match spec_tokenize(expression@, self@) {
                Ok(ts) => sampler_free(ts, self@),
                Err(k) => true,
            }) ==> res_matches(res, spec_eval_str(expression@, self@, Seq::empty())),
    {
        let ghost ctx = self@;
        match tokenize(expression, &self.context) {
            Err(e) => {
                proof {
                    assert(res_matches(
                        Err::<i64, Error>(e),
                        spec_eval_str(expression@, ctx, Seq::empty()),
                    ));
                }
                Err(e)
            },
            Ok(ts) => {
                let r = rpn_eval(ts.as_slice(), &self.context);
                proof {
                    let s = choose|s: Seq<i64>|
                        res_matches(r, #[trigger] spec_rpn_eval(views_of(ts@), ctx, s));
                    assert(res_matches(r, spec_eval_str(expression@, ctx, s)));
                }
                r
            },
        }
    }
}

impl Evaluator {
    /// Evaluates an expression provided as infix tokens: the conversion
    /// to RPN and the walk over the result.
    pub fn eval_tokens(&self, tokens: &[Token]) -> (res: Result<i64, Error>)
        ensures
            exists|samples: Seq<i64>|
                res_matches(res, #[trigger] spec_rpn_eval(views_of(tokens@), self@, samples)),
            sampler_free(views_of(tokens@), self@) ==> res_matches(
                res,
                spec_rpn_eval(views_of(tokens@), self@, Seq::empty()),
            ),
    {
        rpn_eval(tokens, &self.context)
    }
}

impl Evaluate for Evaluator {
    type Output = Result<i64, Error>;

    /// Evaluates the expression provided as infix tokens.
    fn eval_tokens(&self, tokens: &[Token]) -> Self::Output {
        rpn_eval(tokens, &self.context)
    }
}


/// The round trip on a two-operator chain `a op1 b op2 c`: converting to
/// RPN and walking it computes exactly what the direct reading under
/// precedence and associativity computes — the tighter-binding side is
/// evaluated first and its result fed to the other operator, with errors
/// propagating in evaluation order.
#[verifier::rlimit(60)]
pub proof fn lemma_round_trip_two_ops(
    ctx: CtxV,
    a: i64,
    b: i64,
    c: i64,
    op1: Seq<char>,
    op2: Seq<char>,
    samples: Seq<i64>,
)
    requires
        ctx.binops.get(fold(op1)) is Some,
        ctx.binops.get(fold(op2)) is Some,
    ensures
        ({
            let e1 = ctx.binops.get(fold(op1)).unwrap();
            let e2 = ctx.binops.get(fold(op2)).unwrap();
            let toks = seq![
                TokenV::Number(a),
                TokenV::BinaryOperator(op1),
                TokenV::Number(b),
                TokenV::BinaryOperator(op2),
                TokenV::Number(c),
            ];
            let left_first = e1.precedence.spec_rank() > e2.precedence.spec_rank() || (
            e1.precedence.spec_rank() == e2.precedence.spec_rank() && e1.associativity
                == crate::function::Associativity::Left);
            &&& left_first ==> spec_rpn_eval(toks, ctx, samples) == (match spec_call_binary(
                e1,
                a,
                b,
            ) {
                Ok(v1) => spec_call_binary(e2, v1, c),
                Err(k) => Err(k),
            })
            &&& !left_first ==> spec_rpn_eval(toks, ctx, samples) == (match spec_call_binary(
                e2,
                b,
                c,
            ) {
                Ok(v2) => spec_call_binary(e1, a, v2),
                Err(k) => Err(k),
            })
        }),
{
    let e1 = ctx.binops.get(fold(op1)).unwrap();
    let e2 = ctx.binops.get(fold(op2)).unwrap();
    let toks = seq![
        TokenV::Number(a),
        TokenV::BinaryOperator(op1),
        TokenV::Number(b),
        TokenV::BinaryOperator(op2),
        TokenV::Number(c),
    ];
    crate::shunting_yard::lemma_precedence_correctness(ctx, a, b, c, op1, op2);
    let left_first = e1.precedence.spec_rank() > e2.precedence.spec_rank() || (
    e1.precedence.spec_rank() == e2.precedence.spec_rank() && e1.associativity
        == crate::function::Associativity::Left);
    if left_first {
        let rpn = seq![
            TokenV::Number(a),
            TokenV::Number(b),
            TokenV::BinaryOperator(op1),
            TokenV::Number(c),
            TokenV::BinaryOperator(op2),
        ];
        assert(spec_infix_to_rpn(toks, ctx) == Ok::<Seq<TokenV>, ErrorKind>(rpn));
        let v0 = Seq::<i64>::empty();
        let v1 = v0.push(a);
        let v2 = v1.push(b);
        assert(spec_eval_rpn(rpn, ctx, samples) == spec_eval_rpn_from(
            rpn,
            ctx,
            1,
            v1,
            None,
            samples,
            0,
        ));
        assert(spec_eval_rpn_from(rpn, ctx, 1, v1, None, samples, 0) == spec_eval_rpn_from(
            rpn,
            ctx,
            2,
            v2,
            None,
            samples,
            0,
        ));
        assert(v2.last() == b && v2.drop_last().last() == a);
        match spec_call_binary(e1, a, b) {
            Ok(w1) => {
                let v3 = v2.drop_last().drop_last().push(w1);
                assert(v3 =~= v0.push(w1));
                assert(spec_eval_rpn_from(rpn, ctx, 2, v2, None, samples, 0)
                    == spec_eval_rpn_from(rpn, ctx, 3, v3, None, samples, 0));
                let v4 = v3.push(c);
                assert(spec_eval_rpn_from(rpn, ctx, 3, v3, None, samples, 0)
                    == spec_eval_rpn_from(rpn, ctx, 4, v4, None, samples, 0));
                assert(v4.last() == c && v4.drop_last().last() == w1);
                match spec_call_binary(e2, w1, c) {
                    Ok(w2) => {
                        let v5 = v4.drop_last().drop_last().push(w2);
                        assert(v5 =~= Seq::<i64>::empty().push(w2));
                        assert(spec_eval_rpn_from(rpn, ctx, 4, v4, None, samples, 0)
                            == spec_eval_rpn_from(rpn, ctx, 5, v5, None, samples, 0));
                        assert(v5.len() == 1 && v5[0] == w2);
                    },
                    Err(k) => {},
                }
            },
            Err(k) => {},
        }
    } else {
        let rpn = seq![
            TokenV::Number(a),
            TokenV::Number(b),
            TokenV::Number(c),
            TokenV::BinaryOperator(op2),
            TokenV::BinaryOperator(op1),
        ];
        assert(spec_infix_to_rpn(toks, ctx) == Ok::<Seq<TokenV>, ErrorKind>(rpn));
        let v0 = Seq::<i64>::empty();
        let v1 = v0.push(a);
        let v2 = v1.push(b);
        let v3 = v2.push(c);
        assert(spec_eval_rpn(rpn, ctx, samples) == spec_eval_rpn_from(
            rpn,
            ctx,
            1,
            v1,
            None,
            samples,
            0,
        ));
        assert(spec_eval_rpn_from(rpn, ctx, 1, v1, None, samples, 0) == spec_eval_rpn_from(
            rpn,
            ctx,
            2,
            v2,
            None,
            samples,
            0,
        ));
        assert(spec_eval_rpn_from(rpn, ctx, 2, v2, None, samples, 0) == spec_eval_rpn_from(
            rpn,
            ctx,
            3,
            v3,
            None,
            samples,
            0,
        ));
        assert(v3.last() == c && v3.drop_last().last() == b);
        match spec_call_binary(e2, b, c) {
            Ok(w2) => {
                let v4 = v3.drop_last().drop_last().push(w2);
                assert(v4 =~= v1.push(w2));
                assert(spec_eval_rpn_from(rpn, ctx, 3, v3, None, samples, 0)
                    == spec_eval_rpn_from(rpn, ctx, 4, v4, None, samples, 0));
                assert(v4.last() == w2 && v4.drop_last().last() == a);
                match spec_call_binary(e1, a, w2) {
                    Ok(w1) => {
                        let v5 = v4.drop_last().drop_last().push(w1);
                        assert(v5 =~= Seq::<i64>::empty().push(w1));
                        assert(spec_eval_rpn_from(rpn, ctx, 4, v4, None, samples, 0)
                            == spec_eval_rpn_from(rpn, ctx, 5, v5, None, samples, 0));
                        assert(v5.len() == 1 && v5[0] == w1);
                    },
                    Err(k) => {},
                }
            },
            Err(k) => {},
        }
    }
}

} // verus!

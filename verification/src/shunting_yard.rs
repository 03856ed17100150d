//! The shunting-yard pass: an infix token sequence becomes Reverse Polish
//! Notation.
//!
//! The pass keeps an output sequence, a stack of pending operators, a
//! stack of per-function argument counters and a stack of positions of
//! grouping-opens inside function calls.  Argument counts are injected
//! into the output in front of each function, grouping is validated, and
//! an optional multiplication is injected between adjacent producer and
//! consumer tokens.

use vstd::prelude::*;

use crate::context::{group_for, open_for, CtxV, DefaultContext, GroupingSymbol};
use crate::error::{Error, ErrorKind};
use crate::function::{Associativity, BinaryEntry, Notation};
use crate::ignore_case::fold;
use crate::token::{views_of, Token, TokenV};

verus! {

/// The working state of the pass.
#[verifier::ext_equal]
pub struct YardState {
    /// The RPN produced so far.
    pub output: Seq<TokenV>,
    /// Operators, functions and grouping-opens awaiting their place.
    pub operators: Seq<TokenV>,
    /// One argument counter per function whose call is being read.
    pub arg_count: Seq<usize>,
    /// The positions of grouping-opens read inside function calls.
    pub grouping_count: Seq<usize>,
}

/// The empty initial state.
pub open spec fn yard_init() -> YardState {
    YardState {
        output: Seq::empty(),
        operators: Seq::empty(),
        arg_count: Seq::empty(),
        grouping_count: Seq::empty(),
    }
}

/// An atom goes to the output; a known unary operator waiting on top of
/// the stack takes its operand and follows it immediately.
pub open spec fn spec_push_number(ctx: CtxV, st: YardState, t: TokenV) -> YardState {
    let pushed = YardState { output: st.output.push(t), ..st };
    if pushed.operators.len() > 0 {
        match pushed.operators.last() {
            TokenV::UnaryOperator(op) => if ctx.unops.contains_key(fold(op)) {
                YardState {
                    output: pushed.output.push(pushed.operators.last()),
                    operators: pushed.operators.drop_last(),
                    ..pushed
                }
            } else {
                pushed
            },
            _ => pushed,
        }
    } else {
        pushed
    }
}

/// Pops pending operators that outrank the incoming binary operator:
/// functions always leave, binary operators leave while their precedence
/// is higher, or equal with left associativity; a grouping-open stops the
/// popping.
pub open spec fn spec_bin_pop(ctx: CtxV, entry: BinaryEntry, output: Seq<TokenV>, operators: Seq<
    TokenV,
>) -> (Seq<TokenV>, Seq<TokenV>)
    decreases operators.len(),
{
    if operators.len() == 0 {
        (output, operators)
    } else {
        match operators.last() {
            TokenV::GroupingOpen(c) => (output, operators),
            TokenV::Function(f) => spec_bin_pop(
                ctx,
                entry,
                output.push(operators.last()),
                operators.drop_last(),
            ),
            TokenV::BinaryOperator(op) => match ctx.binops.get(fold(op)) {
                Some(top) => if top.precedence.spec_rank() > entry.precedence.spec_rank() || (
                top.precedence.spec_rank() == entry.precedence.spec_rank() && top.associativity
                    == Associativity::Left) {
                    spec_bin_pop(ctx, entry, output.push(operators.last()), operators.drop_last())
                } else {
                    (output, operators)
                },
                None => (output, operators),
            },
            _ => (output, operators),
        }
    }
}

/// A binary operator pops what outranks it and joins the pending stack;
/// an unregistered symbol is rejected.
pub open spec fn spec_push_binary(ctx: CtxV, st: YardState, t: TokenV, name: Seq<char>) -> Result<
    YardState,
    ErrorKind,
> {
    match ctx.binops.get(fold(name)) {
        None => Err(ErrorKind::InvalidInput),
        Some(entry) => {
            let (output, operators) = spec_bin_pop(ctx, entry, st.output, st.operators);
            Ok(YardState { output, operators: operators.push(t), ..st })
        },
    }
}

/// A prefix unary operator waits on the stack; a postfix one follows the
/// output, which must not be empty.  An unregistered symbol is rejected.
pub open spec fn spec_push_unary(ctx: CtxV, st: YardState, t: TokenV, name: Seq<char>) -> Result<
    YardState,
    ErrorKind,
> {
    match ctx.unops.get(fold(name)) {
        None => Err(ErrorKind::InvalidInput),
        Some(entry) => if entry.notation == Notation::Prefix {
            Ok(YardState { operators: st.operators.push(t), ..st })
        } else if st.output.len() > 0 {
            Ok(YardState { output: st.output.push(t), ..st })
        } else {
            Err(ErrorKind::InvalidExpression)
        },
    }
}

/// Pops pending tokens to the output until the grouping-open that pairs
/// with `c`; on finding it, a function directly beneath receives its
/// argument count and follows into the output.  A missing or mismatched
/// open is rejected.
pub open spec fn spec_close_pop(ctx: CtxV, c: char, output: Seq<TokenV>, operators: Seq<TokenV>, arg_count: Seq<
    usize,
>) -> Result<(Seq<TokenV>, Seq<TokenV>, Seq<usize>), ErrorKind>
    decreases operators.len(),
{
    if operators.len() == 0 {
        Err(ErrorKind::InvalidExpression)
    } else {
        match operators.last() {
            TokenV::GroupingOpen(o) => {
                let matched = match group_for(ctx.grouping, o) {
                    Some(g) => g.group_close == c,
                    None => false,
                };
                if matched {
                    let rest = operators.drop_last();
                    if arg_count.len() > 0 && rest.len() > 0 && rest.last() is Function {
                        Ok(
                            (
                                output.push(
                                    TokenV::ArgCount(((arg_count.last() + 1) as usize)),
                                ).push(rest.last()),
                                rest.drop_last(),
                                arg_count.drop_last(),
                            ),
                        )
                    } else {
                        Ok((output, rest, arg_count))
                    }
                } else {
                    Err(ErrorKind::InvalidExpression)
                }
            },
            _ => spec_close_pop(
                ctx,
                c,
                output.push(operators.last()),
                operators.drop_last(),
                arg_count,
            ),
        }
    }
}

/// Closing a grouping keeps the argument counters or retires the
/// innermost one.
proof fn lemma_close_pop_args(ctx: CtxV, c: char, output: Seq<TokenV>, operators: Seq<TokenV>, arg_count: Seq<
    usize,
>)
    ensures
        spec_close_pop(ctx, c, output, operators, arg_count) matches Ok(t) ==> t.2 == arg_count
            || (arg_count.len() > 0 && t.2 == arg_count.drop_last()),
    decreases operators.len(),
{
    if operators.len() > 0 {
        match operators.last() {
            TokenV::GroupingOpen(o) => {},
            _ => {
                lemma_close_pop_args(
                    ctx,
                    c,
                    output.push(operators.last()),
                    operators.drop_last(),
                    arg_count,
                );
            },
        }
    }
}

/// Validates the position of a comma: not first, not right after a
/// grouping-open, not right before a grouping-close, and the innermost
/// recorded grouping must have been opened by a function call.
pub open spec fn spec_comma_position_ok(tokens: Seq<TokenV>, grouping_count: Seq<usize>, i: int,) -> bool {
    &&& i != 0
    &&& !(0 <= i - 1 < tokens.len() && tokens[i - 1].is_grouping_open())
    &&& !(0 <= i + 1 < tokens.len() && tokens[i + 1].is_grouping_close())
    &&& (grouping_count.len() > 0 ==> {
        let g = grouping_count.last() as int;
        &&& 1 <= g
        &&& g - 1 < tokens.len()
        &&& tokens[g - 1].is_function()
    })
}

/// Pops pending operators to the output until a grouping-open tops the
/// stack; a comma outside grouping is rejected.
pub open spec fn spec_comma_pop(output: Seq<TokenV>, operators: Seq<TokenV>) -> Result<
    (Seq<TokenV>, Seq<TokenV>),
    ErrorKind,
>
    decreases operators.len(),
{
    if operators.len() == 0 {
        Err(ErrorKind::InvalidExpression)
    } else if operators.last() is GroupingOpen {
        Ok((output, operators))
    } else {
        spec_comma_pop(output.push(operators.last()), operators.drop_last())
    }
}

/// A comma counts an argument of the innermost function and flushes the
/// pending operators of the argument just read.
pub open spec fn spec_push_comma(st: YardState) -> Result<YardState, ErrorKind> {
    if st.arg_count.len() == 0 {
        Err(ErrorKind::InvalidExpression)
    } else {
        let bumped = st.arg_count.update(
            st.arg_count.len() - 1,
            ((st.arg_count.last() + 1) as usize),
        );
        match spec_comma_pop(st.output, st.operators) {
            Ok(r) => Ok(YardState { output: r.0, operators: r.1, arg_count: bumped, ..st }),
            Err(k) => Err(k),
        }
    }
}

/// Whether a multiplication is injected between the token at `i` and its
/// successor: a number before a producer or call, or a grouping-close
/// before one.
pub open spec fn spec_inject_mul(tokens: Seq<TokenV>, i: int) -> bool {
    let next_exists = i + 1 < tokens.len();
    if !next_exists {
        false
    } else if tokens[i].is_number() {
        match tokens[i + 1] {
            TokenV::Function(f) => true,
            TokenV::Constant(cn) => true,
            TokenV::Variable(v) => true,
            TokenV::GroupingOpen(c) => true,
            _ => false,
        }
    } else if tokens[i].is_grouping_close() {
        match tokens[i + 1] {
            TokenV::Number(v) => true,
            TokenV::Variable(v) => true,
            TokenV::Constant(cn) => true,
            TokenV::Function(f) => true,
            TokenV::GroupingOpen(c) => true,
            _ => false,
        }
    } else {
        false
    }
}

/// The state after a step, before any injected multiplication.
pub open spec fn spec_yard_step_pre_mul(tokens: Seq<TokenV>, ctx: CtxV, i: int, st: YardState) -> Result<
    YardState,
    ErrorKind,
> {
    let t = tokens[i];
    match t {
        TokenV::Number(v) => Ok(spec_push_number(ctx, st, t)),
        TokenV::Variable(name) => Ok(spec_push_number(ctx, st, t)),
        TokenV::Constant(name) => Ok(spec_push_number(ctx, st, t)),
        TokenV::BinaryOperator(name) => spec_push_binary(ctx, st, t, name),
        TokenV::UnaryOperator(name) => spec_push_unary(ctx, st, t, name),
        TokenV::Function(name) => {
            let call_site_ok = ctx.custom_function_call || (i + 1 < tokens.len() && tokens[i
                + 1].contains_symbol('('));
            if !call_site_ok {
                Err(ErrorKind::InvalidInput)
            } else {
                Ok(
                    YardState {
                        operators: st.operators.push(t),
                        arg_count: st.arg_count.push(0),
                        ..st
                    },
                )
            }
        },
        TokenV::GroupingOpen(c) => {
            let opened = YardState { operators: st.operators.push(t), ..st };
            if opened.arg_count.len() > 0 {
                Ok(
                    YardState {
                        grouping_count: opened.grouping_count.push((i as usize)),
                        ..opened
                    },
                )
            } else {
                Ok(opened)
            }
        },
        TokenV::GroupingClose(c) => {
            match spec_close_pop(ctx, c, st.output, st.operators, st.arg_count) {
                Err(k) => Err(k),
                Ok(r) => {
                    let closed = YardState { output: r.0, operators: r.1, arg_count: r.2, ..st };
                    let empty_group = i > 1 && (match tokens[i - 1] {
                        TokenV::GroupingOpen(o) => open_for(ctx.grouping, c) == Some(o)
                            && !tokens[i - 2].is_function(),
                        _ => false,
                    });
                    if empty_group {
                        Err(ErrorKind::InvalidInput)
                    } else if closed.arg_count.len() > 0 && closed.grouping_count.len() > 0 {
                        Ok(
                            YardState {
                                grouping_count: closed.grouping_count.drop_last(),
                                ..closed
                            },
                        )
                    } else {
                        Ok(closed)
                    }
                },
            }
        },
        TokenV::Comma => {
            if !spec_comma_position_ok(tokens, st.grouping_count, i) {
                Err(ErrorKind::InvalidInput)
            } else {
                spec_push_comma(st)
            }
        },
        TokenV::ArgCount(k) => Err(ErrorKind::InvalidInput),
    }
}

/// One step of the pass: how the state changes on the token at `i`.
pub open spec fn spec_yard_step(tokens: Seq<TokenV>, ctx: CtxV, i: int, st: YardState) -> Result<
    YardState,
    ErrorKind,
> {
    match spec_yard_step_pre_mul(tokens, ctx, i, st) {
        Err(k) => Err(k),
        Ok(next) => if ctx.implicit_mul && spec_inject_mul(tokens, i) {
            Ok(YardState { operators: next.operators.push(TokenV::BinaryOperator("*"@)), ..next })
        } else {
            Ok(next)
        },
    }
}

/// Drains the pending stack into the output; a grouping token still
/// pending means unbalanced grouping.
pub open spec fn spec_drain(output: Seq<TokenV>, operators: Seq<TokenV>) -> Result<
    Seq<TokenV>,
    ErrorKind,
>
    decreases operators.len(),
{
    if operators.len() == 0 {
        Ok(output)
    } else if operators.last().is_grouping_open() || operators.last().is_grouping_close() {
        Err(ErrorKind::InvalidExpression)
    } else {
        spec_drain(output.push(operators.last()), operators.drop_last())
    }
}

/// The pass from position `i` in state `st` to the final RPN.
pub open spec fn spec_yard_from(tokens: Seq<TokenV>, ctx: CtxV, i: int, st: YardState) -> Result<
    Seq<TokenV>,
    ErrorKind,
>
    decreases tokens.len() - i,
{
    if i < 0 || i >= tokens.len() {
        spec_drain(st.output, st.operators)
    } else {
        match spec_yard_step(tokens, ctx, i, st) {
            Err(k) => Err(k),
            Ok(next) => spec_yard_from(tokens, ctx, i + 1, next),
        }
    }
}

/// What the pass produces on a whole token sequence.
pub open spec fn spec_infix_to_rpn(tokens: Seq<TokenV>, ctx: CtxV) -> Result<
    Seq<TokenV>,
    ErrorKind,
> {
    spec_yard_from(tokens, ctx, 0, yard_init())
}

/// Whether an executable token result agrees with a specification result.
pub open spec fn rpn_res_matches(
    r: Result<Vec<Token>, Error>,
    s: Result<Seq<TokenV>, ErrorKind>,
) -> bool {
    match r {
        Ok(v) => match s {
            Ok(ts) => views_of(v@) == ts,
            Err(k) => false,
        },
        Err(e) => match s {
            Ok(ts) => false,
            Err(k) => e.spec_kind() == k,
        },
    }
}

/// Appending a token appends its image.
proof fn lemma_views_push(ts: Seq<Token>, t: Token)
    ensures
        views_of(ts.push(t)) == views_of(ts).push(t@),
{
    assert(views_of(ts.push(t)) =~= views_of(ts).push(t@));
}

/// Dropping the last token drops its image.
proof fn lemma_views_drop_last(ts: Seq<Token>)
    requires
        ts.len() > 0,
    ensures
        views_of(ts.drop_last()) == views_of(ts).drop_last(),
        views_of(ts).last() == ts.last()@,
{
    assert(views_of(ts.drop_last()) =~= views_of(ts).drop_last());
}

/// An atom goes to the output; a known unary operator waiting on top of
/// the stack takes its operand and follows it immediately.
pub fn push_number(
    context: &DefaultContext,
    output: &mut Vec<Token>,
    operators: &mut Vec<Token>,
    token: &Token,
)
    ensures
        ({
            let r = spec_push_number(
                context@,
                (YardState {
                    output: views_of(old(output)@),
                    operators: views_of(old(operators)@),
                    arg_count: Seq::empty(),
                    grouping_count: Seq::empty(),
                }),
                token@,
            );
            views_of(final (output)@) == r.output && views_of(final (operators)@) == r.operators
        }),
{
    let ghost out0 = output@;
    output.push(token.clone());
    proof {
        lemma_views_push(out0, output@.last());
    }
    if operators.len() > 0 {
        let known_unary = match &operators[operators.len() - 1] {
            Token::UnaryOperator(op) => context.is_unary_function(op.as_str()),
            _ => false,
        };
        proof {
            lemma_views_drop_last(operators@);
        }
        if known_unary {
            let ghost out1 = output@;
            let ghost ops1 = operators@;
            match operators.pop() {
                Some(t) => {
                    proof {
                        assert(t@ == views_of(ops1).last());
                    }
                    output.push(t);
                    proof {
                        lemma_views_push(out1, output@.last());
                    }
                },
                None => {},
            }
        }
    }
}

/// A prefix unary operator waits on the stack; a postfix one follows the
/// output, which must not be empty.  An unregistered symbol is rejected.
pub fn push_unary_function(
    context: &DefaultContext,
    output: &mut Vec<Token>,
    operators: &mut Vec<Token>,
    token: &Token,
    name: &str,
) -> (res: Result<(), Error>)
    ensures
        ({
            let r = spec_push_unary(
                context@,
                (YardState {
                    output: views_of(old(output)@),
                    operators: views_of(old(operators)@),
                    arg_count: Seq::empty(),
                    grouping_count: Seq::empty(),
                }),
                token@,
                name@,
            );
            match res {
                Ok(u) => r is Ok && views_of(final (output)@) == r.unwrap().output && views_of(
                    final (operators)@,
                ) == r.unwrap().operators,
                Err(e) => (r matches Err(k) && e.spec_kind() == k) && final (output)@ == old(
                    output,
                )@ && final (operators)@ == old(operators)@,
            }
        }),
{
    match context.get_unary_function(name) {
        None => Err(Error::new(ErrorKind::InvalidInput, "unary operator not found")),
        Some(entry) => {
            if matches!(entry.notation, Notation::Prefix) {
                let ghost ops0 = operators@;
                operators.push(token.clone());
                proof {
                    lemma_views_push(ops0, operators@.last());
                }
                Ok(())
            } else if output.len() > 0 {
                let ghost out0 = output@;
                output.push(token.clone());
                proof {
                    lemma_views_push(out0, output@.last());
                }
                Ok(())
            } else {
                Err(Error::new(ErrorKind::InvalidExpression, "misplaced unary operator"))
            }
        },
    }
}

/// A binary operator pops what outranks it and joins the pending stack;
/// an unregistered symbol is rejected.
pub fn push_binary_function(
    context: &DefaultContext,
    output: &mut Vec<Token>,
    operators: &mut Vec<Token>,
    token: &Token,
    name: &str,
) -> (res: Result<(), Error>)
    ensures
        ({
            let r = spec_push_binary(
                context@,
                (YardState {
                    output: views_of(old(output)@),
                    operators: views_of(old(operators)@),
                    arg_count: Seq::empty(),
                    grouping_count: Seq::empty(),
                }),
                token@,
                name@,
            );
            match res {
                Ok(u) => r is Ok && views_of(final (output)@) == r.unwrap().output && views_of(
                    final (operators)@,
                ) == r.unwrap().operators,
                Err(e) => (r matches Err(k) && e.spec_kind() == k) && final (output)@ == old(
                    output,
                )@ && final (operators)@ == old(operators)@,
            }
        }),
{
    let ghost ctx = context@;
    let ghost base_out = views_of(output@);
    let ghost base_ops = views_of(operators@);
    match context.get_binary_function(name) {
        None => Err(Error::new(ErrorKind::InvalidInput, "binary operator not found")),
        Some(entry) => {
            let mut stop = false;
            while !stop
                invariant
                    ctx == context@,
                    spec_bin_pop(ctx, entry, base_out, base_ops) == if stop {
                        (views_of(output@), views_of(operators@))
                    } else {
                        spec_bin_pop(ctx, entry, views_of(output@), views_of(operators@))
                    },
                decreases operators@.len() + (if stop {
                    0int
                } else {
                    1int
                }),
            {
                if operators.len() == 0 {
                    stop = true;
                } else {
                    proof {
                        lemma_views_drop_last(operators@);
                    }
                    let pop_function = match &operators[operators.len() - 1] {
                        Token::GroupingOpen(c) => {
                            stop = true;
                            false
                        },
                        Token::Function(f) => true,
                        Token::BinaryOperator(op) => {
                            match context.get_binary_function(op.as_str()) {
                                Some(top) => {
                                    let tr = top.precedence.rank();
                                    let er = entry.precedence.rank();
                                    if tr > er || (tr == er && matches!(
                                        top.associativity,
                                        Associativity::Left,
                                    )) {
                                        true
                                    } else {
                                        stop = true;
                                        false
                                    }
                                },
                                None => {
                                    stop = true;
                                    false
                                },
                            }
                        },
                        _ => {
                            stop = true;
                            false
                        },
                    };
                    if pop_function {
                        let ghost out1 = output@;
                        let ghost ops1 = operators@;
                        match operators.pop() {
                            Some(t) => {
                                proof {
                                    assert(t@ == views_of(ops1).last());
                                }
                                output.push(t);
                                proof {
                                    lemma_views_push(out1, output@.last());
                                }
                            },
                            None => {},
                        }
                    }
                }
            }
            let ghost ops2 = operators@;
            operators.push(token.clone());
            proof {
                lemma_views_push(ops2, operators@.last());
            }
            Ok(())
        },
    }
}

/// Pops pending tokens to the output until the grouping-open that pairs
/// with `group_close`; a function directly beneath the open receives its
/// argument count and follows into the output.
pub fn push_grouping_close(
    context: &DefaultContext,
    group_close: char,
    output: &mut Vec<Token>,
    operators: &mut Vec<Token>,
    arg_count: &mut Vec<usize>,
) -> (res: Result<(), Error>)
    requires
        old(arg_count)@.len() > 0 ==> old(arg_count)@.last() < usize::MAX,
    ensures
        ({
            let r = spec_close_pop(
                context@,
                group_close,
                views_of(old(output)@),
                views_of(old(operators)@),
                old(arg_count)@,
            );
            match res {
                Ok(u) => r matches Ok(t) && views_of(final (output)@) == t.0 && views_of(
                    final (operators)@,
                ) == t.1 && final (arg_count)@ == t.2,
                Err(e) => r matches Err(k) && e.spec_kind() == k,
            }
        }),
{
    let ghost ctx = context@;
    let ghost base_out = views_of(output@);
    let ghost base_ops = views_of(operators@);
    let ghost base_ac = arg_count@;
    while operators.len() > 0
        invariant
            ctx == context@,
            base_out == views_of(old(output)@),
            base_ops == views_of(old(operators)@),
            base_ac == old(arg_count)@,
            arg_count@ == base_ac,
            arg_count@.len() > 0 ==> arg_count@.last() < usize::MAX,
            spec_close_pop(ctx, group_close, base_out, base_ops, base_ac) == spec_close_pop(
                ctx,
                group_close,
                views_of(output@),
                views_of(operators@),
                arg_count@,
            ),
        decreases operators@.len(),
    {
        proof {
            lemma_views_drop_last(operators@);
        }
        let ghost pre_out = views_of(output@);
        let ghost pre_ops = views_of(operators@);
        let ghost pre_ac = arg_count@;
        let is_open = matches!(&operators[operators.len() - 1], Token::GroupingOpen(_));
        if is_open {
            let opened = match operators.pop() {
                Some(t) => t,
                None => Token::Comma,
            };
            let o = match &opened {
                Token::GroupingOpen(oc) => *oc,
                _ => ' ',
            };
            proof {
                assert(opened@ == pre_ops.last());
                assert(pre_ops.last() == TokenV::GroupingOpen(o));
            }
            let matched = match context.config().get_group_symbol(o) {
                Some(g) => g.group_close == group_close,
                None => false,
            };
            proof {
                assert(matched == (match group_for(ctx.grouping, o) {
                    Some(g) => g.group_close == group_close,
                    None => false,
                }));
            }
            if !matched {
                proof {
                    assert(spec_close_pop(ctx, group_close, pre_out, pre_ops, pre_ac) == Err::<
                        (Seq<TokenV>, Seq<TokenV>, Seq<usize>),
                        ErrorKind,
                    >(ErrorKind::InvalidExpression));
                }
                return Err(Error::new(ErrorKind::InvalidExpression, "misplaced grouping symbol"));
            }
            proof {
                assert(views_of(operators@) == pre_ops.drop_last());
            }
            if arg_count.len() > 0 && operators.len() > 0 {
                proof {
                    lemma_views_drop_last(operators@);
                }
                let beneath_is_function = matches!(
                    &operators[operators.len() - 1],
                    Token::Function(_),
                );
                if beneath_is_function {
                    let count = match arg_count.pop() {
                        Some(k) => k,
                        None => 0,
                    };
                    proof {
                        assert(count == pre_ac.last());
                        assert(arg_count@ == pre_ac.drop_last());
                    }
                    let ghost out1 = output@;
                    output.push(Token::ArgCount(count + 1));
                    proof {
                        lemma_views_push(out1, output@.last());
                    }
                    let ghost out2 = output@;
                    let ghost ops2 = operators@;
                    match operators.pop() {
                        Some(f) => {
                            proof {
                                assert(f@ == views_of(ops2).last());
                            }
                            output.push(f);
                            proof {
                                lemma_views_push(out2, output@.last());
                            }
                        },
                        None => {},
                    }
                    proof {
                        assert(spec_close_pop(ctx, group_close, pre_out, pre_ops, pre_ac)
                            matches Ok(t) && views_of(output@) == t.0 && views_of(operators@)
                            == t.1 && arg_count@ == t.2);
                    }
                } else {
                    proof {
                        assert(spec_close_pop(ctx, group_close, pre_out, pre_ops, pre_ac)
                            matches Ok(t) && views_of(output@) == t.0 && views_of(operators@)
                            == t.1 && arg_count@ == t.2);
                    }
                }
            } else {
                proof {
                    assert(spec_close_pop(ctx, group_close, pre_out, pre_ops, pre_ac)
                        matches Ok(t) && views_of(output@) == t.0 && views_of(operators@) == t.1
                        && arg_count@ == t.2);
                }
            }
            return Ok(());
        }
        let ghost out1 = output@;
        let ghost ops1 = operators@;
        match operators.pop() {
            Some(t) => {
                proof {
                    assert(t@ == views_of(ops1).last());
                }
                output.push(t);
                proof {
                    lemma_views_push(out1, output@.last());
                }
            },
            None => {},
        }
    }
    proof {
        assert(views_of(operators@).len() == 0);
        assert(spec_close_pop(ctx, group_close, base_out, base_ops, base_ac) == Err::<
            (Seq<TokenV>, Seq<TokenV>, Seq<usize>),
            ErrorKind,
        >(ErrorKind::InvalidExpression));
    }
    Err(Error::new(ErrorKind::InvalidExpression, "misplaced grouping symbol"))
}

/// A comma counts an argument of the innermost function and flushes the
/// pending operators of the argument just read.
pub fn push_comma(
    output: &mut Vec<Token>,
    operators: &mut Vec<Token>,
    arg_count: &mut Vec<usize>,
) -> (res: Result<(), Error>)
    requires
        old(arg_count)@.len() > 0 ==> old(arg_count)@.last() < usize::MAX,
    ensures
        ({
            let r = spec_push_comma(
                (YardState {
                    output: views_of(old(output)@),
                    operators: views_of(old(operators)@),
                    arg_count: old(arg_count)@,
                    grouping_count: Seq::empty(),
                }),
            );
            match res {
                Ok(u) => r matches Ok(st) && views_of(final (output)@) == st.output && views_of(
                    final (operators)@,
                ) == st.operators && final (arg_count)@ == st.arg_count,
                Err(e) => r matches Err(k) && e.spec_kind() == k,
            }
        }),
{
    if arg_count.len() == 0 {
        return Err(Error::new(ErrorKind::InvalidExpression, "comma found but no function"));
    }
    let ghost base_ac = arg_count@;
    let count = match arg_count.pop() {
        Some(k) => k,
        None => 0,
    };
    arg_count.push(count + 1);
    proof {
        assert(arg_count@ =~= base_ac.update(base_ac.len() - 1, ((base_ac.last() + 1) as usize)));
    }
    let ghost base_out = views_of(output@);
    let ghost base_ops = views_of(operators@);
    while operators.len() > 0
        invariant
            base_out == views_of(old(output)@),
            base_ops == views_of(old(operators)@),
            base_ac == old(arg_count)@,
            spec_comma_pop(base_out, base_ops) == spec_comma_pop(
                views_of(output@),
                views_of(operators@),
            ),
            arg_count@ == base_ac.update(base_ac.len() - 1, ((base_ac.last() + 1) as usize)),
            base_ac.len() > 0,
        decreases operators@.len(),
    {
        proof {
            lemma_views_drop_last(operators@);
        }
        let is_open = matches!(&operators[operators.len() - 1], Token::GroupingOpen(_));
        if is_open {
            proof {
                assert(spec_comma_pop(base_out, base_ops) == Ok::<
                    (Seq<TokenV>, Seq<TokenV>),
                    ErrorKind,
                >((views_of(output@), views_of(operators@))));
            }
            return Ok(());
        }
        let ghost out1 = output@;
        let ghost ops1 = operators@;
        match operators.pop() {
            Some(t) => {
                proof {
                    assert(t@ == views_of(ops1).last());
                }
                output.push(t);
                proof {
                    lemma_views_push(out1, output@.last());
                }
            },
            None => {},
        }
    }
    proof {
        assert(views_of(operators@).len() == 0);
        assert(spec_comma_pop(base_out, base_ops) == Err::<
            (Seq<TokenV>, Seq<TokenV>),
            ErrorKind,
        >(ErrorKind::InvalidExpression));
    }
    Err(Error::new(ErrorKind::InvalidExpression, "misplaced comma"))
}

/// Validates the position of a comma relative to its neighbours and to
/// the innermost enclosing grouping.
pub fn check_comma_position(
    tokens: &[Token],
    grouping_count: &Vec<usize>,
    pos: usize,
) -> (res: Result<(), Error>)
    requires
        pos < tokens@.len(),
    ensures
        res is Ok <==> spec_comma_position_ok(views_of(tokens@), grouping_count@, pos as int),
        res matches Err(e) ==> e.spec_kind() == ErrorKind::InvalidInput,
{
    let ghost ts = views_of(tokens@);
    if pos == 0 {
        return Err(Error::new(ErrorKind::InvalidInput, "misplaced comma"));
    }
    if tokens[pos - 1].is_grouping_open() {
        return Err(Error::new(ErrorKind::InvalidInput, "misplaced comma after open"));
    }
    if pos + 1 < tokens.len() && tokens[pos + 1].is_grouping_close() {
        return Err(Error::new(ErrorKind::InvalidInput, "misplaced comma before close"));
    }
    if grouping_count.len() > 0 {
        let g = grouping_count[grouping_count.len() - 1];
        proof {
            assert(g == grouping_count@.last());
        }
        let enclosing_is_function = if g >= 1 && g - 1 < tokens.len() {
            tokens[g - 1].is_function()
        } else {
            false
        };
        if !enclosing_is_function {
            return Err(Error::new(ErrorKind::InvalidInput, "misplaced comma"));
        }
    }
    Ok(())
}

/// Converts an infix token sequence to Reverse Polish Notation with the
/// shunting-yard algorithm, validating grouping, call sites and comma
/// placement, and injecting argument counts and implicit multiplications.
pub fn infix_to_rpn(tokens: &[Token], context: &DefaultContext) -> (res: Result<Vec<Token>, Error>)
    ensures
        rpn_res_matches(res, spec_infix_to_rpn(views_of(tokens@), context@)),
{
    let ghost ts = views_of(tokens@);
    let ghost ctx = context@;
    let n = tokens.len();
    let mut output: Vec<Token> = Vec::new();
    let mut operators: Vec<Token> = Vec::new();
    let mut arg_count: Vec<usize> = Vec::new();
    let mut grouping_count: Vec<usize> = Vec::new();
    let mut i: usize = 0;
    proof {
        assert(views_of(output@) =~= Seq::<TokenV>::empty());
        assert(views_of(operators@) =~= Seq::<TokenV>::empty());
        assert((YardState {
            output: views_of(output@),
            operators: views_of(operators@),
            arg_count: arg_count@,
            grouping_count: grouping_count@,
        }) =~= yard_init());
    }
    while i < n
        invariant
            i <= n,
            n == tokens@.len(),
            ts == views_of(tokens@),
            ctx == context@,
            spec_infix_to_rpn(ts, ctx) == spec_yard_from(
                ts,
                ctx,
                i as int,
                (YardState {
                    output: views_of(output@),
                    operators: views_of(operators@),
                    arg_count: arg_count@,
                    grouping_count: grouping_count@,
                }),
            ),
            forall|k: int| 0 <= k < arg_count@.len() ==> #[trigger] arg_count@[k] <= i,
        decreases n - i,
    {
        let ghost st0 = YardState {
            output: views_of(output@),
            operators: views_of(operators@),
            arg_count: arg_count@,
            grouping_count: grouping_count@,
        };
        let token = &tokens[i];
        proof {
            assert(token@ == ts[i as int]);
        }
        match token {
            Token::Number(v) => {
                push_number(context, &mut output, &mut operators, token);
            },
            Token::Variable(name) => {
                push_number(context, &mut output, &mut operators, token);
            },
            Token::Constant(name) => {
                push_number(context, &mut output, &mut operators, token);
            },
            Token::BinaryOperator(name) => {
                match push_binary_function(context, &mut output, &mut operators, token, name.as_str()) {
                    Ok(u) => {},
                    Err(e) => {
                        proof {
                            assert(spec_yard_step(ts, ctx, i as int, st0) matches Err(k)
                                && e.spec_kind() == k);
                        }
                        return Err(e);
                    },
                }
            },
            Token::UnaryOperator(name) => {
                match push_unary_function(context, &mut output, &mut operators, token, name.as_str()) {
                    Ok(u) => {},
                    Err(e) => {
                        proof {
                            assert(spec_yard_step(ts, ctx, i as int, st0) matches Err(k)
                                && e.spec_kind() == k);
                        }
                        return Err(e);
                    },
                }
            },
            Token::Function(name) => {
                if !context.config().custom_function_call() {
                    // Function arguments must sit in parentheses: a call
                    // written with another grouping pair is rejected.
                    let call_site_ok = if i + 1 < n {
                        tokens[i + 1].contains_symbol('(')
                    } else {
                        false
                    };
                    if !call_site_ok {
                        proof {
                            assert(spec_yard_step(ts, ctx, i as int, st0) matches Err(k)
                                && k == ErrorKind::InvalidInput);
                        }
                        return Err(
                            Error::new(
                                ErrorKind::InvalidInput,
                                "function arguments are not within a parentheses",
                            ),
                        );
                    }
                }
                arg_count.push(0);
                let ghost ops0 = operators@;
                operators.push(token.clone());
                proof {
                    lemma_views_push(ops0, operators@.last());
                }
            },
            Token::GroupingOpen(c) => {
                let ghost ops0 = operators@;
                operators.push(token.clone());
                proof {
                    lemma_views_push(ops0, operators@.last());
                }
                if arg_count.len() > 0 {
                    grouping_count.push(i);
                }
            },
            Token::GroupingClose(c) => {
                let close = *c;
                match push_grouping_close(
                    context,
                    close,
                    &mut output,
                    &mut operators,
                    &mut arg_count,
                ) {
                    Err(e) => {
                        proof {
                            assert(spec_yard_step(ts, ctx, i as int, st0) matches Err(k)
                                && e.spec_kind() == k);
                        }
                        return Err(e);
                    },
                    Ok(u) => {
                        proof {
                            lemma_close_pop_args(ctx, close, st0.output, st0.operators, st0.arg_count);
                        }
                        if i > 1 {
                            // An empty grouping pair that is no function
                            // call site is rejected.
                            let empty_group = match &tokens[i - 1] {
                                Token::GroupingOpen(o) => {
                                    let opens = context.config().get_group_open_for(close);
                                    match opens {
                                        Some(oc) => oc == *o && !tokens[i - 2].is_function(),
                                        None => false,
                                    }
                                },
                                _ => false,
                            };
                            if empty_group {
                                proof {
                                    assert(spec_yard_step(ts, ctx, i as int, st0) matches Err(
                                        k,
                                    ) && k == ErrorKind::InvalidInput);
                                }
                                return Err(
                                    Error::new(ErrorKind::InvalidInput, "empty grouping symbols"),
                                );
                            }
                        }
                        if arg_count.len() > 0 {
                            let ghost gc0 = grouping_count@;
                            let popped = grouping_count.pop();
                            proof {
                                if gc0.len() > 0 {
                                    assert(grouping_count@ == gc0.drop_last());
                                } else {
                                    assert(grouping_count@ == gc0);
                                }
                            }
                        }
                        proof {
                            assert(arg_count@ == st0.arg_count || (st0.arg_count.len() > 0
                                && arg_count@ == st0.arg_count.drop_last()));
                            assert forall|k: int|
                                0 <= k < arg_count@.len() implies #[trigger] arg_count@[k] <= i
                                + 1 by {
                                if arg_count@ == st0.arg_count {
                                    assert(arg_count@[k] == st0.arg_count[k]);
                                } else {
                                    assert(arg_count@[k] == st0.arg_count.drop_last()[k]);
                                    assert(st0.arg_count.drop_last()[k] == st0.arg_count[k]);
                                }
                            }
                        }
                    },
                }
            },
            Token::ArgCount(k) => {
                proof {
                    assert(spec_yard_step(ts, ctx, i as int, st0) matches Err(k2) && k2
                        == ErrorKind::InvalidInput);
                }
                return Err(Error::new(ErrorKind::InvalidInput, "unexpected token"));
            },
            Token::Comma => {
                match check_comma_position(tokens, &grouping_count, i) {
                    Err(e) => {
                        proof {
                            assert(spec_yard_step(ts, ctx, i as int, st0) matches Err(k)
                                && e.spec_kind() == k);
                        }
                        return Err(e);
                    },
                    Ok(u) => {},
                }
                match push_comma(&mut output, &mut operators, &mut arg_count) {
                    Err(e) => {
                        proof {
                            assert(spec_yard_step(ts, ctx, i as int, st0) matches Err(k)
                                && e.spec_kind() == k);
                        }
                        return Err(e);
                    },
                    Ok(u) => {},
                }
            },
        }
        if context.config().implicit_mul() {
            let inject = if token.is_number() {
                if i + 1 < n {
                    matches!(
                        &tokens[i + 1],
                        Token::Function(_) | Token::Constant(_) | Token::Variable(_)
                            | Token::GroupingOpen(_),
                    )
                } else {
                    false
                }
            } else if token.is_grouping_close() {
                if i + 1 < n {
                    matches!(
                        &tokens[i + 1],
                        Token::Number(_) | Token::Variable(_) | Token::Constant(_)
                            | Token::Function(_) | Token::GroupingOpen(_),
                    )
                } else {
                    false
                }
            } else {
                false
            };
            if inject {
                let ghost ops0 = operators@;
                operators.push(Token::BinaryOperator("*".to_owned()));
                proof {
                    lemma_views_push(ops0, operators@.last());
                }
            }
        }
        proof {
            assert(spec_yard_step(ts, ctx, i as int, st0) == Ok::<YardState, ErrorKind>(
                YardState {
                    output: views_of(output@),
                    operators: views_of(operators@),
                    arg_count: arg_count@,
                    grouping_count: grouping_count@,
                },
            ));
        }
        i = i + 1;
    }
    let ghost base_out = views_of(output@);
    let ghost base_ops = views_of(operators@);
    proof {
        assert(spec_infix_to_rpn(ts, ctx) == spec_drain(base_out, base_ops));
    }
    while operators.len() > 0
        invariant
            spec_infix_to_rpn(ts, ctx) == spec_drain(views_of(output@), views_of(operators@)),
            ts == views_of(tokens@),
            ctx == context@,
        decreases operators@.len(),
    {
        proof {
            lemma_views_drop_last(operators@);
        }
        let top_is_grouping = matches!(
            &operators[operators.len() - 1],
            Token::GroupingOpen(_) | Token::GroupingClose(_),
        );
        if top_is_grouping {
            return Err(Error::new(ErrorKind::InvalidExpression, "misplaced parentheses"));
        }
        let ghost out1 = output@;
        let ghost ops1 = operators@;
        match operators.pop() {
            Some(t) => {
                proof {
                    assert(t@ == views_of(ops1).last());
                }
                output.push(t);
                proof {
                    lemma_views_push(out1, output@.last());
                }
            },
            None => {},
        }
    }
    proof {
        assert(views_of(operators@).len() == 0);
        assert(spec_drain(views_of(output@), views_of(operators@)) == Ok::<Seq<TokenV>, ErrorKind>(
            views_of(output@),
        ));
    }
    Ok(output)
}


/// The number of function call sites in a token sequence.
pub open spec fn count_fn(s: Seq<TokenV>) -> int
    decreases s.len(),
{
    if s.len() == 0 {
        0
    } else {
        count_fn(s.drop_last()) + if s.last() is Function {
            1int
        } else {
            0int
        }
    }
}

/// The number of argument-count markers in a token sequence.
pub open spec fn count_arg(s: Seq<TokenV>) -> int
    decreases s.len(),
{
    if s.len() == 0 {
        0
    } else {
        count_arg(s.drop_last()) + if s.last() is ArgCount {
            1int
        } else {
            0int
        }
    }
}

/// Appending one token raises each count by at most one.
proof fn lemma_count_push(s: Seq<TokenV>, t: TokenV)
    ensures
        count_fn(s.push(t)) == count_fn(s) + if t is Function {
            1int
        } else {
            0int
        },
        count_arg(s.push(t)) == count_arg(s) + if t is ArgCount {
            1int
        } else {
            0int
        },
{
    assert(s.push(t).drop_last() =~= s);
}

/// Popping operators ahead of a binary operator moves tokens only: the
/// total length and the counts are conserved.
proof fn lemma_bin_pop_counts(ctx: CtxV, entry: BinaryEntry, output: Seq<TokenV>, operators: Seq<
    TokenV,
>)
    requires
        count_arg(operators) == 0,
    ensures
        ({
            let r = spec_bin_pop(ctx, entry, output, operators);
            &&& r.0.len() + r.1.len() == output.len() + operators.len()
            &&& count_arg(r.1) == 0
            &&& count_arg(r.0) == count_arg(output)
            &&& count_fn(r.1) <= count_fn(operators)
            &&& count_fn(r.0) + count_fn(r.1) == count_fn(output) + count_fn(operators)
        }),
    decreases operators.len(),
{
    if operators.len() > 0 {
        let t = operators.last();
        assert(count_arg(operators.drop_last()) + (if t is ArgCount {
            1int
        } else {
            0int
        }) == 0) by {
            assert(operators.drop_last().push(t) =~= operators);
            lemma_count_push(operators.drop_last(), t);
        }
        lemma_count_arg_nonneg(operators.drop_last());
        match t {
            TokenV::GroupingOpen(c) => {},
            TokenV::Function(f) => {
                lemma_count_push(output, t);
                lemma_bin_pop_counts(ctx, entry, output.push(t), operators.drop_last());
            },
            TokenV::BinaryOperator(op) => {
                match ctx.binops.get(fold(op)) {
                    Some(top) => {
                        if top.precedence.spec_rank() > entry.precedence.spec_rank() || (
                        top.precedence.spec_rank() == entry.precedence.spec_rank()
                            && top.associativity == Associativity::Left) {
                            lemma_count_push(output, t);
                            lemma_bin_pop_counts(
                                ctx,
                                entry,
                                output.push(t),
                                operators.drop_last(),
                            );
                        }
                    },
                    None => {},
                }
            },
            _ => {},
        }
    }
}

/// The counts are never negative.
proof fn lemma_count_arg_nonneg(s: Seq<TokenV>)
    ensures
        count_arg(s) >= 0,
        count_fn(s) >= 0,
    decreases s.len(),
{
    if s.len() > 0 {
        lemma_count_arg_nonneg(s.drop_last());
    }
}

/// Closing a grouping never grows the working size, keeps markers off the
/// operator stack, and charges at most the function it retires.
proof fn lemma_close_pop_counts(ctx: CtxV, c: char, output: Seq<TokenV>, operators: Seq<TokenV>, arg_count: Seq<
    usize,
>)
    requires
        count_arg(operators) == 0,
    ensures
        ({
            let r = spec_close_pop(ctx, c, output, operators, arg_count);
            r matches Ok(t) ==> {
                &&& t.0.len() + t.1.len() <= output.len() + operators.len()
                &&& count_arg(t.1) == 0
                &&& count_arg(t.0) + count_fn(t.1) <= count_arg(output) + count_fn(operators)
                &&& count_arg(t.0) >= count_arg(output)
                &&& count_fn(t.0) <= count_fn(output) + count_fn(operators)
            }
        }),
    decreases operators.len(),
{
    if operators.len() > 0 {
        let t = operators.last();
        assert(count_arg(operators.drop_last()) + (if t is ArgCount {
            1int
        } else {
            0int
        }) == 0) by {
            assert(operators.drop_last().push(t) =~= operators);
            lemma_count_push(operators.drop_last(), t);
        }
        assert(count_fn(operators) == count_fn(operators.drop_last()) + (if t is Function {
            1int
        } else {
            0int
        })) by {
            assert(operators.drop_last().push(t) =~= operators);
            lemma_count_push(operators.drop_last(), t);
        }
        lemma_count_arg_nonneg(operators.drop_last());
        match t {
            TokenV::GroupingOpen(o) => {
                let matched = match group_for(ctx.grouping, o) {
                    Some(g) => g.group_close == c,
                    None => false,
                };
                if matched {
                    let rest = operators.drop_last();
                    if arg_count.len() > 0 && rest.len() > 0 && rest.last() is Function {
                        let marker = TokenV::ArgCount(((arg_count.last() + 1) as usize));
                        lemma_count_push(output, marker);
                        lemma_count_push(output.push(marker), rest.last());
                        assert(rest.drop_last().push(rest.last()) =~= rest);
                        lemma_count_push(rest.drop_last(), rest.last());
                        lemma_count_arg_nonneg(rest.drop_last());
                    }
                }
            },
            _ => {
                lemma_count_push(output, t);
                lemma_close_pop_counts(
                    ctx,
                    c,
                    output.push(t),
                    operators.drop_last(),
                    arg_count,
                );
            },
        }
    }
}

/// Flushing an argument's operators moves tokens only.
proof fn lemma_comma_pop_counts(output: Seq<TokenV>, operators: Seq<TokenV>)
    requires
        count_arg(operators) == 0,
    ensures
        ({
            let r = spec_comma_pop(output, operators);
            r matches Ok(t) ==> {
                &&& t.0.len() + t.1.len() == output.len() + operators.len()
                &&& count_arg(t.1) == 0
                &&& count_arg(t.0) == count_arg(output)
                &&& count_fn(t.1) <= count_fn(operators)
                &&& count_fn(t.0) + count_fn(t.1) == count_fn(output) + count_fn(operators)
            }
        }),
    decreases operators.len(),
{
    if operators.len() > 0 && !(operators.last() is GroupingOpen) {
        let t = operators.last();
        assert(count_arg(operators.drop_last()) + (if t is ArgCount {
            1int
        } else {
            0int
        }) == 0) by {
            assert(operators.drop_last().push(t) =~= operators);
            lemma_count_push(operators.drop_last(), t);
        }
        assert(count_fn(operators) == count_fn(operators.drop_last()) + (if t is Function {
            1int
        } else {
            0int
        })) by {
            assert(operators.drop_last().push(t) =~= operators);
            lemma_count_push(operators.drop_last(), t);
        }
        lemma_count_arg_nonneg(operators.drop_last());
        lemma_count_push(output, t);
        lemma_comma_pop_counts(output.push(t), operators.drop_last());
    }
}

/// The final drain moves tokens only.
proof fn lemma_drain_counts(output: Seq<TokenV>, operators: Seq<TokenV>)
    ensures
        spec_drain(output, operators) matches Ok(rpn) ==> rpn.len() == output.len()
            + operators.len(),
    decreases operators.len(),
{
    if operators.len() > 0 && !(operators.last().is_grouping_open()
        || operators.last().is_grouping_close()) {
        lemma_drain_counts(output.push(operators.last()), operators.drop_last());
    }
}

/// The working bound carried through the pass: the produced and pending
/// tokens number at most twice the consumed tokens plus the emitted
/// argument-count markers, the markers emitted so far plus the calls
/// still pending stay within the call sites read, and no marker waits on
/// the operator stack.
proof fn lemma_yard_from_bound(tokens: Seq<TokenV>, ctx: CtxV, i: int, st: YardState)
    requires
        0 <= i <= tokens.len(),
        st.output.len() + st.operators.len() <= 2 * i + count_arg(st.output),
        count_arg(st.output) + count_fn(st.operators) <= count_fn(tokens.take(i)),
        count_arg(st.operators) == 0,
    ensures
        spec_yard_from(tokens, ctx, i, st) matches Ok(rpn) ==> rpn.len() <= 2 * tokens.len()
            + count_fn(tokens),
    decreases tokens.len() - i,
{
    lemma_count_arg_nonneg(st.operators);
    lemma_count_arg_nonneg(st.output);
    if i >= tokens.len() {
        lemma_drain_counts(st.output, st.operators);
        assert(tokens.take(i) =~= tokens);
    } else {
        assert(tokens.take(i + 1).drop_last() =~= tokens.take(i));
        assert(tokens.take(i + 1).last() == tokens[i]);
        assert(count_fn(tokens.take(i + 1)) == count_fn(tokens.take(i)) + (if tokens[i]
            is Function {
            1int
        } else {
            0int
        }));
        lemma_count_arg_nonneg(tokens.take(i));
        match spec_yard_step(tokens, ctx, i, st) {
            Err(k) => {},
            Ok(next) => {
                lemma_yard_step_bound(tokens, ctx, i, st, next);
                lemma_yard_from_bound(tokens, ctx, i + 1, next);
            },
        }
    }
}

/// One step of the pass keeps the working bound.
proof fn lemma_yard_step_bound(tokens: Seq<TokenV>, ctx: CtxV, i: int, st: YardState, next: YardState)
    requires
        0 <= i < tokens.len(),
        spec_yard_step(tokens, ctx, i, st) == Ok::<YardState, ErrorKind>(next),
        st.output.len() + st.operators.len() <= 2 * i + count_arg(st.output),
        count_arg(st.output) + count_fn(st.operators) <= count_fn(tokens.take(i)),
        count_arg(st.operators) == 0,
    ensures
        next.output.len() + next.operators.len() <= 2 * (i + 1) + count_arg(next.output),
        count_arg(next.output) + count_fn(next.operators) <= count_fn(tokens.take(i + 1)),
        count_arg(next.operators) == 0,
{
    assert(tokens.take(i + 1).drop_last() =~= tokens.take(i));
    assert(tokens.take(i + 1).last() == tokens[i]);
    lemma_count_arg_nonneg(st.operators);
    lemma_count_arg_nonneg(st.output);
    let t = tokens[i];
    let mid: YardState = match t {
        TokenV::Number(v) => spec_push_number(ctx, st, t),
        TokenV::Variable(name) => spec_push_number(ctx, st, t),
        TokenV::Constant(name) => spec_push_number(ctx, st, t),
        TokenV::BinaryOperator(name) => spec_push_binary(ctx, st, t, name).unwrap(),
        TokenV::UnaryOperator(name) => spec_push_unary(ctx, st, t, name).unwrap(),
        TokenV::Function(name) => YardState {
            operators: st.operators.push(t),
            arg_count: st.arg_count.push(0),
            ..st
        },
        TokenV::GroupingOpen(c) => {
            let opened = YardState { operators: st.operators.push(t), ..st };
            if opened.arg_count.len() > 0 {
                YardState { grouping_count: opened.grouping_count.push((i as usize)), ..opened }
            } else {
                opened
            }
        },
        TokenV::GroupingClose(c) => {
            let r = spec_close_pop(ctx, c, st.output, st.operators, st.arg_count).unwrap();
            let closed = YardState { output: r.0, operators: r.1, arg_count: r.2, ..st };
            if closed.arg_count.len() > 0 && closed.grouping_count.len() > 0 {
                YardState { grouping_count: closed.grouping_count.drop_last(), ..closed }
            } else {
                closed
            }
        },
        TokenV::Comma => spec_push_comma(st).unwrap(),
        TokenV::ArgCount(k) => st,
    };
    match t {
        TokenV::Number(v) => {
            lemma_push_number_counts(ctx, st, t);
        },
        TokenV::Variable(name) => {
            lemma_push_number_counts(ctx, st, t);
        },
        TokenV::Constant(name) => {
            lemma_push_number_counts(ctx, st, t);
        },
        TokenV::BinaryOperator(name) => {
            let entry = ctx.binops.get(fold(name)).unwrap();
            lemma_bin_pop_counts(ctx, entry, st.output, st.operators);
            let r = spec_bin_pop(ctx, entry, st.output, st.operators);
            lemma_count_push(r.1, t);
        },
        TokenV::UnaryOperator(name) => {
            lemma_count_push(st.operators, t);
            lemma_count_push(st.output, t);
        },
        TokenV::Function(name) => {
            lemma_count_push(st.operators, t);
        },
        TokenV::GroupingOpen(c) => {
            lemma_count_push(st.operators, t);
        },
        TokenV::GroupingClose(c) => {
            lemma_close_pop_counts(ctx, c, st.output, st.operators, st.arg_count);
        },
        TokenV::Comma => {
            lemma_comma_pop_counts(st.output, st.operators);
        },
        TokenV::ArgCount(k) => {},
    }
    if ctx.implicit_mul && spec_inject_mul(tokens, i) {
        lemma_count_push(mid.operators, TokenV::BinaryOperator("*"@));
        assert(next == (YardState {
            operators: mid.operators.push(TokenV::BinaryOperator("*"@)),
            ..mid
        }));
    } else {
        assert(next == mid);
    }
}

/// Atoms move at most one pending unary operator.
proof fn lemma_push_number_counts(ctx: CtxV, st: YardState, t: TokenV)
    requires
        count_arg(st.operators) == 0,
        !(t is ArgCount),
        !(t is Function),
    ensures
        ({
            let r = spec_push_number(ctx, st, t);
            &&& r.output.len() + r.operators.len() <= st.output.len() + st.operators.len() + 1
            &&& count_arg(r.operators) == 0
            &&& count_arg(r.output) == count_arg(st.output)
            &&& count_fn(r.operators) <= count_fn(st.operators)
            &&& count_fn(r.output) + count_fn(r.operators) == count_fn(st.output) + count_fn(
                st.operators,
            )
        }),
{
    lemma_count_push(st.output, t);
    let pushed = YardState { output: st.output.push(t), ..st };
    if pushed.operators.len() > 0 {
        match pushed.operators.last() {
            TokenV::UnaryOperator(op) => {
                if ctx.unops.contains_key(fold(op)) {
                    lemma_count_push(pushed.output, pushed.operators.last());
                    assert(pushed.operators.drop_last().push(pushed.operators.last())
                        =~= pushed.operators);
                    lemma_count_push(pushed.operators.drop_last(), pushed.operators.last());
                    lemma_count_arg_nonneg(pushed.operators.drop_last());
                }
            },
            _ => {},
        }
    }
}

/// The produced RPN is never longer than twice the input plus one marker
/// for each function call site.
pub proof fn lemma_rpn_length_bound(tokens: Seq<TokenV>, ctx: CtxV)
    ensures
        spec_infix_to_rpn(tokens, ctx) matches Ok(rpn) ==> rpn.len() <= 2 * tokens.len()
            + count_fn(tokens),
{
    assert(tokens.take(0) =~= Seq::<TokenV>::empty());
    lemma_yard_from_bound(tokens, ctx, 0, yard_init());
}


/// Precedence correctness on `a op1 b op2 c`: where `op1` binds tighter,
/// or equally with left associativity, the RPN orders `op1` first; where
/// they bind equally and `op1` is right-associative, `op2` comes first.
pub proof fn lemma_precedence_correctness(
    ctx: CtxV,
    a: i64,
    b: i64,
    c: i64,
    op1: Seq<char>,
    op2: Seq<char>,
)
    requires
        ctx.binops.get(fold(op1)) is Some,
        ctx.binops.get(fold(op2)) is Some,
    ensures
        ({
            let e1 = ctx.binops.get(fold(op1)).unwrap();
            let e2 = ctx.binops.get(fold(op2)).unwrap();
            let toks = seq![
                TokenV::Number(a),
                TokenV::BinaryOperator(op1),
                TokenV::Number(b),
                TokenV::BinaryOperator(op2),
                TokenV::Number(c),
            ];
            &&& (e1.precedence.spec_rank() > e2.precedence.spec_rank() || (
            e1.precedence.spec_rank() == e2.precedence.spec_rank() && e1.associativity
                == Associativity::Left)) ==> spec_infix_to_rpn(toks, ctx) == Ok::<
                Seq<TokenV>,
                ErrorKind,
            >(
                seq![
                    TokenV::Number(a),
                    TokenV::Number(b),
                    TokenV::BinaryOperator(op1),
                    TokenV::Number(c),
                    TokenV::BinaryOperator(op2),
                ],
            )
            &&& (e1.precedence.spec_rank() < e2.precedence.spec_rank() || (
            e1.precedence.spec_rank() == e2.precedence.spec_rank() && e1.associativity
                == Associativity::Right)) ==> spec_infix_to_rpn(toks, ctx) == Ok::<
                Seq<TokenV>,
                ErrorKind,
            >(
                seq![
                    TokenV::Number(a),
                    TokenV::Number(b),
                    TokenV::Number(c),
                    TokenV::BinaryOperator(op2),
                    TokenV::BinaryOperator(op1),
                ],
            )
        }),
{
    let e1 = ctx.binops.get(fold(op1)).unwrap();
    let e2 = ctx.binops.get(fold(op2)).unwrap();
    let toks = seq![
        TokenV::Number(a),
        TokenV::BinaryOperator(op1),
        TokenV::Number(b),
        TokenV::BinaryOperator(op2),
        TokenV::Number(c),
    ];
    let s0 = yard_init();
    let s1 = spec_push_number(ctx, s0, toks[0]);
    assert(s1.output =~= seq![TokenV::Number(a)]);
    assert(s1.operators =~= Seq::<TokenV>::empty());
    assert(spec_yard_step(toks, ctx, 0, s0) == Ok::<YardState, ErrorKind>(s1));
    let s2 = spec_push_binary(ctx, s1, toks[1], op1).unwrap();
    assert(s2.output =~= seq![TokenV::Number(a)]);
    assert(s2.operators =~= seq![TokenV::BinaryOperator(op1)]);
    assert(spec_yard_step(toks, ctx, 1, s1) == Ok::<YardState, ErrorKind>(s2));
    let s3 = spec_push_number(ctx, s2, toks[2]);
    assert(s3.output =~= seq![TokenV::Number(a), TokenV::Number(b)]);
    assert(s3.operators =~= seq![TokenV::BinaryOperator(op1)]);
    assert(spec_yard_step(toks, ctx, 2, s2) == Ok::<YardState, ErrorKind>(s3));
    let s4 = spec_push_binary(ctx, s3, toks[3], op2).unwrap();
    assert(spec_yard_step(toks, ctx, 3, s3) == Ok::<YardState, ErrorKind>(s4));
    let pops = e1.precedence.spec_rank() > e2.precedence.spec_rank() || (
    e1.precedence.spec_rank() == e2.precedence.spec_rank() && e1.associativity
        == Associativity::Left);
    if pops {
        assert(s3.operators.drop_last() =~= Seq::<TokenV>::empty());
        assert(spec_bin_pop(ctx, e2, s3.output, s3.operators) == spec_bin_pop(
            ctx,
            e2,
            s3.output.push(TokenV::BinaryOperator(op1)),
            s3.operators.drop_last(),
        ));
        assert(spec_bin_pop(
            ctx,
            e2,
            s3.output.push(TokenV::BinaryOperator(op1)),
            s3.operators.drop_last(),
        ) == (s3.output.push(TokenV::BinaryOperator(op1)), s3.operators.drop_last()));
        assert(s4.output =~= seq![
            TokenV::Number(a),
            TokenV::Number(b),
            TokenV::BinaryOperator(op1),
        ]);
        assert(s4.operators =~= seq![TokenV::BinaryOperator(op2)]);
        let s5 = spec_push_number(ctx, s4, toks[4]);
        assert(s5.output =~= seq![
            TokenV::Number(a),
            TokenV::Number(b),
            TokenV::BinaryOperator(op1),
            TokenV::Number(c),
        ]);
        assert(s5.operators =~= seq![TokenV::BinaryOperator(op2)]);
        assert(spec_yard_step(toks, ctx, 4, s4) == Ok::<YardState, ErrorKind>(s5));
        assert(s5.operators.drop_last() =~= Seq::<TokenV>::empty());
        assert(spec_drain(s5.output, s5.operators) == spec_drain(
            s5.output.push(TokenV::BinaryOperator(op2)),
            s5.operators.drop_last(),
        ));
        assert(spec_drain(s5.output.push(TokenV::BinaryOperator(op2)), s5.operators.drop_last())
            == Ok::<Seq<TokenV>, ErrorKind>(s5.output.push(TokenV::BinaryOperator(op2))));
        assert(s5.output.push(TokenV::BinaryOperator(op2)) =~= seq![
            TokenV::Number(a),
            TokenV::Number(b),
            TokenV::BinaryOperator(op1),
            TokenV::Number(c),
            TokenV::BinaryOperator(op2),
        ]);
        assert(spec_yard_from(toks, ctx, 5, s5) == Ok::<Seq<TokenV>, ErrorKind>(
            s5.output.push(TokenV::BinaryOperator(op2)),
        ));
        assert(spec_yard_from(toks, ctx, 4, s4) == spec_yard_from(toks, ctx, 5, s5));
        assert(spec_yard_from(toks, ctx, 3, s3) == spec_yard_from(toks, ctx, 4, s4));
        assert(spec_yard_from(toks, ctx, 2, s2) == spec_yard_from(toks, ctx, 3, s3));
        assert(spec_yard_from(toks, ctx, 1, s1) == spec_yard_from(toks, ctx, 2, s2));
        assert(spec_yard_from(toks, ctx, 0, s0) == spec_yard_from(toks, ctx, 1, s1));
    } else {
        assert(s4.output =~= seq![TokenV::Number(a), TokenV::Number(b)]);
        assert(s4.operators =~= seq![
            TokenV::BinaryOperator(op1),
            TokenV::BinaryOperator(op2),
        ]);
        let s5 = spec_push_number(ctx, s4, toks[4]);
        assert(s5.output =~= seq![
            TokenV::Number(a),
            TokenV::Number(b),
            TokenV::Number(c),
        ]);
        assert(s5.operators =~= seq![
            TokenV::BinaryOperator(op1),
            TokenV::BinaryOperator(op2),
        ]);
        assert(spec_yard_step(toks, ctx, 4, s4) == Ok::<YardState, ErrorKind>(s5));
        assert(s5.operators.drop_last() =~= seq![TokenV::BinaryOperator(op1)]);
        assert(s5.operators.drop_last().drop_last() =~= Seq::<TokenV>::empty());
        let d1 = s5.output.push(TokenV::BinaryOperator(op2));
        let d2 = d1.push(TokenV::BinaryOperator(op1));
        assert(spec_drain(s5.output, s5.operators) == spec_drain(
            d1,
            s5.operators.drop_last(),
        ));
        assert(spec_drain(d1, s5.operators.drop_last()) == spec_drain(
            d2,
            s5.operators.drop_last().drop_last(),
        ));
        assert(spec_drain(d2, s5.operators.drop_last().drop_last()) == Ok::<
            Seq<TokenV>,
            ErrorKind,
        >(d2));
        assert(d2 =~= seq![
            TokenV::Number(a),
            TokenV::Number(b),
            TokenV::Number(c),
            TokenV::BinaryOperator(op2),
            TokenV::BinaryOperator(op1),
        ]);
        assert(spec_yard_from(toks, ctx, 5, s5) == Ok::<Seq<TokenV>, ErrorKind>(d2));
        assert(spec_yard_from(toks, ctx, 4, s4) == spec_yard_from(toks, ctx, 5, s5));
        assert(spec_yard_from(toks, ctx, 3, s3) == spec_yard_from(toks, ctx, 4, s4));
        assert(spec_yard_from(toks, ctx, 2, s2) == spec_yard_from(toks, ctx, 3, s3));
        assert(spec_yard_from(toks, ctx, 1, s1) == spec_yard_from(toks, ctx, 2, s2));
        assert(spec_yard_from(toks, ctx, 0, s0) == spec_yard_from(toks, ctx, 1, s1));
    }
}


/// The opens still pending on the operator stack, bottom to top.
pub open spec fn opens_of(s: Seq<TokenV>) -> Seq<char>
    decreases s.len(),
{
    if s.len() == 0 {
        Seq::empty()
    } else {
        match s.last() {
            TokenV::GroupingOpen(c) => opens_of(s.drop_last()).push(c),
            _ => opens_of(s.drop_last()),
        }
    }
}

/// Whether the grouping tokens of the input nest properly under the
/// configured pairs, simulated with a stack of open characters.
pub open spec fn group_sim(tokens: Seq<TokenV>, grouping: Seq<GroupingSymbol>, i: int, stack: Seq<
    char,
>) -> bool
    decreases tokens.len() - i,
{
    if i < 0 || i >= tokens.len() {
        stack.len() == 0
    } else {
        match tokens[i] {
            TokenV::GroupingOpen(c) => group_sim(tokens, grouping, i + 1, stack.push(c)),
            TokenV::GroupingClose(c) => stack.len() > 0 && (match group_for(
                grouping,
                stack.last(),
            ) {
                Some(g) => g.group_close == c,
                None => false,
            }) && group_sim(tokens, grouping, i + 1, stack.drop_last()),
            _ => group_sim(tokens, grouping, i + 1, stack),
        }
    }
}

/// Whether every grouping token of the input is properly matched.
pub open spec fn groups_balanced(tokens: Seq<TokenV>, grouping: Seq<GroupingSymbol>) -> bool {
    group_sim(tokens, grouping, 0, Seq::empty())
}

/// Appending a token appends its open, if it is one.
proof fn lemma_opens_push(s: Seq<TokenV>, t: TokenV)
    ensures
        opens_of(s.push(t)) == (match t {
            TokenV::GroupingOpen(c) => opens_of(s).push(c),
            _ => opens_of(s),
        }),
{
    assert(s.push(t).drop_last() =~= s);
}

/// Popping ahead of a binary operator leaves the pending opens alone.
proof fn lemma_bin_pop_opens(ctx: CtxV, entry: BinaryEntry, output: Seq<TokenV>, operators: Seq<
    TokenV,
>)
    ensures
        opens_of(spec_bin_pop(ctx, entry, output, operators).1) == opens_of(operators),
    decreases operators.len(),
{
    if operators.len() > 0 {
        let t = operators.last();
        match t {
            TokenV::GroupingOpen(c) => {},
            TokenV::Function(f) => {
                lemma_bin_pop_opens(ctx, entry, output.push(t), operators.drop_last());
            },
            TokenV::BinaryOperator(op) => {
                match ctx.binops.get(fold(op)) {
                    Some(top) => {
                        if top.precedence.spec_rank() > entry.precedence.spec_rank() || (
                        top.precedence.spec_rank() == entry.precedence.spec_rank()
                            && top.associativity == Associativity::Left) {
                            lemma_bin_pop_opens(ctx, entry, output.push(t), operators.drop_last());
                        }
                    },
                    None => {},
                }
            },
            _ => {},
        }
    }
}

/// Flushing an argument leaves the pending opens alone.
proof fn lemma_comma_pop_opens(output: Seq<TokenV>, operators: Seq<TokenV>)
    ensures
        spec_comma_pop(output, operators) matches Ok(t) ==> opens_of(t.1) == opens_of(operators),
    decreases operators.len(),
{
    if operators.len() > 0 && !(operators.last() is GroupingOpen) {
        lemma_comma_pop_opens(output.push(operators.last()), operators.drop_last());
    }
}

/// A successful close retires exactly the innermost pending open, whose
/// pair closes with the read character.
proof fn lemma_close_pop_opens(ctx: CtxV, c: char, output: Seq<TokenV>, operators: Seq<TokenV>, arg_count: Seq<
    usize,
>)
    ensures
        spec_close_pop(ctx, c, output, operators, arg_count) matches Ok(t) ==> {
            &&& opens_of(operators).len() > 0
            &&& (match group_for(ctx.grouping, opens_of(operators).last()) {
                Some(g) => g.group_close == c,
                None => false,
            })
            &&& opens_of(t.1) == opens_of(operators).drop_last()
        },
    decreases operators.len(),
{
    if operators.len() > 0 {
        let t = operators.last();
        match t {
            TokenV::GroupingOpen(o) => {
                let matched = match group_for(ctx.grouping, o) {
                    Some(g) => g.group_close == c,
                    None => false,
                };
                if matched {
                    let rest = operators.drop_last();
                    assert(opens_of(operators) == opens_of(rest).push(o));
                    assert(opens_of(operators).drop_last() =~= opens_of(rest));
                    if arg_count.len() > 0 && rest.len() > 0 && rest.last() is Function {
                        assert(rest.drop_last().push(rest.last()) =~= rest);
                        assert(opens_of(rest.drop_last()) == opens_of(rest));
                    }
                }
            },
            _ => {
                lemma_close_pop_opens(
                    ctx,
                    c,
                    output.push(t),
                    operators.drop_last(),
                    arg_count,
                );
            },
        }
    }
}

/// A successful drain leaves no pending open behind.
proof fn lemma_drain_opens(output: Seq<TokenV>, operators: Seq<TokenV>)
    ensures
        spec_drain(output, operators) matches Ok(rpn) ==> opens_of(operators) == Seq::<
            char,
        >::empty(),
    decreases operators.len(),
{
    if operators.len() > 0 && !(operators.last().is_grouping_open()
        || operators.last().is_grouping_close()) {
        lemma_drain_opens(output.push(operators.last()), operators.drop_last());
        assert(opens_of(operators) == opens_of(operators.drop_last()));
    }
}

/// An atom's pending-unary move leaves the pending opens alone.
proof fn lemma_push_number_opens(ctx: CtxV, st: YardState, t: TokenV)
    requires
        !(t is GroupingOpen),
    ensures
        opens_of(spec_push_number(ctx, st, t).operators) == opens_of(st.operators),
{
    let pushed = YardState { output: st.output.push(t), ..st };
    if pushed.operators.len() > 0 {
        match pushed.operators.last() {
            TokenV::UnaryOperator(op) => {},
            _ => {},
        }
    }
}

/// A successful pass consumes the input with the simulation stack always
/// matching the pending opens.
proof fn lemma_yard_from_balanced(tokens: Seq<TokenV>, ctx: CtxV, i: int, st: YardState)
    requires
        0 <= i <= tokens.len(),
    ensures
        spec_yard_from(tokens, ctx, i, st) matches Ok(rpn) ==> group_sim(
            tokens,
            ctx.grouping,
            i,
            opens_of(st.operators),
        ),
    decreases tokens.len() - i,
{
    if i >= tokens.len() {
        lemma_drain_opens(st.output, st.operators);
    } else {
        match spec_yard_step(tokens, ctx, i, st) {
            Err(k) => {},
            Ok(next) => {
                lemma_yard_from_balanced(tokens, ctx, i + 1, next);
                let t = tokens[i];
                match t {
                    TokenV::Number(v) => {
                        lemma_push_number_opens(ctx, st, t);
                    },
                    TokenV::Variable(name) => {
                        lemma_push_number_opens(ctx, st, t);
                    },
                    TokenV::Constant(name) => {
                        lemma_push_number_opens(ctx, st, t);
                    },
                    TokenV::BinaryOperator(name) => {
                        let entry = ctx.binops.get(fold(name)).unwrap();
                        lemma_bin_pop_opens(ctx, entry, st.output, st.operators);
                        lemma_opens_push(
                            spec_bin_pop(ctx, entry, st.output, st.operators).1,
                            t,
                        );
                    },
                    TokenV::UnaryOperator(name) => {
                        lemma_opens_push(st.operators, t);
                    },
                    TokenV::Function(name) => {
                        lemma_opens_push(st.operators, t);
                    },
                    TokenV::GroupingOpen(c) => {
                        lemma_opens_push(st.operators, t);
                    },
                    TokenV::GroupingClose(c) => {
                        lemma_close_pop_opens(ctx, c, st.output, st.operators, st.arg_count);
                    },
                    TokenV::Comma => {
                        lemma_comma_pop_opens(st.output, st.operators);
                    },
                    TokenV::ArgCount(k) => {},
                }
                if ctx.implicit_mul && spec_inject_mul(tokens, i) {
                    lemma_opens_push(
                        (match spec_yard_step_pre_mul(tokens, ctx, i, st) {
                            Ok(m) => m,
                            Err(k) => st,
                        }).operators,
                        TokenV::BinaryOperator("*"@),
                    );
                }
            },
        }
    }
}

/// Grouping balance: an input whose grouping tokens do not nest properly
/// under the configured pairs is never converted; the pass rejects it.
pub proof fn lemma_grouping_balance(tokens: Seq<TokenV>, ctx: CtxV)
    ensures
        !groups_balanced(tokens, ctx.grouping) ==> spec_infix_to_rpn(tokens, ctx) is Err,
{
    lemma_yard_from_balanced(tokens, ctx, 0, yard_init());
    assert(opens_of(yard_init().operators) =~= Seq::<char>::empty());
}


/// Whether the token at `i` closes an empty grouping pair that is no
/// function call site: an open directly before it that pairs with it,
/// with no function in front.
pub open spec fn empty_group_at(tokens: Seq<TokenV>, grouping: Seq<GroupingSymbol>, i: int) -> bool {
    &&& 1 < i < tokens.len()
    &&& tokens[i] matches TokenV::GroupingClose(c)
    &&& (tokens[i - 1] matches TokenV::GroupingOpen(o) && open_for(grouping, c) == Some(o))
    &&& !tokens[i - 2].is_function()
}

/// A successful pass leaves no empty grouping pair behind any position
/// still to be read.
proof fn lemma_yard_from_no_empty(tokens: Seq<TokenV>, ctx: CtxV, j: int, st: YardState)
    requires
        0 <= j,
    ensures
        spec_yard_from(tokens, ctx, j, st) is Ok ==> forall|i: int|
            j <= i < tokens.len() ==> !#[trigger] empty_group_at(tokens, ctx.grouping, i),
    decreases tokens.len() - j,
{
    if j < tokens.len() {
        match spec_yard_step(tokens, ctx, j, st) {
            Err(k) => {},
            Ok(next) => {
                lemma_yard_from_no_empty(tokens, ctx, j + 1, next);
            },
        }
    }
}

/// Empty grouping: a pair that opens and at once closes without being a
/// function call site is never converted; the pass rejects it.
pub proof fn lemma_empty_grouping_rejected(tokens: Seq<TokenV>, ctx: CtxV)
    ensures
        (exists|i: int| #[trigger] empty_group_at(tokens, ctx.grouping, i)) ==> spec_infix_to_rpn(
            tokens,
            ctx,
        ) is Err,
{
    if exists|i: int| #[trigger] empty_group_at(tokens, ctx.grouping, i) {
        lemma_yard_from_no_empty(tokens, ctx, 0, yard_init());
    }
}

} // verus!

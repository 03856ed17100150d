//! The tokenizer: an infix expression string becomes a sequence of typed
//! tokens, classified against a context.
//!
//! Scanning runs left to right, skipping whitespace.  A leading digit or
//! decimal point starts a numeric literal, a letter or underscore an
//! identifier, a configured grouping character a grouping token, a comma
//! the argument separator; any other character starts an operator symbol,
//! matched greedily against the registered operator names.  Two numeric
//! literals in direct succession are rejected.

use vstd::prelude::*;

use crate::context::{group_for, CtxV, DefaultContext};
use crate::error::{Error, ErrorKind};
use crate::function::Notation;
use crate::ignore_case::fold;
use crate::token::{views_of, Token, TokenV};

verus! {

/// The whitespace characters the tokenizer skips.
pub open spec fn is_whitespace_char(c: char) -> bool {
    c == ' ' || c == '\t' || c == '\r' || c == '\n'
}

/// A decimal digit.
pub open spec fn is_digit_char(c: char) -> bool {
    '0' <= c && c <= '9'
}

/// An ASCII letter.
pub open spec fn is_letter_char(c: char) -> bool {
    ('a' <= c && c <= 'z') || ('A' <= c && c <= 'Z')
}

/// A character that may start an identifier.
pub open spec fn is_ident_start_char(c: char) -> bool {
    is_letter_char(c) || c == '_'
}

/// A character that may continue an identifier.
pub open spec fn is_ident_char(c: char) -> bool {
    is_ident_start_char(c) || is_digit_char(c)
}

/// A character that may belong to a numeric literal.
pub open spec fn is_number_char(c: char) -> bool {
    is_digit_char(c) || c == '.'
}

/// The end of the numeric literal that starts at `i`: the first later
/// position that holds no numeric character.
pub open spec fn number_end(s: Seq<char>, i: int) -> int
    decreases s.len() - i,
{
    if i < 0 || i >= s.len() || !is_number_char(s[i]) {
        i
    } else {
        number_end(s, i + 1)
    }
}

/// The end of the identifier that starts at `i`.
pub open spec fn ident_end(s: Seq<char>, i: int) -> int
    decreases s.len() - i,
{
    if i < 0 || i >= s.len() || !is_ident_char(s[i]) {
        i
    } else {
        ident_end(s, i + 1)
    }
}

/// A literal's end lies between its start and the end of the input.
pub proof fn lemma_number_end_bounds(s: Seq<char>, i: int)
    requires
        0 <= i <= s.len(),
    ensures
        i <= number_end(s, i) <= s.len(),
    decreases s.len() - i,
{
    if i < s.len() && is_number_char(s[i]) {
        lemma_number_end_bounds(s, i + 1);
    }
}

/// An identifier's end lies between its start and the end of the input.
pub proof fn lemma_ident_end_bounds(s: Seq<char>, i: int)
    requires
        0 <= i <= s.len(),
    ensures
        i <= ident_end(s, i) <= s.len(),
    decreases s.len() - i,
{
    if i < s.len() && is_ident_char(s[i]) {
        lemma_ident_end_bounds(s, i + 1);
    }
}

/// The value of a sequence of decimal digits.
pub open spec fn digits_value(s: Seq<char>) -> int
    decreases s.len(),
{
    if s.len() == 0 {
        0
    } else {
        digits_value(s.drop_last()) * 10 + (s.last() as int - '0' as int)
    }
}

/// Whether some character of the sequence equals `c`.
pub open spec fn has_char(s: Seq<char>, c: char) -> bool {
    exists|k: int| 0 <= k < s.len() && s[k] == c
}

/// What the numeric literal `lex` denotes: its digit value, unless it
/// holds a decimal point or exceeds the 64-bit range, which the integer
/// backend cannot represent.
pub open spec fn spec_parse_number(lex: Seq<char>) -> Result<i64, ErrorKind> {
    if has_char(lex, '.') {
        Err(ErrorKind::InvalidInput)
    } else if digits_value(lex) > i64::MAX {
        Err(ErrorKind::InvalidInput)
    } else {
        Ok(digits_value(lex) as i64)
    }
}

/// How a context classifies an identifier, in priority order: function,
/// binary operator, unary operator, constant (the identifier `i` counts
/// as a constant when complex numbers are enabled), else a variable.
pub open spec fn spec_classify_ident(ctx: CtxV, name: Seq<char>) -> TokenV {
    if ctx.funcs.contains_key(fold(name)) {
        TokenV::Function(name)
    } else if ctx.binops.contains_key(fold(name)) {
        TokenV::BinaryOperator(name)
    } else if ctx.unops.contains_key(fold(name)) {
        TokenV::UnaryOperator(name)
    } else if ctx.consts.contains_key(fold(name)) || (ctx.complex_number && fold(name) == fold(
        "i"@,
    )) {
        TokenV::Constant(name)
    } else {
        TokenV::Variable(name)
    }
}

/// Whether the name is registered as a unary or binary operator.
pub open spec fn is_registered_op(ctx: CtxV, name: Seq<char>) -> bool {
    ctx.unops.contains_key(fold(name)) || ctx.binops.contains_key(fold(name))
}

/// The length of the longest registered operator name that starts at `i`,
/// among lengths up to `l`; zero if none is registered.
pub open spec fn longest_op_len(s: Seq<char>, ctx: CtxV, i: int, l: int) -> int
    decreases l,
{
    if l <= 0 {
        0
    } else if is_registered_op(ctx, s.subrange(i, i + l)) {
        l
    } else {
        longest_op_len(s, ctx, i, l - 1)
    }
}

/// The longest registered length is at most the allowance.
pub proof fn lemma_longest_op_len_bounds(s: Seq<char>, ctx: CtxV, i: int, l: int)
    requires
        0 <= l,
    ensures
        0 <= longest_op_len(s, ctx, i, l) <= l,
    decreases l,
{
    if l > 0 && !is_registered_op(ctx, s.subrange(i, i + l)) {
        lemma_longest_op_len_bounds(s, ctx, i, l - 1);
    }
}

/// Whether an operator occurrence after `prev` is in prefix position: at
/// the expression start, or after a grouping-open, a comma, a binary
/// operator, or a prefix unary operator.
pub open spec fn in_prefix_position(ctx: CtxV, prev: Option<TokenV>) -> bool {
    match prev {
        None => true,
        Some(t) => match t {
            TokenV::GroupingOpen(c) => true,
            TokenV::Comma => true,
            TokenV::BinaryOperator(n) => true,
            TokenV::UnaryOperator(n) => match ctx.unops.get(fold(n)) {
                Some(e) => e.notation == Notation::Prefix,
                None => false,
            },
            _ => false,
        },
    }
}

/// Whether an operator occurrence after `prev` may be postfix: the
/// preceding token produces a value.
pub open spec fn after_value(ctx: CtxV, prev: Option<TokenV>) -> bool {
    match prev {
        None => false,
        Some(t) => match t {
            TokenV::Number(n) => true,
            TokenV::Constant(n) => true,
            TokenV::Variable(n) => true,
            TokenV::GroupingClose(c) => true,
            TokenV::UnaryOperator(n) => match ctx.unops.get(fold(n)) {
                Some(e) => e.notation == Notation::Postfix,
                None => false,
            },
            _ => false,
        },
    }
}

/// How an operator symbol is disambiguated against the previous token:
/// in prefix position a registered prefix unary operator is unary; after
/// a value a registered postfix unary operator is unary; anything else is
/// taken as a binary operator.
pub open spec fn spec_classify_op(ctx: CtxV, name: Seq<char>, prev: Option<TokenV>) -> TokenV {
    if in_prefix_position(ctx, prev) {
        if match ctx.unops.get(fold(name)) {
            Some(e) => e.notation == Notation::Prefix,
            None => false,
        } {
            TokenV::UnaryOperator(name)
        } else {
            TokenV::BinaryOperator(name)
        }
    } else if (match ctx.unops.get(fold(name)) {
        Some(e) => e.notation == Notation::Postfix,
        None => false,
    }) && after_value(ctx, prev) {
        TokenV::UnaryOperator(name)
    } else {
        TokenV::BinaryOperator(name)
    }
}

/// The last token already produced, if any.
pub open spec fn last_of(acc: Seq<TokenV>) -> Option<TokenV> {
    if acc.len() == 0 {
        None
    } else {
        Some(acc.last())
    }
}

/// The tokens of the input from position `i` on, appended to `acc`, or
/// the first scanning error.
pub open spec fn spec_tokenize_from(s: Seq<char>, ctx: CtxV, i: int, acc: Seq<TokenV>) -> Result<
    Seq<TokenV>,
    ErrorKind,
>
    decreases s.len() - i via spec_tokenize_from_decreases
{
    if i < 0 || i >= s.len() {
        Ok(acc)
    } else if is_whitespace_char(s[i]) {
        spec_tokenize_from(s, ctx, i + 1, acc)
    } else if is_number_char(s[i]) {
        if acc.len() > 0 && acc.last() is Number {
            Err(ErrorKind::InvalidInput)
        } else {
            let j = number_end(s, i);
            match spec_parse_number(s.subrange(i, j)) {
                Ok(v) => spec_tokenize_from(s, ctx, j, acc.push(TokenV::Number(v))),
                Err(k) => Err(k),
            }
        }
    } else if is_ident_start_char(s[i]) {
        let j = ident_end(s, i);
        spec_tokenize_from(s, ctx, j, acc.push(spec_classify_ident(ctx, s.subrange(i, j))))
    } else if group_for(ctx.grouping, s[i]) is Some {
        let g = group_for(ctx.grouping, s[i]).unwrap();
        let t = if g.group_open == s[i] {
            TokenV::GroupingOpen(s[i])
        } else {
            TokenV::GroupingClose(s[i])
        };
        spec_tokenize_from(s, ctx, i + 1, acc.push(t))
    } else if s[i] == ',' {
        spec_tokenize_from(s, ctx, i + 1, acc.push(TokenV::Comma))
    } else {
        let l = longest_op_len(s, ctx, i, s.len() - i);
        if l == 0 {
            Err(ErrorKind::InvalidInput)
        } else {
            let name = s.subrange(i, i + l);
            spec_tokenize_from(s, ctx, i + l, acc.push(spec_classify_op(ctx, name, last_of(acc))))
        }
    }
}

#[via_fn]
proof fn spec_tokenize_from_decreases(s: Seq<char>, ctx: CtxV, i: int, acc: Seq<TokenV>) {
    if 0 <= i < s.len() {
        if is_whitespace_char(s[i]) {
        } else if is_number_char(s[i]) {
            lemma_number_end_bounds(s, i);
            assert(number_end(s, i) == number_end(s, i + 1));
            lemma_number_end_bounds(s, i + 1);
        } else if is_ident_start_char(s[i]) {
            lemma_ident_end_bounds(s, i);
            assert(ident_end(s, i) == ident_end(s, i + 1));
            lemma_ident_end_bounds(s, i + 1);
        } else {
            lemma_longest_op_len_bounds(s, ctx, i, s.len() - i);
        }
    }
}

/// What the tokenizer returns on the whole input.
pub open spec fn spec_tokenize(s: Seq<char>, ctx: CtxV) -> Result<Seq<TokenV>, ErrorKind> {
    spec_tokenize_from(s, ctx, 0, Seq::empty())
}

/// Whether an executable token result agrees with a specification result.
pub open spec fn toks_res_matches(
    r: Result<Vec<Token>, Error>,
    s: Result<Seq<TokenV>, ErrorKind>,
) -> bool {
    match r {
        Ok(v) => match s {
            Ok(ts) => views_of(v@) == ts,
            Err(k) => false,
        },
        Err(e) => match s {
            Ok(ts) => false,
            Err(k) => e.spec_kind() == k,
        },
    }
}

/// Appending a token appends its image.
proof fn lemma_views_push(ts: Seq<Token>, t: Token)
    ensures
        views_of(ts.push(t)) == views_of(ts).push(t@),
{
    assert(views_of(ts.push(t)) =~= views_of(ts).push(t@));
}

/// The value of a digit sequence is never negative.
proof fn lemma_digits_value_nonneg(s: Seq<char>)
    requires
        forall|k: int| 0 <= k < s.len() ==> is_digit_char(#[trigger] s[k]),
    ensures
        digits_value(s) >= 0,
    decreases s.len(),
{
    if s.len() > 0 {
        lemma_digits_value_nonneg(s.drop_last());
        assert(digits_value(s.drop_last()) * 10 >= 0) by (nonlinear_arith)
            requires
                digits_value(s.drop_last()) >= 0,
        ;
    }
}

/// A prefix of a digit sequence denotes no more than the whole.
proof fn lemma_digits_value_prefix_le(s: Seq<char>, m: int)
    requires
        forall|k: int| 0 <= k < s.len() ==> is_digit_char(#[trigger] s[k]),
        0 <= m <= s.len(),
    ensures
        digits_value(s.take(m)) <= digits_value(s),
    decreases s.len() - m,
{
    if m == s.len() {
        assert(s.take(m) =~= s);
    } else {
        lemma_digits_value_prefix_le(s, m + 1);
        assert(s.take(m + 1).drop_last() =~= s.take(m));
        let p = digits_value(s.take(m));
        assert(forall|k: int| 0 <= k < s.take(m).len() ==> is_digit_char(#[trigger] s.take(m)[k]));
        lemma_digits_value_nonneg(s.take(m));
        assert(p <= p * 10) by (nonlinear_arith)
            requires
                p >= 0,
        ;
    }
}

fn is_whitespace_exec(c: char) -> (r: bool)
    ensures
        r == is_whitespace_char(c),
{
    c == ' ' || c == '\t' || c == '\r' || c == '\n'
}

fn is_digit_exec(c: char) -> (r: bool)
    ensures
        r == is_digit_char(c),
{
    '0' <= c && c <= '9'
}

fn is_number_char_exec(c: char) -> (r: bool)
    ensures
        r == is_number_char(c),
{
    is_digit_exec(c) || c == '.'
}

fn is_ident_start_exec(c: char) -> (r: bool)
    ensures
        r == is_ident_start_char(c),
{
    ('a' <= c && c <= 'z') || ('A' <= c && c <= 'Z') || c == '_'
}

fn is_ident_char_exec(c: char) -> (r: bool)
    ensures
        r == is_ident_char(c),
{
    is_ident_start_exec(c) || is_digit_exec(c)
}

/// The end of the numeric literal that starts at `i`.
fn scan_number_end(expression: &str, i: usize, n: usize) -> (j: usize)
    requires
        n == expression@.len(),
        i <= n,
    ensures
        i <= j <= n,
        j as int == number_end(expression@, i as int),
        forall|m: int| i <= m < j ==> is_number_char(#[trigger] expression@[m]),
{
    let ghost s = expression@;
    let mut j = i;
    while j < n && is_number_char_exec(expression.get_char(j))
        invariant
            i <= j <= n,
            n == s.len(),
            s == expression@,
            number_end(s, i as int) == number_end(s, j as int),
            forall|m: int| i <= m < j ==> is_number_char(#[trigger] s[m]),
        decreases n - j,
    {
        j = j + 1;
    }
    j
}

/// The end of the identifier that starts at `i`.
fn scan_ident_end(expression: &str, i: usize, n: usize) -> (j: usize)
    requires
        n == expression@.len(),
        i <= n,
    ensures
        i <= j <= n,
        j as int == ident_end(expression@, i as int),
{
    let ghost s = expression@;
    let mut j = i;
    while j < n && is_ident_char_exec(expression.get_char(j))
        invariant
            i <= j <= n,
            n == s.len(),
            s == expression@,
            ident_end(s, i as int) == ident_end(s, j as int),
        decreases n - j,
    {
        j = j + 1;
    }
    j
}

/// The length of the longest registered operator name at `i`, or zero.
fn longest_op_exec(expression: &str, context: &DefaultContext, i: usize, n: usize) -> (l: usize)
    requires
        n == expression@.len(),
        i < n,
    ensures
        l as int == longest_op_len(expression@, context@, i as int, n - i),
        l <= n - i,
    {
    let ghost s = expression@;
    let ghost ctx = context@;
    let mut l: usize = n - i;
    while l > 0
        invariant
            l <= n - i,
            n == s.len(),
            s == expression@,
            ctx == context@,
            i < n,
            longest_op_len(s, ctx, i as int, n - i) == longest_op_len(s, ctx, i as int, l as int),
        decreases l,
    {
        let cand = expression.substring_char(i, i + l);
        if context.is_unary_function(cand) || context.is_binary_function(cand) {
            return l;
        }
        l = l - 1;
    }
    0
}

/// Parses the digits of a literal known to hold no decimal point.
fn parse_digits(expression: &str, i: usize, j: usize) -> (res: Result<i64, Error>)
    requires
        i <= j <= expression@.len(),
        forall|k: int| i <= k < j ==> is_digit_char(#[trigger] expression@[k]),
    ensures
        res_matches_num(res, expression@.subrange(i as int, j as int)),
{
    let ghost s = expression@;
    let ghost lex = s.subrange(i as int, j as int);
    proof {
        assert(forall|k: int| 0 <= k < lex.len() ==> is_digit_char(#[trigger] lex[k]));
    }
    let mut value: i64 = 0;
    let mut k = i;
    proof {
        assert(lex.take(0) =~= Seq::<char>::empty());
    }
    while k < j
        invariant
            i <= k <= j <= s.len(),
            s == expression@,
            lex == s.subrange(i as int, j as int),
            forall|m: int| 0 <= m < lex.len() ==> is_digit_char(#[trigger] lex[m]),
            value == digits_value(lex.take(k - i)),
            value >= 0,
        decreases j - k,
    {
        let c = expression.get_char(k);
        proof {
            assert(lex[k - i] == s[k as int]);
        }
        let d = (c as u32 - 48) as i64;
        proof {
            assert(lex.take(k - i + 1).drop_last() =~= lex.take(k - i));
            assert(lex.take(k - i + 1).last() == lex[k - i]);
        }
        let next = match value.checked_mul(10) {
            Some(v) => v.checked_add(d),
            None => None,
        };
        match next {
            Some(v) => {
                value = v;
            },
            None => {
                proof {
                    lemma_digits_value_prefix_le(lex, k - i + 1);
                }
                return Err(Error::of_kind(ErrorKind::InvalidInput));
            },
        }
        k = k + 1;
    }
    proof {
        assert(lex.take(j - i) =~= lex);
    }
    Ok(value)
}

/// Whether a parse result agrees with the meaning of a digit-only lexeme.
spec fn res_matches_num(res: Result<i64, Error>, lex: Seq<char>) -> bool {
    match res {
        Ok(v) => !(digits_value(lex) > i64::MAX) && v == digits_value(lex),
        Err(e) => digits_value(lex) > i64::MAX && e.spec_kind() == ErrorKind::InvalidInput,
    }
}

/// Tokenizes an infix expression against a context: the token sequence
/// of the input, or the first scanning error.
///
/// Tokenization is total: it takes any input without precondition and
/// returns either a token sequence or exactly one error, never more.
pub fn tokenize(expression: &str, context: &DefaultContext) -> (res: Result<Vec<Token>, Error>)
    ensures
        toks_res_matches(res, spec_tokenize(expression@, context@)),
{
    let ghost s = expression@;
    let ghost ctx = context@;
    let n = expression.unicode_len();
    let mut out: Vec<Token> = Vec::new();
    let mut i: usize = 0;
    proof {
        assert(views_of(out@) =~= Seq::<TokenV>::empty());
    }
    while i < n
        invariant
            i <= n,
            n == s.len(),
            s == expression@,
            ctx == context@,
            spec_tokenize(s, ctx) == spec_tokenize_from(s, ctx, i as int, views_of(out@)),
        decreases n - i,
    {
        let c = expression.get_char(i);
        if is_whitespace_exec(c) {
            i = i + 1;
        } else if is_number_char_exec(c) {
            // Two adjacent numeric literals never form an expression:
            // no grammar joins them, and implicit multiplication leaves
            // digit-to-digit adjacency out on purpose.
            if out.len() > 0 && matches!(&out[out.len() - 1], Token::Number(_)) {
                proof {
                    assert(views_of(out@).last() == out@.last()@);
                }
                return Err(Error::new(ErrorKind::InvalidInput, "adjacent numeric literals"));
            }
            let j = scan_number_end(expression, i, n);
            let ghost lex = s.subrange(i as int, j as int);
            proof {
                assert(number_end(s, i as int) == number_end(s, i + 1));
                lemma_number_end_bounds(s, i + 1);
            }
            // Scan the lexeme for a decimal point, which the integer
            // backend cannot represent.
            let mut k = i;
            let mut has_dot = false;
            while k < j
                invariant
                    i <= k <= j <= n,
                    n == s.len(),
                    s == expression@,
                    lex == s.subrange(i as int, j as int),
                    has_dot == has_char(lex.take(k - i), '.'),
                    forall|m: int| i <= m < j ==> is_number_char(#[trigger] s[m]),
                decreases j - k,
            {
                proof {
                    assert(is_number_char(s[k as int]));
                    assert(lex.take(k - i + 1).drop_last() =~= lex.take(k - i));
                    assert(lex.take(k - i + 1).last() == s[k as int]);
                }
                if expression.get_char(k) == '.' {
                    has_dot = true;
                    proof {
                        assert(lex.take(k - i + 1)[k - i] == '.');
                    }
                } else {
                    proof {
                        if has_char(lex.take(k - i + 1), '.') {
                            let w = choose|w: int|
                                0 <= w < lex.take(k - i + 1).len() && #[trigger] lex.take(
                                    k - i + 1,
                                )[w] == '.';
                            assert(w < k - i + 1);
                            if w == k - i {
                                assert(false);
                            } else {
                                assert(lex.take(k - i)[w] == '.');
                            }
                        }
                    }
                }
                k = k + 1;
            }
            proof {
                assert(lex.take(j - i) =~= lex);
            }
            if has_dot {
                return Err(Error::of_kind(ErrorKind::InvalidInput));
            }
            proof {
                assert(!has_char(lex, '.'));
                assert forall|m: int| 0 <= m < lex.len() implies is_digit_char(
                    #[trigger] lex[m],
                ) by {
                    assert(lex[m] == s[i + m]);
                    assert(is_number_char(s[i + m]));
                    if lex[m] == '.' {
                        assert(has_char(lex, '.'));
                    }
                }
                assert forall|m: int| i <= m < j implies is_digit_char(
                    #[trigger] s[m],
                ) by {
                    assert(lex[m - i] == s[m]);
                    assert(is_digit_char(lex[m - i]));
                }
            }
            match parse_digits(expression, i, j) {
                Ok(v) => {
                    let ghost prev_out = out@;
                    out.push(Token::Number(v));
                    proof {
                        lemma_views_push(prev_out, Token::Number(v));
                    }
                    i = j;
                },
                Err(e) => {
                    return Err(e);
                },
            }
        } else if is_ident_start_exec(c) {
            let j = scan_ident_end(expression, i, n);
            proof {
                assert(ident_end(s, i as int) == ident_end(s, i + 1));
                lemma_ident_end_bounds(s, i + 1);
            }
            let name = expression.substring_char(i, j);
            let tok: Token = if context.is_function(name) {
                Token::Function(name.to_owned())
            } else if context.is_binary_function(name) {
                Token::BinaryOperator(name.to_owned())
            } else if context.is_unary_function(name) {
                Token::UnaryOperator(name.to_owned())
            } else if context.is_constant(name) {
                Token::Constant(name.to_owned())
            } else {
                let complex = context.config().complex_number();
                if complex && str_fold_eq_i(name) {
                    Token::Constant(name.to_owned())
                } else {
                    Token::Variable(name.to_owned())
                }
            };
            proof {
                assert(tok@ == spec_classify_ident(ctx, s.subrange(i as int, j as int)));
            }
            let ghost prev_out = out@;
            out.push(tok);
            proof {
                lemma_views_push(prev_out, out@.last());
            }
            i = j;
        } else {
            let grouped = context.config().get_group_symbol(c);
            match grouped {
                Some(g) => {
                    let tok: Token = if g.group_open == c {
                        Token::GroupingOpen(c)
                    } else {
                        Token::GroupingClose(c)
                    };
                    let ghost prev_out = out@;
                    out.push(tok);
                    proof {
                        lemma_views_push(prev_out, out@.last());
                    }
                    i = i + 1;
                },
                None => {
                    if c == ',' {
                        let ghost prev_out = out@;
                        out.push(Token::Comma);
                        proof {
                            lemma_views_push(prev_out, Token::Comma);
                        }
                        i = i + 1;
                    } else {
                        let l = longest_op_exec(expression, context, i, n);
                        if l == 0 {
                            return Err(Error::of_kind(ErrorKind::InvalidInput));
                        }
                        let name = expression.substring_char(i, i + l);
                        let tok = classify_op(context, name, &out);
                        let ghost prev_out = out@;
                        out.push(tok);
                        proof {
                            lemma_views_push(prev_out, out@.last());
                        }
                        i = i + l;
                    }
                },
            }
        }
    }
    proof {
        assert(spec_tokenize_from(s, ctx, n as int, views_of(out@)) == Ok::<
            Seq<TokenV>,
            ErrorKind,
        >(views_of(out@)));
    }
    Ok(out)
}

/// Whether the name folds like the single letter `i`.
fn str_fold_eq_i(name: &str) -> (r: bool)
    ensures
        r == (fold(name@) == fold("i"@)),
{
    crate::ignore_case::str_fold_eq(name, "i")
}

/// Disambiguates an operator symbol against the last produced token.
fn classify_op(context: &DefaultContext, name: &str, out: &Vec<Token>) -> (tok: Token)
    ensures
        tok@ == spec_classify_op(context@, name@, last_of(views_of(out@))),
{
    let ghost ctx = context@;
    let ghost prev = last_of(views_of(out@));
    let prefix_position: bool = if out.len() == 0 {
        true
    } else {
        let t = &out[out.len() - 1];
        proof {
            assert(views_of(out@).last() == t@);
        }
        match t {
            Token::GroupingOpen(g) => true,
            Token::Comma => true,
            Token::BinaryOperator(b) => true,
            Token::UnaryOperator(u) => {
                match context.get_unary_function(u.as_str()) {
                    Some(e) => e.notation == Notation::Prefix,
                    None => false,
                }
            },
            _ => false,
        }
    };
    if prefix_position {
        let prefix_unary = match context.get_unary_function(name) {
            Some(e) => e.notation == Notation::Prefix,
            None => false,
        };
        if prefix_unary {
            Token::UnaryOperator(name.to_owned())
        } else {
            Token::BinaryOperator(name.to_owned())
        }
    } else {
        let postfix_unary = match context.get_unary_function(name) {
            Some(e) => e.notation == Notation::Postfix,
            None => false,
        };
        let value_before: bool = if out.len() == 0 {
            false
        } else {
            let t = &out[out.len() - 1];
            proof {
                assert(views_of(out@).last() == t@);
            }
            match t {
                Token::Number(v) => true,
                Token::Constant(cn) => true,
                Token::Variable(vn) => true,
                Token::GroupingClose(g) => true,
                Token::UnaryOperator(u) => {
                    match context.get_unary_function(u.as_str()) {
                        Some(e) => e.notation == Notation::Postfix,
                        None => false,
                    }
                },
                _ => false,
            }
        };
        if postfix_unary && value_before {
            Token::UnaryOperator(name.to_owned())
        } else {
            Token::BinaryOperator(name.to_owned())
        }
    }
}

} // verus!

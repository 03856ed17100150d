//! The preloaded operator and function set of the integer backend, with
//! exact integer semantics.
//!
//! Every operation is specified as a function of its operands.  The
//! `checked` flavour reports `Overflow` where a result leaves the 64-bit
//! range; the unchecked flavour wraps around.  Operations whose exact
//! value is an integer (roots, logarithms, the sine and cosine of whole
//! degrees) truncate the exact mathematical value toward zero.

use vstd::arithmetic::power::pow;
use vstd::prelude::*;

use crate::error::{res_matches, Error, ErrorKind};
use crate::function::{
    Associativity, BinOpId, BinaryEntry, FuncId, FunctionEntry, Notation, Precedence, UnOpId,
    UnaryEntry,
};

verus! {

/// Addition: checked overflow or wrap-around.
pub open spec fn spec_add_op(l: i64, r: i64, checked: bool) -> Result<i64, ErrorKind> {
    if checked {
        match l.checked_add(r) {
            Some(v) => Ok(v),
            None => Err(ErrorKind::Overflow),
        }
    } else {
        Ok(vstd::wrapping::i64_specs::wrapping_add(l, r))
    }
}

/// Subtraction: checked overflow or wrap-around.
pub open spec fn spec_sub_op(l: i64, r: i64, checked: bool) -> Result<i64, ErrorKind> {
    if checked {
        match l.checked_sub(r) {
            Some(v) => Ok(v),
            None => Err(ErrorKind::Overflow),
        }
    } else {
        Ok(vstd::wrapping::i64_specs::wrapping_sub(l, r))
    }
}

/// Multiplication: checked overflow or wrap-around.
pub open spec fn spec_mul_op(l: i64, r: i64, checked: bool) -> Result<i64, ErrorKind> {
    if checked {
        match l.checked_mul(r) {
            Some(v) => Ok(v),
            None => Err(ErrorKind::Overflow),
        }
    } else {
        Ok(vstd::wrapping::i64_specs::wrapping_mul(l, r))
    }
}

/// Division, truncating toward zero.  A zero divisor is rejected; the one
/// overflowing quotient is reported or wraps.
pub open spec fn spec_div_op(l: i64, r: i64, checked: bool) -> Result<i64, ErrorKind> {
    if r == 0 {
        Err(ErrorKind::DivisionByZero)
    } else if l == i64::MIN && r == -1 {
        if checked {
            Err(ErrorKind::Overflow)
        } else {
            Ok(i64::MIN)
        }
    } else {
        match l.checked_div(r) {
            Some(v) => Ok(v),
            None => Err(ErrorKind::Overflow),
        }
    }
}

/// Remainder, with the sign of the dividend.  A zero divisor is rejected;
/// the one overflowing case is reported or wraps to zero.
pub open spec fn spec_mod_op(l: i64, r: i64, checked: bool) -> Result<i64, ErrorKind> {
    if r == 0 {
        Err(ErrorKind::DivisionByZero)
    } else if l == i64::MIN && r == -1 {
        if checked {
            Err(ErrorKind::Overflow)
        } else {
            Ok(0)
        }
    } else {
        match l.checked_rem(r) {
            Some(v) => Ok(v),
            None => Err(ErrorKind::Overflow),
        }
    }
}

/// The wrap-around power: the product of `e` copies of `b`, each
/// multiplication wrapping.
pub open spec fn wrapping_pow(b: i64, e: nat) -> i64
    decreases e,
{
    if e == 0 {
        1
    } else {
        vstd::wrapping::i64_specs::wrapping_mul(wrapping_pow(b, (e - 1) as nat), b)
    }
}

/// The power operation.  A non-negative exponent raises exactly, with
/// checked overflow or wrap-around.  For a negative exponent the exact
/// power is a fraction: its truncation toward zero is returned, except
/// that a zero base has no finite result and is reported as overflow.
pub open spec fn spec_pow_op(l: i64, r: i64, checked: bool) -> Result<i64, ErrorKind> {
    if r >= 0 {
        if checked {
            if i64::MIN <= pow(l as int, r as nat) <= i64::MAX {
                Ok(pow(l as int, r as nat) as i64)
            } else {
                Err(ErrorKind::Overflow)
            }
        } else {
            Ok(wrapping_pow(l, r as nat))
        }
    } else if l == 0 {
        Err(ErrorKind::Overflow)
    } else if l == 1 {
        Ok(1)
    } else if l == -1 {
        let unit: i64 = if r % 2 == 0 {
            1i64
        } else {
            -1i64
        };
        Ok(unit)
    } else {
        Ok(0)
    }
}

/// What a binary callable returns on the given operands.
pub open spec fn spec_call_binary(e: BinaryEntry, l: i64, r: i64) -> Result<i64, ErrorKind> {
    match e.op {
        BinOpId::Add => spec_add_op(l, r, e.checked),
        BinOpId::Sub => spec_sub_op(l, r, e.checked),
        BinOpId::Mul => spec_mul_op(l, r, e.checked),
        BinOpId::Div => spec_div_op(l, r, e.checked),
        BinOpId::Mod => spec_mod_op(l, r, e.checked),
        BinOpId::Pow => spec_pow_op(l, r, e.checked),
    }
}

/// An out-of-range power stays out of range as the exponent grows: once
/// some partial power of a base of magnitude at least two has left the
/// 64-bit range, every later power lies outside it as well.
proof fn lemma_pow_stays_out(b: int, k: nat, e: nat)
    requires
        b <= -2 || b >= 2,
        k <= e,
        pow(b, k) < i64::MIN || pow(b, k) > i64::MAX,
    ensures
        pow(b, e) < i64::MIN || pow(b, e) > i64::MAX,
    decreases e - k,
{
    if e > k {
        let p = pow(b, (e - 1) as nat);
        lemma_pow_stays_out(b, k, (e - 1) as nat);
        assert(pow(b, e) == p * b) by {
            vstd::arithmetic::power::lemma_pow1(b);
            vstd::arithmetic::power::lemma_pow_adds(b, (e - 1) as nat, 1);
        }
        assert(p * b < i64::MIN || p * b > i64::MAX) by (nonlinear_arith)
            requires
                b <= -2 || b >= 2,
                p < i64::MIN || p > i64::MAX,
                i64::MIN == -0x8000_0000_0000_0000,
                i64::MAX == 0x7fff_ffff_ffff_ffff,
        ;
    }
}

/// Raises `l` to a non-negative exponent with checked arithmetic.
fn pow_checked(l: i64, r: i64) -> (res: Result<i64, Error>)
    requires
        r >= 0,
    ensures
        res_matches(res, spec_pow_op(l, r, true)),
{
    proof {
        vstd::arithmetic::power::lemma_pow0(l as int);
    }
    let mut result: i64 = 1;
    let mut i: i64 = 0;
    while i < r
        invariant
            0 <= i <= r,
            result == pow(l as int, i as nat),
            i64::MIN <= pow(l as int, i as nat) <= i64::MAX,
        decreases r - i,
    {
        match result.checked_mul(l) {
            Some(v) => {
                proof {
                    vstd::arithmetic::power::lemma_pow1(l as int);
                    vstd::arithmetic::power::lemma_pow_adds(l as int, i as nat, 1);
                }
                result = v;
            },
            None => {
                proof {
                    vstd::arithmetic::power::lemma_pow1(l as int);
                    vstd::arithmetic::power::lemma_pow_adds(l as int, i as nat, 1);
                    if l <= -2 || l >= 2 {
                        lemma_pow_stays_out(l as int, (i + 1) as nat, r as nat);
                    } else {
                        lemma_small_pow_bounded(l as int, i as nat);
                        assert(-1 <= pow(l as int, i as nat) * (l as int) <= 1)
                            by (nonlinear_arith)
                            requires
                                -1 <= l <= 1,
                                -1 <= pow(l as int, i as nat) <= 1,
                        ;
                        assert(false);
                    }
                }
                return Err(Error::of_kind(ErrorKind::Overflow));
            },
        }
        i = i + 1;
    }
    Ok(result)
}

/// Powers of a base of magnitude at most one keep magnitude at most one.
proof fn lemma_small_pow_bounded(b: int, e: nat)
    requires
        -1 <= b <= 1,
    ensures
        -1 <= pow(b, e) <= 1,
    decreases e,
{
    reveal(vstd::arithmetic::power::pow);
    if e > 0 {
        lemma_small_pow_bounded(b, (e - 1) as nat);
        assert(-1 <= pow(b, (e - 1) as nat) * b <= 1) by (nonlinear_arith)
            requires
                -1 <= b <= 1,
                -1 <= pow(b, (e - 1) as nat) <= 1,
        ;
        assert(pow(b, e) == b * pow(b, (e - 1) as nat));
    }
}

/// Raises `l` to a non-negative exponent with wrapping arithmetic.
fn pow_wrapping(l: i64, r: i64) -> (res: i64)
    requires
        r >= 0,
    ensures
        res == wrapping_pow(l, r as nat),
{
    let mut result: i64 = 1;
    let mut i: i64 = 0;
    while i < r
        invariant
            0 <= i <= r,
            result == wrapping_pow(l, i as nat),
        decreases r - i,
    {
        result = result.wrapping_mul(l);
        i = i + 1;
    }
    result
}

/// Applies a binary callable to two operands.
pub fn call_binary(e: BinaryEntry, l: i64, r: i64) -> (res: Result<i64, Error>)
    ensures
        res_matches(res, spec_call_binary(e, l, r)),
{
    match e.op {
        BinOpId::Add => {
            if e.checked {
                (AddOperator).call(l, r)
            } else {
                Ok(l.wrapping_add(r))
            }
        },
        BinOpId::Sub => {
            if e.checked {
                (SubOperator).call(l, r)
            } else {
                Ok(l.wrapping_sub(r))
            }
        },
        BinOpId::Mul => {
            if e.checked {
                (MulOperator).call(l, r)
            } else {
                Ok(l.wrapping_mul(r))
            }
        },
        BinOpId::Div => {
            if e.checked {
                (DivOperator).call(l, r)
            } else if r == 0 {
                Err(Error::of_kind(ErrorKind::DivisionByZero))
            } else if l == i64::MIN && r == -1 {
                Ok(i64::MIN)
            } else {
                match l.checked_div(r) {
                    Some(v) => Ok(v),
                    None => Err(Error::of_kind(ErrorKind::Overflow)),
                }
            }
        },
        BinOpId::Mod => {
            if e.checked {
                (ModOperator).call(l, r)
            } else if r == 0 {
                Err(Error::of_kind(ErrorKind::DivisionByZero))
            } else if l == i64::MIN && r == -1 {
                Ok(0)
            } else {
                match l.checked_rem(r) {
                    Some(v) => Ok(v),
                    None => Err(Error::of_kind(ErrorKind::Overflow)),
                }
            }
        },
        BinOpId::Pow => {
            if e.checked {
                (PowOperator).call(l, r)
            } else if r >= 0 {
                Ok(pow_wrapping(l, r))
            } else {
                pow_negative_exponent(l, r)
            }
        },
    }
}

/// The truncation of a power with negative exponent: a fraction truncates
/// to zero unless the base has magnitude one; a zero base is overflow.
fn pow_negative_exponent(l: i64, r: i64) -> (res: Result<i64, Error>)
    requires
        r < 0,
    ensures
        res_matches(res, spec_pow_op(l, r, true)),
        res_matches(res, spec_pow_op(l, r, false)),
{
    if l == 0 {
        Err(Error::of_kind(ErrorKind::Overflow))
    } else if l == 1 {
        Ok(1)
    } else if l == -1 {
        let m = r % 2;
        Ok(if m == 0 { 1 } else { -1 })
    } else {
        Ok(0)
    }
}

/// The checked addition operator `+`.
pub struct AddOperator;

/// The checked subtraction operator `-`.
pub struct SubOperator;

/// The checked multiplication operator `*`.
pub struct MulOperator;

/// The checked division operator `/`.
pub struct DivOperator;

/// The checked remainder operator `mod`.
pub struct ModOperator;

/// The checked power operator `^`.
pub struct PowOperator;

impl AddOperator {
    /// The symbol of this operator.
    pub fn name(&self) -> (r: &'static str)
        ensures
            r@ == "+"@,
    {
        "+"
    }

    /// The binding strength of this operator.
    pub fn precedence(&self) -> (r: Precedence)
        ensures
            r == Precedence::Low,
    {
        Precedence::Low
    }

    /// The grouping direction of this operator.
    pub fn associativity(&self) -> (r: Associativity)
        ensures
            r == Associativity::Left,
    {
        Associativity::Left
    }

    /// The checked sum of the operands.
    pub fn call(&self, l: i64, r: i64) -> (res: Result<i64, Error>)
        ensures
            res_matches(res, spec_add_op(l, r, true)),
    {
        match l.checked_add(r) {
            Some(v) => Ok(v),
            None => Err(Error::of_kind(ErrorKind::Overflow)),
        }
    }
}

impl SubOperator {
    /// The symbol of this operator.
    pub fn name(&self) -> (r: &'static str)
        ensures
            r@ == "-"@,
    {
        "-"
    }

    /// The binding strength of this operator.
    pub fn precedence(&self) -> (r: Precedence)
        ensures
            r == Precedence::Low,
    {
        Precedence::Low
    }

    /// The grouping direction of this operator.
    pub fn associativity(&self) -> (r: Associativity)
        ensures
            r == Associativity::Left,
    {
        Associativity::Left
    }

    /// The checked difference of the operands.
    pub fn call(&self, l: i64, r: i64) -> (res: Result<i64, Error>)
        ensures
            res_matches(res, spec_sub_op(l, r, true)),
    {
        match l.checked_sub(r) {
            Some(v) => Ok(v),
            None => Err(Error::of_kind(ErrorKind::Overflow)),
        }
    }
}

impl MulOperator {
    /// The symbol of this operator.
    pub fn name(&self) -> (r: &'static str)
        ensures
            r@ == "*"@,
    {
        "*"
    }

    /// The binding strength of this operator.
    pub fn precedence(&self) -> (r: Precedence)
        ensures
            r == Precedence::Medium,
    {
        Precedence::Medium
    }

    /// The grouping direction of this operator.
    pub fn associativity(&self) -> (r: Associativity)
        ensures
            r == Associativity::Left,
    {
        Associativity::Left
    }

    /// The checked product of the operands.
    pub fn call(&self, l: i64, r: i64) -> (res: Result<i64, Error>)
        ensures
            res_matches(res, spec_mul_op(l, r, true)),
    {
        match l.checked_mul(r) {
            Some(v) => Ok(v),
            None => Err(Error::of_kind(ErrorKind::Overflow)),
        }
    }
}

impl DivOperator {
    /// The symbol of this operator.
    pub fn name(&self) -> (r: &'static str)
        ensures
            r@ == "/"@,
    {
        "/"
    }

    /// The binding strength of this operator.
    pub fn precedence(&self) -> (r: Precedence)
        ensures
            r == Precedence::Medium,
    {
        Precedence::Medium
    }

    /// The grouping direction of this operator.
    pub fn associativity(&self) -> (r: Associativity)
        ensures
            r == Associativity::Left,
    {
        Associativity::Left
    }

    /// The checked quotient of the operands, truncated toward zero.
    pub fn call(&self, l: i64, r: i64) -> (res: Result<i64, Error>)
        ensures
            res_matches(res, spec_div_op(l, r, true)),
    {
        if r == 0 {
            Err(Error::of_kind(ErrorKind::DivisionByZero))
        } else if l == i64::MIN && r == -1 {
            Err(Error::of_kind(ErrorKind::Overflow))
        } else {
            match l.checked_div(r) {
                Some(v) => Ok(v),
                None => Err(Error::of_kind(ErrorKind::Overflow)),
            }
        }
    }
}

impl ModOperator {
    /// The symbol of this operator.
    pub fn name(&self) -> (r: &'static str)
        ensures
            r@ == "mod"@,
    {
        "mod"
    }

    /// The binding strength of this operator.
    pub fn precedence(&self) -> (r: Precedence)
        ensures
            r == Precedence::Medium,
    {
        Precedence::Medium
    }

    /// The grouping direction of this operator.
    pub fn associativity(&self) -> (r: Associativity)
        ensures
            r == Associativity::Left,
    {
        Associativity::Left
    }

    /// The checked remainder of the operands, with the dividend's sign.
    pub fn call(&self, l: i64, r: i64) -> (res: Result<i64, Error>)
        ensures
            res_matches(res, spec_mod_op(l, r, true)),
    {
        if r == 0 {
            Err(Error::of_kind(ErrorKind::DivisionByZero))
        } else {
            match l.checked_rem(r) {
                Some(v) => Ok(v),
                None => Err(Error::of_kind(ErrorKind::Overflow)),
            }
        }
    }
}

impl PowOperator {
    /// The symbol of this operator.
    pub fn name(&self) -> (r: &'static str)
        ensures
            r@ == "^"@,
    {
        "^"
    }

    /// The binding strength of this operator.
    pub fn precedence(&self) -> (r: Precedence)
        ensures
            r == Precedence::High,
    {
        Precedence::High
    }

    /// The grouping direction of this operator.
    pub fn associativity(&self) -> (r: Associativity)
        ensures
            r == Associativity::Right,
    {
        Associativity::Right
    }

    /// The checked power of the operands.
    pub fn call(&self, l: i64, r: i64) -> (res: Result<i64, Error>)
        ensures
            res_matches(res, spec_pow_op(l, r, true)),
    {
        if r >= 0 {
            pow_checked(l, r)
        } else {
            pow_negative_exponent(l, r)
        }
    }
}

/// The factorial of a natural number.
pub open spec fn fact(n: nat) -> nat
    decreases n,
{
    if n == 0 {
        1
    } else {
        n * fact((n - 1) as nat)
    }
}

/// The factorial computed with wrapping multiplications, factors taken in
/// ascending order.
pub open spec fn wrapping_fact(n: int) -> i64
    decreases n,
{
    if n <= 1 {
        1
    } else {
        vstd::wrapping::i64_specs::wrapping_mul(wrapping_fact(n - 1), n as i64)
    }
}

/// Negation: checked overflow or wrap-around on the one extreme value.
pub open spec fn spec_neg_op(x: i64, checked: bool) -> Result<i64, ErrorKind> {
    if x == i64::MIN {
        if checked {
            Err(ErrorKind::Overflow)
        } else {
            Ok(i64::MIN)
        }
    } else {
        Ok((0 - x as int) as i64)
    }
}

/// Factorial: negative operands are rejected; the product is checked or
/// wraps.
pub open spec fn spec_factorial_op(x: i64, checked: bool) -> Result<i64, ErrorKind> {
    if x < 0 {
        Err(ErrorKind::NegativeValue)
    } else if checked {
        if fact(x as nat) <= i64::MAX as nat {
            Ok(fact(x as nat) as i64)
        } else {
            Err(ErrorKind::Overflow)
        }
    } else {
        Ok(wrapping_fact(x as int))
    }
}

/// What a unary callable returns on the given operand.
pub open spec fn spec_call_unary(e: UnaryEntry, x: i64) -> Result<i64, ErrorKind> {
    match e.op {
        UnOpId::Plus => Ok(x),
        UnOpId::Minus => spec_neg_op(x, e.checked),
        UnOpId::Factorial => spec_factorial_op(x, e.checked),
    }
}

/// The factorial never shrinks as its argument grows.
proof fn lemma_fact_mono(k: nat, n: nat)
    requires
        k <= n,
    ensures
        fact(k) <= fact(n),
    decreases n - k,
{
    if n > k {
        lemma_fact_mono(k, (n - 1) as nat);
        assert(fact((n - 1) as nat) <= n * fact((n - 1) as nat)) by (nonlinear_arith)
            requires
                n >= 1,
                fact((n - 1) as nat) >= 0,
        ;
    }
}

/// The checked factorial.
fn factorial_checked(x: i64) -> (res: Result<i64, Error>)
    ensures
        res_matches(res, spec_factorial_op(x, true)),
{
    if x < 0 {
        return Err(Error::of_kind(ErrorKind::NegativeValue));
    }
    if x >= 21 {
        proof {
            assert(fact(0) == 1);
            assert(fact(1) == 1);
            assert(fact(2) == 2);
            assert(fact(3) == 6);
            assert(fact(4) == 24);
            assert(fact(5) == 120);
            assert(fact(6) == 720);
            assert(fact(7) == 5040);
            assert(fact(8) == 40320);
            assert(fact(9) == 362880);
            assert(fact(10) == 3628800);
            assert(fact(11) == 39916800);
            assert(fact(12) == 479001600);
            assert(fact(13) == 6227020800);
            assert(fact(14) == 87178291200);
            assert(fact(15) == 1307674368000);
            assert(fact(16) == 20922789888000);
            assert(fact(17) == 355687428096000);
            assert(fact(18) == 6402373705728000);
            assert(fact(19) == 121645100408832000);
            assert(fact(20) == 2432902008176640000);
            assert(fact(21) == 51090942171709440000);
            lemma_fact_mono(21, x as nat);
        }
        return Err(Error::of_kind(ErrorKind::Overflow));
    }
    let mut total: i64 = 1;
    let mut k: i64 = 1;
    while k < x
        invariant
            1 <= k <= 21,
            k <= x <= 20 || (x <= 1 && k == 1),
            total == fact(k as nat),
        decreases x - k,
    {
        match total.checked_mul(k + 1) {
            Some(v) => {
                total = v;
            },
            None => {
                proof {
                    assert(fact((k + 1) as nat) == (k + 1) * fact(k as nat));
                    lemma_fact_mono((k + 1) as nat, x as nat);
                }
                return Err(Error::of_kind(ErrorKind::Overflow));
            },
        }
        k = k + 1;
    }
    Ok(total)
}

/// The wrapping factorial.
fn factorial_wrapping(x: i64) -> (res: Result<i64, Error>)
    ensures
        res_matches(res, spec_factorial_op(x, false)),
{
    if x < 0 {
        return Err(Error::of_kind(ErrorKind::NegativeValue));
    }
    let bound: u64 = x as u64;
    let mut total: i64 = 1;
    let mut k: u64 = 1;
    while k < bound
        invariant
            1 <= k,
            bound == x as u64,
            x >= 0,
            k <= bound || (bound <= 1 && k == 1),
            total == wrapping_fact(k as int),
        decreases bound - k,
    {
        total = total.wrapping_mul((k + 1) as i64);
        k = k + 1;
    }
    Ok(total)
}

/// The prefix identity operator `+`.
pub struct UnaryPlus;

/// The prefix negation operator `-`.
pub struct UnaryMinus;

/// The postfix factorial operator `!`.
pub struct Factorial;

impl UnaryPlus {
    /// The symbol of this operator.
    pub fn name(&self) -> (r: &'static str)
        ensures
            r@ == "+"@,
    {
        "+"
    }

    /// The placement of this operator.
    pub fn notation(&self) -> (r: Notation)
        ensures
            r == Notation::Prefix,
    {
        Notation::Prefix
    }

    /// The operand, unchanged.
    pub fn call(&self, value: i64) -> (res: Result<i64, Error>)
        ensures
            res_matches(res, Ok(value)),
    {
        Ok(value)
    }
}

impl UnaryMinus {
    /// The symbol of this operator.
    pub fn name(&self) -> (r: &'static str)
        ensures
            r@ == "-"@,
    {
        "-"
    }

    /// The placement of this operator.
    pub fn notation(&self) -> (r: Notation)
        ensures
            r == Notation::Prefix,
    {
        Notation::Prefix
    }

    /// The checked negation of the operand.
    pub fn call(&self, value: i64) -> (res: Result<i64, Error>)
        ensures
            res_matches(res, spec_neg_op(value, true)),
    {
        if value == i64::MIN {
            Err(Error::of_kind(ErrorKind::Overflow))
        } else {
            Ok(-value)
        }
    }
}

impl Factorial {
    /// The symbol of this operator.
    pub fn name(&self) -> (r: &'static str)
        ensures
            r@ == "!"@,
    {
        "!"
    }

    /// The placement of this operator.
    pub fn notation(&self) -> (r: Notation)
        ensures
            r == Notation::Postfix,
    {
        Notation::Postfix
    }

    /// The checked factorial of the operand.
    pub fn call(&self, value: i64) -> (res: Result<i64, Error>)
        ensures
            res_matches(res, spec_factorial_op(value, true)),
    {
        factorial_checked(value)
    }
}

/// Applies a unary callable to an operand.
pub fn call_unary(e: UnaryEntry, x: i64) -> (res: Result<i64, Error>)
    ensures
        res_matches(res, spec_call_unary(e, x)),
{
    match e.op {
        UnOpId::Plus => (UnaryPlus).call(x),
        UnOpId::Minus => {
            if e.checked {
                (UnaryMinus).call(x)
            } else if x == i64::MIN {
                Ok(i64::MIN)
            } else {
                Ok(-x)
            }
        },
        UnOpId::Factorial => {
            if e.checked {
                (Factorial).call(x)
            } else {
                factorial_wrapping(x)
            }
        },
    }
}

/// The largest element of a non-empty sequence, scanning left to right.
pub open spec fn seq_max(s: Seq<i64>) -> i64
    decreases s.len(),
{
    if s.len() <= 1 {
        s[0]
    } else {
        let m = seq_max(s.drop_last());
        if s.last() > m {
            s.last()
        } else {
            m
        }
    }
}

/// The smallest element of a non-empty sequence, scanning left to right.
pub open spec fn seq_min(s: Seq<i64>) -> i64
    decreases s.len(),
{
    if s.len() <= 1 {
        s[0]
    } else {
        let m = seq_min(s.drop_last());
        if s.last() < m {
            s.last()
        } else {
            m
        }
    }
}

/// Adds the elements onto `acc` left to right with checked additions; the
/// first overflowing partial sum aborts the fold.
pub open spec fn checked_fold_add(acc: i64, s: Seq<i64>) -> Result<i64, ErrorKind>
    decreases s.len(),
{
    if s.len() == 0 {
        Ok(acc)
    } else {
        match acc.checked_add(s[0]) {
            Some(a) => checked_fold_add(a, s.drop_first()),
            None => Err(ErrorKind::Overflow),
        }
    }
}

/// Multiplies the elements onto `acc` left to right with checked
/// multiplications; the first overflowing partial product aborts the fold.
pub open spec fn checked_fold_mul(acc: i64, s: Seq<i64>) -> Result<i64, ErrorKind>
    decreases s.len(),
{
    if s.len() == 0 {
        Ok(acc)
    } else {
        match acc.checked_mul(s[0]) {
            Some(a) => checked_fold_mul(a, s.drop_first()),
            None => Err(ErrorKind::Overflow),
        }
    }
}

/// Adds the elements onto `acc` left to right, wrapping around.
pub open spec fn wrap_fold_add(acc: i64, s: Seq<i64>) -> i64
    decreases s.len(),
{
    if s.len() == 0 {
        acc
    } else {
        wrap_fold_add(vstd::wrapping::i64_specs::wrapping_add(acc, s[0]), s.drop_first())
    }
}

/// Multiplies the elements onto `acc` left to right, wrapping around.
pub open spec fn wrap_fold_mul(acc: i64, s: Seq<i64>) -> i64
    decreases s.len(),
{
    if s.len() == 0 {
        acc
    } else {
        wrap_fold_mul(vstd::wrapping::i64_specs::wrapping_mul(acc, s[0]), s.drop_first())
    }
}

/// The quotient of the sum by the count: the truncated mean.
pub open spec fn spec_mean(sum: i64, count: int) -> Result<i64, ErrorKind> {
    match sum.checked_div(count as i64) {
        Some(v) => Ok(v),
        None => Err(ErrorKind::Overflow),
    }
}

/// The integer square root: the greatest integer whose square does not
/// exceed `x`.
pub open spec fn isqrt(x: int) -> int
    decreases x,
{
    if x < 1 {
        0
    } else {
        let p = isqrt(x - 1);
        if (p + 1) * (p + 1) <= x {
            p + 1
        } else {
            p
        }
    }
}

/// The number of decimal digits of `x` beyond the first, for positive `x`:
/// the truncated base-ten logarithm.
pub open spec fn log10_floor(x: int) -> int
    decreases x,
{
    if x < 10 {
        0
    } else {
        1 + log10_floor(x / 10)
    }
}

/// The truncated base-`b` logarithm of `v`, for `v >= 1` and `b >= 2`.
pub open spec fn logb_floor(v: int, b: int) -> int
    decreases v via logb_floor_decreases
{
    if b < 2 || v < b {
        0
    } else {
        1 + logb_floor(v / b, b)
    }
}

#[via_fn]
proof fn logb_floor_decreases(v: int, b: int) {
    if !(b < 2 || v < b) {
        vstd::arithmetic::div_mod::lemma_div_decreases(v, b);
        vstd::arithmetic::div_mod::lemma_div_pos_is_pos(v, b);
    }
}

/// The truncation toward zero of the sine of `x` degrees: zero except at
/// the right-angle multiples where the sine is exactly one in magnitude.
pub open spec fn sin_deg(x: i64) -> i64 {
    let m = (x as int) % 360;
    if m == 90 {
        1i64
    } else if m == 270 {
        -1i64
    } else {
        0i64
    }
}

/// The truncation toward zero of the cosine of `x` degrees: zero except
/// at the straight-angle multiples where the cosine is exactly one in
/// magnitude.
pub open spec fn cos_deg(x: i64) -> i64 {
    let m = (x as int) % 360;
    if m == 0 {
        1i64
    } else if m == 180 {
        -1i64
    } else {
        0i64
    }
}

/// The sign of `x`: minus one, zero or one.
pub open spec fn spec_sign(x: i64) -> i64 {
    if x > 0 {
        1i64
    } else if x < 0 {
        -1i64
    } else {
        0i64
    }
}

/// What an n-ary callable returns on the given arguments.  A callable
/// whose result is drawn at random is deterministic given the drawn
/// `sample`; every other callable ignores it.
pub open spec fn spec_call_function(e: FunctionEntry, args: Seq<i64>, sample: i64) -> Result<
    i64,
    ErrorKind,
> {
    match e.id {
        FuncId::Sum => if e.checked {
            checked_fold_add(0, args)
        } else {
            Ok(wrap_fold_add(0, args))
        },
        FuncId::Prod => if e.checked {
            checked_fold_mul(1, args)
        } else {
            Ok(wrap_fold_mul(1, args))
        },
        FuncId::Avg => if args.len() == 0 {
            Err(ErrorKind::InvalidArgumentCount)
        } else if e.checked {
            match checked_fold_add(0, args) {
                Ok(s) => spec_mean(s, args.len() as int),
                Err(k) => Err(k),
            }
        } else {
            spec_mean(wrap_fold_add(0, args), args.len() as int)
        },
        FuncId::Max => if args.len() == 0 {
            Err(ErrorKind::InvalidArgumentCount)
        } else {
            Ok(seq_max(args))
        },
        FuncId::Min => if args.len() == 0 {
            Err(ErrorKind::InvalidArgumentCount)
        } else {
            Ok(seq_min(args))
        },
        FuncId::Abs => if args.len() != 1 {
            Err(ErrorKind::InvalidArgumentCount)
        } else if args[0] == i64::MIN {
            if e.checked {
                Err(ErrorKind::Overflow)
            } else {
                Ok(i64::MIN)
            }
        } else if args[0] < 0 {
            Ok((0 - args[0] as int) as i64)
        } else {
            Ok(args[0])
        },
        FuncId::Sqrt => if args.len() != 1 {
            Err(ErrorKind::InvalidArgumentCount)
        } else if args[0] < 0 {
            Err(ErrorKind::NAN)
        } else {
            Ok(isqrt(args[0] as int) as i64)
        },
        FuncId::Floor => if args.len() != 1 {
            Err(ErrorKind::InvalidArgumentCount)
        } else {
            Ok(args[0])
        },
        FuncId::Ceil => if args.len() != 1 {
            Err(ErrorKind::InvalidArgumentCount)
        } else {
            Ok(args[0])
        },
        FuncId::Truncate => if args.len() != 1 {
            Err(ErrorKind::InvalidArgumentCount)
        } else {
            Ok(args[0])
        },
        FuncId::Round => if args.len() != 1 {
            Err(ErrorKind::InvalidArgumentCount)
        } else {
            Ok(args[0])
        },
        FuncId::Sign => if args.len() != 1 {
            Err(ErrorKind::InvalidArgumentCount)
        } else {
            Ok(spec_sign(args[0]))
        },
        FuncId::Log => if args.len() == 1 {
            if args[0] >= 1 {
                Ok(log10_floor(args[0] as int) as i64)
            } else {
                Err(ErrorKind::NAN)
            }
        } else if args.len() == 2 {
            if args[0] >= 1 && args[1] >= 2 {
                Ok(logb_floor(args[0] as int, args[1] as int) as i64)
            } else {
                Err(ErrorKind::NAN)
            }
        } else {
            Err(ErrorKind::InvalidArgumentCount)
        },
        FuncId::Sin => if args.len() != 1 {
            Err(ErrorKind::InvalidArgumentCount)
        } else {
            Ok(sin_deg(args[0]))
        },
        FuncId::Cos => if args.len() != 1 {
            Err(ErrorKind::InvalidArgumentCount)
        } else {
            Ok(cos_deg(args[0]))
        },
        FuncId::Random => if args.len() == 0 {
            Ok(0i64)
        } else if args.len() == 1 {
            if args[0] == 0 {
                Ok(0i64)
            } else {
                Ok(sample)
            }
        } else if args.len() == 2 {
            if args[0] == args[1] {
                Ok(args[0])
            } else {
                Ok(sample)
            }
        } else {
            Err(ErrorKind::InvalidArgumentCount)
        },
    }
}

/// The remainder of `x` modulo 360 in the range `[0, 360)`.
fn euclid_mod_360(x: i64) -> (m: i64)
    ensures
        m == (x as int) % 360,
        0 <= m < 360,
{
    let t = match x.checked_rem(360) {
        Some(v) => v,
        None => 0,
    };
    if t < 0 {
        proof {
            let u = (0 - x as int) % 360;
            assert(t == 0 - u);
            vstd::arithmetic::div_mod::lemma_fundamental_div_mod(0 - x as int, 360);
            vstd::arithmetic::div_mod::lemma_mod_bound(0 - x as int, 360);
            let q = (0 - x as int) / 360;
            assert(x as int == (0 - q - 1) * 360 + (360 - u)) by (nonlinear_arith)
                requires
                    0 - x as int == q * 360 + u,
        ;
            vstd::arithmetic::div_mod::lemma_fundamental_div_mod_converse(
                x as int,
                360,
                0 - q - 1,
                360 - u,
            );
        }
        t + 360
    } else {
        proof {
            if x as int >= 0 {
            } else {
                let u = (0 - x as int) % 360;
                assert(t == 0 - u);
                assert(u == 0);
                vstd::arithmetic::div_mod::lemma_fundamental_div_mod(0 - x as int, 360);
                let q = (0 - x as int) / 360;
                assert(x as int == (0 - q) * 360 + 0) by (nonlinear_arith)
                    requires
                        0 - x as int == q * 360 + 0,
                ;
                vstd::arithmetic::div_mod::lemma_fundamental_div_mod_converse(
                    x as int,
                    360,
                    0 - q,
                    0,
                );
            }
        }
        t
    }
}

/// The largest element of a non-empty argument list.
fn max_of_slice(args: &[i64]) -> (res: i64)
    requires
        args@.len() >= 1,
    ensures
        res == seq_max(args@),
{
    let n = args.len();
    let mut m = args[0];
    let mut i: usize = 1;
    while i < n
        invariant
            1 <= i <= n,
            n == args@.len(),
            m == seq_max(args@.take(i as int)),
        decreases n - i,
    {
        proof {
            assert(args@.take(i + 1 as int).drop_last() =~= args@.take(i as int));
            assert(args@.take(i + 1 as int).last() == args@[i as int]);
        }
        if args[i] > m {
            m = args[i];
        }
        i = i + 1;
    }
    proof {
        assert(args@.take(n as int) =~= args@);
    }
    m
}

/// The smallest element of a non-empty argument list.
fn min_of_slice(args: &[i64]) -> (res: i64)
    requires
        args@.len() >= 1,
    ensures
        res == seq_min(args@),
{
    let n = args.len();
    let mut m = args[0];
    let mut i: usize = 1;
    while i < n
        invariant
            1 <= i <= n,
            n == args@.len(),
            m == seq_min(args@.take(i as int)),
        decreases n - i,
    {
        proof {
            assert(args@.take(i + 1 as int).drop_last() =~= args@.take(i as int));
            assert(args@.take(i + 1 as int).last() == args@[i as int]);
        }
        if args[i] < m {
            m = args[i];
        }
        i = i + 1;
    }
    proof {
        assert(args@.take(n as int) =~= args@);
    }
    m
}

/// The checked sum of an argument list.
fn sum_checked(args: &[i64]) -> (res: Result<i64, Error>)
    ensures
        res_matches(res, checked_fold_add(0, args@)),
{
    let n = args.len();
    let mut acc: i64 = 0;
    let mut i: usize = 0;
    proof {
        assert(args@.skip(0) =~= args@);
    }
    while i < n
        invariant
            0 <= i <= n,
            n == args@.len(),
            checked_fold_add(0, args@) == checked_fold_add(acc, args@.skip(i as int)),
        decreases n - i,
    {
        proof {
            assert(args@.skip(i as int)[0] == args@[i as int]);
            assert(args@.skip(i as int).drop_first() =~= args@.skip(i + 1 as int));
        }
        match acc.checked_add(args[i]) {
            Some(v) => {
                acc = v;
            },
            None => {
                return Err(Error::of_kind(ErrorKind::Overflow));
            },
        }
        i = i + 1;
    }
    proof {
        assert(args@.skip(n as int) =~= Seq::<i64>::empty());
    }
    Ok(acc)
}

/// The checked product of an argument list.
fn prod_checked(args: &[i64]) -> (res: Result<i64, Error>)
    ensures
        res_matches(res, checked_fold_mul(1, args@)),
{
    let n = args.len();
    let mut acc: i64 = 1;
    let mut i: usize = 0;
    proof {
        assert(args@.skip(0) =~= args@);
    }
    while i < n
        invariant
            0 <= i <= n,
            n == args@.len(),
            checked_fold_mul(1, args@) == checked_fold_mul(acc, args@.skip(i as int)),
        decreases n - i,
    {
        proof {
            assert(args@.skip(i as int)[0] == args@[i as int]);
            assert(args@.skip(i as int).drop_first() =~= args@.skip(i + 1 as int));
        }
        match acc.checked_mul(args[i]) {
            Some(v) => {
                acc = v;
            },
            None => {
                return Err(Error::of_kind(ErrorKind::Overflow));
            },
        }
        i = i + 1;
    }
    proof {
        assert(args@.skip(n as int) =~= Seq::<i64>::empty());
    }
    Ok(acc)
}

/// The wrapping sum of an argument list.
fn sum_wrapping(args: &[i64]) -> (res: i64)
    ensures
        res == wrap_fold_add(0, args@),
{
    let n = args.len();
    let mut acc: i64 = 0;
    let mut i: usize = 0;
    proof {
        assert(args@.skip(0) =~= args@);
    }
    while i < n
        invariant
            0 <= i <= n,
            n == args@.len(),
            wrap_fold_add(0, args@) == wrap_fold_add(acc, args@.skip(i as int)),
        decreases n - i,
    {
        proof {
            assert(args@.skip(i as int)[0] == args@[i as int]);
            assert(args@.skip(i as int).drop_first() =~= args@.skip(i + 1 as int));
        }
        acc = acc.wrapping_add(args[i]);
        i = i + 1;
    }
    proof {
        assert(args@.skip(n as int) =~= Seq::<i64>::empty());
    }
    acc
}

/// The wrapping product of an argument list.
fn prod_wrapping(args: &[i64]) -> (res: i64)
    ensures
        res == wrap_fold_mul(1, args@),
{
    let n = args.len();
    let mut acc: i64 = 1;
    let mut i: usize = 0;
    proof {
        assert(args@.skip(0) =~= args@);
    }
    while i < n
        invariant
            0 <= i <= n,
            n == args@.len(),
            wrap_fold_mul(1, args@) == wrap_fold_mul(acc, args@.skip(i as int)),
        decreases n - i,
    {
        proof {
            assert(args@.skip(i as int)[0] == args@[i as int]);
            assert(args@.skip(i as int).drop_first() =~= args@.skip(i + 1 as int));
        }
        acc = acc.wrapping_mul(args[i]);
        i = i + 1;
    }
    proof {
        assert(args@.skip(n as int) =~= Seq::<i64>::empty());
    }
    acc
}

/// The integer square root has a square not above `x` and a successor
/// whose square is above it.
proof fn lemma_isqrt_props(x: int)
    requires
        x >= 0,
    ensures
        isqrt(x) >= 0,
        isqrt(x) * isqrt(x) <= x,
        (isqrt(x) + 1) * (isqrt(x) + 1) > x,
    decreases x,
{
    if x >= 1 {
        lemma_isqrt_props(x - 1);
        let p = isqrt(x - 1);
        if (p + 1) * (p + 1) <= x {
            assert((p + 2) * (p + 2) > x) by (nonlinear_arith)
                requires
                    p >= 0,
                    (p + 1) * (p + 1) > x - 1,
            ;
        }
    }
}

/// Only one integer has the square-root properties.
proof fn lemma_isqrt_unique(x: int, r: int)
    requires
        x >= 0,
        r >= 0,
        r * r <= x,
        (r + 1) * (r + 1) > x,
    ensures
        r == isqrt(x),
{
    lemma_isqrt_props(x);
    let s = isqrt(x);
    if r < s {
        assert((r + 1) * (r + 1) <= s * s) by (nonlinear_arith)
            requires
                0 <= r,
                r + 1 <= s,
        ;
    }
    if s < r {
        assert((s + 1) * (s + 1) <= r * r) by (nonlinear_arith)
            requires
                0 <= s,
                s + 1 <= r,
        ;
    }
}

/// The integer square root of a non-negative value, by bisection.
fn isqrt_exec(x: i64) -> (res: i64)
    requires
        x >= 0,
    ensures
        res == isqrt(x as int),
{
    if x < 2 {
        proof {
            lemma_isqrt_unique(x as int, if x == 0 { 0int } else { 1int });
        }
        return x;
    }
    let mut lo: i64 = 1;
    let mut hi: i64 = 3037000500;
    proof {
        assert((3037000500int) * (3037000500int) > i64::MAX);
    }
    while lo + 1 < hi
        invariant
            1 <= lo < hi <= 3037000500,
            (lo as int) * (lo as int) <= x as int,
            (hi as int) * (hi as int) > x as int,
            x >= 2,
        decreases hi - lo,
    {
        let mid = lo + (hi - lo) / 2;
        proof {
            assert(lo < mid < hi);
            assert((mid as int) * (mid as int) <= 3037000499int * 3037000499int)
                by (nonlinear_arith)
                requires
                    0 <= mid as int <= 3037000499int,
            ;
            assert(3037000499int * 3037000499int < i64::MAX);
        }
        let sq = mid * mid;
        if sq <= x {
            lo = mid;
        } else {
            hi = mid;
        }
    }
    proof {
        lemma_isqrt_unique(x as int, lo as int);
    }
    lo
}

/// The truncated base-ten logarithm of a positive value.
fn log10_exec(x: i64) -> (res: i64)
    requires
        x >= 1,
    ensures
        res == log10_floor(x as int),
{
    let mut n: i64 = x;
    let mut d: i64 = 0;
    while n >= 10
        invariant
            n >= 1,
            d >= 0,
            d + n <= x + 1,
            log10_floor(x as int) == d + log10_floor(n as int),
        decreases n,
    {
        let q = match n.checked_div(10) {
            Some(v) => v,
            None => 0,
        };
        proof {
            vstd::arithmetic::div_mod::lemma_fundamental_div_mod(n as int, 10);
            vstd::arithmetic::div_mod::lemma_mod_bound(n as int, 10);
            vstd::arithmetic::div_mod::lemma_div_non_zero(n as int, 10);
            assert(q == n as int / 10);
            assert(9 * (q as int) >= 9) by (nonlinear_arith)
                requires
                    q as int >= 1,
            ;
        }
        n = q;
        d = d + 1;
    }
    d
}

/// The truncated base-`b` logarithm of `v`, for positive `v` and `b` at
/// least two.
fn logb_exec(v: i64, b: i64) -> (res: i64)
    requires
        v >= 1,
        b >= 2,
    ensures
        res == logb_floor(v as int, b as int),
{
    let mut n: i64 = v;
    let mut d: i64 = 0;
    while n >= b
        invariant
            n >= 1,
            d >= 0,
            b >= 2,
            d + n <= v + 1,
            logb_floor(v as int, b as int) == d + logb_floor(n as int, b as int),
        decreases n,
    {
        let q = match n.checked_div(b) {
            Some(w) => w,
            None => 0,
        };
        proof {
            vstd::arithmetic::div_mod::lemma_fundamental_div_mod(n as int, b as int);
            vstd::arithmetic::div_mod::lemma_mod_bound(n as int, b as int);
            vstd::arithmetic::div_mod::lemma_div_non_zero(n as int, b as int);
            assert(q == n as int / b as int);
            assert((b as int - 1) * (q as int) >= 1) by (nonlinear_arith)
                requires
                    q as int >= 1,
                    b as int >= 2,
            ;
        }
        n = q;
        d = d + 1;
    }
    d
}

/// The variadic sum `sum`.
pub struct SumFunction;

/// The variadic product `prod`.
pub struct ProdFunction;

/// The variadic truncated mean `avg`.
pub struct AvgFunction;

/// The variadic maximum `max`.
pub struct MaxFunction;

/// The variadic minimum `min`.
pub struct MinFunction;

/// The absolute value `abs`.
pub struct AbsFunction;

/// The integer square root `sqrt`.
pub struct SqrtFunction;

/// The identity on integers `floor`.
pub struct FloorFunction;

/// The identity on integers `ceil`.
pub struct CeilFunction;

/// The identity on integers `truncate`.
pub struct TruncateFunction;

/// The identity on integers `round`.
pub struct RoundFunction;

/// The sign `sign`.
pub struct SignFunction;

/// The truncated logarithm `log`: base ten with one argument, a given
/// base with two.
pub struct LogFunction;

/// The truncated sine of whole degrees `sin`.
pub struct SinFunction;

/// The truncated cosine of whole degrees `cos`.
pub struct CosFunction;

/// The uniform sampler `random`.
pub struct RandFunction;

impl SumFunction {
    /// The name of this function.
    pub fn name(&self) -> (r: &'static str)
        ensures
            r@ == "sum"@,
    {
        "sum"
    }

    /// The checked sum of the arguments.
    pub fn call(&self, args: &[i64]) -> (res: Result<i64, Error>)
        ensures
            res_matches(res, checked_fold_add(0, args@)),
    {
        sum_checked(args)
    }
}

impl ProdFunction {
    /// The name of this function.
    pub fn name(&self) -> (r: &'static str)
        ensures
            r@ == "prod"@,
    {
        "prod"
    }

    /// The checked product of the arguments.
    pub fn call(&self, args: &[i64]) -> (res: Result<i64, Error>)
        ensures
            res_matches(res, checked_fold_mul(1, args@)),
    {
        prod_checked(args)
    }
}

impl AvgFunction {
    /// The name of this function.
    pub fn name(&self) -> (r: &'static str)
        ensures
            r@ == "avg"@,
    {
        "avg"
    }

    /// The checked sum of the arguments divided by their count,
    /// truncating toward zero.  An empty argument list is rejected.
    pub fn call(&self, args: &[i64]) -> (res: Result<i64, Error>)
        ensures
            res_matches(
                res,
                spec_call_function(FunctionEntry { id: FuncId::Avg, checked: true }, args@, 0),
            ),
    {
        if args.len() == 0 {
            return Err(Error::of_kind(ErrorKind::InvalidArgumentCount));
        }
        match sum_checked(args) {
            Ok(s) => {
                let count = args.len() as i64;
                match s.checked_div(count) {
                    Some(v) => Ok(v),
                    None => Err(Error::of_kind(ErrorKind::Overflow)),
                }
            },
            Err(e) => Err(e),
        }
    }
}

impl MaxFunction {
    /// The name of this function.
    pub fn name(&self) -> (r: &'static str)
        ensures
            r@ == "max"@,
    {
        "max"
    }

    /// The largest argument.  An empty argument list is rejected.
    pub fn call(&self, args: &[i64]) -> (res: Result<i64, Error>)
        ensures
            res_matches(
                res,
                if args@.len() == 0 {
                    Err(ErrorKind::InvalidArgumentCount)
                } else {
                    Ok(seq_max(args@))
                },
            ),
    {
        if args.len() == 0 {
            Err(Error::of_kind(ErrorKind::InvalidArgumentCount))
        } else {
            Ok(max_of_slice(args))
        }
    }
}

impl MinFunction {
    /// The name of this function.
    pub fn name(&self) -> (r: &'static str)
        ensures
            r@ == "min"@,
    {
        "min"
    }

    /// The smallest argument.  An empty argument list is rejected.
    pub fn call(&self, args: &[i64]) -> (res: Result<i64, Error>)
        ensures
            res_matches(
                res,
                if args@.len() == 0 {
                    Err(ErrorKind::InvalidArgumentCount)
                } else {
                    Ok(seq_min(args@))
                },
            ),
    {
        if args.len() == 0 {
            Err(Error::of_kind(ErrorKind::InvalidArgumentCount))
        } else {
            Ok(min_of_slice(args))
        }
    }
}

impl AbsFunction {
    /// The name of this function.
    pub fn name(&self) -> (r: &'static str)
        ensures
            r@ == "abs"@,
    {
        "abs"
    }

    /// The checked absolute value of the one argument.
    pub fn call(&self, args: &[i64]) -> (res: Result<i64, Error>)
        ensures
            res_matches(
                res,
                spec_call_function(FunctionEntry { id: FuncId::Abs, checked: true }, args@, 0),
            ),
    {
        if args.len() != 1 {
            Err(Error::of_kind(ErrorKind::InvalidArgumentCount))
        } else if args[0] == i64::MIN {
            Err(Error::of_kind(ErrorKind::Overflow))
        } else if args[0] < 0 {
            Ok(-args[0])
        } else {
            Ok(args[0])
        }
    }
}

impl SqrtFunction {
    /// The name of this function.
    pub fn name(&self) -> (r: &'static str)
        ensures
            r@ == "sqrt"@,
    {
        "sqrt"
    }

    /// The integer square root of the one argument: the greatest integer
    /// whose square does not exceed it.  Negative arguments have no real
    /// root and are rejected.
    pub fn call(&self, args: &[i64]) -> (res: Result<i64, Error>)
        ensures
            res_matches(
                res,
                spec_call_function(FunctionEntry { id: FuncId::Sqrt, checked: true }, args@, 0),
            ),
    {
        if args.len() != 1 {
            Err(Error::of_kind(ErrorKind::InvalidArgumentCount))
        } else if args[0] < 0 {
            Err(Error::of_kind(ErrorKind::NAN))
        } else {
            proof {
                lemma_isqrt_props(args@[0] as int);
            }
            Ok(isqrt_exec(args[0]))
        }
    }
}

impl FloorFunction {
    /// The name of this function.
    pub fn name(&self) -> (r: &'static str)
        ensures
            r@ == "floor"@,
    {
        "floor"
    }

    /// The floor of an integer: the integer itself.
    pub fn call(&self, args: &[i64]) -> (res: Result<i64, Error>)
        ensures
            res_matches(
                res,
                spec_call_function(FunctionEntry { id: FuncId::Floor, checked: true }, args@, 0),
            ),
    {
        if args.len() != 1 {
            Err(Error::of_kind(ErrorKind::InvalidArgumentCount))
        } else {
            Ok(args[0])
        }
    }
}

impl CeilFunction {
    /// The name of this function.
    pub fn name(&self) -> (r: &'static str)
        ensures
            r@ == "ceil"@,
    {
        "ceil"
    }

    /// The ceiling of an integer: the integer itself.
    pub fn call(&self, args: &[i64]) -> (res: Result<i64, Error>)
        ensures
            res_matches(
                res,
                spec_call_function(FunctionEntry { id: FuncId::Ceil, checked: true }, args@, 0),
            ),
    {
        if args.len() != 1 {
            Err(Error::of_kind(ErrorKind::InvalidArgumentCount))
        } else {
            Ok(args[0])
        }
    }
}

impl TruncateFunction {
    /// The name of this function.
    pub fn name(&self) -> (r: &'static str)
        ensures
            r@ == "truncate"@,
    {
        "truncate"
    }

    /// The truncation of an integer: the integer itself.
    pub fn call(&self, args: &[i64]) -> (res: Result<i64, Error>)
        ensures
            res_matches(
                res,
                spec_call_function(
                    FunctionEntry { id: FuncId::Truncate, checked: true },
                    args@,
                    0,
                ),
            ),
    {
        if args.len() != 1 {
            Err(Error::of_kind(ErrorKind::InvalidArgumentCount))
        } else {
            Ok(args[0])
        }
    }
}

impl RoundFunction {
    /// The name of this function.
    pub fn name(&self) -> (r: &'static str)
        ensures
            r@ == "round"@,
    {
        "round"
    }

    /// The rounding of an integer: the integer itself.
    pub fn call(&self, args: &[i64]) -> (res: Result<i64, Error>)
        ensures
            res_matches(
                res,
                spec_call_function(FunctionEntry { id: FuncId::Round, checked: true }, args@, 0),
            ),
    {
        if args.len() != 1 {
            Err(Error::of_kind(ErrorKind::InvalidArgumentCount))
        } else {
            Ok(args[0])
        }
    }
}

impl SignFunction {
    /// The name of this function.
    pub fn name(&self) -> (r: &'static str)
        ensures
            r@ == "sign"@,
    {
        "sign"
    }

    /// The sign of the one argument: minus one, zero or one.
    pub fn call(&self, args: &[i64]) -> (res: Result<i64, Error>)
        ensures
            res_matches(
                res,
                spec_call_function(FunctionEntry { id: FuncId::Sign, checked: true }, args@, 0),
            ),
    {
        if args.len() != 1 {
            Err(Error::of_kind(ErrorKind::InvalidArgumentCount))
        } else if args[0] > 0 {
            Ok(1)
        } else if args[0] < 0 {
            Ok(-1)
        } else {
            Ok(0)
        }
    }
}

impl LogFunction {
    /// The name of this function.
    pub fn name(&self) -> (r: &'static str)
        ensures
            r@ == "log"@,
    {
        "log"
    }

    /// The truncated logarithm: base ten of one argument, or of the first
    /// argument in the base given by the second.  Arguments outside the
    /// domain of the real logarithm are rejected.
    pub fn call(&self, args: &[i64]) -> (res: Result<i64, Error>)
        ensures
            res_matches(
                res,
                spec_call_function(FunctionEntry { id: FuncId::Log, checked: true }, args@, 0),
            ),
    {
        if args.len() == 1 {
            if args[0] >= 1 {
                Ok(log10_exec(args[0]))
            } else {
                Err(Error::of_kind(ErrorKind::NAN))
            }
        } else if args.len() == 2 {
            if args[0] >= 1 && args[1] >= 2 {
                Ok(logb_exec(args[0], args[1]))
            } else {
                Err(Error::of_kind(ErrorKind::NAN))
            }
        } else {
            Err(Error::of_kind(ErrorKind::InvalidArgumentCount))
        }
    }
}

impl SinFunction {
    /// The name of this function.
    pub fn name(&self) -> (r: &'static str)
        ensures
            r@ == "sin"@,
    {
        "sin"
    }

    /// The truncation toward zero of the sine of the one argument in
    /// degrees: the sine of a whole degree has magnitude below one except
    /// at the right-angle multiples, so the result is zero, one or minus
    /// one.
    pub fn call(&self, args: &[i64]) -> (res: Result<i64, Error>)
        ensures
            res_matches(
                res,
                spec_call_function(FunctionEntry { id: FuncId::Sin, checked: true }, args@, 0),
            ),
    {
        if args.len() != 1 {
            Err(Error::of_kind(ErrorKind::InvalidArgumentCount))
        } else {
            let m = euclid_mod_360(args[0]);
            if m == 90 {
                Ok(1)
            } else if m == 270 {
                Ok(-1)
            } else {
                Ok(0)
            }
        }
    }
}

impl CosFunction {
    /// The name of this function.
    pub fn name(&self) -> (r: &'static str)
        ensures
            r@ == "cos"@,
    {
        "cos"
    }

    /// The truncation toward zero of the cosine of the one argument in
    /// degrees: the cosine of a whole degree has magnitude below one
    /// except at the straight-angle multiples, so the result is zero, one
    /// or minus one.
    pub fn call(&self, args: &[i64]) -> (res: Result<i64, Error>)
        ensures
            res_matches(
                res,
                spec_call_function(FunctionEntry { id: FuncId::Cos, checked: true }, args@, 0),
            ),
    {
        if args.len() != 1 {
            Err(Error::of_kind(ErrorKind::InvalidArgumentCount))
        } else {
            let m = euclid_mod_360(args[0]);
            if m == 0 {
                Ok(1)
            } else if m == 180 {
                Ok(-1)
            } else {
                Ok(0)
            }
        }
    }
}

/// Relies on `rand::Rng::gen_range` over a half-open integer range: the
/// sample is drawn from `[low, high)`, which must be non-empty.
#[verifier::external_body]
fn sample_uniform(low: i64, high: i64) -> (r: i64)
    requires
        low < high,
    ensures
        low <= r < high,
{
    rand::Rng::gen_range(&mut rand::thread_rng(), low..high)
}

impl RandFunction {
    /// The name of this function.
    pub fn name(&self) -> (r: &'static str)
        ensures
            r@ == "random"@,
    {
        "random"
    }

    /// A sample of a uniform distribution, truncated toward zero: with no
    /// arguments from the unit interval, whose truncation is zero; with
    /// one argument from the interval between zero and it; with two from
    /// the interval between them.
    pub fn call(&self, args: &[i64]) -> (res: Result<i64, Error>)
        ensures
            args@.len() == 0 ==> res_matches(res, Ok(0i64)),
            args@.len() == 1 && args@[0] == 0 ==> res_matches(res, Ok(0i64)),
            args@.len() == 1 && args@[0] > 0 ==> (res matches Ok(v) && 0 <= v < args@[0]),
            args@.len() == 1 && args@[0] < 0 ==> (res matches Ok(v) && args@[0] < v <= 0),
            args@.len() == 2 && args@[0] == args@[1] ==> res_matches(res, Ok(args@[0])),
            args@.len() == 2 && args@[0] < args@[1] ==> (res matches Ok(v) && args@[0] <= v
                < args@[1]),
            args@.len() == 2 && args@[0] > args@[1] ==> (res matches Ok(v) && args@[1] < v
                <= args@[0]),
            args@.len() > 2 ==> (res matches Err(e) && e.spec_kind()
                == ErrorKind::InvalidArgumentCount),
    {
        if args.len() == 0 {
            Ok(0)
        } else if args.len() == 1 {
            let m = args[0];
            if m > 0 {
                Ok(sample_uniform(0, m))
            } else if m == 0 {
                Ok(0)
            } else {
                Ok(sample_uniform(m + 1, 1))
            }
        } else if args.len() == 2 {
            let a = args[0];
            let b = args[1];
            if a < b {
                Ok(sample_uniform(a, b))
            } else if a == b {
                Ok(a)
            } else {
                let v = sample_uniform(b, a);
                Ok(v + 1)
            }
        } else {
            Err(Error::of_kind(ErrorKind::InvalidArgumentCount))
        }
    }
}

/// Applies an n-ary callable to an argument list.  The result agrees with
/// the specification for some drawn sample; every callable except the
/// sampler ignores the sample, and for those the zero-sample
/// specification is exact.
pub fn call_function(e: FunctionEntry, args: &[i64]) -> (res: Result<i64, Error>)
    ensures
        e.id != FuncId::Random ==> res_matches(res, spec_call_function(e, args@, 0)),
        exists|s: i64| res_matches(res, #[trigger] spec_call_function(e, args@, s)),
{
    let res: Result<i64, Error> = match e.id {
        FuncId::Sum => {
            if e.checked {
                (SumFunction).call(args)
            } else {
                Ok(sum_wrapping(args))
            }
        },
        FuncId::Prod => {
            if e.checked {
                (ProdFunction).call(args)
            } else {
                Ok(prod_wrapping(args))
            }
        },
        FuncId::Avg => {
            if e.checked {
                (AvgFunction).call(args)
            } else if args.len() == 0 {
                Err(Error::of_kind(ErrorKind::InvalidArgumentCount))
            } else {
                let s = sum_wrapping(args);
                let count = args.len() as i64;
                match s.checked_div(count) {
                    Some(v) => Ok(v),
                    None => Err(Error::of_kind(ErrorKind::Overflow)),
                }
            }
        },
        FuncId::Max => (MaxFunction).call(args),
        FuncId::Min => (MinFunction).call(args),
        FuncId::Abs => {
            if e.checked || args.len() != 1 || args[0] != i64::MIN {
                (AbsFunction).call(args)
            } else {
                Ok(i64::MIN)
            }
        },
        FuncId::Sqrt => (SqrtFunction).call(args),
        FuncId::Floor => (FloorFunction).call(args),
        FuncId::Ceil => (CeilFunction).call(args),
        FuncId::Truncate => (TruncateFunction).call(args),
        FuncId::Round => (RoundFunction).call(args),
        FuncId::Sign => (SignFunction).call(args),
        FuncId::Log => (LogFunction).call(args),
        FuncId::Sin => (SinFunction).call(args),
        FuncId::Cos => (CosFunction).call(args),
        FuncId::Random => (RandFunction).call(args),
    };
    proof {
        if e.id == FuncId::Random {
            match &res {
                Ok(v) => {
                    assert(res_matches(res, spec_call_function(e, args@, *v)));
                },
                Err(err) => {
                    assert(res_matches(res, spec_call_function(e, args@, 0)));
                },
            }
        } else {
            assert(res_matches(res, spec_call_function(e, args@, 0)));
        }
    }
    res
}

} // verus!

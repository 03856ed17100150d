//! The callable shapes of the registry and their metadata: n-ary functions,
//! binary operators and unary operators, each with a checked and an
//! unchecked (wrapping) arithmetic flavour.

use vstd::prelude::*;

verus! {

/// The placement of a unary operator relative to its operand.
#[derive(Clone, Copy, Debug, PartialEq, Eq, Structural)]
pub enum Notation {
    Prefix,
    Postfix,
}

/// The binding strength of a binary operator, from weakest to strongest.
#[derive(Clone, Copy, Debug, PartialEq, Eq, Structural)]
pub enum Precedence {
    Low,
    Medium,
    High,
    VeryHigh,
}

/// The grouping direction of a binary operator among equals.
#[derive(Clone, Copy, Debug, PartialEq, Eq, Structural)]
pub enum Associativity {
    Left,
    Right,
}

impl Precedence {
    /// The rank of this precedence on a totally ordered scale.
    pub open spec fn spec_rank(self) -> u32 {
        match self {
            Precedence::Low => 0,
            Precedence::Medium => 1,
            Precedence::High => 2,
            Precedence::VeryHigh => 3,
        }
    }

    /// The rank of this precedence on a totally ordered scale.
    pub fn rank(self) -> (r: u32)
        ensures
            r == self.spec_rank(),
    {
        match self {
            Precedence::Low => 0,
            Precedence::Medium => 1,
            Precedence::High => 2,
            Precedence::VeryHigh => 3,
        }
    }
}

/// The identity of a built-in n-ary function.
#[derive(Clone, Copy, Debug, PartialEq, Eq, Structural)]
pub enum FuncId {
    Sum,
    Prod,
    Avg,
    Max,
    Min,
    Abs,
    Sqrt,
    Floor,
    Ceil,
    Truncate,
    Round,
    Sign,
    Log,
    Sin,
    Cos,
    Random,
}

/// The identity of a built-in binary operator.
#[derive(Clone, Copy, Debug, PartialEq, Eq, Structural)]
pub enum BinOpId {
    Add,
    Sub,
    Mul,
    Div,
    Mod,
    Pow,
}

/// The identity of a built-in unary operator.
#[derive(Clone, Copy, Debug, PartialEq, Eq, Structural)]
pub enum UnOpId {
    Plus,
    Minus,
    Factorial,
}

/// An n-ary callable of the registry: which built-in it is and whether its
/// arithmetic reports overflow (`checked`) or wraps around.
#[derive(Clone, Copy, Debug, PartialEq, Eq, Structural)]
pub struct FunctionEntry {
    pub id: FuncId,
    pub checked: bool,
}

/// A binary callable of the registry with its parse-time metadata.
#[derive(Clone, Copy, Debug, PartialEq, Eq, Structural)]
pub struct BinaryEntry {
    pub op: BinOpId,
    pub precedence: Precedence,
    pub associativity: Associativity,
    pub checked: bool,
}

/// A unary callable of the registry with its placement.
#[derive(Clone, Copy, Debug, PartialEq, Eq, Structural)]
pub struct UnaryEntry {
    pub op: UnOpId,
    pub notation: Notation,
    pub checked: bool,
}

impl FunctionEntry {
    /// The name under which this built-in registers by default.
    pub fn default_name(&self) -> (r: &'static str)
        ensures
            r@ == spec_function_name(self.id),
    {
        match self.id {
            FuncId::Sum => "sum",
            FuncId::Prod => "prod",
            FuncId::Avg => "avg",
            FuncId::Max => "max",
            FuncId::Min => "min",
            FuncId::Abs => "abs",
            FuncId::Sqrt => "sqrt",
            FuncId::Floor => "floor",
            FuncId::Ceil => "ceil",
            FuncId::Truncate => "truncate",
            FuncId::Round => "round",
            FuncId::Sign => "sign",
            FuncId::Log => "log",
            FuncId::Sin => "sin",
            FuncId::Cos => "cos",
            FuncId::Random => "random",
        }
    }
}

/// The default registration name of each built-in n-ary function.
pub open spec fn spec_function_name(id: FuncId) -> Seq<char> {
    match id {
        FuncId::Sum => "sum"@,
        FuncId::Prod => "prod"@,
        FuncId::Avg => "avg"@,
        FuncId::Max => "max"@,
        FuncId::Min => "min"@,
        FuncId::Abs => "abs"@,
        FuncId::Sqrt => "sqrt"@,
        FuncId::Floor => "floor"@,
        FuncId::Ceil => "ceil"@,
        FuncId::Truncate => "truncate"@,
        FuncId::Round => "round"@,
        FuncId::Sign => "sign"@,
        FuncId::Log => "log"@,
        FuncId::Sin => "sin"@,
        FuncId::Cos => "cos"@,
        FuncId::Random => "random"@,
    }
}

impl BinaryEntry {
    /// The symbol under which this built-in registers by default.
    pub fn default_name(&self) -> (r: &'static str)
        ensures
            r@ == spec_binary_name(self.op),
    {
        match self.op {
            BinOpId::Add => "+",
            BinOpId::Sub => "-",
            BinOpId::Mul => "*",
            BinOpId::Div => "/",
            BinOpId::Mod => "mod",
            BinOpId::Pow => "^",
        }
    }
}

/// The default registration symbol of each built-in binary operator.
pub open spec fn spec_binary_name(op: BinOpId) -> Seq<char> {
    match op {
        BinOpId::Add => "+"@,
        BinOpId::Sub => "-"@,
        BinOpId::Mul => "*"@,
        BinOpId::Div => "/"@,
        BinOpId::Mod => "mod"@,
        BinOpId::Pow => "^"@,
    }
}

impl UnaryEntry {
    /// The symbol under which this built-in registers by default.
    pub fn default_name(&self) -> (r: &'static str)
        ensures
            r@ == spec_unary_name(self.op),
    {
        match self.op {
            UnOpId::Plus => "+",
            UnOpId::Minus => "-",
            UnOpId::Factorial => "!",
        }
    }
}

/// The default registration symbol of each built-in unary operator.
pub open spec fn spec_unary_name(op: UnOpId) -> Seq<char> {
    match op {
        UnOpId::Plus => "+"@,
        UnOpId::Minus => "-"@,
        UnOpId::Factorial => "!"@,
    }
}

} // verus!

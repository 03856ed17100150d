//! The vocabulary of the command-line front end: the selectable modes and
//! the numeric backend flags.

use vstd::prelude::*;

verus! {

/// A mode of the command-line front end.
#[derive(Debug, Copy, Clone, Eq, PartialEq, Hash, Structural)]
pub enum CommandInfo {
    Eval,
    Run,
    Help,
    Context,
    Ops,
    Func,
    Consts,
}

impl CommandInfo {
    /// The flag that selects this mode; evaluation needs none.
    pub fn name(&self) -> (r: &'static str)
        ensures
            r@ == self.spec_name(),
    {
        match self {
            CommandInfo::Eval => "",
            CommandInfo::Run => "--run",
            CommandInfo::Help => "--help",
            CommandInfo::Context => "--context",
            CommandInfo::Ops => "--operations",
            CommandInfo::Func => "--functions",
            CommandInfo::Consts => "--constants",
        }
    }

    /// The flag that selects this mode.
    pub open spec fn spec_name(self) -> Seq<char> {
        match self {
            CommandInfo::Eval => ""@,
            CommandInfo::Run => "--run"@,
            CommandInfo::Help => "--help"@,
            CommandInfo::Context => "--context"@,
            CommandInfo::Ops => "--operations"@,
            CommandInfo::Func => "--functions"@,
            CommandInfo::Consts => "--constants"@,
        }
    }

    /// The short alias of this mode's flag, if it has one.
    pub fn alias(&self) -> (r: Option<&'static str>)
        ensures
            match r {
                Some(a) => self.spec_alias() matches Some(v) && a@ == v,
                None => self.spec_alias() is None,
            },
    {
        match self {
            CommandInfo::Eval => None,
            CommandInfo::Run => Some("--r"),
            CommandInfo::Help => Some("--h"),
            CommandInfo::Context => Some("--ctx"),
            CommandInfo::Ops => Some("--ops"),
            CommandInfo::Func => Some("--funs"),
            CommandInfo::Consts => Some("--cons"),
        }
    }

    /// The short alias of this mode's flag, if it has one.
    pub open spec fn spec_alias(self) -> Option<Seq<char>> {
        match self {
            CommandInfo::Eval => None,
            CommandInfo::Run => Some("--r"@),
            CommandInfo::Help => Some("--h"@),
            CommandInfo::Context => Some("--ctx"@),
            CommandInfo::Ops => Some("--ops"@),
            CommandInfo::Func => Some("--funs"@),
            CommandInfo::Consts => Some("--cons"@),
        }
    }
}

/// The numeric backend selected on the command line.
#[derive(Debug, Copy, Clone, Eq, PartialEq, Hash, Structural)]
pub enum NumberType {
    Decimal,
    BigDecimal,
    Complex,
}

impl Default for NumberType {
    /// The backend used when no flag selects one.
    fn default() -> (r: NumberType)
        ensures
            r == NumberType::Decimal,
    {
        NumberType::Decimal
    }
}

/// The backend each flag selects: the decimal, big-decimal or complex
/// number type, or no backend for any other text.
pub open spec fn spec_backend_for(s: Seq<char>) -> Result<NumberType, ()> {
    if s == "--decimal"@ || s == "--d"@ {
        Ok(NumberType::Decimal)
    } else if s == "--bigdecimal"@ || s == "--b"@ {
        Ok(NumberType::BigDecimal)
    } else if s == "--complex"@ || s == "--c"@ {
        Ok(NumberType::Complex)
    } else {
        Err(())
    }
}

impl NumberType {
    /// The backend a flag selects, if any.
    pub fn try_from(value: &str) -> (r: Result<NumberType, ()>)
        ensures
            r == spec_backend_for(value@),
    {
        if str_eq(value, "--decimal") || str_eq(value, "--d") {
            Ok(NumberType::Decimal)
        } else if str_eq(value, "--bigdecimal") || str_eq(value, "--b") {
            Ok(NumberType::BigDecimal)
        } else if str_eq(value, "--complex") || str_eq(value, "--c") {
            Ok(NumberType::Complex)
        } else {
            Err(())
        }
    }
}

/// Compares two strings character by character.
fn str_eq(a: &str, b: &str) -> (r: bool)
    ensures
        r == (a@ == b@),
{
    let alen = a.unicode_len();
    let blen = b.unicode_len();
    if alen != blen {
        return false;
    }
    let mut i: usize = 0;
    while i < alen
        invariant
            alen == a@.len(),
            blen == b@.len(),
            alen == blen,
            i <= alen,
            forall|j: int| 0 <= j < i ==> a@[j] == b@[j],
        decreases alen - i,
    {
        if a.get_char(i) != b.get_char(i) {
            return false;
        }
        i = i + 1;
    }
    proof {
        assert(a@ =~= b@);
    }
    true
}

} // verus!

//! The evaluation context: configuration plus five name-keyed tables
//! (variables, constants, n-ary functions, binary operators, unary
//! operators), all keyed ignoring ASCII case.

use vstd::prelude::*;

use crate::error::{Error, ErrorKind};
use crate::function::{
    Associativity, BinOpId, BinaryEntry, FuncId, FunctionEntry, Notation, Precedence, UnOpId,
    UnaryEntry,
};
use crate::ignore_case::{fold, IgnoreCaseMap};

verus! {

/// A pair of grouping characters, such as `(` and `)`.
#[derive(Debug, Copy, Clone, Eq, PartialEq, Hash, Structural)]
pub struct GroupingSymbol {
    pub group_open: char,
    pub group_close: char,
}

impl GroupingSymbol {
    /// Creates a pair of grouping characters.
    pub fn new(group_open: char, group_close: char) -> (r: GroupingSymbol)
        requires
            group_open != group_close,
        ensures
            r == (GroupingSymbol { group_open, group_close }),
    {
        GroupingSymbol { group_open, group_close }
    }
}

/// The first configured pair that uses `c` as its open or close character.
pub open spec fn group_for(s: Seq<GroupingSymbol>, c: char) -> Option<GroupingSymbol>
    decreases s.len(),
{
    if s.len() == 0 {
        None
    } else if s[0].group_open == c || s[0].group_close == c {
        Some(s[0])
    } else {
        group_for(s.drop_first(), c)
    }
}

/// The open character of the first configured pair that closes with `c`.
pub open spec fn open_for(s: Seq<GroupingSymbol>, c: char) -> Option<char>
    decreases s.len(),
{
    if s.len() == 0 {
        None
    } else if s[0].group_close == c {
        Some(s[0].group_open)
    } else {
        open_for(s.drop_first(), c)
    }
}

/// Pairs that do not use `c` do not decide `group_for`.
pub proof fn lemma_group_for_skip(s: Seq<GroupingSymbol>, c: char, i: int)
    requires
        0 <= i <= s.len(),
        forall|j: int| 0 <= j < i ==> s[j].group_open != c && s[j].group_close != c,
    ensures
        group_for(s, c) == group_for(s.skip(i), c),
    decreases i,
{
    if i > 0 {
        assert forall|j: int|
            0 <= j < i - 1 implies s.drop_first()[j].group_open != c
            && s.drop_first()[j].group_close != c by {
            assert(s.drop_first()[j] == s[j + 1]);
        }
        lemma_group_for_skip(s.drop_first(), c, i - 1);
        assert(s.drop_first().skip(i - 1) =~= s.skip(i));
    } else {
        assert(s.skip(0) =~= s);
    }
}

/// Pairs that do not close with `c` do not decide `open_for`.
pub proof fn lemma_open_for_skip(s: Seq<GroupingSymbol>, c: char, i: int)
    requires
        0 <= i <= s.len(),
        forall|j: int| 0 <= j < i ==> s[j].group_close != c,
    ensures
        open_for(s, c) == open_for(s.skip(i), c),
    decreases i,
{
    if i > 0 {
        assert forall|j: int| 0 <= j < i - 1 implies s.drop_first()[j].group_close != c by {
            assert(s.drop_first()[j] == s[j + 1]);
        }
        lemma_open_for_skip(s.drop_first(), c, i - 1);
        assert(s.drop_first().skip(i - 1) =~= s.skip(i));
    } else {
        assert(s.skip(0) =~= s);
    }
}

/// The tokenizer- and parser-relevant settings of a context.
#[derive(Debug, Clone, PartialEq)]
pub struct Config {
    implicit_mul: bool,
    complex_number: bool,
    custom_function_call: bool,
    grouping: Vec<GroupingSymbol>,
}

impl Config {
    /// Whether a multiplication is injected between adjacent producer and
    /// consumer tokens.
    pub closed spec fn spec_implicit_mul(self) -> bool {
        self.implicit_mul
    }

    /// Whether the identifier `i` names the imaginary-unit constant.
    pub closed spec fn spec_complex_number(self) -> bool {
        self.complex_number
    }

    /// Whether function arguments may sit in any configured grouping pair
    /// rather than parentheses only.
    pub closed spec fn spec_custom_function_call(self) -> bool {
        self.custom_function_call
    }

    /// The configured grouping pairs, in registration order.
    pub closed spec fn spec_grouping(self) -> Seq<GroupingSymbol> {
        self.grouping@
    }

    /// Creates the default configuration with `(` and `)` registered.
    pub fn new() -> (r: Config)
        ensures
            !r.spec_implicit_mul(),
            !r.spec_complex_number(),
            !r.spec_custom_function_call(),
            r.spec_grouping() =~= seq![
                GroupingSymbol { group_open: '(', group_close: ')' },
            ],
    {
        let mut grouping: Vec<GroupingSymbol> = Vec::new();
        grouping.push(GroupingSymbol { group_open: '(', group_close: ')' });
        Config { implicit_mul: false, complex_number: false, custom_function_call: false, grouping }
    }

    /// Enables or disables implicit multiplication.
    pub fn with_implicit_mul(self, enable: bool) -> (r: Config)
        ensures
            r.spec_implicit_mul() == enable,
            r.spec_complex_number() == self.spec_complex_number(),
            r.spec_custom_function_call() == self.spec_custom_function_call(),
            r.spec_grouping() == self.spec_grouping(),
    {
        Config { implicit_mul: enable, ..self }
    }

    /// Enables or disables the imaginary-unit constant `i`.
    pub fn with_complex_number(self, enable: bool) -> (r: Config)
        ensures
            r.spec_complex_number() == enable,
            r.spec_implicit_mul() == self.spec_implicit_mul(),
            r.spec_custom_function_call() == self.spec_custom_function_call(),
            r.spec_grouping() == self.spec_grouping(),
    {
        Config { complex_number: enable, ..self }
    }

    /// Allows or forbids function arguments in non-parenthesis grouping.
    pub fn with_custom_function_call(self, enable: bool) -> (r: Config)
        ensures
            r.spec_custom_function_call() == enable,
            r.spec_implicit_mul() == self.spec_implicit_mul(),
            r.spec_complex_number() == self.spec_complex_number(),
            r.spec_grouping() == self.spec_grouping(),
    {
        Config { custom_function_call: enable, ..self }
    }

    /// Registers a grouping pair.  Both characters must be new, and must
    /// differ from each other.
    pub fn with_group_symbol(self, open_group: char, close_group: char) -> (r: Config)
        requires
            open_group != close_group,
            group_for(self.spec_grouping(), open_group) is None,
            group_for(self.spec_grouping(), close_group) is None,
        ensures
            r.spec_grouping() == self.spec_grouping().push(
                GroupingSymbol { group_open: open_group, group_close: close_group },
            ),
            r.spec_implicit_mul() == self.spec_implicit_mul(),
            r.spec_complex_number() == self.spec_complex_number(),
            r.spec_custom_function_call() == self.spec_custom_function_call(),
    {
        let mut grouping = self.grouping;
        grouping.push(GroupingSymbol { group_open: open_group, group_close: close_group });
        Config {
            implicit_mul: self.implicit_mul,
            complex_number: self.complex_number,
            custom_function_call: self.custom_function_call,
            grouping,
        }
    }

    /// Whether implicit multiplication is enabled.
    pub fn implicit_mul(&self) -> (r: bool)
        ensures
            r == self.spec_implicit_mul(),
    {
        self.implicit_mul
    }

    /// Whether the imaginary-unit constant is enabled.
    pub fn complex_number(&self) -> (r: bool)
        ensures
            r == self.spec_complex_number(),
    {
        self.complex_number
    }

    /// Whether function arguments may use any configured grouping pair.
    pub fn custom_function_call(&self) -> (r: bool)
        ensures
            r == self.spec_custom_function_call(),
    {
        self.custom_function_call
    }

    /// The pair that uses `symbol` as its open or close character, if any.
    pub fn get_group_symbol(&self, symbol: char) -> (r: Option<&GroupingSymbol>)
        ensures
            match r {
                Some(g) => group_for(self.spec_grouping(), symbol) == Some(*g),
                None => group_for(self.spec_grouping(), symbol) is None,
            },
    {
        let n = self.grouping.len();
        let mut i: usize = 0;
        while i < n
            invariant
                n == self.grouping@.len(),
                i <= n,
                forall|j: int|
                    0 <= j < i ==> self.grouping@[j].group_open != symbol
                        && self.grouping@[j].group_close != symbol,
            decreases n - i,
        {
            let g = &self.grouping[i];
            if g.group_open == symbol || g.group_close == symbol {
                proof {
                    lemma_group_for_skip(self.grouping@, symbol, i as int);
                }
                return Some(g);
            }
            i = i + 1;
        }
        proof {
            lemma_group_for_skip(self.grouping@, symbol, n as int);
            assert(self.grouping@.skip(n as int) =~= Seq::<GroupingSymbol>::empty());
        }
        None
    }

    /// The open character of the pair that closes with `symbol`, if any.
    pub fn get_group_open_for(&self, symbol: char) -> (r: Option<char>)
        ensures
            r == open_for(self.spec_grouping(), symbol),
    {
        let n = self.grouping.len();
        let mut i: usize = 0;
        while i < n
            invariant
                n == self.grouping@.len(),
                i <= n,
                forall|j: int| 0 <= j < i ==> self.grouping@[j].group_close != symbol,
            decreases n - i,
        {
            let g = &self.grouping[i];
            if g.group_close == symbol {
                proof {
                    lemma_open_for_skip(self.grouping@, symbol, i as int);
                }
                return Some(g.group_open);
            }
            i = i + 1;
        }
        proof {
            lemma_open_for_skip(self.grouping@, symbol, n as int);
            assert(self.grouping@.skip(n as int) =~= Seq::<GroupingSymbol>::empty());
        }
        None
    }
}

impl Default for Config {
    /// The empty configuration: no feature enabled, no grouping pair.
    fn default() -> (r: Config)
        ensures
            !r.spec_implicit_mul(),
            !r.spec_complex_number(),
            !r.spec_custom_function_call(),
            r.spec_grouping() == Seq::<GroupingSymbol>::empty(),
    {
        Config {
            implicit_mul: false,
            complex_number: false,
            custom_function_call: false,
            grouping: Vec::new(),
        }
    }
}

/// The mathematical content of a context: five maps from folded names to
/// bindings, and the configuration settings.
#[verifier::ext_equal]
pub struct CtxV {
    pub vars: Map<Seq<int>, i64>,
    pub consts: Map<Seq<int>, i64>,
    pub funcs: Map<Seq<int>, FunctionEntry>,
    pub binops: Map<Seq<int>, BinaryEntry>,
    pub unops: Map<Seq<int>, UnaryEntry>,
    pub implicit_mul: bool,
    pub complex_number: bool,
    pub custom_function_call: bool,
    pub grouping: Seq<GroupingSymbol>,
}

/// A name-resolution and configuration store for evaluations over checked
/// 64-bit integers.
pub struct DefaultContext {
    variables: IgnoreCaseMap<i64>,
    constants: IgnoreCaseMap<i64>,
    functions: IgnoreCaseMap<FunctionEntry>,
    binary_functions: IgnoreCaseMap<BinaryEntry>,
    unary_functions: IgnoreCaseMap<UnaryEntry>,
    config: Config,
}

impl View for DefaultContext {
    type V = CtxV;

    closed spec fn view(&self) -> CtxV {
        CtxV {
            vars: self.variables.spec_map(),
            consts: self.constants.spec_map(),
            funcs: self.functions.spec_map(),
            binops: self.binary_functions.spec_map(),
            unops: self.unary_functions.spec_map(),
            implicit_mul: self.config.spec_implicit_mul(),
            complex_number: self.config.spec_complex_number(),
            custom_function_call: self.config.spec_custom_function_call(),
            grouping: self.config.spec_grouping(),
        }
    }
}

impl CtxV {
    /// The settings of a context whose configuration is `config` and whose
    /// tables are given.
    pub open spec fn config_matches(self, config: Config) -> bool {
        &&& self.implicit_mul == config.spec_implicit_mul()
        &&& self.complex_number == config.spec_complex_number()
        &&& self.custom_function_call == config.spec_custom_function_call()
        &&& self.grouping == config.spec_grouping()
    }

    /// All five tables are empty.
    pub open spec fn tables_empty(self) -> bool {
        &&& self.vars == Map::<Seq<int>, i64>::empty()
        &&& self.consts == Map::<Seq<int>, i64>::empty()
        &&& self.funcs == Map::<Seq<int>, FunctionEntry>::empty()
        &&& self.binops == Map::<Seq<int>, BinaryEntry>::empty()
        &&& self.unops == Map::<Seq<int>, UnaryEntry>::empty()
    }
}

impl DefaultContext {
    /// Creates an empty context with the default configuration.
    pub fn new() -> (r: DefaultContext)
        ensures
            r@.tables_empty(),
            !r@.implicit_mul,
            !r@.complex_number,
            !r@.custom_function_call,
            r@.grouping =~= seq![GroupingSymbol { group_open: '(', group_close: ')' }],
    {
        Self::new_with_config(Config::new())
    }

    /// Creates an empty context with the given configuration.
    pub fn new_with_config(config: Config) -> (r: DefaultContext)
        ensures
            r@.tables_empty(),
            r@.config_matches(config),
    {
        DefaultContext {
            variables: IgnoreCaseMap::new(),
            constants: IgnoreCaseMap::new(),
            functions: IgnoreCaseMap::new(),
            binary_functions: IgnoreCaseMap::new(),
            unary_functions: IgnoreCaseMap::new(),
            config,
        }
    }

    /// Creates an empty context with the empty configuration: unlike
    /// [`DefaultContext::new`] it registers no grouping pair.
    pub fn empty() -> (r: DefaultContext)
        ensures
            r@.tables_empty(),
            !r@.implicit_mul,
            !r@.complex_number,
            !r@.custom_function_call,
            r@.grouping == Seq::<GroupingSymbol>::empty(),
    {
        Self::empty_with_config(Config::default())
    }

    /// Creates an empty context with the given configuration.
    pub fn empty_with_config(config: Config) -> (r: DefaultContext)
        ensures
            r@.tables_empty(),
            r@.config_matches(config),
    {
        DefaultContext {
            variables: IgnoreCaseMap::new(),
            constants: IgnoreCaseMap::new(),
            functions: IgnoreCaseMap::new(),
            binary_functions: IgnoreCaseMap::new(),
            unary_functions: IgnoreCaseMap::new(),
            config,
        }
    }

    /// The variable table.
    pub fn variables(&self) -> (r: &IgnoreCaseMap<i64>)
        ensures
            r.spec_map() == self@.vars,
    {
        &self.variables
    }

    /// The constant table.
    pub fn constants(&self) -> (r: &IgnoreCaseMap<i64>)
        ensures
            r.spec_map() == self@.consts,
    {
        &self.constants
    }

    /// The n-ary function table.
    pub fn functions(&self) -> (r: &IgnoreCaseMap<FunctionEntry>)
        ensures
            r.spec_map() == self@.funcs,
    {
        &self.functions
    }

    /// The binary operator table.
    pub fn binary_functions(&self) -> (r: &IgnoreCaseMap<BinaryEntry>)
        ensures
            r.spec_map() == self@.binops,
    {
        &self.binary_functions
    }

    /// The unary operator table.
    pub fn unary_functions(&self) -> (r: &IgnoreCaseMap<UnaryEntry>)
        ensures
            r.spec_map() == self@.unops,
    {
        &self.unary_functions
    }

    /// The configuration of this context.
    pub fn config(&self) -> (r: &Config)
        ensures
            self@.config_matches(*r),
    {
        &self.config
    }

    /// Looks up a variable, ignoring ASCII case.
    pub fn get_variable(&self, name: &str) -> (r: Option<i64>)
        ensures
            r == self@.vars.get(fold(name@)),
    {
        self.variables.get(name)
    }

    /// Binds a variable, ignoring ASCII case.  A name that is already
    /// bound as a constant is rejected with `InvalidInput`; otherwise the
    /// previous value of the variable, if any, is returned.
    pub fn set_variable(&mut self, name: &str, value: i64) -> (r: Result<Option<i64>, Error>)
        ensures
            old(self)@.consts.contains_key(fold(name@)) <==> r is Err,
            match r {
                Ok(prev) => {
                    &&& final (self)@ == (CtxV { vars: old(self)@.vars.insert(fold(name@), value), ..old(self)@ })
                    &&& prev == old(self)@.vars.get(fold(name@))
                },
                Err(e) => {
                    &&& e.spec_kind() == ErrorKind::InvalidInput
                    &&& final (self)@ == old(self)@
                },
            },
    {
        if self.constants.contains(name) {
            Err(Error::new(ErrorKind::InvalidInput, "a constant with this name exists"))
        } else {
            let prev = self.variables.set(name, value);
            Ok(prev)
        }
    }

    /// Looks up a constant, ignoring ASCII case.
    pub fn get_constant(&self, name: &str) -> (r: Option<i64>)
        ensures
            r == self@.consts.get(fold(name@)),
    {
        self.constants.get(name)
    }

    /// Binds a constant, ignoring ASCII case.  An existing binding of the
    /// same name is replaced.
    pub fn add_constant(&mut self, name: &str, value: i64)
        ensures
            final (self)@ == (CtxV { consts: old(self)@.consts.insert(fold(name@), value), ..old(self)@ }),
    {
        self.constants.set(name, value);
    }

    /// Looks up an n-ary function, ignoring ASCII case.
    pub fn get_function(&self, name: &str) -> (r: Option<FunctionEntry>)
        ensures
            r == self@.funcs.get(fold(name@)),
    {
        self.functions.get(name)
    }

    /// Looks up a binary operator, ignoring ASCII case.
    pub fn get_binary_function(&self, name: &str) -> (r: Option<BinaryEntry>)
        ensures
            r == self@.binops.get(fold(name@)),
    {
        self.binary_functions.get(name)
    }

    /// Looks up a unary operator, ignoring ASCII case.
    pub fn get_unary_function(&self, name: &str) -> (r: Option<UnaryEntry>)
        ensures
            r == self@.unops.get(fold(name@)),
    {
        self.unary_functions.get(name)
    }

    /// Whether a variable with this name exists, ignoring ASCII case.
    pub fn is_variable(&self, name: &str) -> (r: bool)
        ensures
            r == self@.vars.contains_key(fold(name@)),
    {
        self.variables.contains(name)
    }

    /// Whether a constant with this name exists, ignoring ASCII case.
    pub fn is_constant(&self, name: &str) -> (r: bool)
        ensures
            r == self@.consts.contains_key(fold(name@)),
    {
        self.constants.contains(name)
    }

    /// Whether an n-ary function with this name exists, ignoring ASCII case.
    pub fn is_function(&self, name: &str) -> (r: bool)
        ensures
            r == self@.funcs.contains_key(fold(name@)),
    {
        self.functions.contains(name)
    }

    /// Whether a binary operator with this name exists, ignoring ASCII case.
    pub fn is_binary_function(&self, name: &str) -> (r: bool)
        ensures
            r == self@.binops.contains_key(fold(name@)),
    {
        self.binary_functions.contains(name)
    }

    /// Whether a unary operator with this name exists, ignoring ASCII case.
    pub fn is_unary_function(&self, name: &str) -> (r: bool)
        ensures
            r == self@.unops.contains_key(fold(name@)),
    {
        self.unary_functions.contains(name)
    }

    /// Registers an n-ary function under its default name.  A name already
    /// present in the function table is rejected with `InvalidInput`.
    pub fn add_function(&mut self, entry: FunctionEntry) -> (r: Result<(), Error>)
        ensures
            old(self)@.funcs.contains_key(fold(crate::function::spec_function_name(entry.id)))
                <==> r is Err,
            match r {
                Ok(u) => final (self)@ == (CtxV {
                    funcs: old(self)@.funcs.insert(
                        fold(crate::function::spec_function_name(entry.id)),
                        entry,
                    ),
                    ..old(self)@
                }),
                Err(e) => {
                    &&& e.spec_kind() == ErrorKind::InvalidInput
                    &&& final (self)@ == old(self)@
                },
            },
    {
        let name = entry.default_name();
        self.add_function_as(name, entry)
    }

    /// Registers an n-ary function under the given name.  A name already
    /// present in the function table is rejected with `InvalidInput`.
    pub fn add_function_as(&mut self, name: &str, entry: FunctionEntry) -> (r: Result<(), Error>)
        ensures
            old(self)@.funcs.contains_key(fold(name@)) <==> r is Err,
            match r {
                Ok(u) => final (self)@ == (CtxV {
                    funcs: old(self)@.funcs.insert(fold(name@), entry),
                    ..old(self)@
                }),
                Err(e) => {
                    &&& e.spec_kind() == ErrorKind::InvalidInput
                    &&& final (self)@ == old(self)@
                },
            },
    {
        if self.functions.contains(name) {
            Err(Error::new(ErrorKind::InvalidInput, "a function with this name exists"))
        } else {
            self.functions.set(name, entry);
            Ok(())
        }
    }

    /// Registers a binary operator under its default symbol.  A symbol
    /// already present in the binary table is rejected with `InvalidInput`.
    pub fn add_binary_function(&mut self, entry: BinaryEntry) -> (r: Result<(), Error>)
        ensures
            old(self)@.binops.contains_key(fold(crate::function::spec_binary_name(entry.op)))
                <==> r is Err,
            match r {
                Ok(u) => final (self)@ == (CtxV {
                    binops: old(self)@.binops.insert(
                        fold(crate::function::spec_binary_name(entry.op)),
                        entry,
                    ),
                    ..old(self)@
                }),
                Err(e) => {
                    &&& e.spec_kind() == ErrorKind::InvalidInput
                    &&& final (self)@ == old(self)@
                },
            },
    {
        let name = entry.default_name();
        self.add_binary_function_as(name, entry)
    }

    /// Registers a binary operator under the given symbol.  A symbol
    /// already present in the binary table is rejected with `InvalidInput`.
    pub fn add_binary_function_as(&mut self, name: &str, entry: BinaryEntry) -> (r: Result<
        (),
        Error,
    >)
        ensures
            old(self)@.binops.contains_key(fold(name@)) <==> r is Err,
            match r {
                Ok(u) => final (self)@ == (CtxV {
                    binops: old(self)@.binops.insert(fold(name@), entry),
                    ..old(self)@
                }),
                Err(e) => {
                    &&& e.spec_kind() == ErrorKind::InvalidInput
                    &&& final (self)@ == old(self)@
                },
            },
    {
        if self.binary_functions.contains(name) {
            Err(Error::new(ErrorKind::InvalidInput, "a binary function with this name exists"))
        } else {
            self.binary_functions.set(name, entry);
            Ok(())
        }
    }

    /// Registers a unary operator under its default symbol.  A symbol
    /// already present in the unary table is rejected with `InvalidInput`.
    pub fn add_unary_function(&mut self, entry: UnaryEntry) -> (r: Result<(), Error>)
        ensures
            old(self)@.unops.contains_key(fold(crate::function::spec_unary_name(entry.op)))
                <==> r is Err,
            match r {
                Ok(u) => final (self)@ == (CtxV {
                    unops: old(self)@.unops.insert(
                        fold(crate::function::spec_unary_name(entry.op)),
                        entry,
                    ),
                    ..old(self)@
                }),
                Err(e) => {
                    &&& e.spec_kind() == ErrorKind::InvalidInput
                    &&& final (self)@ == old(self)@
                },
            },
    {
        let name = entry.default_name();
        self.add_unary_function_as(name, entry)
    }

    /// Registers a unary operator under the given symbol.  A symbol
    /// already present in the unary table is rejected with `InvalidInput`.
    pub fn add_unary_function_as(&mut self, name: &str, entry: UnaryEntry) -> (r: Result<
        (),
        Error,
    >)
        ensures
            old(self)@.unops.contains_key(fold(name@)) <==> r is Err,
            match r {
                Ok(u) => final (self)@ == (CtxV {
                    unops: old(self)@.unops.insert(fold(name@), entry),
                    ..old(self)@
                }),
                Err(e) => {
                    &&& e.spec_kind() == ErrorKind::InvalidInput
                    &&& final (self)@ == old(self)@
                },
            },
    {
        if self.unary_functions.contains(name) {
            Err(Error::new(ErrorKind::InvalidInput, "an unary function with this name exists"))
        } else {
            self.unary_functions.set(name, entry);
            Ok(())
        }
    }
}

/// The preloaded constants of the integer backend: the truncations of the
/// two mathematical constants pi and e.
pub open spec fn default_constants() -> Map<Seq<int>, i64> {
    Map::empty().insert(fold("PI"@), 3).insert(fold("E"@), 2)
}

/// The preloaded binary operators.
pub open spec fn default_binary_ops(checked: bool) -> Map<Seq<int>, BinaryEntry> {
    Map::empty().insert(
        fold("+"@),
        BinaryEntry {
            op: BinOpId::Add,
            precedence: Precedence::Low,
            associativity: Associativity::Left,
            checked,
        },
    ).insert(
        fold("-"@),
        BinaryEntry {
            op: BinOpId::Sub,
            precedence: Precedence::Low,
            associativity: Associativity::Left,
            checked,
        },
    ).insert(
        fold("*"@),
        BinaryEntry {
            op: BinOpId::Mul,
            precedence: Precedence::Medium,
            associativity: Associativity::Left,
            checked,
        },
    ).insert(
        fold("/"@),
        BinaryEntry {
            op: BinOpId::Div,
            precedence: Precedence::Medium,
            associativity: Associativity::Left,
            checked,
        },
    ).insert(
        fold("^"@),
        BinaryEntry {
            op: BinOpId::Pow,
            precedence: Precedence::High,
            associativity: Associativity::Right,
            checked,
        },
    ).insert(
        fold("mod"@),
        BinaryEntry {
            op: BinOpId::Mod,
            precedence: Precedence::Medium,
            associativity: Associativity::Left,
            checked,
        },
    )
}

/// The preloaded unary operators: prefix identity and negation, postfix
/// factorial.
pub open spec fn default_unary_ops(checked: bool) -> Map<Seq<int>, UnaryEntry> {
    Map::empty().insert(
        fold("+"@),
        UnaryEntry { op: UnOpId::Plus, notation: Notation::Prefix, checked },
    ).insert(
        fold("-"@),
        UnaryEntry { op: UnOpId::Minus, notation: Notation::Prefix, checked },
    ).insert(
        fold("!"@),
        UnaryEntry { op: UnOpId::Factorial, notation: Notation::Postfix, checked },
    )
}

/// The preloaded n-ary functions of the checked context.
pub open spec fn default_functions_checked() -> Map<Seq<int>, FunctionEntry> {
    Map::empty().insert(fold("sum"@), FunctionEntry { id: FuncId::Sum, checked: true }).insert(
        fold("prod"@),
        FunctionEntry { id: FuncId::Prod, checked: true },
    ).insert(fold("avg"@), FunctionEntry { id: FuncId::Avg, checked: true }).insert(
        fold("max"@),
        FunctionEntry { id: FuncId::Max, checked: true },
    ).insert(fold("min"@), FunctionEntry { id: FuncId::Min, checked: true }).insert(
        fold("abs"@),
        FunctionEntry { id: FuncId::Abs, checked: true },
    ).insert(fold("sqrt"@), FunctionEntry { id: FuncId::Sqrt, checked: true }).insert(
        fold("log"@),
        FunctionEntry { id: FuncId::Log, checked: true },
    ).insert(fold("floor"@), FunctionEntry { id: FuncId::Floor, checked: true }).insert(
        fold("ceil"@),
        FunctionEntry { id: FuncId::Ceil, checked: true },
    ).insert(fold("truncate"@), FunctionEntry { id: FuncId::Truncate, checked: true }).insert(
        fold("round"@),
        FunctionEntry { id: FuncId::Round, checked: true },
    ).insert(fold("sign"@), FunctionEntry { id: FuncId::Sign, checked: true }).insert(
        fold("sin"@),
        FunctionEntry { id: FuncId::Sin, checked: true },
    ).insert(fold("cos"@), FunctionEntry { id: FuncId::Cos, checked: true }).insert(
        fold("random"@),
        FunctionEntry { id: FuncId::Random, checked: true },
    )
}

/// The preloaded n-ary functions of the unchecked context.
pub open spec fn default_functions_unchecked() -> Map<Seq<int>, FunctionEntry> {
    Map::empty().insert(fold("sum"@), FunctionEntry { id: FuncId::Sum, checked: false }).insert(
        fold("avg"@),
        FunctionEntry { id: FuncId::Avg, checked: false },
    ).insert(fold("prod"@), FunctionEntry { id: FuncId::Prod, checked: false }).insert(
        fold("max"@),
        FunctionEntry { id: FuncId::Max, checked: false },
    ).insert(fold("min"@), FunctionEntry { id: FuncId::Min, checked: false }).insert(
        fold("sqrt"@),
        FunctionEntry { id: FuncId::Sqrt, checked: false },
    ).insert(fold("log"@), FunctionEntry { id: FuncId::Log, checked: false }).insert(
        fold("sin"@),
        FunctionEntry { id: FuncId::Sin, checked: false },
    ).insert(fold("cos"@), FunctionEntry { id: FuncId::Cos, checked: false })
}

impl DefaultContext {
    /// Creates a context preloaded with the default constants and the
    /// checked (overflow-reporting) operator and function set.
    pub fn new_checked() -> (r: DefaultContext)
        ensures
            r@.vars == Map::<Seq<int>, i64>::empty(),
            r@.consts == default_constants(),
            r@.binops == default_binary_ops(true),
            r@.unops == default_unary_ops(true),
            r@.funcs == default_functions_checked(),
            !r@.implicit_mul,
            !r@.complex_number,
            !r@.custom_function_call,
            r@.grouping =~= seq![GroupingSymbol { group_open: '(', group_close: ')' }],
    {
        Self::new_checked_with_config(Config::new())
    }

    /// Creates a context preloaded with the default constants and the
    /// checked (overflow-reporting) operator and function set, using the
    /// given configuration.
    pub fn new_checked_with_config(config: Config) -> (r: DefaultContext)
        ensures
            r@.vars == Map::<Seq<int>, i64>::empty(),
            r@.consts == default_constants(),
            r@.binops == default_binary_ops(true),
            r@.unops == default_unary_ops(true),
            r@.funcs == default_functions_checked(),
            r@.config_matches(config),
    {
        let mut context = Self::new_with_config(config);
        context.add_constant("PI", 3);
        context.add_constant("E", 2);
        context.binary_functions.set(
            "+",
            BinaryEntry {
                op: BinOpId::Add,
                precedence: Precedence::Low,
                associativity: Associativity::Left,
                checked: true,
            },
        );
        context.binary_functions.set(
            "-",
            BinaryEntry {
                op: BinOpId::Sub,
                precedence: Precedence::Low,
                associativity: Associativity::Left,
                checked: true,
            },
        );
        context.binary_functions.set(
            "*",
            BinaryEntry {
                op: BinOpId::Mul,
                precedence: Precedence::Medium,
                associativity: Associativity::Left,
                checked: true,
            },
        );
        context.binary_functions.set(
            "/",
            BinaryEntry {
                op: BinOpId::Div,
                precedence: Precedence::Medium,
                associativity: Associativity::Left,
                checked: true,
            },
        );
        context.binary_functions.set(
            "^",
            BinaryEntry {
                op: BinOpId::Pow,
                precedence: Precedence::High,
                associativity: Associativity::Right,
                checked: true,
            },
        );
        context.binary_functions.set(
            "mod",
            BinaryEntry {
                op: BinOpId::Mod,
                precedence: Precedence::Medium,
                associativity: Associativity::Left,
                checked: true,
            },
        );
        context.unary_functions.set(
            "+",
            UnaryEntry { op: UnOpId::Plus, notation: Notation::Prefix, checked: true },
        );
        context.unary_functions.set(
            "-",
            UnaryEntry { op: UnOpId::Minus, notation: Notation::Prefix, checked: true },
        );
        context.unary_functions.set(
            "!",
            UnaryEntry { op: UnOpId::Factorial, notation: Notation::Postfix, checked: true },
        );
        context.functions.set("sum", FunctionEntry { id: FuncId::Sum, checked: true });
        context.functions.set("prod", FunctionEntry { id: FuncId::Prod, checked: true });
        context.functions.set("avg", FunctionEntry { id: FuncId::Avg, checked: true });
        context.functions.set("max", FunctionEntry { id: FuncId::Max, checked: true });
        context.functions.set("min", FunctionEntry { id: FuncId::Min, checked: true });
        context.functions.set("abs", FunctionEntry { id: FuncId::Abs, checked: true });
        context.functions.set("sqrt", FunctionEntry { id: FuncId::Sqrt, checked: true });
        context.functions.set("log", FunctionEntry { id: FuncId::Log, checked: true });
        context.functions.set("floor", FunctionEntry { id: FuncId::Floor, checked: true });
        context.functions.set("ceil", FunctionEntry { id: FuncId::Ceil, checked: true });
        context.functions.set("truncate", FunctionEntry { id: FuncId::Truncate, checked: true });
        context.functions.set("round", FunctionEntry { id: FuncId::Round, checked: true });
        context.functions.set("sign", FunctionEntry { id: FuncId::Sign, checked: true });
        context.functions.set("sin", FunctionEntry { id: FuncId::Sin, checked: true });
        context.functions.set("cos", FunctionEntry { id: FuncId::Cos, checked: true });
        context.functions.set("random", FunctionEntry { id: FuncId::Random, checked: true });
        context
    }

    /// Creates a context preloaded with the default constants and the
    /// unchecked (wrapping) operator and function set.
    pub fn new_unchecked() -> (r: DefaultContext)
        ensures
            r@.vars == Map::<Seq<int>, i64>::empty(),
            r@.consts == default_constants(),
            r@.binops == default_binary_ops(false),
            r@.unops == default_unary_ops(false),
            r@.funcs == default_functions_unchecked(),
            !r@.implicit_mul,
            !r@.complex_number,
            !r@.custom_function_call,
            r@.grouping =~= seq![GroupingSymbol { group_open: '(', group_close: ')' }],
    {
        Self::new_unchecked_with_config(Config::new())
    }

    /// Creates a context preloaded with the default constants and the
    /// unchecked (wrapping) operator and function set, using the given
    /// configuration.
    pub fn new_unchecked_with_config(config: Config) -> (r: DefaultContext)
        ensures
            r@.vars == Map::<Seq<int>, i64>::empty(),
            r@.consts == default_constants(),
            r@.binops == default_binary_ops(false),
            r@.unops == default_unary_ops(false),
            r@.funcs == default_functions_unchecked(),
            r@.config_matches(config),
    {
        let mut context = Self::new_with_config(config);
        context.add_constant("PI", 3);
        context.add_constant("E", 2);
        context.binary_functions.set(
            "+",
            BinaryEntry {
                op: BinOpId::Add,
                precedence: Precedence::Low,
                associativity: Associativity::Left,
                checked: false,
            },
        );
        context.binary_functions.set(
            "-",
            BinaryEntry {
                op: BinOpId::Sub,
                precedence: Precedence::Low,
                associativity: Associativity::Left,
                checked: false,
            },
        );
        context.binary_functions.set(
            "*",
            BinaryEntry {
                op: BinOpId::Mul,
                precedence: Precedence::Medium,
                associativity: Associativity::Left,
                checked: false,
            },
        );
        context.binary_functions.set(
            "/",
            BinaryEntry {
                op: BinOpId::Div,
                precedence: Precedence::Medium,
                associativity: Associativity::Left,
                checked: false,
            },
        );
        context.binary_functions.set(
            "^",
            BinaryEntry {
                op: BinOpId::Pow,
                precedence: Precedence::High,
                associativity: Associativity::Right,
                checked: false,
            },
        );
        context.binary_functions.set(
            "mod",
            BinaryEntry {
                op: BinOpId::Mod,
                precedence: Precedence::Medium,
                associativity: Associativity::Left,
                checked: false,
            },
        );
        context.unary_functions.set(
            "+",
            UnaryEntry { op: UnOpId::Plus, notation: Notation::Prefix, checked: false },
        );
        context.unary_functions.set(
            "-",
            UnaryEntry { op: UnOpId::Minus, notation: Notation::Prefix, checked: false },
        );
        context.unary_functions.set(
            "!",
            UnaryEntry { op: UnOpId::Factorial, notation: Notation::Postfix, checked: false },
        );
        context.functions.set("sum", FunctionEntry { id: FuncId::Sum, checked: false });
        context.functions.set("avg", FunctionEntry { id: FuncId::Avg, checked: false });
        context.functions.set("prod", FunctionEntry { id: FuncId::Prod, checked: false });
        context.functions.set("max", FunctionEntry { id: FuncId::Max, checked: false });
        context.functions.set("min", FunctionEntry { id: FuncId::Min, checked: false });
        context.functions.set("sqrt", FunctionEntry { id: FuncId::Sqrt, checked: false });
        context.functions.set("log", FunctionEntry { id: FuncId::Log, checked: false });
        context.functions.set("sin", FunctionEntry { id: FuncId::Sin, checked: false });
        context.functions.set("cos", FunctionEntry { id: FuncId::Cos, checked: false });
        context
    }
}

/// The content of the preloaded checked context.
pub open spec fn default_checked_view() -> CtxV {
    CtxV {
        vars: Map::empty(),
        consts: default_constants(),
        funcs: default_functions_checked(),
        binops: default_binary_ops(true),
        unops: default_unary_ops(true),
        implicit_mul: false,
        complex_number: false,
        custom_function_call: false,
        grouping: seq![GroupingSymbol { group_open: '(', group_close: ')' }],
    }
}

/// Case-insensitivity of constant lookup: a name and its ASCII
/// upper-casing address the same constant, in every context.
pub proof fn lemma_constant_lookup_ignores_case(ctx: CtxV, name: Seq<char>)
    ensures
        ctx.consts.get(fold(crate::ignore_case::upper(name))) == ctx.consts.get(fold(name)),
{
    crate::ignore_case::lemma_fold_upper(name);
}

/// Variable and constant names exclude each other: once a name is bound
/// as a constant, the constant table contains its fold, and by the
/// contract of [`DefaultContext::set_variable`] every later attempt to
/// bind it as a variable fails, whatever the casing.
pub proof fn lemma_set_variable_after_add_constant(
    before: CtxV,
    after: CtxV,
    name: Seq<char>,
    value: i64,
    casing: Seq<char>,
)
    requires
        after.consts == before.consts.insert(fold(name), value),
        fold(casing) == fold(name),
    ensures
        after.consts.contains_key(fold(casing)),
{
}

} // verus!

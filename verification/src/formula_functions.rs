//! The registry of the functions that a formula can call.

use vstd::prelude::*;

use crate::text::chars_of;
use crate::text::spells;

verus! {

/// The functions of the formula language.
#[derive(Clone, Copy, Debug, PartialEq, Eq, Structural)]
pub enum FormulaFunction {
    /// `SUM`: the sum of the numbers among its arguments.
    Sum,
    /// `SQRT`: the square root of one number.
    Sqrt,
    /// `IF`: its second argument where the first is `TRUE`, else its third.
    If,
    /// `PI`: the constant.
    Pi,
    /// `RAND`: a number drawn from `[0, 1)`.
    Rand,
    /// `AVERAGE`: the mean of the numbers among its arguments.
    Average,
    /// `MEDIAN`: the median of the numbers among its arguments.
    Median,
}

/// The upper-case name under which a function is registered.
pub open spec fn function_name(function: FormulaFunction) -> Seq<char> {
    match function {
        FormulaFunction::Sum => "SUM"@,
        FormulaFunction::Sqrt => "SQRT"@,
        FormulaFunction::If => "IF"@,
        FormulaFunction::Pi => "PI"@,
        FormulaFunction::Rand => "RAND"@,
        FormulaFunction::Average => "AVERAGE"@,
        FormulaFunction::Median => "MEDIAN"@,
    }
}

/// The function registered under `name`, which is matched as it stands: the
/// registered names are upper case.
pub open spec fn function_named(name: Seq<char>) -> Option<FormulaFunction> {
    if name == "SUM"@ {
        Some(FormulaFunction::Sum)
    } else if name == "SQRT"@ {
        Some(FormulaFunction::Sqrt)
    } else if name == "IF"@ {
        Some(FormulaFunction::If)
    } else if name == "PI"@ {
        Some(FormulaFunction::Pi)
    } else if name == "RAND"@ {
        Some(FormulaFunction::Rand)
    } else if name == "AVERAGE"@ {
        Some(FormulaFunction::Average)
    } else if name == "MEDIAN"@ {
        Some(FormulaFunction::Median)
    } else {
        None
    }
}

/// The registered functions, in the order of registration.
pub open spec fn registered() -> Seq<FormulaFunction> {
    seq![
        FormulaFunction::Sum,
        FormulaFunction::Sqrt,
        FormulaFunction::If,
        FormulaFunction::Pi,
        FormulaFunction::Rand,
        FormulaFunction::Average,
        FormulaFunction::Median,
    ]
}

/// Each function is found again under its own name, and every function is
/// registered.
pub proof fn lemma_registry(function: FormulaFunction)
    ensures
        function_named(function_name(function)) == Some(function),
        registered().contains(function),
{
    reveal_strlit("SUM");
    reveal_strlit("SQRT");
    reveal_strlit("IF");
    reveal_strlit("PI");
    reveal_strlit("RAND");
    reveal_strlit("AVERAGE");
    reveal_strlit("MEDIAN");
    let all = registered();
    match function {
        FormulaFunction::Sum => {
            assert(all[0] == function);
        },
        FormulaFunction::Sqrt => {
            assert("SQRT"@.len() != "SUM"@.len());
            assert(all[1] == function);
        },
        FormulaFunction::If => {
            assert("IF"@.len() == 2);
            assert(all[2] == function);
        },
        FormulaFunction::Pi => {
            assert("PI"@[0] != "IF"@[0]);
            assert(all[3] == function);
        },
        FormulaFunction::Rand => {
            assert("RAND"@[0] != "SQRT"@[0]);
            assert(all[4] == function);
        },
        FormulaFunction::Average => {
            assert("AVERAGE"@.len() == 7);
            assert(all[5] == function);
        },
        FormulaFunction::Median => {
            assert("MEDIAN"@.len() == 6);
            assert(all[6] == function);
        },
    }
}

impl FormulaFunction {
    /// The name under which the function is registered.
    pub fn name(&self) -> (name: String)
        ensures
            name@ == function_name(*self),
    {
        match self {
            FormulaFunction::Sum => String::from_str("SUM"),
            FormulaFunction::Sqrt => String::from_str("SQRT"),
            FormulaFunction::If => String::from_str("IF"),
            FormulaFunction::Pi => String::from_str("PI"),
            FormulaFunction::Rand => String::from_str("RAND"),
            FormulaFunction::Average => String::from_str("AVERAGE"),
            FormulaFunction::Median => String::from_str("MEDIAN"),
        }
    }
}

/// The function that `chars` names.
pub fn function_of_chars(chars: &Vec<char>) -> (function: Option<FormulaFunction>)
    ensures
        function == function_named(chars@),
{
    if spells(chars, "SUM") {
        Some(FormulaFunction::Sum)
    } else if spells(chars, "SQRT") {
        Some(FormulaFunction::Sqrt)
    } else if spells(chars, "IF") {
        Some(FormulaFunction::If)
    } else if spells(chars, "PI") {
        Some(FormulaFunction::Pi)
    } else if spells(chars, "RAND") {
        Some(FormulaFunction::Rand)
    } else if spells(chars, "AVERAGE") {
        Some(FormulaFunction::Average)
    } else if spells(chars, "MEDIAN") {
        Some(FormulaFunction::Median)
    } else {
        None
    }
}

/// Looks a function up by its upper-case name.
pub fn get_func(name: &str) -> (function: Option<FormulaFunction>)
    ensures
        function == function_named(name@),
{
    let chars = chars_of(name);
    function_of_chars(&chars)
}

/// All registered functions.
pub fn get_funcs() -> (functions: Vec<FormulaFunction>)
    ensures
        functions@ == registered(),
{
    let mut functions: Vec<FormulaFunction> = Vec::new();
    functions.push(FormulaFunction::Sum);
    functions.push(FormulaFunction::Sqrt);
    functions.push(FormulaFunction::If);
    functions.push(FormulaFunction::Pi);
    functions.push(FormulaFunction::Rand);
    functions.push(FormulaFunction::Average);
    functions.push(FormulaFunction::Median);
    assert(functions@ =~= registered());
    functions
}

/// The names of all registered functions, in upper case.
pub fn list_function_names() -> (names: Vec<String>)
    ensures
        names@.len() == registered().len(),
        forall|i: int| 0 <= i < names@.len() ==> names@[i]@ == function_name(registered()[i]),
{
    let functions = get_funcs();
    let mut names: Vec<String> = Vec::new();
    let mut i: usize = 0;
    while i < functions.len()
        invariant
            i <= functions.len(),
            functions@ == registered(),
            names@.len() == i,
            forall|k: int| 0 <= k < i ==> names@[k]@ == function_name(registered()[k]),
        decreases functions.len() - i,
    {
        names.push(functions[i].name());
        i += 1;
    }
    names
}

} // verus!

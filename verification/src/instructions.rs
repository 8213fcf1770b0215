//! The instructions of a postfix program: what each token does to the stack
//! of operands.
//!
//! The engine holds numbers as text and computes nothing on them. An
//! instruction that needs arithmetic comes to a [`Calculation`] that is asked
//! of the host; one that needs the value of a cell whose formula has not been
//! evaluated names that cell. Everything else is decided here: which
//! operands an operator takes and in which order, what the reference
//! operators make of sets, how tokens are read as numbers, which arguments a
//! function takes and which numbers it gathers from them.

use vstd::prelude::*;

use crate::formula_functions::FormulaFunction;
use crate::formula_functions::function_named;
use crate::formula_functions::get_func;
use crate::numbers::denotes_number;
use crate::numbers::is_decimal;
use crate::numbers::is_number_string;
use crate::numbers::is_number_text;
use crate::numbers::pi_string;
use crate::numbers::pi_text;
use crate::numbers::sign_len;
use crate::numbers::unit_fraction_string;
use crate::numbers::unit_fraction_text;
use crate::reference_set::ReferenceSet;
use crate::reference_set::ascending_of;
use crate::reference_set::common_of;
use crate::reference_set::union_of;
use crate::references::Reference;
use crate::references::range_of;
use crate::spreadsheet::Spreadsheet;
use crate::spreadsheet::SpreadsheetCell;
use crate::text::CharClass;
use crate::text::append_chars;
use crate::text::chars_of;
use crate::text::digit;
use crate::text::is_digit;
use crate::text::run_end;
use crate::text::same_text;
use crate::text::spells;
use crate::text::string_of;
use crate::text::texts;
use crate::text::to_upper;
use crate::text::upper_text;
use crate::tokens::FormulaError;
use crate::tokens::Symbol;
use crate::tokens::Token;
use crate::tokens::TokenType;
use crate::tokens::TokenView;
use crate::tokens::operator_symbol;
use crate::tokens::plain;
use crate::tokens::reference_token;
use crate::tokens::symbol_of;
use crate::tokens::views;

verus! {


/// How two numbers compare; numbers that are not comparable are unordered.
#[derive(Clone, Copy, Debug, PartialEq, Eq, Structural)]
pub enum NumberOrder {
    Less,
    Equal,
    Greater,
    Unordered,
}

/// What the evaluation asks of its host. Every text in it denotes a number.
#[derive(Debug)]
pub enum Calculation {
    /// The number, negated.
    Negate(String),
    /// The number, divided by 100.
    Percent(String),
    /// The left number, then the right, under `+`, `-`, `*`, `/` or `^`.
    Arithmetic(Symbol, String, String),
    /// How the left number compares with the right.
    Compare(String, String),
    /// The square root of the number.
    Sqrt(String),
    /// The sum of the numbers.
    Sum(Vec<String>),
    /// The mean of the numbers.
    Average(Vec<String>),
    /// The median of the numbers, of which there is at least one.
    Median(Vec<String>),
}

/// What a calculation holds, as mathematics.
pub enum CalculationView {
    Negate(Seq<char>),
    Percent(Seq<char>),
    Arithmetic(Symbol, Seq<char>, Seq<char>),
    Compare(Seq<char>, Seq<char>),
    Sqrt(Seq<char>),
    Sum(Seq<Seq<char>>),
    Average(Seq<Seq<char>>),
    Median(Seq<Seq<char>>),
}

impl View for Calculation {
    type V = CalculationView;

    open spec fn view(&self) -> CalculationView {
        match self {
            Calculation::Negate(x) => CalculationView::Negate(x@),
            Calculation::Percent(x) => CalculationView::Percent(x@),
            Calculation::Arithmetic(symbol, left, right) => CalculationView::Arithmetic(
                *symbol,
                left@,
                right@,
            ),
            Calculation::Compare(left, right) => CalculationView::Compare(left@, right@),
            Calculation::Sqrt(x) => CalculationView::Sqrt(x@),
            Calculation::Sum(all) => CalculationView::Sum(texts(all@)),
            Calculation::Average(all) => CalculationView::Average(texts(all@)),
            Calculation::Median(all) => CalculationView::Median(texts(all@)),
        }
    }
}

/// What the host hands back.
#[derive(Debug)]
pub enum Answer {
    /// The text of the number computed.
    Number(String),
    /// The outcome of a comparison.
    Order(NumberOrder),
}

/// What an answer holds, as mathematics.
pub enum AnswerView {
    Number(Seq<char>),
    Order(NumberOrder),
}

impl View for Answer {
    type V = AnswerView;

    open spec fn view(&self) -> AnswerView {
        match self {
            Answer::Number(text) => AnswerView::Number(text@),
            Answer::Order(order) => AnswerView::Order(*order),
        }
    }
}

/// What the evaluation will make of the answer it waits for.
#[derive(Clone, Copy, Debug, PartialEq, Eq, Structural)]
pub enum Pending {
    /// A number token.
    Number,
    /// A boolean token: whether the comparison holds.
    Truth(Symbol),
}

/// The value of a cell's formula, once it is known.
#[derive(Debug)]
pub struct CellValue {
    pub cell: SpreadsheetCell,
    pub value: Result<Token, FormulaError>,
}

/// What a cell value holds, as mathematics.
pub struct CellValueView {
    pub cell: SpreadsheetCell,
    pub value: Result<TokenView, FormulaError>,
}

/// The view of a result that may hold a token.
pub open spec fn result_view(value: Result<Token, FormulaError>) -> Result<
    TokenView,
    FormulaError,
> {
    match value {
        Ok(token) => Ok(token@),
        Err(error) => Err(error),
    }
}

impl View for CellValue {
    type V = CellValueView;

    open spec fn view(&self) -> CellValueView {
        CellValueView { cell: self.cell, value: result_view(self.value) }
    }
}

/// The views of a sequence of cell values.
pub open spec fn value_views(values: Seq<CellValue>) -> Seq<CellValueView> {
    Seq::new(values.len(), |i: int| values[i]@)
}

/// `text` is a formula: it starts with `=`.
pub open spec fn is_formula(text: Seq<char>) -> bool {
    text.len() > 0 && text[0] == '='
}

/// `text` without its first character: the body of a formula, without the
/// `=`.
pub open spec fn body_of(text: Seq<char>) -> Seq<char> {
    if text.len() > 0 {
        text.subrange(1, text.len() as int)
    } else {
        text
    }
}

/// Every character of `text` is a digit or a point.
pub open spec fn looks_numeric(text: Seq<char>) -> bool {
    forall|i: int| 0 <= i < text.len() ==> is_digit(#[trigger] text[i]) || text[i] == '.'
}

/// The token of a cell that holds no formula: a number where the text is
/// made of digits and points, a boolean where it spells `TRUE` or `FALSE` in
/// any case, else a string.
pub open spec fn literal_token(text: Seq<char>) -> TokenView {
    if looks_numeric(text) {
        plain(TokenType::Number, text)
    } else if upper_text(text) == "TRUE"@ || upper_text(text) == "FALSE"@ {
        plain(TokenType::Boolean, upper_text(text))
    } else {
        plain(TokenType::String, text)
    }
}

/// The value recorded for `cell` among `values`, from `from` on.
pub open spec fn recorded(values: Seq<CellValueView>, cell: SpreadsheetCell, from: int) -> Option<
    Result<TokenView, FormulaError>,
>
    decreases values.len() - from,
{
    if from < 0 || from >= values.len() {
        None
    } else if values[from].cell == cell {
        Some(values[from].value)
    } else {
        recorded(values, cell, from + 1)
    }
}

/// What is known of a cell's value.
pub enum Lookup {
    /// The value, or why the cell has none.
    Known(Result<TokenView, FormulaError>),
    /// The cell holds a formula that has not been evaluated yet.
    Missing,
}

/// What is known of the value of `cell`: its literal token where it holds no
/// formula, else what `values` records for it.
pub open spec fn looked_up(
    grid: Spreadsheet,
    values: Seq<CellValueView>,
    cell: SpreadsheetCell,
) -> Lookup {
    if is_formula(grid.text_at(cell)) {
        match recorded(values, cell, 0) {
            Some(value) => Lookup::Known(value),
            None => Lookup::Missing,
        }
    } else {
        Lookup::Known(Ok(literal_token(grid.text_at(cell))))
    }
}

/// The cell that a reference points at, with 0 for a missing coordinate.
pub open spec fn cell_of(r: Reference) -> SpreadsheetCell {
    SpreadsheetCell {
        row: match r.row {
            Some(row) => row,
            None => 0,
        },
        col: match r.col {
            Some(col) => col,
            None => 0,
        },
    }
}

/// The outcome of reading a token as a number.
pub enum Coerced {
    /// The text of the number.
    Text(Seq<char>),
    /// The value of this cell must be known first.
    Need(SpreadsheetCell),
    /// The token stands for no number.
    Fail(FormulaError),
}

/// The text of the number 0.
pub open spec fn zero_text() -> Seq<char> {
    seq!['0']
}

/// The text of the number 1.
pub open spec fn one_text() -> Seq<char> {
    seq!['1']
}

/// `token` read as a number.
///
/// A number token is its own text, which must denote a number. A boolean is
/// 1 where it is `TRUE`, else 0. A reference to exactly one cell is what the
/// value of that cell is; `fuel` bounds how many cells are passed through on
/// the way, and a longer way is a cycle. Anything else is 0.
pub open spec fn coerced(
    token: TokenView,
    grid: Spreadsheet,
    values: Seq<CellValueView>,
    fuel: nat,
) -> Coerced
    decreases fuel,
{
    if token.kind == TokenType::Number {
        if is_number_text(token.content) {
            Coerced::Text(token.content)
        } else {
            Coerced::Fail(FormulaError::Coercion)
        }
    } else if token.kind == TokenType::Boolean {
        if token.content == "TRUE"@ {
            Coerced::Text(one_text())
        } else {
            Coerced::Text(zero_text())
        }
    } else if token.kind == TokenType::Reference && token.refs is Some && token.refs->0.len()
        == 1 {
        if fuel == 0 {
            Coerced::Fail(FormulaError::Cycle)
        } else {
            match looked_up(grid, values, cell_of(token.refs->0[0])) {
                Lookup::Missing => Coerced::Need(cell_of(token.refs->0[0])),
                Lookup::Known(Err(error)) => Coerced::Fail(error),
                Lookup::Known(Ok(value)) => coerced(value, grid, values, (fuel - 1) as nat),
            }
        }
    } else {
        Coerced::Text(zero_text())
    }
}

/// The outcome of asking whether a token is a number.
#[derive(Clone, Copy, Debug, PartialEq, Eq, Structural)]
pub enum NumberTest {
    Yes,
    No,
    /// The value of this cell must be known first.
    Need(SpreadsheetCell),
    /// The question has no answer.
    Fail(FormulaError),
}

/// Whether `token` is a number.
///
/// Booleans and numbers are. A string is where its text denotes a number. A
/// reference is where the value of every cell of its set is; a cell whose
/// formula has no value is not. `fuel` bounds how many cells are passed
/// through on the way, and a longer way is a cycle. Nothing else is.
pub open spec fn tested(
    token: TokenView,
    grid: Spreadsheet,
    values: Seq<CellValueView>,
    fuel: nat,
) -> NumberTest
    decreases fuel, 0nat,
{
    if token.kind == TokenType::Boolean || token.kind == TokenType::Number {
        NumberTest::Yes
    } else if token.kind == TokenType::String {
        if is_number_text(token.content) {
            NumberTest::Yes
        } else {
            NumberTest::No
        }
    } else if token.kind == TokenType::Reference && token.refs is Some {
        if fuel == 0 {
            NumberTest::Fail(FormulaError::Cycle)
        } else {
            tested_cells(token.refs->0, 0, grid, values, (fuel - 1) as nat)
        }
    } else {
        NumberTest::No
    }
}

/// Whether the values of the cells of `refs`, from `from` on, are all
/// numbers.
pub open spec fn tested_cells(
    refs: Seq<Reference>,
    from: int,
    grid: Spreadsheet,
    values: Seq<CellValueView>,
    fuel: nat,
) -> NumberTest
    decreases fuel, 1 + refs.len() - from,
{
    if from < 0 || from >= refs.len() {
        NumberTest::Yes
    } else {
        match looked_up(grid, values, cell_of(refs[from])) {
            Lookup::Missing => NumberTest::Need(cell_of(refs[from])),
            Lookup::Known(Err(_)) => NumberTest::No,
            Lookup::Known(Ok(value)) => match tested(value, grid, values, fuel) {
                NumberTest::Yes => tested_cells(refs, from + 1, grid, values, fuel),
                other => other,
            },
        }
    }
}

/// The outcome of gathering the numbers among the arguments of a function.
pub enum Gathered {
    /// The texts of the numbers, in the order of the arguments.
    Values(Seq<Seq<char>>),
    /// The value of this cell must be known first.
    Need(SpreadsheetCell),
    /// The arguments are not what the function takes.
    Fail(FormulaError),
}

/// The numbers among the cells of `refs` from `from` on, after those of
/// `sofar`: every cell whose value is a number gives that number; the others
/// are passed over, and so are those whose text denotes no number, such as
/// an empty cell.
pub open spec fn gathered_cells(
    refs: Seq<Reference>,
    from: int,
    sofar: Seq<Seq<char>>,
    grid: Spreadsheet,
    values: Seq<CellValueView>,
    fuel: nat,
) -> Gathered
    decreases refs.len() - from,
{
    if from < 0 || from >= refs.len() {
        Gathered::Values(sofar)
    } else {
        match looked_up(grid, values, cell_of(refs[from])) {
            Lookup::Missing => Gathered::Need(cell_of(refs[from])),
            Lookup::Known(Err(_)) => gathered_cells(refs, from + 1, sofar, grid, values, fuel),
            Lookup::Known(Ok(value)) => match tested(value, grid, values, fuel) {
                NumberTest::Yes => match coerced(value, grid, values, fuel) {
                    Coerced::Text(text) => gathered_cells(
                        refs,
                        from + 1,
                        sofar.push(text),
                        grid,
                        values,
                        fuel,
                    ),
                    Coerced::Need(cell) => Gathered::Need(cell),
                    Coerced::Fail(FormulaError::Coercion) => gathered_cells(
                        refs,
                        from + 1,
                        sofar,
                        grid,
                        values,
                        fuel,
                    ),
                    Coerced::Fail(error) => Gathered::Fail(error),
                },
                NumberTest::No => gathered_cells(refs, from + 1, sofar, grid, values, fuel),
                NumberTest::Need(cell) => Gathered::Need(cell),
                NumberTest::Fail(error) => Gathered::Fail(error),
            },
        }
    }
}

/// The numbers among the arguments `args` from `from` on, after those of
/// `sofar`: a reference gives the numbers among its cells; any other
/// argument must be a number, and gives it.
pub open spec fn gathered(
    args: Seq<TokenView>,
    from: int,
    sofar: Seq<Seq<char>>,
    grid: Spreadsheet,
    values: Seq<CellValueView>,
    fuel: nat,
) -> Gathered
    decreases args.len() - from,
{
    if from < 0 || from >= args.len() {
        Gathered::Values(sofar)
    } else if args[from].kind == TokenType::Reference && args[from].refs is Some {
        match gathered_cells(args[from].refs->0, 0, sofar, grid, values, fuel) {
            Gathered::Values(more) => gathered(args, from + 1, more, grid, values, fuel),
            other => other,
        }
    } else {
        match tested(args[from], grid, values, fuel) {
            NumberTest::Yes => match coerced(args[from], grid, values, fuel) {
                Coerced::Text(text) => gathered(
                    args,
                    from + 1,
                    sofar.push(text),
                    grid,
                    values,
                    fuel,
                ),
                Coerced::Need(cell) => Gathered::Need(cell),
                Coerced::Fail(error) => Gathered::Fail(error),
            },
            NumberTest::No => Gathered::Fail(FormulaError::Function),
            NumberTest::Need(cell) => Gathered::Need(cell),
            NumberTest::Fail(error) => Gathered::Fail(error),
        }
    }
}

/// How many cells a reading may pass through: one more than the formulas
/// evaluated so far.
pub open spec fn fuel_of(values: Seq<CellValueView>) -> nat {
    values.len() + 1
}

/// What one instruction of the program comes to.
pub enum PlanView {
    /// Take `pops` operands off the stack and put `push` there, if any.
    Apply { pops: nat, push: Option<TokenView> },
    /// Take `pops` operands off the stack, ask the host, and make of the
    /// answer what `pending` says.
    Ask { pops: nat, calculation: CalculationView, pending: Pending },
    /// The value of this cell must be known first.
    Need(SpreadsheetCell),
    /// The instruction cannot be carried out.
    Fail(FormulaError),
}

/// The token that the concatenation of two texts makes: a number where the
/// text denotes one, a boolean where it spells `TRUE` or `FALSE` in any
/// case, else a string.
pub open spec fn joined(left: Seq<char>, right: Seq<char>) -> TokenView {
    let text = left + right;
    if is_number_text(text) {
        plain(TokenType::Number, text)
    } else if upper_text(text) == "TRUE"@ || upper_text(text) == "FALSE"@ {
        plain(TokenType::Boolean, upper_text(text))
    } else {
        plain(TokenType::String, text)
    }
}

/// What a reference operator makes of two sets: `,` their union, the space
/// their intersection, and `:` the range between the first reference of the
/// one and the first of the other, which both must have. The range must not
/// hold more references than the machine can count.
pub open spec fn reference_operation(left: Seq<Reference>, right: Seq<Reference>, symbol: Symbol) -> Result<
    Seq<Reference>,
    FormulaError,
> {
    if symbol == Symbol::Union {
        Ok(union_of(left, right))
    } else if symbol == Symbol::Intersect {
        Ok(common_of(left, right))
    } else if left.len() == 0 || right.len() == 0 {
        Err(FormulaError::Operand)
    } else if range_of(left[0], right[0]).len() > usize::MAX {
        Err(FormulaError::TooLarge)
    } else {
        Ok(ascending_of(range_of(left[0], right[0])))
    }
}

/// What an operator on two reference sets comes to: both operands must be
/// references.
pub open spec fn planned_set_operator(symbol: Symbol, stack: Seq<TokenView>) -> PlanView {
    let right = stack[stack.len() - 1];
    let left = stack[stack.len() - 2];
    if stack.len() < 2 || left.kind != TokenType::Reference || right.kind != TokenType::Reference
        || left.refs is None || right.refs is None {
        PlanView::Fail(FormulaError::Operand)
    } else {
        match reference_operation(left.refs->0, right.refs->0, symbol) {
            Ok(refs) => PlanView::Apply { pops: 2, push: Some(reference_token(refs)) },
            Err(error) => PlanView::Fail(error),
        }
    }
}

/// What an operator on one number comes to.
pub open spec fn planned_unary(
    symbol: Symbol,
    stack: Seq<TokenView>,
    grid: Spreadsheet,
    values: Seq<CellValueView>,
) -> PlanView {
    if stack.len() < 1 {
        PlanView::Fail(FormulaError::Operand)
    } else {
        match coerced(stack[stack.len() - 1], grid, values, fuel_of(values)) {
            Coerced::Need(cell) => PlanView::Need(cell),
            Coerced::Fail(error) => PlanView::Fail(error),
            Coerced::Text(text) => PlanView::Ask {
                pops: 1,
                calculation: if symbol == Symbol::Negate {
                    CalculationView::Negate(text)
                } else {
                    CalculationView::Percent(text)
                },
                pending: Pending::Number,
            },
        }
    }
}

/// `symbol` is one of the comparisons.
pub open spec fn is_comparison(symbol: Symbol) -> bool {
    symbol == Symbol::Equal || symbol == Symbol::Less || symbol == Symbol::Greater || symbol
        == Symbol::LessEqual || symbol == Symbol::GreaterEqual || symbol == Symbol::NotEqual
}

/// What an operator on two numbers comes to: the operand below the top is
/// the left one.
pub open spec fn planned_binary(
    symbol: Symbol,
    stack: Seq<TokenView>,
    grid: Spreadsheet,
    values: Seq<CellValueView>,
) -> PlanView {
    if stack.len() < 2 {
        PlanView::Fail(FormulaError::Operand)
    } else {
        match coerced(stack[stack.len() - 2], grid, values, fuel_of(values)) {
            Coerced::Need(cell) => PlanView::Need(cell),
            Coerced::Fail(error) => PlanView::Fail(error),
            Coerced::Text(left) => match coerced(
                stack[stack.len() - 1],
                grid,
                values,
                fuel_of(values),
            ) {
                Coerced::Need(cell) => PlanView::Need(cell),
                Coerced::Fail(error) => PlanView::Fail(error),
                Coerced::Text(right) => if is_comparison(symbol) {
                    PlanView::Ask {
                        pops: 2,
                        calculation: CalculationView::Compare(left, right),
                        pending: Pending::Truth(symbol),
                    }
                } else {
                    PlanView::Ask {
                        pops: 2,
                        calculation: CalculationView::Arithmetic(symbol, left, right),
                        pending: Pending::Number,
                    }
                },
            },
        }
    }
}

/// What an operator comes to.
///
/// `:`, `,` and the space take two references and give the range between
/// their first cells, their union, their intersection. `-1` and `%` take one
/// number, the arithmetic operators and the comparisons two. `&` joins the
/// texts of two tokens. The reserved operators take one operand and give
/// nothing.
pub open spec fn planned_operator(
    symbol: Option<Symbol>,
    stack: Seq<TokenView>,
    grid: Spreadsheet,
    values: Seq<CellValueView>,
) -> PlanView {
    match symbol {
        Some(Symbol::Range) | Some(Symbol::Union) | Some(Symbol::Intersect) => planned_set_operator(
            symbol->0,
            stack,
        ),
        Some(Symbol::Negate) | Some(Symbol::Percent) => planned_unary(
            symbol->0,
            stack,
            grid,
            values,
        ),
        Some(Symbol::Concat) => if stack.len() < 2 {
            PlanView::Fail(FormulaError::Operand)
        } else {
            PlanView::Apply {
                pops: 2,
                push: Some(
                    joined(stack[stack.len() - 2].content, stack[stack.len() - 1].content),
                ),
            }
        },
        Some(Symbol::At) | Some(Symbol::Hash) | None => if stack.len() < 1 {
            PlanView::Fail(FormulaError::Operand)
        } else {
            PlanView::Apply { pops: 1, push: None }
        },
        Some(_) => planned_binary(symbol->0, stack, grid, values),
    }
}

/// What the call of a function on `args` comes to.
///
/// `PI` and `RAND` take nothing. `SQRT` takes one number token. `IF` takes
/// a boolean and one or two more arguments, and gives the second where the
/// boolean is `TRUE`, else the third, or `FALSE` where there is none. `SUM`,
/// `AVERAGE` and `MEDIAN` take anything that `gathered` accepts; `MEDIAN`
/// needs at least one number among it.
pub open spec fn planned_call(
    function: FormulaFunction,
    args: Seq<TokenView>,
    grid: Spreadsheet,
    values: Seq<CellValueView>,
    draw: u32,
) -> PlanView {
    match function {
        FormulaFunction::Pi => if args.len() == 0 {
            PlanView::Apply { pops: 0, push: Some(plain(TokenType::Number, pi_text())) }
        } else {
            PlanView::Fail(FormulaError::Function)
        },
        FormulaFunction::Rand => if args.len() == 0 {
            PlanView::Apply {
                pops: 0,
                push: Some(plain(TokenType::Number, unit_fraction_text(draw))),
            }
        } else {
            PlanView::Fail(FormulaError::Function)
        },
        FormulaFunction::Sqrt => if args.len() != 1 || args[0].kind != TokenType::Number {
            PlanView::Fail(FormulaError::Function)
        } else if !is_number_text(args[0].content) {
            PlanView::Fail(FormulaError::Coercion)
        } else {
            PlanView::Ask {
                pops: 1,
                calculation: CalculationView::Sqrt(args[0].content),
                pending: Pending::Number,
            }
        },
        FormulaFunction::If => if (args.len() != 2 && args.len() != 3) || args[0].kind
            != TokenType::Boolean {
            PlanView::Fail(FormulaError::Function)
        } else if args[0].content == "TRUE"@ {
            PlanView::Apply { pops: args.len(), push: Some(args[1]) }
        } else if args.len() == 3 {
            PlanView::Apply { pops: 3, push: Some(args[2]) }
        } else {
            PlanView::Apply { pops: 2, push: Some(plain(TokenType::Boolean, "FALSE"@)) }
        },
        _ => match gathered(args, 0, Seq::empty(), grid, values, fuel_of(values)) {
            Gathered::Need(cell) => PlanView::Need(cell),
            Gathered::Fail(error) => PlanView::Fail(error),
            Gathered::Values(numbers) => if function == FormulaFunction::Median && numbers.len()
                == 0 {
                PlanView::Fail(FormulaError::Function)
            } else {
                PlanView::Ask {
                    pops: args.len(),
                    calculation: match function {
                        FormulaFunction::Sum => CalculationView::Sum(numbers),
                        FormulaFunction::Average => CalculationView::Average(numbers),
                        _ => CalculationView::Median(numbers),
                    },
                    pending: Pending::Number,
                }
            },
        },
    }
}

/// What the instruction `instruction` comes to on `stack`.
///
/// An operand is put on the stack. An operator and a function take their
/// operands from its top; a function takes as many as its token counts, the
/// first argument lowest, and must be registered. Any other token does
/// nothing. `draw` is the random number that `RAND` turns into its result.
pub open spec fn planned(
    instruction: TokenView,
    stack: Seq<TokenView>,
    grid: Spreadsheet,
    values: Seq<CellValueView>,
    draw: u32,
) -> PlanView {
    match instruction.kind {
        TokenType::Number | TokenType::String | TokenType::Boolean | TokenType::Reference => {
            PlanView::Apply { pops: 0, push: Some(instruction) }
        },
        TokenType::Operator => planned_operator(
            symbol_of(instruction.content),
            stack,
            grid,
            values,
        ),
        TokenType::Function => match (function_named(instruction.content), instruction.arity) {
            (Some(function), Some(arity)) => if arity > stack.len() {
                PlanView::Fail(FormulaError::Operand)
            } else {
                match planned_call(
                    function,
                    stack.subrange(stack.len() - arity, stack.len() as int),
                    grid,
                    values,
                    draw,
                ) {
                    PlanView::Apply { pops, push } => PlanView::Apply { pops: arity as nat, push },
                    other => other,
                }
            },
            _ => PlanView::Fail(FormulaError::Function),
        },
        _ => PlanView::Apply { pops: 0, push: None },
    }
}

/// Whether a comparison holds of two numbers that compare as `order` says.
pub open spec fn comparison_holds(symbol: Symbol, order: NumberOrder) -> bool {
    match symbol {
        Symbol::Equal => order == NumberOrder::Equal,
        Symbol::Less => order == NumberOrder::Less,
        Symbol::Greater => order == NumberOrder::Greater,
        Symbol::LessEqual => order == NumberOrder::Less || order == NumberOrder::Equal,
        Symbol::GreaterEqual => order == NumberOrder::Greater || order == NumberOrder::Equal,
        Symbol::NotEqual => order != NumberOrder::Equal,
        _ => false,
    }
}

/// The token that the evaluation makes of the host's answer, where the
/// answer is of the kind it waits for: a number for a calculation, whose
/// text must denote one, and an order for a comparison.
pub open spec fn answered(pending: Pending, answer: AnswerView) -> Option<TokenView> {
    match (pending, answer) {
        (Pending::Number, AnswerView::Number(text)) => if is_number_text(text) {
            Some(plain(TokenType::Number, text))
        } else {
            None
        },
        (Pending::Truth(symbol), AnswerView::Order(order)) => Some(
            plain(
                TokenType::Boolean,
                if comparison_holds(symbol, order) {
                    "TRUE"@
                } else {
                    "FALSE"@
                },
            ),
        ),
        _ => None,
    }
}

/// What is known of a cell's value.
enum CellLookup {
    Known(Result<Token, FormulaError>),
    Missing,
}

impl View for CellLookup {
    type V = Lookup;

    closed spec fn view(&self) -> Lookup {
        match self {
            CellLookup::Known(value) => Lookup::Known(result_view(*value)),
            CellLookup::Missing => Lookup::Missing,
        }
    }
}

/// The outcome of reading a token as a number.
enum CoercedText {
    Text(String),
    Need(SpreadsheetCell),
    Fail(FormulaError),
}

impl View for CoercedText {
    type V = Coerced;

    closed spec fn view(&self) -> Coerced {
        match self {
            CoercedText::Text(text) => Coerced::Text(text@),
            CoercedText::Need(cell) => Coerced::Need(*cell),
            CoercedText::Fail(error) => Coerced::Fail(*error),
        }
    }
}

/// The outcome of gathering the numbers among arguments.
enum GatheredTexts {
    Values(Vec<String>),
    Need(SpreadsheetCell),
    Fail(FormulaError),
}

impl View for GatheredTexts {
    type V = Gathered;

    closed spec fn view(&self) -> Gathered {
        match self {
            GatheredTexts::Values(all) => Gathered::Values(texts(all@)),
            GatheredTexts::Need(cell) => Gathered::Need(*cell),
            GatheredTexts::Fail(error) => Gathered::Fail(*error),
        }
    }
}

/// What one instruction of a program comes to.
pub enum Plan {
    Apply { pops: usize, push: Option<Token> },
    Ask { pops: usize, calculation: Calculation, pending: Pending },
    Need(SpreadsheetCell),
    Fail(FormulaError),
}

impl View for Plan {
    type V = PlanView;

    open spec fn view(&self) -> PlanView {
        match self {
            Plan::Apply { pops, push } => PlanView::Apply {
                pops: *pops as nat,
                push: match push {
                    Some(token) => Some(token@),
                    None => None,
                },
            },
            Plan::Ask { pops, calculation, pending } => PlanView::Ask {
                pops: *pops as nat,
                calculation: calculation@,
                pending: *pending,
            },
            Plan::Need(cell) => PlanView::Need(*cell),
            Plan::Fail(error) => PlanView::Fail(*error),
        }
    }
}

proof fn lemma_texts_push(strings: Seq<String>, text: String)
    ensures
        texts(strings.push(text)) == texts(strings).push(text@),
{
    assert(texts(strings.push(text)) =~= texts(strings).push(text@));
}

/// A copy of a result.
pub fn copy_result(value: &Result<Token, FormulaError>) -> (copy: Result<Token, FormulaError>)
    ensures
        result_view(copy) == result_view(*value),
{
    match value {
        Ok(token) => Ok(token.clone()),
        Err(error) => Err(*error),
    }
}

/// The one-character text `c`.
fn one_char(c: char) -> (text: String)
    ensures
        text@ == seq![c],
{
    let mut chars: Vec<char> = Vec::new();
    chars.push(c);
    assert(chars@ =~= seq![c]);
    string_of(&chars)
}

/// The token of a cell that holds no formula.
pub fn literal(chars: &Vec<char>) -> (token: Token)
    ensures
        token@ == literal_token(chars@),
{
    let mut numeric = true;
    let mut i: usize = 0;
    while i < chars.len() && numeric
        invariant
            i <= chars.len(),
            numeric ==> forall|k: int|
                0 <= k < i ==> is_digit(#[trigger] chars@[k]) || chars@[k] == '.',
            !numeric ==> !looks_numeric(chars@),
        decreases chars.len() - i,
    {
        if !(digit(chars[i]) || chars[i] == '.') {
            numeric = false;
        }
        i += 1;
    }
    if numeric {
        return Token::of_chars(TokenType::Number, chars);
    }
    let upper = to_upper(chars);
    if spells(&upper, "TRUE") || spells(&upper, "FALSE") {
        Token::of_chars(TokenType::Boolean, &upper)
    } else {
        Token::of_chars(TokenType::String, chars)
    }
}

/// What is known of the value of `cell`.
#[verifier::loop_isolation(false)]
fn lookup(grid: &Spreadsheet, values: &Vec<CellValue>, cell: SpreadsheetCell) -> (found: CellLookup)
    ensures
        found@ == looked_up(*grid, value_views(values@), cell),
{
    let chars = chars_of(grid.get_cell(&cell));
    if chars.len() > 0 && chars[0] == '=' {
        let ghost all = value_views(values@);
        let mut i: usize = 0;
        while i < values.len()
            invariant
                i <= values.len(),
                all == value_views(values@),
                recorded(all, cell, 0) == recorded(all, cell, i as int),
            decreases values.len() - i,
        {
            assert(all[i as int] == values@[i as int]@);
            if values[i].cell == cell {
                assert(recorded(all, cell, i as int) == Some(all[i as int].value));
                return CellLookup::Known(copy_result(&values[i].value));
            }
            i += 1;
        }
        CellLookup::Missing
    } else {
        CellLookup::Known(Ok(literal(&chars)))
    }
}

/// Reads `token` as a number.
fn coerce(token: &Token, grid: &Spreadsheet, values: &Vec<CellValue>, fuel: u128) -> (out:
    CoercedText)
    ensures
        out@ == coerced(token@, *grid, value_views(values@), fuel as nat),
    decreases fuel,
{
    match token.token_type {
        TokenType::Number => {
            if is_number_string(token.content.as_str()) {
                CoercedText::Text(token.content.clone())
            } else {
                CoercedText::Fail(FormulaError::Coercion)
            }
        },
        TokenType::Boolean => {
            if same_text(token.content.as_str(), "TRUE") {
                CoercedText::Text(one_char('1'))
            } else {
                CoercedText::Text(one_char('0'))
            }
        },
        TokenType::Reference => {
            match &token.reference_set {
                Some(set) => {
                    if set.len() != 1 {
                        return CoercedText::Text(one_char('0'));
                    }
                    if fuel == 0 {
                        return CoercedText::Fail(FormulaError::Cycle);
                    }
                    let cell = set.get(0).get_cell();
                    assert(cell == cell_of(set@[0]));
                    match lookup(grid, values, cell) {
                        CellLookup::Missing => CoercedText::Need(cell),
                        CellLookup::Known(Err(error)) => CoercedText::Fail(error),
                        CellLookup::Known(Ok(value)) => coerce(&value, grid, values, fuel - 1),
                    }
                },
                None => CoercedText::Text(one_char('0')),
            }
        },
        _ => CoercedText::Text(one_char('0')),
    }
}

/// Whether `token` is a number.
#[verifier::loop_isolation(false)]
fn test_number(token: &Token, grid: &Spreadsheet, values: &Vec<CellValue>, fuel: u128) -> (out:
    NumberTest)
    ensures
        out == tested(token@, *grid, value_views(values@), fuel as nat),
    decreases fuel,
{
    match token.token_type {
        TokenType::Boolean | TokenType::Number => NumberTest::Yes,
        TokenType::String => {
            if is_number_string(token.content.as_str()) {
                NumberTest::Yes
            } else {
                NumberTest::No
            }
        },
        TokenType::Reference => {
            match &token.reference_set {
                Some(set) => {
                    if fuel == 0 {
                        return NumberTest::Fail(FormulaError::Cycle);
                    }
                    let ghost all = value_views(values@);
                    let mut i: usize = 0;
                    while i < set.len()
                        invariant
                            i <= set@.len(),
                            fuel > 0,
                            all == value_views(values@),
                            tested_cells(set@, 0, *grid, all, (fuel - 1) as nat) == tested_cells(
                                set@,
                                i as int,
                                *grid,
                                all,
                                (fuel - 1) as nat,
                            ),
                        decreases set@.len() - i,
                    {
                        let cell = set.get(i).get_cell();
                        assert(cell == cell_of(set@[i as int]));
                        let found = lookup(grid, values, cell);
                        assert(tested_cells(set@, i as int, *grid, all, (fuel - 1) as nat) == (
                        match found@ {
                            Lookup::Missing => NumberTest::Need(cell),
                            Lookup::Known(Err(_)) => NumberTest::No,
                            Lookup::Known(Ok(value)) => match tested(
                                value,
                                *grid,
                                all,
                                (fuel - 1) as nat,
                            ) {
                                NumberTest::Yes => tested_cells(
                                    set@,
                                    i + 1,
                                    *grid,
                                    all,
                                    (fuel - 1) as nat,
                                ),
                                other => other,
                            },
                        }));
                        match found {
                            CellLookup::Missing => {
                                return NumberTest::Need(cell);
                            },
                            CellLookup::Known(Err(_)) => {
                                return NumberTest::No;
                            },
                            CellLookup::Known(Ok(value)) => {
                                match test_number(&value, grid, values, fuel - 1) {
                                    NumberTest::Yes => {},
                                    other => {
                                        return other;
                                    },
                                }
                            },
                        }
                        i += 1;
                    }
                    NumberTest::Yes
                },
                None => NumberTest::No,
            }
        },
        _ => NumberTest::No,
    }
}

/// Gathers the numbers among the cells of `set`, after those of `sofar`.
#[verifier::loop_isolation(false)]
fn gather_cells(
    set: &ReferenceSet,
    sofar: Vec<String>,
    grid: &Spreadsheet,
    values: &Vec<CellValue>,
    fuel: u128,
) -> (out: GatheredTexts)
    ensures
        out@ == gathered_cells(
            set@,
            0,
            texts(sofar@),
            *grid,
            value_views(values@),
            fuel as nat,
        ),
{
    let ghost all = value_views(values@);
    let ghost start = texts(sofar@);
    let mut numbers = sofar;
    let mut i: usize = 0;
    while i < set.len()
        invariant
            i <= set@.len(),
            all == value_views(values@),
            gathered_cells(set@, 0, start, *grid, all, fuel as nat) == gathered_cells(
                set@,
                i as int,
                texts(numbers@),
                *grid,
                all,
                fuel as nat,
            ),
        decreases set@.len() - i,
    {
        let cell = set.get(i).get_cell();
        assert(cell == cell_of(set@[i as int]));
        let found = lookup(grid, values, cell);
        assert(found@ == looked_up(*grid, all, cell_of(set@[i as int])));
        match found {
            CellLookup::Missing => {
                return GatheredTexts::Need(cell);
            },
            CellLookup::Known(Err(_)) => {},
            CellLookup::Known(Ok(value)) => {
                match test_number(&value, grid, values, fuel) {
                    NumberTest::Yes => {
                        match coerce(&value, grid, values, fuel) {
                            CoercedText::Text(text) => {
                                proof {
                                    lemma_texts_push(numbers@, text);
                                }
                                numbers.push(text);
                            },
                            CoercedText::Need(needed) => {
                                return GatheredTexts::Need(needed);
                            },
                            CoercedText::Fail(FormulaError::Coercion) => {},
                            CoercedText::Fail(error) => {
                                return GatheredTexts::Fail(error);
                            },
                        }
                    },
                    NumberTest::No => {},
                    NumberTest::Need(needed) => {
                        return GatheredTexts::Need(needed);
                    },
                    NumberTest::Fail(error) => {
                        return GatheredTexts::Fail(error);
                    },
                }
            },
        }
        i += 1;
    }
    GatheredTexts::Values(numbers)
}

/// Gathers the numbers among the arguments `stack[first..]`.
#[verifier::loop_isolation(false)]
fn gather(
    stack: &Vec<Token>,
    first: usize,
    grid: &Spreadsheet,
    values: &Vec<CellValue>,
    fuel: u128,
) -> (out: GatheredTexts)
    requires
        first <= stack.len(),
    ensures
        out@ == gathered(
            views(stack@).subrange(first as int, stack.len() as int),
            0,
            Seq::empty(),
            *grid,
            value_views(values@),
            fuel as nat,
        ),
{
    let ghost all = value_views(values@);
    let ghost args = views(stack@).subrange(first as int, stack.len() as int);
    let mut numbers: Vec<String> = Vec::new();
    let mut i: usize = first;
    assert(texts(numbers@) =~= Seq::<Seq<char>>::empty());
    while i < stack.len()
        invariant
            first <= i <= stack.len(),
            all == value_views(values@),
            args == views(stack@).subrange(first as int, stack.len() as int),
            gathered(args, 0, Seq::empty(), *grid, all, fuel as nat) == gathered(
                args,
                i - first,
                texts(numbers@),
                *grid,
                all,
                fuel as nat,
            ),
        decreases stack.len() - i,
    {
        let arg = &stack[i];
        assert(args[i - first] == arg@);
        let mut done = false;
        if arg.token_type == TokenType::Reference {
            if let Some(set) = &arg.reference_set {
                match gather_cells(set, numbers, grid, values, fuel) {
                    GatheredTexts::Values(more) => {
                        numbers = more;
                    },
                    other => {
                        return other;
                    },
                }
                done = true;
            }
        }
        if !done {
            match test_number(arg, grid, values, fuel) {
                NumberTest::Yes => {
                    match coerce(arg, grid, values, fuel) {
                        CoercedText::Text(text) => {
                            proof {
                                lemma_texts_push(numbers@, text);
                            }
                            numbers.push(text);
                        },
                        CoercedText::Need(needed) => {
                            return GatheredTexts::Need(needed);
                        },
                        CoercedText::Fail(error) => {
                            return GatheredTexts::Fail(error);
                        },
                    }
                },
                NumberTest::No => {
                    return GatheredTexts::Fail(FormulaError::Function);
                },
                NumberTest::Need(needed) => {
                    return GatheredTexts::Need(needed);
                },
                NumberTest::Fail(error) => {
                    return GatheredTexts::Fail(error);
                },
            }
        }
        i += 1;
    }
    GatheredTexts::Values(numbers)
}

/// How many cells a reading may pass through.
fn fuel_for(values: &Vec<CellValue>) -> (fuel: u128)
    ensures
        fuel == fuel_of(value_views(values@)),
{
    (values.len() as u128) + 1
}

/// The token that the concatenation of two texts makes.
fn join(left: &str, right: &str) -> (token: Token)
    ensures
        token@ == joined(left@, right@),
{
    let mut chars = chars_of(left);
    let tail = chars_of(right);
    append_chars(&mut chars, &tail);
    if denotes_number(&chars) {
        return Token::of_chars(TokenType::Number, &chars);
    }
    let upper = to_upper(&chars);
    if spells(&upper, "TRUE") || spells(&upper, "FALSE") {
        Token::of_chars(TokenType::Boolean, &upper)
    } else {
        Token::of_chars(TokenType::String, &chars)
    }
}

/// Applies a reference operator to two sets: `,` unites them, the space
/// intersects them, and `:` spans the range between their first references.
pub fn apply_reference_operator(a: &ReferenceSet, b: &ReferenceSet, symbol: Symbol) -> (out: Result<
    ReferenceSet,
    FormulaError,
>)
    ensures
        match (out, reference_operation(a@, b@, symbol)) {
            (Ok(set), Ok(refs)) => set@ == refs,
            (Err(error), Err(wanted)) => error == wanted,
            _ => false,
        },
{
    match symbol {
        Symbol::Union => Ok(a.union(b)),
        Symbol::Intersect => Ok(a.intersection(b)),
        _ => {
            match (a.first(), b.first()) {
                (Some(from), Some(to)) => {
                    match from.range_len(&to) {
                        Some(_) => {
                            let cells = from.range(&to);
                            Ok(ReferenceSet::from_vec(&cells))
                        },
                        None => Err(FormulaError::TooLarge),
                    }
                },
                _ => Err(FormulaError::Operand),
            }
        },
    }
}

/// What an operator on two reference sets comes to.
fn plan_set_operator(symbol: Symbol, stack: &Vec<Token>) -> (plan: Plan)
    ensures
        plan@ == planned_set_operator(symbol, views(stack@)),
{
    if stack.len() < 2 {
        return Plan::Fail(FormulaError::Operand);
    }
    let right = &stack[stack.len() - 1];
    let left = &stack[stack.len() - 2];
    assert(views(stack@)[stack.len() - 1] == right@);
    assert(views(stack@)[stack.len() - 2] == left@);
    if left.token_type != TokenType::Reference || right.token_type != TokenType::Reference {
        return Plan::Fail(FormulaError::Operand);
    }
    match (&left.reference_set, &right.reference_set) {
        (Some(a), Some(b)) => {
            match apply_reference_operator(a, b, symbol) {
                Ok(set) => Plan::Apply { pops: 2, push: Some(Token::reference(set)) },
                Err(error) => Plan::Fail(error),
            }
        },
        _ => Plan::Fail(FormulaError::Operand),
    }
}

/// What an operator on one number comes to.
fn plan_unary(symbol: Symbol, stack: &Vec<Token>, grid: &Spreadsheet, values: &Vec<CellValue>) -> (plan:
    Plan)
    ensures
        plan@ == planned_unary(symbol, views(stack@), *grid, value_views(values@)),
{
    if stack.len() < 1 {
        return Plan::Fail(FormulaError::Operand);
    }
    assert(views(stack@)[stack.len() - 1] == stack@[stack.len() - 1]@);
    match coerce(&stack[stack.len() - 1], grid, values, fuel_for(values)) {
        CoercedText::Need(cell) => Plan::Need(cell),
        CoercedText::Fail(error) => Plan::Fail(error),
        CoercedText::Text(text) => Plan::Ask {
            pops: 1,
            calculation: if symbol == Symbol::Negate {
                Calculation::Negate(text)
            } else {
                Calculation::Percent(text)
            },
            pending: Pending::Number,
        },
    }
}

/// Whether `symbol` is one of the comparisons.
fn comparison(symbol: Symbol) -> (yes: bool)
    ensures
        yes == is_comparison(symbol),
{
    match symbol {
        Symbol::Equal | Symbol::Less | Symbol::Greater | Symbol::LessEqual | Symbol::GreaterEqual | Symbol::NotEqual => {
            true
        },
        _ => false,
    }
}

/// What an operator on two numbers comes to.
fn plan_binary(symbol: Symbol, stack: &Vec<Token>, grid: &Spreadsheet, values: &Vec<CellValue>) -> (plan:
    Plan)
    ensures
        plan@ == planned_binary(symbol, views(stack@), *grid, value_views(values@)),
{
    if stack.len() < 2 {
        return Plan::Fail(FormulaError::Operand);
    }
    assert(views(stack@)[stack.len() - 1] == stack@[stack.len() - 1]@);
    assert(views(stack@)[stack.len() - 2] == stack@[stack.len() - 2]@);
    let left = match coerce(&stack[stack.len() - 2], grid, values, fuel_for(values)) {
        CoercedText::Need(cell) => {
            return Plan::Need(cell);
        },
        CoercedText::Fail(error) => {
            return Plan::Fail(error);
        },
        CoercedText::Text(text) => text,
    };
    let right = match coerce(&stack[stack.len() - 1], grid, values, fuel_for(values)) {
        CoercedText::Need(cell) => {
            return Plan::Need(cell);
        },
        CoercedText::Fail(error) => {
            return Plan::Fail(error);
        },
        CoercedText::Text(text) => text,
    };
    if comparison(symbol) {
        Plan::Ask {
            pops: 2,
            calculation: Calculation::Compare(left, right),
            pending: Pending::Truth(symbol),
        }
    } else {
        Plan::Ask {
            pops: 2,
            calculation: Calculation::Arithmetic(symbol, left, right),
            pending: Pending::Number,
        }
    }
}

/// What an operator comes to.
fn plan_operator(
    symbol: Option<Symbol>,
    stack: &Vec<Token>,
    grid: &Spreadsheet,
    values: &Vec<CellValue>,
) -> (plan: Plan)
    ensures
        plan@ == planned_operator(symbol, views(stack@), *grid, value_views(values@)),
{
    match symbol {
        Some(Symbol::Range) | Some(Symbol::Union) | Some(Symbol::Intersect) => plan_set_operator(
            symbol.unwrap(),
            stack,
        ),
        Some(Symbol::Negate) | Some(Symbol::Percent) => plan_unary(
            symbol.unwrap(),
            stack,
            grid,
            values,
        ),
        Some(Symbol::Concat) => {
            if stack.len() < 2 {
                Plan::Fail(FormulaError::Operand)
            } else {
                assert(views(stack@)[stack.len() - 1] == stack@[stack.len() - 1]@);
                assert(views(stack@)[stack.len() - 2] == stack@[stack.len() - 2]@);
                Plan::Apply {
                    pops: 2,
                    push: Some(
                        join(
                            stack[stack.len() - 2].content.as_str(),
                            stack[stack.len() - 1].content.as_str(),
                        ),
                    ),
                }
            }
        },
        Some(Symbol::At) | Some(Symbol::Hash) | None => {
            if stack.len() < 1 {
                Plan::Fail(FormulaError::Operand)
            } else {
                Plan::Apply { pops: 1, push: None }
            }
        },
        Some(other) => plan_binary(other, stack, grid, values),
    }
}

/// What the call of `function` on the arguments `stack[first..]` comes to.
fn plan_call(
    function: FormulaFunction,
    stack: &Vec<Token>,
    first: usize,
    grid: &Spreadsheet,
    values: &Vec<CellValue>,
    draw: u32,
) -> (plan: Plan)
    requires
        first <= stack.len(),
    ensures
        plan@ == planned_call(
            function,
            views(stack@).subrange(first as int, stack.len() as int),
            *grid,
            value_views(values@),
            draw,
        ),
{
    let ghost args = views(stack@).subrange(first as int, stack.len() as int);
    let count = stack.len() - first;
    proof {
        assert forall|k: int| 0 <= k < count implies args[k] == stack@[first + k]@ by {}
    }
    match function {
        FormulaFunction::Pi => {
            if count == 0 {
                Plan::Apply { pops: 0, push: Some(Token::new(TokenType::Number, pi_string())) }
            } else {
                Plan::Fail(FormulaError::Function)
            }
        },
        FormulaFunction::Rand => {
            if count == 0 {
                Plan::Apply {
                    pops: 0,
                    push: Some(Token::new(TokenType::Number, unit_fraction_string(draw))),
                }
            } else {
                Plan::Fail(FormulaError::Function)
            }
        },
        FormulaFunction::Sqrt => {
            if count != 1 || stack[first].token_type != TokenType::Number {
                assert(count == 1 ==> args[0] == stack@[first as int]@);
                Plan::Fail(FormulaError::Function)
            } else if !is_number_string(stack[first].content.as_str()) {
                assert(args[0] == stack@[first as int]@);
                Plan::Fail(FormulaError::Coercion)
            } else {
                assert(args[0] == stack@[first as int]@);
                Plan::Ask {
                    pops: 1,
                    calculation: Calculation::Sqrt(stack[first].content.clone()),
                    pending: Pending::Number,
                }
            }
        },
        FormulaFunction::If => {
            if (count != 2 && count != 3) || stack[first].token_type != TokenType::Boolean {
                assert(count >= 1 ==> args[0] == stack@[first as int]@);
                Plan::Fail(FormulaError::Function)
            } else {
                assert(args[0] == stack@[first as int]@);
                assert(args[1] == stack@[first + 1]@);
                if same_text(stack[first].content.as_str(), "TRUE") {
                    Plan::Apply { pops: count, push: Some(stack[first + 1].clone()) }
                } else if count == 3 {
                    assert(args[2] == stack@[first + 2]@);
                    Plan::Apply { pops: 3, push: Some(stack[first + 2].clone()) }
                } else {
                    Plan::Apply {
                        pops: 2,
                        push: Some(Token::new(TokenType::Boolean, String::from_str("FALSE"))),
                    }
                }
            }
        },
        _ => {
            match gather(stack, first, grid, values, fuel_for(values)) {
                GatheredTexts::Need(cell) => Plan::Need(cell),
                GatheredTexts::Fail(error) => Plan::Fail(error),
                GatheredTexts::Values(numbers) => {
                    if function == FormulaFunction::Median && numbers.len() == 0 {
                        Plan::Fail(FormulaError::Function)
                    } else {
                        Plan::Ask {
                            pops: count,
                            calculation: match function {
                                FormulaFunction::Sum => Calculation::Sum(numbers),
                                FormulaFunction::Average => Calculation::Average(numbers),
                                _ => Calculation::Median(numbers),
                            },
                            pending: Pending::Number,
                        }
                    }
                },
            }
        },
    }
}

/// What the instruction comes to on `stack`.
pub fn plan(
    instruction: &Token,
    stack: &Vec<Token>,
    grid: &Spreadsheet,
    values: &Vec<CellValue>,
    draw: u32,
) -> (plan: Plan)
    ensures
        plan@ == planned(instruction@, views(stack@), *grid, value_views(values@), draw),
        plan@ matches PlanView::Apply { pops, push } ==> pops <= stack.len(),
        plan@ matches PlanView::Ask { pops, calculation, pending } ==> pops <= stack.len(),
{
    match instruction.token_type {
        TokenType::Number | TokenType::String | TokenType::Boolean | TokenType::Reference => {
            Plan::Apply { pops: 0, push: Some(instruction.clone()) }
        },
        TokenType::Operator => plan_operator(
            operator_symbol(instruction.content.as_str()),
            stack,
            grid,
            values,
        ),
        TokenType::Function => {
            match (get_func(instruction.content.as_str()), instruction.function_n_args) {
                (Some(function), Some(arity)) => {
                    if arity as usize > stack.len() {
                        Plan::Fail(FormulaError::Operand)
                    } else {
                        match plan_call(
                            function,
                            stack,
                            stack.len() - arity as usize,
                            grid,
                            values,
                            draw,
                        ) {
                            Plan::Apply { pops, push } => Plan::Apply { pops: arity as usize, push },
                            other => other,
                        }
                    }
                },
                _ => Plan::Fail(FormulaError::Function),
            }
        },
        _ => Plan::Apply { pops: 0, push: None },
    }
}

/// Whether a comparison holds of two numbers that compare as `order` says.
fn holds(symbol: Symbol, order: NumberOrder) -> (yes: bool)
    ensures
        yes == comparison_holds(symbol, order),
{
    match symbol {
        Symbol::Equal => order == NumberOrder::Equal,
        Symbol::Less => order == NumberOrder::Less,
        Symbol::Greater => order == NumberOrder::Greater,
        Symbol::LessEqual => order == NumberOrder::Less || order == NumberOrder::Equal,
        Symbol::GreaterEqual => order == NumberOrder::Greater || order == NumberOrder::Equal,
        Symbol::NotEqual => order != NumberOrder::Equal,
        _ => false,
    }
}

/// The token that the evaluation makes of the host's answer.
pub fn answer_token(pending: Pending, answer: Option<Answer>) -> (token: Option<Token>)
    ensures
        match answer {
            Some(given) => match (token, answered(pending, given@)) {
                (Some(made), Some(wanted)) => made@ == wanted,
                (None, None) => true,
                _ => false,
            },
            None => token is None,
        },
{
    match (pending, answer) {
        (Pending::Number, Some(Answer::Number(text))) => {
            if is_number_string(text.as_str()) {
                Some(Token::new(TokenType::Number, text))
            } else {
                None
            }
        },
        (Pending::Truth(symbol), Some(Answer::Order(order))) => {
            if holds(symbol, order) {
                Some(Token::new(TokenType::Boolean, String::from_str("TRUE")))
            } else {
                Some(Token::new(TokenType::Boolean, String::from_str("FALSE")))
            }
        },
        _ => None,
    }
}

impl Token {
    /// Whether the token is a number, on a grid of which no formula has been
    /// evaluated: a reference whose cells hold formulas needs their values
    /// first.
    pub fn is_number(&self, spreadsheet: &Spreadsheet) -> (out: NumberTest)
        ensures
            out == tested(self@, *spreadsheet, Seq::empty(), 1),
    {
        let values: Vec<CellValue> = Vec::new();
        assert(value_views(values@) =~= Seq::<CellValueView>::empty());
        test_number(self, spreadsheet, &values, 1)
    }
}

/// Every text of `all` denotes a number.
pub open spec fn all_numbers(all: Seq<Seq<char>>) -> bool {
    forall|i: int| 0 <= i < all.len() ==> is_number_text(#[trigger] all[i])
}

/// `symbol` is one of `+`, `-`, `*`, `/` and `^`.
pub open spec fn is_arithmetic(symbol: Symbol) -> bool {
    symbol == Symbol::Add || symbol == Symbol::Subtract || symbol == Symbol::Multiply || symbol
        == Symbol::Divide || symbol == Symbol::Power
}

/// The calculation is one that a host can carry out: every text in it
/// denotes a number, and its operator is an arithmetic one.
pub open spec fn well_posed(calculation: CalculationView) -> bool {
    match calculation {
        CalculationView::Negate(x) => is_number_text(x),
        CalculationView::Percent(x) => is_number_text(x),
        CalculationView::Arithmetic(symbol, left, right) => is_arithmetic(symbol)
            && is_number_text(left) && is_number_text(right),
        CalculationView::Compare(left, right) => is_number_text(left) && is_number_text(right),
        CalculationView::Sqrt(x) => is_number_text(x),
        CalculationView::Sum(all) => all_numbers(all),
        CalculationView::Average(all) => all_numbers(all),
        CalculationView::Median(all) => all_numbers(all) && all.len() > 0,
    }
}

proof fn lemma_digit_is_number(c: char)
    requires
        is_digit(c),
    ensures
        is_number_text(seq![c]),
{
    let s = seq![c];
    assert(s.len() == 1 && s[0] == c);
    assert(run_end(s, 1, CharClass::Digit) == 1);
    assert(run_end(s, 0, CharClass::Digit) == 1);
    assert(sign_len(s, 0) == 0);
    assert(is_decimal(s, 0));
}

proof fn lemma_coerced_is_number(
    token: TokenView,
    grid: Spreadsheet,
    values: Seq<CellValueView>,
    fuel: nat,
)
    ensures
        coerced(token, grid, values, fuel) matches Coerced::Text(text) ==> is_number_text(text),
    decreases fuel,
{
    lemma_digit_is_number('0');
    lemma_digit_is_number('1');
    if token.kind == TokenType::Reference && token.refs is Some && token.refs->0.len() == 1 && fuel
        > 0 {
        if let Lookup::Known(Ok(value)) = looked_up(grid, values, cell_of(token.refs->0[0])) {
            lemma_coerced_is_number(value, grid, values, (fuel - 1) as nat);
        }
    }
}

proof fn lemma_gathered_cells_are_numbers(
    refs: Seq<Reference>,
    from: int,
    sofar: Seq<Seq<char>>,
    grid: Spreadsheet,
    values: Seq<CellValueView>,
    fuel: nat,
)
    requires
        all_numbers(sofar),
    ensures
        gathered_cells(refs, from, sofar, grid, values, fuel) matches Gathered::Values(all)
            ==> all_numbers(all),
    decreases refs.len() - from,
{
    if 0 <= from < refs.len() {
        match looked_up(grid, values, cell_of(refs[from])) {
            Lookup::Known(Ok(value)) => {
                lemma_coerced_is_number(value, grid, values, fuel);
                if let Coerced::Text(text) = coerced(value, grid, values, fuel) {
                    lemma_gathered_cells_are_numbers(
                        refs,
                        from + 1,
                        sofar.push(text),
                        grid,
                        values,
                        fuel,
                    );
                }
                lemma_gathered_cells_are_numbers(refs, from + 1, sofar, grid, values, fuel);
            },
            _ => {
                lemma_gathered_cells_are_numbers(refs, from + 1, sofar, grid, values, fuel);
            },
        }
    }
}

proof fn lemma_gathered_are_numbers(
    args: Seq<TokenView>,
    from: int,
    sofar: Seq<Seq<char>>,
    grid: Spreadsheet,
    values: Seq<CellValueView>,
    fuel: nat,
)
    requires
        all_numbers(sofar),
    ensures
        gathered(args, from, sofar, grid, values, fuel) matches Gathered::Values(all)
            ==> all_numbers(all),
    decreases args.len() - from,
{
    if 0 <= from < args.len() {
        if args[from].kind == TokenType::Reference && args[from].refs is Some {
            lemma_gathered_cells_are_numbers(args[from].refs->0, 0, sofar, grid, values, fuel);
            if let Gathered::Values(more) = gathered_cells(
                args[from].refs->0,
                0,
                sofar,
                grid,
                values,
                fuel,
            ) {
                lemma_gathered_are_numbers(args, from + 1, more, grid, values, fuel);
            }
        } else {
            lemma_coerced_is_number(args[from], grid, values, fuel);
            if let Coerced::Text(text) = coerced(args[from], grid, values, fuel) {
                lemma_gathered_are_numbers(args, from + 1, sofar.push(text), grid, values, fuel);
            }
        }
    }
}

/// Whatever an instruction asks of the host is well posed.
pub proof fn lemma_planned_is_well_posed(
    instruction: TokenView,
    stack: Seq<TokenView>,
    grid: Spreadsheet,
    values: Seq<CellValueView>,
    draw: u32,
)
    ensures
        planned(instruction, stack, grid, values, draw) matches PlanView::Ask {
            pops,
            calculation,
            pending,
        } ==> well_posed(calculation),
{
    let fuel = fuel_of(values);
    if stack.len() >= 1 {
        lemma_coerced_is_number(stack[stack.len() - 1], grid, values, fuel);
    }
    if stack.len() >= 2 {
        lemma_coerced_is_number(stack[stack.len() - 2], grid, values, fuel);
    }
    if instruction.kind == TokenType::Function {
        if let (Some(function), Some(arity)) = (
            function_named(instruction.content),
            instruction.arity,
        ) {
            if arity <= stack.len() {
                let args = stack.subrange(stack.len() - arity, stack.len() as int);
                lemma_gathered_are_numbers(args, 0, Seq::empty(), grid, values, fuel);
            }
        }
    }
}

} // verus!

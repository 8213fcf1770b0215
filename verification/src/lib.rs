//! A spreadsheet formula engine: cell references, a lexer, an infix-to-postfix
//! reorderer, a resumable evaluator, and the grid that the formulas read.
//!
//! The engine carries numbers as text and leaves arithmetic on them to its
//! host: an evaluation is stepped by the host, which computes what a step
//! asks for and hands the answer to the next.

pub mod evaluation;
pub mod formula_functions;
pub mod formulas;
pub mod instructions;
pub mod lexer;
pub mod numbers;
pub mod reference_set;
pub mod references;
pub mod reorder;
pub mod spreadsheet;
pub mod text;
pub mod tokens;
pub mod undo_stack;
pub mod utils;

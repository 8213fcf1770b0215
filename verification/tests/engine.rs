use sheetcalc::evaluation::Evaluation;
use sheetcalc::evaluation::Progress;
use sheetcalc::formulas::cell_to_token;
use sheetcalc::formulas::eval_formula;
use sheetcalc::instructions::Answer;
use sheetcalc::instructions::Calculation;
use sheetcalc::instructions::NumberOrder;
use sheetcalc::instructions::NumberTest;
use sheetcalc::spreadsheet::Spreadsheet;
use sheetcalc::spreadsheet::SpreadsheetCell;
use sheetcalc::tokens::FormulaError;
use sheetcalc::tokens::Symbol;
use sheetcalc::tokens::Token;
use sheetcalc::tokens::TokenType;

fn number(text: &str) -> f32 {
    text.parse::<f32>().unwrap()
}

fn numbers(all: &[String]) -> Vec<f32> {
    all.iter().map(|text| number(text)).collect()
}

fn compute(calculation: Calculation) -> Answer {
    match calculation {
        Calculation::Negate(x) => Answer::Number((-number(&x)).to_string()),
        Calculation::Percent(x) => Answer::Number((number(&x) / 100.0).to_string()),
        Calculation::Arithmetic(symbol, left, right) => {
            let (a, b) = (number(&left), number(&right));
            let value = match symbol {
                Symbol::Add => a + b,
                Symbol::Subtract => a - b,
                Symbol::Multiply => a * b,
                Symbol::Divide => a / b,
                Symbol::Power => a.powf(b),
                _ => unreachable!(),
            };
            Answer::Number(value.to_string())
        }
        Calculation::Compare(left, right) => {
            let (a, b) = (number(&left), number(&right));
            Answer::Order(if a < b {
                NumberOrder::Less
            } else if a > b {
                NumberOrder::Greater
            } else if a == b {
                NumberOrder::Equal
            } else {
                NumberOrder::Unordered
            })
        }
        Calculation::Sqrt(x) => Answer::Number(number(&x).sqrt().to_string()),
        Calculation::Sum(all) => Answer::Number(numbers(&all).iter().sum::<f32>().to_string()),
        Calculation::Average(all) => {
            let values = numbers(&all);
            Answer::Number((values.iter().sum::<f32>() / values.len() as f32).to_string())
        }
        Calculation::Median(all) => {
            let mut values = numbers(&all);
            values.sort_by(|a, b| a.partial_cmp(b).unwrap());
            let middle = if values.len() % 2 == 1 {
                values[values.len() / 2]
            } else {
                (values[values.len() / 2] + values[values.len() / 2 - 1]) / 2.0
            };
            Answer::Number(middle.to_string())
        }
    }
}

fn run(mut evaluation: Evaluation, grid: &Spreadsheet) -> Result<Token, FormulaError> {
    let mut answer: Option<Answer> = None;
    for _ in 0..100_000 {
        match evaluation.advance(grid, answer.take()) {
            Progress::Working => {}
            Progress::Ask(calculation) => answer = Some(compute(calculation)),
            Progress::Finished(result) => return result,
        }
    }
    panic!("the evaluation does not end");
}

fn value_of(text: &str, grid: &Spreadsheet) -> Token {
    run(cell_to_token(text), grid).unwrap()
}

fn grid_of(cells: &[(usize, usize, &str)]) -> Spreadsheet {
    let mut grid = Spreadsheet::new();
    for (row, col, text) in cells {
        grid.set_cell(&SpreadsheetCell { row: *row, col: *col }, text);
    }
    grid
}

#[test]
fn multiplication_binds_tighter_than_addition() {
    let token = value_of("=1+2*3", &Spreadsheet::new());
    assert_eq!(token.token_type, TokenType::Number);
    assert_eq!(token.content, "7");
}

#[test]
fn parentheses_group() {
    let token = value_of("=(1+2)*3", &Spreadsheet::new());
    assert_eq!(token.token_type, TokenType::Number);
    assert_eq!(token.content, "9");
}

#[test]
fn negations_and_nested_parentheses() {
    let token = value_of("=-3+-4*(2+(-2+3)*4)/5", &Spreadsheet::new());
    assert_eq!(token.token_type, TokenType::Number);
    assert_eq!(token.content, "-7.8");
}

#[test]
fn functions_keep_operators_out_of_their_arguments() {
    let token = value_of("=SQRT(2)+SQRT(2)", &Spreadsheet::new());
    assert_eq!(token.token_type, TokenType::Number);
    assert!((number(&token.content) - 2.8284271).abs() < 1e-6);
}

#[test]
fn if_picks_the_second_argument_when_true() {
    let token = value_of("=IF(1=1,\"yes\",\"no\")", &Spreadsheet::new());
    assert_eq!(token.token_type, TokenType::String);
    assert_eq!(token.content, "yes");
}

#[test]
fn if_picks_the_third_argument_when_false() {
    let token = value_of("=IF(1=2,\"yes\",\"no\")", &Spreadsheet::new());
    assert_eq!(token.content, "no");
    let token = value_of("=IF(1>2,\"yes\")", &Spreadsheet::new());
    assert_eq!(token.token_type, TokenType::Boolean);
    assert_eq!(token.content, "FALSE");
}

#[test]
fn sum_of_a_range() {
    let grid = grid_of(&[(0, 0, "1"), (1, 0, "2"), (2, 0, "3")]);
    let token = value_of("=SUM(A1:A3)", &grid);
    assert_eq!(token.token_type, TokenType::Number);
    assert_eq!(token.content, "6");
}

#[test]
fn concatenation_is_classified() {
    let grid = Spreadsheet::new();
    let token = value_of("=\"\"&TRUE", &grid);
    assert_eq!(token.token_type, TokenType::Boolean);
    assert_eq!(token.content, "TRUE");
    let token = value_of("=\"fal\"&\"se\"", &grid);
    assert_eq!(token.token_type, TokenType::Boolean);
    assert_eq!(token.content, "FALSE");
    let token = value_of("=1&2", &grid);
    assert_eq!(token.token_type, TokenType::Number);
    assert_eq!(token.content, "12");
    let token = value_of("=\"a\"&TRUE", &grid);
    assert_eq!(token.token_type, TokenType::String);
    assert_eq!(token.content, "aTRUE");
}

#[test]
fn formula_without_the_equals_sign() {
    let token = run(eval_formula("2^10"), &Spreadsheet::new()).unwrap();
    assert_eq!(token.content, "1024");
}

fn error_of(text: &str, grid: &Spreadsheet) -> FormulaError {
    run(cell_to_token(text), grid).unwrap_err()
}

#[test]
fn literal_cells_are_classified() {
    let grid = Spreadsheet::new();
    let token = value_of("12.5", &grid);
    assert_eq!((token.token_type, token.content.as_str()), (TokenType::Number, "12.5"));
    let token = value_of("true", &grid);
    assert_eq!((token.token_type, token.content.as_str()), (TokenType::Boolean, "TRUE"));
    let token = value_of("False", &grid);
    assert_eq!((token.token_type, token.content.as_str()), (TokenType::Boolean, "FALSE"));
    let token = value_of("hello", &grid);
    assert_eq!((token.token_type, token.content.as_str()), (TokenType::String, "hello"));
    let token = value_of("", &grid);
    assert_eq!((token.token_type, token.content.as_str()), (TokenType::Number, ""));
}

#[test]
fn percent_and_negation() {
    let grid = Spreadsheet::new();
    assert_eq!(value_of("=50%", &grid).content, "0.5");
    assert_eq!(value_of("=-5%", &grid).content, "-0.05");
    assert_eq!(value_of("=-2^2", &grid).content, "4");
}

#[test]
fn comparisons_give_booleans() {
    let grid = Spreadsheet::new();
    for (formula, expected) in [
        ("=1<2", "TRUE"),
        ("=2<1", "FALSE"),
        ("=2>1", "TRUE"),
        ("=2<=2", "TRUE"),
        ("=3>=4", "FALSE"),
        ("=3<>4", "TRUE"),
        ("=3<>3", "FALSE"),
        ("=3=3", "TRUE"),
    ] {
        let token = value_of(formula, &grid);
        assert_eq!(token.token_type, TokenType::Boolean);
        assert_eq!(token.content, expected, "{}", formula);
    }
}

#[test]
fn booleans_count_as_one_and_zero() {
    let grid = Spreadsheet::new();
    assert_eq!(value_of("=TRUE+TRUE", &grid).content, "2");
    assert_eq!(value_of("=FALSE+1", &grid).content, "1");
    assert_eq!(value_of("=\"text\"+1", &grid).content, "1");
}

#[test]
fn references_are_read_from_the_grid() {
    let grid = grid_of(&[(0, 0, "4"), (0, 1, "=A1*2"), (0, 2, "=B1")]);
    assert_eq!(value_of("=A1-1", &grid).content, "3");
    assert_eq!(value_of("=B1+1", &grid).content, "9");
    assert_eq!(value_of("=C1+1", &grid).content, "9");
    let token = value_of("=A1", &grid);
    assert_eq!(token.token_type, TokenType::Reference);
    assert_eq!(token.reference_set.unwrap().len(), 1);
}

#[test]
fn a_cell_is_evaluated_where_it_stands() {
    let grid = grid_of(&[(0, 0, "4"), (0, 1, "=A1*2")]);
    let token = run(grid.get_cell_value(&SpreadsheetCell { row: 0, col: 1 }), &grid).unwrap();
    assert_eq!(token.content, "8");
    let token = run(grid.get_cell_value(&SpreadsheetCell { row: 0, col: 0 }), &grid).unwrap();
    assert_eq!((token.token_type, token.content.as_str()), (TokenType::Number, "4"));
    let token = run(grid.get_cell_value(&SpreadsheetCell { row: 9, col: 9 }), &grid).unwrap();
    assert_eq!((token.token_type, token.content.as_str()), (TokenType::Number, ""));
}

#[test]
fn aggregates_gather_numbers() {
    let grid = grid_of(&[(0, 0, "1"), (1, 0, "2"), (2, 0, "x"), (3, 0, "4"), (0, 1, "=A1+A2")]);
    assert_eq!(value_of("=SUM(A1:A4)", &grid).content, "7");
    assert_eq!(value_of("=SUM(A1:A4,10)", &grid).content, "17");
    assert_eq!(value_of("=SUM(A1:B1)", &grid).content, "4");
    assert_eq!(value_of("=AVERAGE(1,2,3,4)", &grid).content, "2.5");
    assert_eq!(value_of("=MEDIAN(3,1,2)", &grid).content, "2");
    assert_eq!(value_of("=MEDIAN(1,2,3,4)", &grid).content, "2.5");
    assert_eq!(value_of("=SUM(TRUE,2)", &grid).content, "3");
    assert_eq!(value_of("=SUM(A1:A9)", &grid).content, "7");
    assert_eq!(value_of("=AVERAGE(A1:A2,C1:C5)", &grid).content, "1.5");
    assert_eq!(number(&value_of("=SUM()", &grid).content), 0.0);
    assert_eq!(value_of("=AVERAGE()", &grid).content, "NaN");
}

#[test]
fn pi_and_rand() {
    let grid = Spreadsheet::new();
    let pi = value_of("=PI()", &grid);
    assert_eq!((pi.token_type, pi.content.as_str()), (TokenType::Number, "3.1415927"));
    assert_eq!(pi.content, std::f32::consts::PI.to_string());
    for _ in 0..50 {
        let token = value_of("=RAND()", &grid);
        assert_eq!(token.token_type, TokenType::Number);
        assert_eq!(token.content.len(), 34);
        let value = token.content.parse::<f64>().unwrap();
        assert!((0.0..1.0).contains(&value));
    }
    let first = value_of("=RAND()", &grid).content;
    assert!((0..20).any(|_| value_of("=RAND()", &grid).content != first));
}

#[test]
fn rand_writes_the_draw_as_a_fraction() {
    let grid = Spreadsheet::new();
    let mut evaluation = eval_formula("RAND()");
    let mut last = None;
    for draw in [0x8000_0000u32, 1, 0, u32::MAX] {
        let mut evaluation_for_draw = eval_formula("RAND()");
        loop {
            match evaluation_for_draw.advance_with(&grid, None, draw) {
                Progress::Working => {}
                Progress::Ask(_) => panic!("nothing to compute"),
                Progress::Finished(result) => {
                    last = Some(result.unwrap().content);
                    break;
                }
            }
        }
        let expected = match draw {
            0x8000_0000 => "0.50000000000000000000000000000000",
            1 => "0.00000000023283064365386962890625",
            0 => "0.00000000000000000000000000000000",
            _ => "0.99999999976716935634613037109375",
        };
        assert_eq!(last.as_deref(), Some(expected));
    }
    assert!(matches!(evaluation.advance_with(&grid, None, 7), Progress::Working));
}

#[test]
fn set_operators_combine_references() {
    let grid = grid_of(&[(0, 0, "1"), (0, 1, "2"), (1, 0, "3"), (1, 1, "4")]);
    assert_eq!(value_of("=SUM(A1:B2)", &grid).content, "10");
    let union = value_of("=A1,B2", &grid);
    assert_eq!(union.token_type, TokenType::Reference);
    assert_eq!(union.reference_set.unwrap().len(), 2);
    let common = value_of("=A1:B1 B1:B2", &grid);
    let cells = common.reference_set.unwrap().to_vec();
    assert_eq!(cells.len(), 1);
    assert_eq!(cells[0].to_string(), "B1");
    let range = value_of("=B2:A1", &grid).reference_set.unwrap().to_vec();
    let names: Vec<String> = range.iter().map(|r| r.to_string()).collect();
    assert_eq!(names, ["A1", "A2", "B1", "B2"]);
}

#[test]
fn every_error_has_its_input() {
    let grid = grid_of(&[(0, 0, "1.2.3"), (1, 0, "=A2+1"), (2, 0, "=B3"), (2, 1, "=A3")]);
    assert_eq!(error_of("=SUM", &grid), FormulaError::Lex);
    assert_eq!(error_of("=,1", &grid), FormulaError::Lex);
    assert_eq!(error_of("=", &grid), FormulaError::NoValue);
    assert_eq!(error_of("=1)", &grid), FormulaError::NoValue);
    assert_eq!(error_of("=1+", &grid), FormulaError::Operand);
    assert_eq!(error_of("=1:2", &grid), FormulaError::Operand);
    assert_eq!(error_of("=PI(1)", &grid), FormulaError::Function);
    assert_eq!(error_of("=SQRT(\"a\")", &grid), FormulaError::Function);
    assert_eq!(error_of("=SUM(\"a\")", &grid), FormulaError::Function);
    assert_eq!(error_of("=IF(1,2,3)", &grid), FormulaError::Function);
    assert_eq!(error_of("=MEDIAN()", &grid), FormulaError::Function);
    assert_eq!(error_of("=MEDIAN(C1:C3)", &grid), FormulaError::Function);
    assert_eq!(error_of("=A1+1", &grid), FormulaError::Coercion);
    assert_eq!(error_of("=A2+1", &grid), FormulaError::Cycle);
    assert_eq!(error_of("=A3+1", &grid), FormulaError::Cycle);
    let own = run(grid.get_cell_value(&SpreadsheetCell { row: 1, col: 0 }), &grid);
    assert_eq!(own.unwrap_err(), FormulaError::Cycle);
}

#[test]
fn answers_out_of_turn_end_the_evaluation() {
    let grid = Spreadsheet::new();
    let mut evaluation = eval_formula("1+2");
    let unasked = evaluation.advance(&grid, Some(Answer::Number(String::from("3"))));
    assert!(matches!(unasked, Progress::Finished(Err(FormulaError::Protocol))));
    assert!(evaluation.is_finished());
    assert!(matches!(
        evaluation.advance(&grid, None),
        Progress::Finished(Err(FormulaError::Protocol))
    ));

    let mut evaluation = eval_formula("1+2");
    loop {
        match evaluation.advance(&grid, None) {
            Progress::Working => {}
            Progress::Ask(Calculation::Arithmetic(symbol, left, right)) => {
                assert_eq!((symbol, left.as_str(), right.as_str()), (Symbol::Add, "1", "2"));
                break;
            }
            _ => panic!("the sum is asked for"),
        }
    }
    let silent = evaluation.advance(&grid, None);
    assert!(matches!(silent, Progress::Finished(Err(FormulaError::Protocol))));

    let mut evaluation = eval_formula("1<2");
    while !matches!(evaluation.advance(&grid, None), Progress::Ask(Calculation::Compare(_, _))) {}
    let wrong = evaluation.advance(&grid, Some(Answer::Number(String::from("1"))));
    assert!(matches!(wrong, Progress::Finished(Err(FormulaError::Protocol))));

    let mut evaluation = eval_formula("1+2");
    while !matches!(evaluation.advance(&grid, None), Progress::Ask(_)) {}
    let garbled = evaluation.advance(&grid, Some(Answer::Number(String::from("three"))));
    assert!(matches!(garbled, Progress::Finished(Err(FormulaError::Protocol))));
}

#[test]
fn operands_reach_the_host_in_their_order() {
    let grid = Spreadsheet::new();
    let mut evaluation = eval_formula("7-2");
    loop {
        match evaluation.advance(&grid, None) {
            Progress::Working => {}
            Progress::Ask(Calculation::Arithmetic(symbol, left, right)) => {
                assert_eq!((symbol, left.as_str(), right.as_str()), (Symbol::Subtract, "7", "2"));
                break;
            }
            _ => panic!("the difference is asked for"),
        }
    }
    let done = evaluation.advance(&grid, Some(Answer::Number(String::from("5"))));
    assert!(matches!(done, Progress::Working));
    match evaluation.advance(&grid, None) {
        Progress::Finished(Ok(token)) => assert_eq!(token.content, "5"),
        _ => panic!("the evaluation is over"),
    }
}

#[test]
fn unclosed_structures_are_let_pass() {
    let grid = Spreadsheet::new();
    assert_eq!(value_of("=(1+2", &grid).content, "3");
    assert_eq!(value_of("=SUM(1,2", &grid).content, "3");
    assert_eq!(value_of("=\"abc", &grid).content, "abc");
}

#[test]
fn tokens_are_numbers_or_not() {
    let grid = grid_of(&[(0, 0, "1"), (1, 0, "x"), (2, 0, "=1+1"), (3, 0, "TRUE")]);
    let token = |text: &str| parse_formula_token(text);
    assert_eq!(token("12").is_number(&grid), NumberTest::Yes);
    assert_eq!(token("TRUE").is_number(&grid), NumberTest::Yes);
    assert_eq!(token("\"1e5\"").is_number(&grid), NumberTest::Yes);
    assert_eq!(token("\"one\"").is_number(&grid), NumberTest::No);
    assert_eq!(token("+").is_number(&grid), NumberTest::No);
    assert_eq!(token("A1").is_number(&grid), NumberTest::Yes);
    assert_eq!(token("A4").is_number(&grid), NumberTest::Yes);
    assert_eq!(token("A2").is_number(&grid), NumberTest::No);
    assert_eq!(token("A3").is_number(&grid), NumberTest::Need(SpreadsheetCell { row: 2, col: 0 }));
}

fn parse_formula_token(text: &str) -> Token {
    sheetcalc::lexer::parse_formula(text).unwrap().remove(0)
}

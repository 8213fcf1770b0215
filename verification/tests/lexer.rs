use sheetcalc::formula_functions::get_func;
use sheetcalc::formula_functions::get_funcs;
use sheetcalc::formula_functions::list_function_names;
use sheetcalc::formula_functions::FormulaFunction;
use sheetcalc::formulas::balance_parens;
use sheetcalc::formulas::extract_references;
use sheetcalc::lexer::find_close_paren;
use sheetcalc::lexer::naive_parse_string;
use sheetcalc::lexer::parse_formula;
use sheetcalc::reorder::reorder;
use sheetcalc::tokens::get_operator_precedence;
use sheetcalc::tokens::operator_symbol;
use sheetcalc::tokens::FormulaError;
use sheetcalc::tokens::Symbol;
use sheetcalc::tokens::Token;
use sheetcalc::tokens::TokenType;

fn shape(tokens: &[Token]) -> Vec<(TokenType, String)> {
    tokens
        .iter()
        .map(|token| match &token.reference_set {
            Some(set) => {
                let names: Vec<String> = set.to_vec().iter().map(|r| r.to_string()).collect();
                (token.token_type, names.join("+"))
            }
            None => (token.token_type, token.content.clone()),
        })
        .collect()
}

fn lexed(formula: &str) -> Vec<(TokenType, String)> {
    shape(&parse_formula(formula).unwrap())
}

fn postfix(formula: &str) -> Vec<String> {
    reorder(&parse_formula(formula).unwrap())
        .iter()
        .map(|token| match &token.reference_set {
            Some(set) => set.to_vec()[0].to_string(),
            None => token.content.clone(),
        })
        .collect()
}

fn t(kind: TokenType, content: &str) -> (TokenType, String) {
    (kind, String::from(content))
}

#[test]
fn numbers_operators_and_parentheses() {
    assert_eq!(
        lexed("(12+3)*4"),
        [
            t(TokenType::LeftParen, ""),
            t(TokenType::Number, "12"),
            t(TokenType::Operator, "+"),
            t(TokenType::Number, "3"),
            t(TokenType::RightParen, ""),
            t(TokenType::Operator, "*"),
            t(TokenType::Number, "4"),
        ]
    );
}

#[test]
fn two_character_comparisons_are_one_operator() {
    for (formula, operator) in [("1>=2", ">="), ("1<=2", "<="), ("1<>2", "<>"), ("1>2", ">"), ("1=2", "=")] {
        assert_eq!(
            lexed(formula),
            [t(TokenType::Number, "1"), t(TokenType::Operator, operator), t(TokenType::Number, "2")]
        );
    }
    assert_eq!(lexed("1=>2")[1..3], [t(TokenType::Operator, "="), t(TokenType::Operator, ">")]);
}

#[test]
fn words_are_booleans_functions_or_references() {
    assert_eq!(lexed("true"), [t(TokenType::Boolean, "TRUE")]);
    assert_eq!(lexed("False"), [t(TokenType::Boolean, "FALSE")]);
    assert_eq!(lexed("b12"), [t(TokenType::Reference, "B12")]);
    assert_eq!(lexed("hello1x"), []);
    assert_eq!(lexed("nothing+1"), [t(TokenType::Operator, "+"), t(TokenType::Number, "1")]);
    let tokens = parse_formula("sum(1)").unwrap();
    assert_eq!(shape(&tokens), [t(TokenType::Function, "SUM"), t(TokenType::Number, "1"), t(TokenType::FuncClose, "")]);
    assert_eq!(tokens[0].function_n_args, Some(1));
}

#[test]
fn strings_end_at_the_next_quote_or_with_the_text() {
    assert_eq!(lexed("\"a b\"&\"c"), [t(TokenType::String, "a b"), t(TokenType::Operator, "&"), t(TokenType::String, "c")]);
    assert_eq!(lexed("\"\""), [t(TokenType::String, "")]);
    assert_eq!(lexed("\"1+2\""), [t(TokenType::String, "1+2")]);
}

#[test]
fn a_minus_is_a_negation_unless_it_follows_an_operand() {
    assert_eq!(lexed("-3")[0], t(TokenType::Operator, "-1"));
    assert_eq!(lexed("4-3")[1], t(TokenType::Operator, "-"));
    assert_eq!(lexed("A1-3")[1], t(TokenType::Operator, "-"));
    assert_eq!(lexed("(1)-3")[3], t(TokenType::Operator, "-"));
    assert_eq!(lexed("PI()-3")[2], t(TokenType::Operator, "-"));
    assert_eq!(lexed("5%-3")[2], t(TokenType::Operator, "-"));
    assert_eq!(lexed("4*-3")[2], t(TokenType::Operator, "-1"));
    assert_eq!(lexed("(-3")[1], t(TokenType::Operator, "-1"));
    assert_eq!(lexed("3-")[1], t(TokenType::Operator, "-"));
    assert_eq!(lexed("TRUE-1")[1], t(TokenType::Operator, "-1"));
}

#[test]
fn a_comma_joins_references_or_separates_arguments() {
    assert_eq!(lexed("A1,B2")[1], t(TokenType::Operator, ","));
    assert_eq!(lexed("A1,2")[1], t(TokenType::FuncArgSep, ","));
    assert_eq!(lexed("1,B2")[1], t(TokenType::FuncArgSep, ","));
    assert_eq!(lexed("A1,")[1], t(TokenType::FuncArgSep, ","));
    assert_eq!(lexed("A1 , B1")[1], t(TokenType::FuncArgSep, ","));
    assert_eq!(parse_formula(",A1").unwrap_err(), FormulaError::Lex);
}

#[test]
fn a_space_intersects_references_or_means_nothing() {
    assert_eq!(lexed("A1 B2"), [t(TokenType::Reference, "A1"), t(TokenType::Operator, " "), t(TokenType::Reference, "B2")]);
    assert_eq!(lexed(" 1 + 2 "), [t(TokenType::Number, "1"), t(TokenType::Operator, "+"), t(TokenType::Number, "2")]);
    assert_eq!(lexed("A1 "), [t(TokenType::Reference, "A1")]);
    assert_eq!(lexed(" "), []);
}

#[test]
fn calls_count_their_arguments() {
    let arity = |formula: &str, at: usize| parse_formula(formula).unwrap()[at].function_n_args;
    assert_eq!(arity("PI()", 0), Some(0));
    assert_eq!(arity("SQRT(4)", 0), Some(1));
    assert_eq!(arity("SUM(1,2,3)", 0), Some(3));
    assert_eq!(arity("SUM(1,SUM(2,3),4)", 0), Some(3));
    assert_eq!(arity("SUM(1,SUM(2,3),4)", 3), Some(2));
    assert_eq!(arity("SUM(A1,B2)", 0), Some(1));
    assert_eq!(arity("SUM(1,2", 0), Some(2));
    assert_eq!(arity("IF(1=1,\"a,b\",2)", 0), Some(3));
    let many = format!("SUM({})", vec!["1"; 255].join(","));
    assert_eq!(arity(&many, 0), Some(255));
    let too_many = format!("SUM({})", vec!["1"; 256].join(","));
    assert_eq!(parse_formula(&too_many).unwrap_err(), FormulaError::Lex);
}

#[test]
fn a_function_needs_its_parenthesis() {
    assert_eq!(parse_formula("SUM").unwrap_err(), FormulaError::Lex);
    assert_eq!(parse_formula("SUM+1").unwrap_err(), FormulaError::Lex);
    assert_eq!(parse_formula("1+pi").unwrap_err(), FormulaError::Lex);
    assert!(parse_formula("SUM(").is_ok());
}

#[test]
fn closing_parentheses_know_their_function() {
    assert_eq!(lexed("SUM((1))"), [
        t(TokenType::Function, "SUM"),
        t(TokenType::LeftParen, ""),
        t(TokenType::Number, "1"),
        t(TokenType::RightParen, ""),
        t(TokenType::FuncClose, ""),
    ]);
    assert_eq!(lexed("SUM(1))")[3], t(TokenType::RightParen, ""));
}

#[test]
fn close_parens_are_found_by_depth() {
    assert_eq!(find_close_paren("SUM(1,(2))+3", 3), Some(9));
    assert_eq!(find_close_paren("(()", 0), None);
    assert_eq!(find_close_paren("(()", 1), Some(2));
    assert_eq!(find_close_paren("abc", 1), Some(1));
    assert_eq!(find_close_paren("abc", 3), None);
    assert_eq!(find_close_paren(")(", 0), Some(1));
}

#[test]
fn closing_quotes_are_found() {
    assert_eq!(naive_parse_string("\"ab\"c", 0), Ok(3));
    assert_eq!(naive_parse_string("\"ab", 0), Err(()));
    assert_eq!(naive_parse_string("x\"\"", 1), Ok(2));
    assert_eq!(naive_parse_string("ab", 5), Err(()));
}

#[test]
fn operators_have_their_precedence() {
    for (operator, precedence) in [
        (":", 9), (",", 8), (" ", 8), ("-1", 7), ("%", 6), ("^", 5), ("*", 4), ("/", 4), ("+", 3), ("-", 3),
        ("&", 2), ("=", 1), ("<", 1), (">", 1), ("<=", 1), (">=", 1), ("<>", 1), ("@", 0), ("#", 0), ("", 0), ("SUM", 0), ("==", 0),
    ] {
        assert_eq!(get_operator_precedence(operator), precedence, "{:?}", operator);
    }
    assert_eq!(operator_symbol("-1"), Some(Symbol::Negate));
    assert_eq!(operator_symbol("<>"), Some(Symbol::NotEqual));
    assert_eq!(operator_symbol("x"), None);
}

#[test]
fn postfix_honours_precedence_and_grouping() {
    assert_eq!(postfix("1+2*3"), ["1", "2", "3", "*", "+"]);
    assert_eq!(postfix("(1+2)*3"), ["1", "2", "+", "3", "*"]);
    assert_eq!(postfix("1-2-3"), ["1", "2", "-", "3", "-"]);
    assert_eq!(postfix("2*3^2"), ["2", "3", "2", "^", "*"]);
    assert_eq!(postfix("-3+4"), ["3", "-1", "4", "+"]);
    assert_eq!(postfix("1&2=3"), ["1", "2", "&", "3", "="]);
    assert_eq!(postfix("A1:B2,C3"), ["A1", "B2", ":", "C3", ","]);
}

#[test]
fn functions_close_over_their_arguments() {
    assert_eq!(postfix("SQRT(2)+SQRT(2)"), ["2", "SQRT", "2", "SQRT", "+"]);
    assert_eq!(postfix("2*SUM(1,1)"), ["2", "1", "1", "SUM", "*"]);
    assert_eq!(postfix("SUM(1+2,3*4)"), ["1", "2", "+", "3", "4", "*", "SUM"]);
    assert_eq!(postfix("SUM(1,SUM(2,3))"), ["1", "2", "3", "SUM", "SUM"]);
    assert_eq!(postfix("IF(1=1,2,3)"), ["1", "1", "=", "2", "3", "IF"]);
}

#[test]
fn unbalanced_parentheses_give_an_empty_program() {
    assert_eq!(postfix("1+2)"), Vec::<String>::new());
    assert_eq!(postfix(")"), Vec::<String>::new());
    assert_eq!(postfix("(1+2"), ["1", "2", "+", ""]);
}

#[test]
fn operands_keep_their_order() {
    for formula in ["1+2*3", "(1+2)*(3+4)", "SUM(1,2)*A1-\"x\"&TRUE", "-1^-2%", "IF(A1>B2,C3,\"no\")+PI()"] {
        let tokens = parse_formula(formula).unwrap();
        let operand = |token: &&Token| {
            matches!(token.token_type, TokenType::Number | TokenType::String | TokenType::Boolean | TokenType::Reference)
        };
        let before: Vec<(TokenType, String)> = shape(&tokens.iter().filter(operand).cloned().collect::<Vec<_>>());
        let program = reorder(&tokens);
        let after: Vec<(TokenType, String)> = shape(&program.iter().filter(operand).cloned().collect::<Vec<_>>());
        assert_eq!(before, after, "{}", formula);
    }
}

#[test]
fn the_registry_lists_the_baseline_functions() {
    assert_eq!(list_function_names(), ["SUM", "SQRT", "IF", "PI", "RAND", "AVERAGE", "MEDIAN"]);
    assert_eq!(get_funcs().len(), 7);
    assert_eq!(get_func("MEDIAN"), Some(FormulaFunction::Median));
    assert_eq!(get_func("median"), None);
    assert_eq!(get_func("NOPE"), None);
    for function in get_funcs() {
        assert_eq!(get_func(&function.name()), Some(function));
    }
}

#[test]
fn parentheses_are_balanced_at_the_end() {
    assert_eq!(balance_parens("=SUM(1,(2+3"), "=SUM(1,(2+3))");
    assert_eq!(balance_parens("=(1)"), "=(1)");
    assert_eq!(balance_parens(""), "");
    assert_eq!(balance_parens("(("), "(())");
    assert_eq!(balance_parens(")("), ")(");
    assert_eq!(balance_parens("())"), "())");
}

#[test]
fn balancing_twice_is_balancing_once() {
    for text in ["", "(", "((a)", "=SUM(A1:B2", ")(", "())(", "plain"] {
        let once = balance_parens(text);
        assert_eq!(balance_parens(&once), once);
        assert!(once.starts_with(text));
        let opened = text.matches('(').count();
        let closed = text.matches(')').count();
        if closed <= opened {
            assert_eq!(once.matches('(').count(), once.matches(')').count());
            assert_eq!(once.len(), text.len() + opened - closed);
        }
    }
}

#[test]
fn references_are_extracted_without_evaluation() {
    let names = |text: &str| -> Vec<String> {
        extract_references(text).unwrap().to_vec().iter().map(|r| r.to_string()).collect()
    };
    assert_eq!(names("=SUM(B2:A1)+C3*a1"), ["A1", "B2", "C3"]);
    assert_eq!(names("=1+2"), Vec::<String>::new());
    assert_eq!(names("=\"A1\"&B"), ["B"]);
    assert_eq!(extract_references("=SUM").unwrap_err(), FormulaError::Lex);
}

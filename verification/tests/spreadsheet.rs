use sheetcalc::numbers::is_number_string;
use sheetcalc::spreadsheet::corners;
use sheetcalc::spreadsheet::matrix_from_text;
use sheetcalc::spreadsheet::parse_csv_line;
use sheetcalc::spreadsheet::text_from_matrix;
use sheetcalc::spreadsheet::Spreadsheet;
use sheetcalc::spreadsheet::SpreadsheetCell;
use sheetcalc::spreadsheet::SpreadsheetEdit;
use sheetcalc::spreadsheet::DEFAULT_COL_WIDTH;
use sheetcalc::spreadsheet::SPREADSHEET_MAX_COLS;
use sheetcalc::undo_stack::UndoStack;
use sheetcalc::utils::fit_to_width;
use sheetcalc::utils::replace_word;
use sheetcalc::utils::splice_text;
use sheetcalc::utils::word_bounds;
use sheetcalc::utils::LevenshteinDistance;
use sheetcalc::utils::FuzzySearch;
use sheetcalc::utils::StringPadding;

fn at(row: usize, col: usize) -> SpreadsheetCell {
    SpreadsheetCell { row, col }
}

fn strings(all: &[&str]) -> Vec<String> {
    all.iter().map(|s| s.to_string()).collect()
}

#[test]
fn cells_keep_what_is_written() {
    let mut grid = Spreadsheet::new();
    assert_eq!(grid.get_cell(&at(0, 0)), "");
    grid.set_cell(&at(2, 3), "hello");
    grid.set_cell(&at(0, 0), "=1+1");
    assert_eq!(grid.get_cell(&at(2, 3)), "hello");
    assert_eq!(grid.get_cell(&at(0, 0)), "=1+1");
    assert_eq!(grid.get_cell(&at(2, 2)), "");
    assert_eq!(grid.get_cell(&at(100, 100)), "");
    grid.set_cell(&at(2, 3), "");
    assert_eq!(grid.get_cell(&at(2, 3)), "");
    assert_eq!(grid.iter_rows().len(), 3);
    assert_eq!(grid.iter_rows()[2].contents.len(), 4);
}

#[test]
fn a_cell_past_the_machine_is_left_alone() {
    let mut grid = Spreadsheet::new();
    grid.set_cell(&at(usize::MAX, 0), "x");
    assert_eq!(grid.get_cell(&at(usize::MAX, 0)), "");
    assert_eq!(grid.iter_rows().len(), 0);
}

#[test]
fn edits_are_undone_and_done_again() {
    let mut grid = Spreadsheet::new();
    grid.set_cell(&at(1, 1), "one");
    grid.set_cell(&at(1, 1), "two");
    grid.set_cell(&at(4, 2), "far");
    assert_eq!(grid.undo(), Some([at(4, 2), at(4, 2)]));
    assert_eq!(grid.get_cell(&at(4, 2)), "");
    assert_eq!(grid.undo(), Some([at(1, 1), at(1, 1)]));
    assert_eq!(grid.get_cell(&at(1, 1)), "one");
    assert_eq!(grid.redo(), Some([at(1, 1), at(1, 1)]));
    assert_eq!(grid.get_cell(&at(1, 1)), "two");
    assert_eq!(grid.undo(), Some([at(1, 1), at(1, 1)]));
    assert_eq!(grid.undo(), Some([at(1, 1), at(1, 1)]));
    assert_eq!(grid.get_cell(&at(1, 1)), "");
    assert_eq!(grid.undo(), None);
    assert_eq!(grid.redo(), Some([at(1, 1), at(1, 1)]));
    grid.set_cell(&at(0, 0), "new");
    assert_eq!(grid.redo(), None);
    assert_eq!(grid.get_cell(&at(1, 1)), "one");
}

#[test]
fn a_repeated_edit_is_recorded_once() {
    let mut grid = Spreadsheet::new();
    grid.set_cell(&at(0, 0), "a");
    grid.set_cell(&at(0, 0), "a");
    assert_eq!(grid.undo_stack.to_string(), "1/1");
    assert_eq!(grid.undo(), Some([at(0, 0), at(0, 0)]));
    assert_eq!(grid.get_cell(&at(0, 0)), "");
    assert_eq!(grid.undo_stack.to_string(), "0/1");
}

#[test]
fn a_matrix_is_pasted_and_taken_back_as_one_edit() {
    let mut grid = Spreadsheet::new();
    grid.set_cell(&at(1, 1), "old");
    grid.replace_matrix(&at(1, 1), vec![strings(&["a", "b"]), strings(&["c"]), strings(&[]), strings(&["d", "e", "f"])]);
    assert_eq!(grid.get_cell(&at(1, 1)), "a");
    assert_eq!(grid.get_cell(&at(1, 2)), "b");
    assert_eq!(grid.get_cell(&at(2, 1)), "c");
    assert_eq!(grid.get_cell(&at(2, 2)), "");
    assert_eq!(grid.get_cell(&at(4, 3)), "f");
    assert_eq!(grid.undo(), Some([at(1, 1), at(4, 3)]));
    assert_eq!(grid.get_cell(&at(1, 1)), "old");
    assert_eq!(grid.get_cell(&at(4, 3)), "");
    assert_eq!(grid.redo(), Some([at(1, 1), at(4, 3)]));
    assert_eq!(grid.get_cell(&at(4, 1)), "d");
}

#[test]
fn a_matrix_is_selected_between_any_two_corners() {
    let mut grid = Spreadsheet::new();
    grid.replace_matrix(&at(0, 0), vec![strings(&["1", "2"]), strings(&["3", "=A1+B1"])]);
    let expected = vec![strings(&["1", "2"]), strings(&["3", "=A1+B1"])];
    assert_eq!(grid.select_matrix(&at(0, 0), &at(1, 1)), expected);
    assert_eq!(grid.select_matrix(&at(1, 1), &at(0, 0)), expected);
    assert_eq!(grid.select_matrix(&at(1, 0), &at(0, 1)), expected);
    grid.cache_value(&at(1, 1), String::from("3"));
    assert_eq!(grid.select_matrix(&at(1, 1), &at(1, 2)), vec![strings(&["3", ""])]);
}

#[test]
fn no_cached_value_survives_a_write() {
    let mut grid = Spreadsheet::new();
    grid.set_cell(&at(0, 0), "=1+1");
    grid.set_cell(&at(0, 1), "=A1");
    grid.cache_value(&at(0, 0), String::from("2"));
    grid.cache_value(&at(0, 1), String::from("2"));
    assert_eq!(grid.cached_value(&at(0, 0)).as_deref(), Some("2"));
    grid.set_cell(&at(5, 5), "x");
    assert_eq!(grid.cached_value(&at(0, 0)), None);
    assert_eq!(grid.cached_value(&at(0, 1)), None);

    grid.cache_value(&at(0, 0), String::from("2"));
    grid.replace_matrix(&at(3, 3), vec![strings(&["y"])]);
    assert_eq!(grid.cached_value(&at(0, 0)), None);

    grid.cache_value(&at(0, 0), String::from("2"));
    grid.undo();
    assert_eq!(grid.cached_value(&at(0, 0)), None);

    grid.cache_value(&at(0, 0), String::from("2"));
    grid.redo();
    assert_eq!(grid.cached_value(&at(0, 0)), None);

    grid.cache_value(&at(0, 0), String::from("2"));
    grid.clear_cache();
    assert_eq!(grid.cached_value(&at(0, 0)), None);
}

#[test]
fn the_cache_keeps_the_last_value() {
    let mut grid = Spreadsheet::new();
    grid.set_cell(&at(0, 0), "=1+1");
    assert_eq!(grid.get_shown_text(&at(0, 0)), "=1+1");
    grid.cache_value(&at(0, 0), String::from("2"));
    grid.cache_value(&at(0, 0), String::from("3"));
    assert_eq!(grid.cached_value(&at(0, 0)).as_deref(), Some("3"));
    assert_eq!(grid.get_shown_text(&at(0, 0)), "3");
    grid.cache_value(&at(7, 7), String::from("9"));
    assert_eq!(grid.get_shown_text(&at(7, 7)), "");
}

#[test]
fn columns_have_widths() {
    let mut grid = Spreadsheet::new();
    assert_eq!(grid.get_col_width(&at(0, 3)), DEFAULT_COL_WIDTH);
    grid.set_col_width(&at(9, 3), 25);
    assert_eq!(grid.get_col_width(&at(0, 3)), 25);
    assert_eq!(grid.get_col_width(&at(0, 4)), 10);
    assert_eq!(grid.col_widths.len(), SPREADSHEET_MAX_COLS);
    grid.set_col_width(&at(0, SPREADSHEET_MAX_COLS), 7);
    assert_eq!(grid.get_col_width(&at(0, SPREADSHEET_MAX_COLS)), 10);
    grid.set_cell(&at(0, SPREADSHEET_MAX_COLS), "wide");
    assert_eq!(grid.col_widths.len(), SPREADSHEET_MAX_COLS + 1);
    assert_eq!(grid.get_col_width(&at(0, 3)), 25);
}

#[test]
fn csv_lines_split_at_commas_outside_quotes() {
    assert_eq!(parse_csv_line("a,b,c"), ["a", "b", "c"]);
    assert_eq!(parse_csv_line(""), [""]);
    assert_eq!(parse_csv_line(","), ["", ""]);
    assert_eq!(parse_csv_line("\"x,y\",z"), ["\"x,y\"", "z"]);
    assert_eq!(parse_csv_line("a,\"b,c"), ["a", "\"b,c"]);
    assert_eq!(parse_csv_line("1,,=SUM(A1,B1)"), ["1", "", "=SUM(A1", "B1)"]);
}

#[test]
fn csv_text_becomes_a_grid() {
    let grid = Spreadsheet::from_csv_text("1,2\r\n\"a,b\",=A1+B1\n\nlast");
    assert_eq!(grid.get_cell(&at(0, 0)), "1");
    assert_eq!(grid.get_cell(&at(0, 1)), "2");
    assert_eq!(grid.get_cell(&at(1, 0)), "\"a,b\"");
    assert_eq!(grid.get_cell(&at(1, 1)), "=A1+B1");
    assert_eq!(grid.get_cell(&at(2, 0)), "");
    assert_eq!(grid.get_cell(&at(3, 0)), "last");
    assert_eq!(grid.iter_rows().len(), 4);
    for text in ["", "a\n", "a\n\n", "a\r\nb\r", "\n"] {
        let rows: Vec<Vec<String>> = text.lines().map(parse_csv_line).collect();
        let grid = Spreadsheet::from_csv_text(text);
        let held: Vec<Vec<String>> = grid.iter_rows().iter().map(|row| row.contents.clone()).collect();
        assert_eq!(held, rows, "{:?}", text);
    }
}

#[test]
fn undo_stack_moves_edits_between_its_halves() {
    let mut stack: UndoStack<u8> = UndoStack::default();
    assert_eq!(stack.undo(), None);
    stack.edit(1);
    stack.edit(2);
    stack.edit(2);
    assert_eq!(stack.to_string(), "2/2");
    assert_eq!(stack.undo(), Some(2));
    assert_eq!(stack.to_string(), "1/2");
    assert_eq!(stack.redo(), Some(2));
    assert_eq!(stack.redo(), None);
    assert_eq!(stack.undo(), Some(2));
    stack.edit(3);
    assert_eq!(stack.redo(), None);
    assert_eq!(stack.to_string(), "2/2");
    assert_eq!(stack.undo(), Some(3));
    assert_eq!(stack.undo(), Some(1));
    assert_eq!(stack.to_string(), "0/2");
    let mut other: UndoStack<u8> = UndoStack::default();
    assert!(!UndoStack::<u8>::default().can_undo());
    other.edit(9);
    other.undo();
    assert!(other.can_redo());
}

#[test]
fn edits_are_equal_whatever_was_there_before() {
    let a = SpreadsheetEdit { cell: at(1, 1), before: String::from("x"), after: String::from("z") };
    let b = SpreadsheetEdit { cell: at(1, 1), before: String::from("y"), after: String::from("z") };
    let c = SpreadsheetEdit { cell: at(1, 2), before: String::from("x"), after: String::from("z") };
    assert!(a == b);
    assert!(a != c);
    let copy = a.clone();
    assert_eq!((copy.cell, copy.before.as_str(), copy.after.as_str()), (at(1, 1), "x", "z"));
}

#[test]
fn texts_are_padded_to_a_width() {
    let text = String::from("ab");
    assert_eq!(text.left_pad(5, '.'), "...ab");
    assert_eq!(text.right_pad(5, '.'), "ab...");
    assert_eq!(text.center(5, '.'), "..ab.");
    assert_eq!(text.center(6, '.'), "..ab..");
    assert_eq!(String::from("abc").center(6, '.'), ".abc..");
    assert_eq!(String::from("abc").center(4, '.'), "abc.");
    assert_eq!(text.left_pad(2, '.'), "ab");
    assert_eq!(text.right_pad(1, '.'), "ab");
    assert_eq!(text.center(0, '.'), "ab");
    assert_eq!(fit_to_width("abcdef", 3), "abc");
    assert_eq!(fit_to_width("ab", 4), "ab  ");
    assert_eq!(fit_to_width("", 0), "");
}

#[test]
fn candidates_are_ranked_by_what_they_pass_over() {
    let names = strings(&["SUM", "SQRT", "IF", "PI", "RAND", "AVERAGE", "MEDIAN", ""]);
    assert_eq!(names.clone().fuzzy_search("S", 2), ["SUM", "SQRT"]);
    assert_eq!(names.clone().fuzzy_search("A", 2), ["AVERAGE", "RAND"]);
    assert_eq!(names.clone().fuzzy_search("A", 0), ["AVERAGE"]);
    assert_eq!(names.clone().fuzzy_search("ST", 2), ["SQRT"]);
    assert_eq!(names.clone().fuzzy_search("ST", 1), Vec::<String>::new());
    assert_eq!(names.clone().fuzzy_search("E", usize::MAX), ["MEDIAN", "AVERAGE"]);
    assert_eq!(names.clone().fuzzy_search("", 2), Vec::<String>::new());
    assert_eq!(names.clone().fuzzy_search("X", 9), Vec::<String>::new());
}

#[test]
fn number_texts_are_those_that_parse() {
    for text in [
        "0", "7", "-7.8", "+3", "3.14", "5.", ".5", "-.5", "2.5E10", "2.5e-10", "1e+3", "inf", "-inf", "+infinity",
        "Infinity", "NaN", "nan", "-NAN", "00012", "1e0", "0.00000000023283064365386962890625",
        "", ".", "+", "-", "e", "e5", "1e", "1e+", "1.2.3", "1,5", " 1", "1 ", "1_000", "0x10", "infinit", "in",
        "nanx", "++1", "1e5.5", "1ee5", "٣", "1f", "TRUE",
    ] {
        assert_eq!(is_number_string(text), text.parse::<f32>().is_ok(), "{:?}", text);
    }
}

#[test]
fn clipboard_text_is_a_matrix() {
    assert_eq!(matrix_from_text("a\tb\nc"), vec![strings(&["a", "b"]), strings(&["c"])]);
    assert_eq!(matrix_from_text(""), vec![strings(&[""])]);
    assert_eq!(matrix_from_text("x\n"), vec![strings(&["x"]), strings(&[""])]);
    assert_eq!(matrix_from_text("\t\t"), vec![strings(&["", "", ""])]);
    let mat = vec![strings(&["1", "2"]), strings(&[]), strings(&["3"])];
    assert_eq!(text_from_matrix(&mat), "1\t2\n\n3");
    assert_eq!(text_from_matrix(&vec![]), "");
    for text in ["", "a", "a\tb\nc\td", "\n\n", "1\t\n\t2"] {
        assert_eq!(text_from_matrix(&matrix_from_text(text)), text);
        let expected: Vec<Vec<String>> = text.split('\n').map(|r| r.split('\t').map(String::from).collect()).collect();
        assert_eq!(matrix_from_text(text), expected);
    }
}

#[test]
fn a_single_text_fills_the_selection() {
    let mut grid = Spreadsheet::new();
    grid.set_cell(&at(0, 0), "keep");
    grid.paste_matrix(&at(3, 2), &at(1, 1), vec![strings(&["x"])]);
    for row in 1..=3 {
        for col in 1..=2 {
            assert_eq!(grid.get_cell(&at(row, col)), "x");
        }
    }
    assert_eq!(grid.get_cell(&at(0, 0)), "keep");
    assert_eq!(grid.get_cell(&at(4, 1)), "");
    assert_eq!(grid.get_cell(&at(1, 3)), "");
    grid.paste_matrix(&at(1, 1), &at(1, 1), vec![strings(&["a", "b"]), strings(&["c", "d"])]);
    assert_eq!(grid.get_cell(&at(1, 1)), "a");
    assert_eq!(grid.get_cell(&at(2, 2)), "d");
    assert_eq!(grid.get_cell(&at(3, 2)), "x");
    assert_eq!(grid.undo(), Some([at(1, 1), at(2, 2)]));
    assert_eq!(grid.get_cell(&at(2, 2)), "x");
    assert_eq!(grid.undo(), Some([at(1, 1), at(3, 2)]));
    assert_eq!(grid.get_cell(&at(2, 2)), "");
    assert_eq!(corners(&at(3, 1), &at(1, 2)), [at(1, 1), at(3, 2)]);
}

#[test]
fn the_word_at_the_cursor() {
    assert_eq!(word_bounds("", 0), None);
    assert_eq!(word_bounds("=SUM(ave", 8), Some([5, 8]));
    assert_eq!(word_bounds("=SUM(ave", 6), Some([5, 8]));
    assert_eq!(word_bounds("=SUM(ave", 5), Some([5, 8]));
    assert_eq!(word_bounds("=SUM(ave", 4), Some([1, 4]));
    assert_eq!(word_bounds("=SUM(ave", 0), Some([0, 0]));
    assert_eq!(word_bounds("a+ b", 2), Some([2, 2]));
    assert_eq!(word_bounds("abc", 99), Some([0, 3]));
    assert_eq!(replace_word("=SUM(ave", 8, "AVERAGE("), (String::from("=SUM(AVERAGE("), 13));
    assert_eq!(replace_word("=su+1", 2, "SUM("), (String::from("=SUM(+1"), 5));
    assert_eq!(replace_word("", 0, "PI("), (String::from("PI("), 3));
    assert_eq!(replace_word("1+", 2, "PI("), (String::from("1+PI("), 5));
    assert_eq!(splice_text("abcdef", 2, 4, "XY"), "abXYef");
    assert_eq!(splice_text("abcdef", 3, 3, "-"), "abc-def");
    assert_eq!(splice_text("abcdef", 4, 2, "-"), "abcd-ef");
    assert_eq!(splice_text("abc", 1, 99, ""), "a");
    assert_eq!(splice_text("héllo", 1, 2, "e"), "hello");
}

#[test]
fn edit_distances() {
    let d = |a: &str, b: &str| String::from(a).levenshtein(b);
    assert_eq!(d("", ""), 0);
    assert_eq!(d("abc", ""), 3);
    assert_eq!(d("", "ab"), 2);
    assert_eq!(d("kitten", "sitting"), 3);
    assert_eq!(d("flaw", "lawn"), 2);
    assert_eq!(d("SUM", "SUM"), 0);
    assert_eq!(d("SUM", "SUN"), 1);
    assert_eq!(d("MEDIAN", "AVERAGE"), d("AVERAGE", "MEDIAN"));
    assert_eq!(d("intention", "execution"), 5);
}

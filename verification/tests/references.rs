use sheetcalc::instructions::apply_reference_operator;
use sheetcalc::reference_set::ReferenceSet;
use sheetcalc::references::parse_reference;
use sheetcalc::references::Reference;
use sheetcalc::spreadsheet::SpreadsheetCell;
use sheetcalc::spreadsheet::SPREADSHEET_MAX_COLS;
use sheetcalc::spreadsheet::SPREADSHEET_MAX_ROWS;
use sheetcalc::tokens::FormulaError;
use sheetcalc::tokens::Symbol;

fn cell(row: usize, col: usize) -> Reference {
    Reference { col: Some(col), row: Some(row) }
}

#[test]
fn column_names_are_bijective_base_26() {
    for (index, name) in [(1, "A"), (26, "Z"), (27, "AA"), (52, "AZ"), (53, "BA"), (702, "ZZ"), (703, "AAA"), (16384, "XFD")] {
        assert_eq!(Reference::index_to_alpha(index).unwrap(), name);
        assert_eq!(Reference::alpha_to_index(name), Some(index));
    }
    assert_eq!(Reference::index_to_alpha(0).unwrap(), "");
    assert_eq!(Reference::alpha_to_index(""), Some(0));
}

#[test]
fn column_index_survives_the_round_trip() {
    for n in 1..=(SPREADSHEET_MAX_COLS as u32) {
        let name = Reference::index_to_alpha(n).unwrap();
        assert_eq!(Reference::alpha_to_index(&name), Some(n));
    }
}

#[test]
fn column_names_are_read_in_either_case() {
    assert_eq!(Reference::alpha_to_index("xfd"), Some(16384));
    assert_eq!(Reference::alpha_to_index("aB"), Some(28));
    assert_eq!(Reference::alpha_to_index("A1"), None);
    assert_eq!(Reference::alpha_to_index("A B"), None);
    assert_eq!(Reference::alpha_to_index("ZZZZZZZZZZZZ"), None);
}

#[test]
fn references_are_parsed() {
    assert_eq!(parse_reference("A1"), Some(cell(0, 0)));
    assert_eq!(parse_reference("b12"), Some(cell(11, 1)));
    assert_eq!(parse_reference("XFD1048576"), Some(cell(SPREADSHEET_MAX_ROWS - 1, SPREADSHEET_MAX_COLS - 1)));
    assert_eq!(parse_reference("C"), Some(Reference { col: Some(2), row: None }));
    assert_eq!(parse_reference("7"), Some(Reference { col: None, row: Some(6) }));
    assert_eq!(parse_reference("A01"), Some(cell(0, 0)));
}

#[test]
fn what_is_no_reference_is_refused() {
    for text in ["", "1A", "A1B", "A 1", "A-1", "A0", "0", "XFE1", "A1048577", "A99999999999999999999999", "HELLO", "é1"] {
        assert_eq!(parse_reference(text), None, "{}", text);
    }
}

#[test]
fn canonical_text_is_the_upper_case() {
    for text in ["a1", "B12", "xfd1048576", "c", "77", "aa10"] {
        assert_eq!(parse_reference(text).unwrap().to_string(), text.to_uppercase());
    }
    assert_eq!(parse_reference("a007").unwrap().to_string(), "A7");
}

#[test]
fn a_range_lists_its_rectangle_row_by_row() {
    let cells = cell(0, 0).range(&cell(1, 2));
    let names: Vec<String> = cells.iter().map(|r| r.to_string()).collect();
    assert_eq!(names, ["A1", "B1", "C1", "A2", "B2", "C2"]);
    assert_eq!(cell(4, 4).range(&cell(4, 4)), vec![cell(4, 4)]);
}

#[test]
fn a_range_does_not_depend_on_the_order_of_its_corners() {
    let corners = [cell(0, 0), cell(3, 1), cell(1, 4), Reference { col: Some(2), row: None }, Reference { col: None, row: Some(5) }];
    for a in corners {
        for b in corners {
            assert_eq!(a.range(&b), b.range(&a));
            assert_eq!(a.range_len(&b), Some(a.range(&b).len()));
        }
    }
}

#[test]
fn open_ranges_are_whole_rows_and_columns() {
    let column_b = Reference { col: Some(1), row: None };
    let column_d = Reference { col: Some(3), row: None };
    let row_2 = Reference { col: None, row: Some(1) };
    let row_3 = Reference { col: None, row: Some(2) };
    let columns: Vec<String> = column_d.range(&column_b).iter().map(|r| r.to_string()).collect();
    assert_eq!(columns, ["B", "C", "D"]);
    let from_cell: Vec<String> = cell(7, 1).range(&column_d).iter().map(|r| r.to_string()).collect();
    assert_eq!(from_cell, ["B", "C", "D"]);
    let rows: Vec<String> = row_2.range(&row_3).iter().map(|r| r.to_string()).collect();
    assert_eq!(rows, ["2", "3"]);
    assert_eq!(column_b.range(&row_2), vec![row_2, column_b]);
    assert_eq!(row_2.range(&column_b), vec![row_2, column_b]);
}

#[test]
fn references_point_at_cells() {
    assert_eq!(cell(3, 4).get_cell(), SpreadsheetCell { row: 3, col: 4 });
    assert_eq!(Reference { col: Some(2), row: None }.get_cell(), SpreadsheetCell { row: 0, col: 2 });
    assert_eq!(Reference::cell(3, 4), cell(3, 4));
}

#[test]
fn references_are_ordered_by_column_then_row() {
    assert!(cell(5, 0).comes_before(&cell(0, 1)));
    assert!(cell(0, 1).comes_before(&cell(1, 1)));
    assert!(!cell(1, 1).comes_before(&cell(1, 1)));
    assert!(Reference { col: None, row: Some(9) }.comes_before(&cell(0, 0)));
    assert!(Reference { col: Some(0), row: None }.comes_before(&cell(0, 0)));
    assert!(cell(5, 0) < cell(0, 1));
    assert!(Reference { col: Some(0), row: None } < cell(0, 0));
}

#[test]
fn sets_are_kept_in_order_without_repeats() {
    let set = ReferenceSet::from_vec(&vec![cell(1, 1), cell(0, 0), cell(1, 1), cell(0, 1)]);
    assert_eq!(set.to_vec(), vec![cell(0, 0), cell(0, 1), cell(1, 1)]);
    assert_eq!(set.len(), 3);
    assert_eq!(set.first(), Some(cell(0, 0)));
    assert_eq!(set.get(2), cell(1, 1));
    assert!(set.contains(&cell(0, 1)));
    assert!(!set.contains(&cell(2, 2)));
    assert_eq!(ReferenceSet::new().first(), None);
}

#[test]
fn sets_unite_and_intersect() {
    let a = ReferenceSet::from_vec(&vec![cell(0, 0), cell(2, 0), cell(1, 1)]);
    let b = ReferenceSet::from_vec(&vec![cell(1, 1), cell(1, 0)]);
    assert_eq!(a.union(&b).to_vec(), vec![cell(0, 0), cell(1, 0), cell(2, 0), cell(1, 1)]);
    assert_eq!(b.union(&a).to_vec(), a.union(&b).to_vec());
    assert_eq!(a.intersection(&b).to_vec(), vec![cell(1, 1)]);
    assert_eq!(a.intersection(&ReferenceSet::new()).to_vec(), vec![]);
    let mut c = ReferenceSet::single(cell(3, 3));
    c.insert(cell(0, 0));
    c.insert(cell(3, 3));
    assert_eq!(c.to_vec(), vec![cell(0, 0), cell(3, 3)]);
    assert_eq!(c.clone().to_vec(), c.to_vec());
}

#[test]
fn reference_operators_apply_to_sets() {
    let a = ReferenceSet::from_vec(&vec![cell(1, 1), cell(0, 0)]);
    let b = ReferenceSet::from_vec(&vec![cell(1, 1), cell(2, 0)]);
    let names = |set: ReferenceSet| -> Vec<String> { set.to_vec().iter().map(|r| r.to_string()).collect() };
    assert_eq!(names(apply_reference_operator(&a, &b, Symbol::Union).unwrap()), ["A1", "A3", "B2"]);
    assert_eq!(names(apply_reference_operator(&a, &b, Symbol::Intersect).unwrap()), ["B2"]);
    assert_eq!(names(apply_reference_operator(&b, &a, Symbol::Range).unwrap()), ["A1", "A2", "A3"]);
    assert_eq!(
        names(apply_reference_operator(&ReferenceSet::single(cell(1, 2)), &a, Symbol::Range).unwrap()),
        ["A1", "A2", "B1", "B2", "C1", "C2"]
    );
    let empty = ReferenceSet::new();
    assert_eq!(apply_reference_operator(&a, &empty, Symbol::Range).unwrap_err(), FormulaError::Operand);
    assert_eq!(names(apply_reference_operator(&a, &empty, Symbol::Union).unwrap()), ["A1", "B2"]);
}

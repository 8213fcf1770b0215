//! The grid: cell addresses, the sheet's limits, the raw texts of the cells,
//! the edits made to them, and the cache of the values of formulas.

use vstd::prelude::*;
use vstd::std_specs::cmp::PartialEqSpec;

use crate::evaluation::started_text;
use crate::evaluation::Evaluation;
use crate::text::chars_of;
use crate::text::string_from;
use crate::text::string_of;
use crate::text::texts;
use crate::undo_stack::UndoStack;

verus! {

/// Number of rows a sheet can address.
pub const SPREADSHEET_MAX_ROWS: usize = 1048576;

/// Number of columns a sheet can address.
pub const SPREADSHEET_MAX_COLS: usize = 16384;

/// Width, in characters, of a column that was never resized.
pub const DEFAULT_COL_WIDTH: u16 = 10;

/// A cell of a row, with its index in the row.
#[derive(Debug)]
pub struct SpreadsheetRowIteratorItem {
    pub idx: usize,
    pub value: String,
}

/// One row of the grid.
#[derive(Debug, Default)]
pub struct SpreadsheetRow {
    pub row_idx: usize,
    pub contents: Vec<String>,
}

/// The 0-based address of one cell.
#[derive(Clone, Copy, Debug, Default, Hash, PartialEq, Eq, Structural)]
pub struct SpreadsheetCell {
    pub row: usize,
    pub col: usize,
}

/// One change of one cell's text.
#[derive(Debug)]
pub struct SpreadsheetEdit {
    pub cell: SpreadsheetCell,
    pub before: String,
    pub after: String,
}

impl Clone for SpreadsheetEdit {
    fn clone(&self) -> (copy: Self)
        ensures
            copy.cell == self.cell,
            copy.before@ == self.before@,
            copy.after@ == self.after@,
    {
        SpreadsheetEdit {
            cell: self.cell,
            before: self.before.clone(),
            after: self.after.clone(),
        }
    }
}

impl PartialEq for SpreadsheetEdit {
    /// Two edits are equal where they give the same cell the same text,
    /// whatever was there before.
    fn eq(&self, other: &Self) -> (same: bool) {
        self.after == other.after && self.cell == other.cell
    }
}

impl vstd::std_specs::cmp::PartialEqSpecImpl for SpreadsheetEdit {
    open spec fn obeys_eq_spec() -> bool {
        true
    }

    open spec fn eq_spec(&self, other: &Self) -> bool {
        self.after@ == other.after@ && self.cell == other.cell
    }
}

/// The value of one cell's formula, as text.
#[derive(Debug)]
pub struct CachedValue {
    pub cell: SpreadsheetCell,
    pub text: String,
}

/// The values that the first `n` of `entries` record: a later entry for a
/// cell replaces an earlier one.
pub open spec fn cached_among(entries: Seq<CachedValue>, n: int) -> Map<SpreadsheetCell, Seq<char>>
    decreases n,
{
    if n <= 0 {
        Map::empty()
    } else {
        cached_among(entries, n - 1).insert(entries[n - 1].cell, entries[n - 1].text@)
    }
}

/// The grid of raw cell texts.
#[derive(Debug)]
pub struct Spreadsheet {
    data: Vec<SpreadsheetRow>,
    pub col_widths: Vec<u16>,
    row_heights: Vec<u16>,
    pub undo_stack: UndoStack<Vec<SpreadsheetEdit>>,
    formula_cache: Vec<CachedValue>,
}

impl Spreadsheet {
    /// Whether the grid stores a text for `cell`.
    pub closed spec fn holds(self, cell: SpreadsheetCell) -> bool {
        cell.row < self.data@.len() && cell.col < self.data@[cell.row as int].contents@.len()
    }

    /// The raw text of `cell`: empty where the grid stores none.
    pub closed spec fn text_at(self, cell: SpreadsheetCell) -> Seq<char> {
        if self.holds(cell) {
            self.data@[cell.row as int].contents@[cell.col as int]@
        } else {
            Seq::empty()
        }
    }

    /// The width of the column `col`.
    pub closed spec fn width_of(self, col: usize) -> u16 {
        if col < self.col_widths@.len() {
            self.col_widths@[col as int]
        } else {
            DEFAULT_COL_WIDTH
        }
    }

    /// The edits that can be undone, the last one made at the end.
    pub closed spec fn edits_done(self) -> Seq<Vec<SpreadsheetEdit>> {
        self.undo_stack.done()
    }

    /// The edits that can be done again, the last one undone at the end.
    pub closed spec fn edits_undone(self) -> Seq<Vec<SpreadsheetEdit>> {
        self.undo_stack.undone()
    }

    /// Whether the grid keeps a width for the column `col`.
    pub closed spec fn has_width(self, col: usize) -> bool {
        col < self.col_widths@.len()
    }

    /// Whether writing `after` to `cell` repeats the last edit made: that one
    /// changed this cell alone, to this text.
    pub closed spec fn repeats_last(self, cell: SpreadsheetCell, after: Seq<char>) -> bool {
        self.undo_stack.done().len() > 0 && self.undo_stack.done().last()@.len() == 1
            && self.undo_stack.done().last()@[0].cell == cell && self.undo_stack.done().last()@[0].after@
            == after
    }

    /// The values of formulas that the cache holds.
    pub closed spec fn cached(self) -> Map<SpreadsheetCell, Seq<char>> {
        cached_among(self.formula_cache@, self.formula_cache@.len() as int)
    }

    /// An empty grid: it stores no cell, and keeps a width, the default one,
    /// for each column that a sheet can address.
    pub fn new() -> (grid: Self)
        ensures
            forall|cell: SpreadsheetCell| !#[trigger] grid.holds(cell),
            forall|col: usize| #[trigger] grid.has_width(col) == (col < SPREADSHEET_MAX_COLS),
            forall|cell: SpreadsheetCell| #[trigger] grid.text_at(cell) == Seq::<char>::empty(),
            forall|col: usize| #[trigger] grid.width_of(col) == DEFAULT_COL_WIDTH,
            grid.cached() == Map::<SpreadsheetCell, Seq<char>>::empty(),
            grid.edits_done() == Seq::<Vec<SpreadsheetEdit>>::empty(),
            grid.edits_undone() == Seq::<Vec<SpreadsheetEdit>>::empty(),
    {
        Self {
            data: Vec::new(),
            col_widths: vec![DEFAULT_COL_WIDTH; SPREADSHEET_MAX_COLS],
            row_heights: Vec::new(),
            undo_stack: UndoStack::default(),
            formula_cache: Vec::new(),
        }
    }

    /// The rows that the grid stores: the text of a cell is what its row holds
    /// for its column, and empty where no row holds it.
    pub fn iter_rows(&self) -> (rows: &Vec<SpreadsheetRow>)
        ensures
            forall|cell: SpreadsheetCell| #[trigger]
                self.text_at(cell) == (if cell.row < rows@.len() && cell.col
                    < rows@[cell.row as int].contents@.len() {
                    rows@[cell.row as int].contents@[cell.col as int]@
                } else {
                    Seq::<char>::empty()
                }),
    {
        &self.data
    }

    /// Whether the grid stores a text for `cell`.
    fn in_spreadsheet(&self, cell: &SpreadsheetCell) -> (inside: bool)
        ensures
            inside == self.holds(*cell),
    {
        cell.row < self.data.len() && cell.col < self.data[cell.row].contents.len()
    }

    /// The raw text of `cell`: empty where the grid stores none.
    pub fn get_cell(&self, cell: &SpreadsheetCell) -> (text: &str)
        ensures
            text@ == self.text_at(*cell),
    {
        if !self.in_spreadsheet(cell) {
            proof {
                reveal_strlit("");
            }
            return "";
        }
        self.data[cell.row].contents[cell.col].as_str()
    }

    /// Makes the grid store a text for `cell`, and a width for its column;
    /// no text and no width changes.
    pub fn resize_to_cell(&mut self, cell: &SpreadsheetCell)
        requires
            storable(*cell),
        ensures
            final(self).holds(*cell),
            forall|other: SpreadsheetCell| #[trigger]
                final(self).text_at(other) == old(self).text_at(other),
            forall|col: usize| #[trigger] final(self).width_of(col) == old(self).width_of(col),
            final(self).cached() == old(self).cached(),
            final(self).edits_done() == old(self).edits_done(),
            final(self).edits_undone() == old(self).edits_undone(),
    {
        while self.col_widths.len() <= cell.col
            invariant
                cell.col < usize::MAX,
                self.data == old(self).data,
                self.formula_cache == old(self).formula_cache,
                self.undo_stack == old(self).undo_stack,
                old(self).col_widths@.len() <= self.col_widths@.len(),
                forall|c: int|
                    0 <= c < old(self).col_widths@.len() ==> self.col_widths@[c] == old(
                        self,
                    ).col_widths@[c],
                forall|c: int|
                    old(self).col_widths@.len() <= c < self.col_widths@.len()
                        ==> self.col_widths@[c] == DEFAULT_COL_WIDTH,
            decreases cell.col + 1 - self.col_widths.len(),
        {
            self.col_widths.push(DEFAULT_COL_WIDTH);
        }
        let ghost widths = self.col_widths;
        while self.data.len() <= cell.row
            invariant
                cell.row < usize::MAX,
                self.col_widths == widths,
                self.formula_cache == old(self).formula_cache,
                self.undo_stack == old(self).undo_stack,
                old(self).data@.len() <= self.data@.len(),
                forall|r: int| 0 <= r < old(self).data@.len() ==> self.data@[r] == old(self).data@[r],
                forall|r: int|
                    old(self).data@.len() <= r < self.data@.len() ==> (
                    #[trigger] self.data@[r]).contents@.len() == 0,
            decreases cell.row + 1 - self.data.len(),
        {
            self.data.push(SpreadsheetRow { row_idx: self.data.len(), contents: Vec::new() });
        }
        let ghost rows = self.data@;
        let mut row = SpreadsheetRow { row_idx: cell.row, contents: Vec::new() };
        core::mem::swap(&mut row, &mut self.data[cell.row]);
        let ghost held = row.contents@;
        while row.contents.len() <= cell.col
            invariant
                cell.col < usize::MAX,
                held.len() <= row.contents@.len(),
                forall|c: int| 0 <= c < held.len() ==> row.contents@[c] == held[c],
                forall|c: int|
                    held.len() <= c < row.contents@.len() ==> (#[trigger] row.contents@[c])@
                        == Seq::<char>::empty(),
            decreases cell.col + 1 - row.contents.len(),
        {
            row.contents.push(String::new());
        }
        self.data[cell.row] = row;
        proof {
            assert forall|other: SpreadsheetCell| #[trigger]
                self.text_at(other) == old(self).text_at(other) by {
                if other.row < rows.len() && other.row != cell.row {
                    assert(self.data@[other.row as int] == rows[other.row as int]);
                }
            }
        }
    }

    /// Writes `value` to `cell` and empties the cache, without recording an
    /// edit. A cell that cannot be stored is left alone.
    fn internal_set_cell(&mut self, cell: &SpreadsheetCell, value: &str)
        ensures
            forall|other: SpreadsheetCell| #[trigger]
                final(self).text_at(other) == written(old(self).text_at(other), *cell, value@, other),
            forall|col: usize| #[trigger] final(self).width_of(col) == old(self).width_of(col),
            final(self).cached() == Map::<SpreadsheetCell, Seq<char>>::empty(),
            final(self).edits_done() == old(self).edits_done(),
            final(self).edits_undone() == old(self).edits_undone(),
    {
        self.formula_cache = Vec::new();
        if cell.row == usize::MAX || cell.col == usize::MAX {
            return ;
        }
        self.resize_to_cell(cell);
        let ghost rows = self.data@;
        let ghost middle = *self;
        let mut row = SpreadsheetRow { row_idx: cell.row, contents: Vec::new() };
        core::mem::swap(&mut row, &mut self.data[cell.row]);
        row.contents[cell.col] = String::from_str(value);
        self.data[cell.row] = row;
        proof {
            assert forall|other: SpreadsheetCell| #[trigger]
                self.text_at(other) == written(old(self).text_at(other), *cell, value@, other) by {
                assert(middle.text_at(other) == old(self).text_at(other));
                if other.row < rows.len() && other.row != cell.row {
                    assert(self.data@[other.row as int] == rows[other.row as int]);
                }
            }
            assert forall|col: usize| #[trigger] self.width_of(col) == old(self).width_of(col) by {
                assert(middle.width_of(col) == old(self).width_of(col));
            }
        }
    }

    /// Writes `value` to `cell`, records the edit unless it repeats the last
    /// one, and empties the cache. A cell that cannot be stored keeps its
    /// empty text.
    pub fn set_cell(&mut self, cell: &SpreadsheetCell, value: &str)
        ensures
            forall|other: SpreadsheetCell| #[trigger]
                final(self).text_at(other) == written(old(self).text_at(other), *cell, value@, other),
            forall|col: usize| #[trigger] final(self).width_of(col) == old(self).width_of(col),
            final(self).cached() == Map::<SpreadsheetCell, Seq<char>>::empty(),
            old(self).repeats_last(*cell, value@) ==> final(self).edits_done() == old(
                self,
            ).edits_done() && final(self).edits_undone() == old(self).edits_undone(),
            !old(self).repeats_last(*cell, value@) ==> {
                &&& final(self).edits_undone() == Seq::<Vec<SpreadsheetEdit>>::empty()
                &&& final(self).edits_done().len() == old(self).edits_done().len() + 1
                &&& final(self).edits_done().drop_last() == old(self).edits_done()
                &&& is_one_edit(
                    final(self).edits_done().last()@,
                    *cell,
                    old(self).text_at(*cell),
                    value@,
                )
            },
    {
        let mut edits: Vec<SpreadsheetEdit> = Vec::new();
        edits.push(
            SpreadsheetEdit {
                cell: *cell,
                before: String::from_str(self.get_cell(cell)),
                after: String::from_str(value),
            },
        );
        proof {
            if self.edits_done().len() > 0 {
                let last = self.edits_done().last();
                assert(last.eq_spec(&edits) == self.repeats_last(*cell, value@)) by {
                    if last@.len() == 1 {
                        assert(last@[0].eq_spec(&edits@[0]) == (last@[0].after@ == value@
                            && last@[0].cell == *cell));
                    }
                }
            }
        }
        let ghost before = self.edits_done();
        self.undo_stack.edit(edits);
        proof {
            if !old(self).repeats_last(*cell, value@) {
                assert(self.edits_done().drop_last() =~= before);
            }
        }
        self.internal_set_cell(cell, value);
    }

    /// Writes to each cell of `edits`, in their order, the text it had before
    /// the edit, or the one it had after.
    fn apply_edits(&mut self, edits: &Vec<SpreadsheetEdit>, back: bool)
        ensures
            forall|other: SpreadsheetCell| #[trigger]
                final(self).text_at(other) == text_through(
                    old(self).text_at(other),
                    edits@,
                    edits@.len() as int,
                    other,
                    back,
                ),
            forall|col: usize| #[trigger] final(self).width_of(col) == old(self).width_of(col),
            edits@.len() > 0 ==> final(self).cached() == Map::<
                SpreadsheetCell,
                Seq<char>,
            >::empty(),
            edits@.len() == 0 ==> final(self).cached() == old(self).cached(),
            final(self).edits_done() == old(self).edits_done(),
            final(self).edits_undone() == old(self).edits_undone(),
    {
        let mut i: usize = 0;
        while i < edits.len()
            invariant
                i <= edits.len(),
                forall|other: SpreadsheetCell| #[trigger]
                    self.text_at(other) == text_through(
                        old(self).text_at(other),
                        edits@,
                        i as int,
                        other,
                        back,
                    ),
                forall|col: usize| #[trigger] self.width_of(col) == old(self).width_of(col),
                i > 0 ==> self.cached() == Map::<SpreadsheetCell, Seq<char>>::empty(),
                i == 0 ==> self.cached() == old(self).cached(),
                self.edits_done() == old(self).edits_done(),
                self.edits_undone() == old(self).edits_undone(),
            decreases edits.len() - i,
        {
            let edit = &edits[i];
            let ghost before = *self;
            if back {
                self.internal_set_cell(&edit.cell, edit.before.as_str());
            } else {
                self.internal_set_cell(&edit.cell, edit.after.as_str());
            }
            proof {
                assert forall|other: SpreadsheetCell| #[trigger]
                    self.text_at(other) == text_through(
                        old(self).text_at(other),
                        edits@,
                        i + 1,
                        other,
                        back,
                    ) by {
                    assert(before.text_at(other) == text_through(
                        old(self).text_at(other),
                        edits@,
                        i as int,
                        other,
                        back,
                    ));
                }
            }
            i += 1;
        }
    }

    /// Takes back the last edit recorded: every cell it changed has its
    /// former text again, and the cache is empty. Hands out the two corners
    /// of the least rectangle that holds the cells changed; `None` where
    /// there was nothing to take back.
    pub fn undo(&mut self) -> (corners: Option<[SpreadsheetCell; 2]>)
        ensures
            old(self).edits_done().len() == 0 ==> corners is None && forall|
                other: SpreadsheetCell,
            | #[trigger] final(self).text_at(other) == old(self).text_at(other),
            old(self).edits_done().len() > 0 ==> {
                &&& corners == corners_of(old(self).edits_done().last()@)
                &&& final(self).edits_done() == old(self).edits_done().drop_last()
                &&& final(self).edits_undone().len() == old(self).edits_undone().len() + 1
                &&& final(self).edits_undone().drop_last() == old(self).edits_undone()
                &&& forall|other: SpreadsheetCell| #[trigger]
                    final(self).text_at(other) == text_through(
                        old(self).text_at(other),
                        old(self).edits_done().last()@,
                        old(self).edits_done().last()@.len() as int,
                        other,
                        true,
                    )
                &&& old(self).edits_done().last()@.len() > 0 ==> final(self).cached() == Map::<
                    SpreadsheetCell,
                    Seq<char>,
                >::empty()
            },
            forall|col: usize| #[trigger] final(self).width_of(col) == old(self).width_of(col),
    {
        match self.undo_stack.undo() {
            Some(edits) => {
                self.apply_edits(&edits, true);
                bounding_corners(&edits)
            },
            None => None,
        }
    }

    /// Does the last undone edit again: every cell it changes has the text of
    /// the edit, and the cache is empty. Hands out the two corners of the
    /// least rectangle that holds the cells changed; `None` where there was
    /// nothing to do again.
    pub fn redo(&mut self) -> (corners: Option<[SpreadsheetCell; 2]>)
        ensures
            old(self).edits_undone().len() == 0 ==> corners is None && forall|
                other: SpreadsheetCell,
            | #[trigger] final(self).text_at(other) == old(self).text_at(other),
            old(self).edits_undone().len() > 0 ==> {
                &&& corners == corners_of(old(self).edits_undone().last()@)
                &&& final(self).edits_undone() == old(self).edits_undone().drop_last()
                &&& final(self).edits_done().len() == old(self).edits_done().len() + 1
                &&& final(self).edits_done().drop_last() == old(self).edits_done()
                &&& forall|other: SpreadsheetCell| #[trigger]
                    final(self).text_at(other) == text_through(
                        old(self).text_at(other),
                        old(self).edits_undone().last()@,
                        old(self).edits_undone().last()@.len() as int,
                        other,
                        false,
                    )
                &&& old(self).edits_undone().last()@.len() > 0 ==> final(self).cached() == Map::<
                    SpreadsheetCell,
                    Seq<char>,
                >::empty()
            },
            forall|col: usize| #[trigger] final(self).width_of(col) == old(self).width_of(col),
    {
        match self.undo_stack.redo() {
            Some(edits) => {
                self.apply_edits(&edits, false);
                bounding_corners(&edits)
            },
            None => None,
        }
    }

    /// The width of the column of `cell`.
    pub fn get_col_width(&self, cell: &SpreadsheetCell) -> (width: u16)
        ensures
            width == self.width_of(cell.col),
    {
        if cell.col < self.col_widths.len() {
            self.col_widths[cell.col]
        } else {
            DEFAULT_COL_WIDTH
        }
    }

    /// Sets the width of the column of `cell`, where the grid keeps one for
    /// it.
    pub fn set_col_width(&mut self, cell: &SpreadsheetCell, width: u16)
        ensures
            forall|col: usize| #[trigger]
                final(self).width_of(col) == (if col == cell.col && old(self).has_width(col) {
                    width
                } else {
                    old(self).width_of(col)
                }),
            forall|other: SpreadsheetCell| #[trigger]
                final(self).text_at(other) == old(self).text_at(other),
            final(self).cached() == old(self).cached(),
    {
        if self.col_widths.len() > cell.col {
            self.col_widths[cell.col] = width;
        }
    }

    /// Starts the evaluation of `cell`: of its formula where its text starts
    /// with `=`; else the evaluation is over at once, with the text as a
    /// number, a boolean or a string.
    pub fn get_cell_value(&self, cell: &SpreadsheetCell) -> (evaluation: Evaluation)
        ensures
            evaluation@ == started_text(self.text_at(*cell), Some(*cell)),
    {
        Evaluation::of_text(self.get_cell(cell), Some(*cell))
    }

    /// The value that the cache holds for `cell`.
    pub fn cached_value(&self, cell: &SpreadsheetCell) -> (text: Option<String>)
        ensures
            text matches Some(held) ==> self.cached().contains_key(*cell) && self.cached()[*cell]
                == held@,
            text is None ==> !self.cached().contains_key(*cell),
    {
        let mut i: usize = self.formula_cache.len();
        while i > 0
            invariant
                i <= self.formula_cache.len(),
                forall|k: int|
                    i <= k < self.formula_cache@.len() ==> (#[trigger] self.formula_cache@[k]).cell
                        != *cell,
            decreases i,
        {
            i -= 1;
            if self.formula_cache[i].cell == *cell {
                proof {
                    lemma_cached_last(self.formula_cache@, self.formula_cache@.len() as int, *cell, i as int);
                }
                return Some(self.formula_cache[i].text.clone());
            }
        }
        proof {
            lemma_cached_none(self.formula_cache@, self.formula_cache@.len() as int, *cell);
        }
        None
    }

    /// Puts the value of the formula of `cell` into the cache.
    pub fn cache_value(&mut self, cell: &SpreadsheetCell, text: String)
        ensures
            final(self).cached() == old(self).cached().insert(*cell, text@),
            forall|other: SpreadsheetCell| #[trigger]
                final(self).text_at(other) == old(self).text_at(other),
            forall|col: usize| #[trigger] final(self).width_of(col) == old(self).width_of(col),
    {
        let ghost before = self.formula_cache@;
        self.formula_cache.push(CachedValue { cell: *cell, text });
        proof {
            lemma_cached_prefix(self.formula_cache@, before, before.len() as int);
        }
    }

    /// Empties the cache, so that every formula is evaluated anew.
    pub fn clear_cache(&mut self)
        ensures
            final(self).cached() == Map::<SpreadsheetCell, Seq<char>>::empty(),
            forall|other: SpreadsheetCell| #[trigger]
                final(self).text_at(other) == old(self).text_at(other),
            forall|col: usize| #[trigger] final(self).width_of(col) == old(self).width_of(col),
    {
        self.formula_cache = Vec::new();
    }

    /// The text that stands for `cell` where no formula is evaluated: the
    /// cached value of its formula where the cache holds one, else its raw
    /// text.
    pub closed spec fn shown_text(self, cell: SpreadsheetCell) -> Seq<char> {
        if self.text_at(cell).len() > 0 && self.text_at(cell)[0] == '=' && self.cached().contains_key(
            cell,
        ) {
            self.cached()[cell]
        } else {
            self.text_at(cell)
        }
    }

    /// The text that stands for `cell` where no formula is evaluated.
    pub fn get_shown_text(&self, cell: &SpreadsheetCell) -> (text: String)
        ensures
            text@ == self.shown_text(*cell),
    {
        let raw = self.get_cell(cell);
        let chars = chars_of(raw);
        if chars.len() > 0 && chars[0] == '=' {
            if let Some(held) = self.cached_value(cell) {
                return held;
            }
        }
        String::from_str(raw)
    }

    /// The texts that stand for the cells of the rectangle between `a` and
    /// `b`, row by row: for a formula its cached value, where the cache
    /// holds one, else the raw text.
    pub fn select_matrix(&self, a: &SpreadsheetCell, b: &SpreadsheetCell) -> (matrix: Vec<
        Vec<String>,
    >)
        requires
            span(a.row, b.row) <= usize::MAX,
            span(a.col, b.col) <= usize::MAX,
        ensures
            matrix@.len() == span(a.row, b.row),
            forall|r: int|
                0 <= r < matrix@.len() ==> (#[trigger] matrix@[r])@.len() == span(a.col, b.col),
            forall|r: int, c: int|
                0 <= r < matrix@.len() && 0 <= c < matrix@[r]@.len() ==> (
                #[trigger] matrix@[r]@[c])@ == self.shown_text(
                    SpreadsheetCell {
                        row: (min_index(a.row, b.row) + r) as usize,
                        col: (min_index(a.col, b.col) + c) as usize,
                    },
                ),
    {
        let min_row = if a.row <= b.row {
            a.row
        } else {
            b.row
        };
        let min_col = if a.col <= b.col {
            a.col
        } else {
            b.col
        };
        let rows = (if a.row <= b.row {
            b.row
        } else {
            a.row
        }) - min_row + 1;
        let cols = (if a.col <= b.col {
            b.col
        } else {
            a.col
        }) - min_col + 1;
        let mut matrix: Vec<Vec<String>> = Vec::new();
        let mut r: usize = 0;
        while r < rows
            invariant
                r <= rows,
                rows == span(a.row, b.row),
                cols == span(a.col, b.col),
                min_row == min_index(a.row, b.row),
                min_col == min_index(a.col, b.col),
                matrix@.len() == r,
                forall|i: int| 0 <= i < r ==> (#[trigger] matrix@[i])@.len() == cols,
                forall|i: int, c: int|
                    0 <= i < r && 0 <= c < cols ==> (#[trigger] matrix@[i]@[c])@
                        == self.shown_text(
                        SpreadsheetCell {
                            row: (min_row + i) as usize,
                            col: (min_col + c) as usize,
                        },
                    ),
            decreases rows - r,
        {
            let mut items: Vec<String> = Vec::new();
            let mut c: usize = 0;
            while c < cols
                invariant
                    c <= cols,
                    r < rows,
                    rows == span(a.row, b.row),
                    cols == span(a.col, b.col),
                    min_row == min_index(a.row, b.row),
                    min_col == min_index(a.col, b.col),
                    items@.len() == c,
                    forall|k: int|
                        0 <= k < c ==> (#[trigger] items@[k])@ == self.shown_text(
                            SpreadsheetCell {
                                row: (min_row + r) as usize,
                                col: (min_col + k) as usize,
                            },
                        ),
                decreases cols - c,
            {
                items.push(
                    self.get_shown_text(&SpreadsheetCell { row: min_row + r, col: min_col + c }),
                );
                c += 1;
            }
            matrix.push(items);
            r += 1;
        }
        matrix
    }

    /// Writes the texts of `mat` to the rectangle whose upper left corner is
    /// `start`, row by row, records the whole as one edit unless it repeats
    /// the last one, and empties the cache. Cells that cannot be stored are
    /// passed over.
    pub fn replace_matrix(&mut self, start: &SpreadsheetCell, mat: Vec<Vec<String>>)
        ensures
            forall|other: SpreadsheetCell| #[trigger]
                final(self).text_at(other) == (match pasted_at(mat@, *start, other) {
                    Some(text) => text,
                    None => old(self).text_at(other),
                }),
            forall|col: usize| #[trigger] final(self).width_of(col) == old(self).width_of(col),
            final(self).cached() == Map::<SpreadsheetCell, Seq<char>>::empty(),
            final(self).edits_done().len() > 0,
            (final(self).edits_done() == old(self).edits_done() && final(self).edits_undone()
                == old(self).edits_undone()) || (final(self).edits_done().drop_last() == old(
                self,
            ).edits_done() && final(self).edits_undone() == Seq::<Vec<SpreadsheetEdit>>::empty()),
    {
        let mut changes: Vec<SpreadsheetEdit> = Vec::new();
        let mut r: usize = 0;
        while r < mat.len()
            invariant
                r <= mat.len(),
                forall|other: SpreadsheetCell| #[trigger]
                    self.text_at(other) == (match pasted_at(mat@.take(r as int), *start, other) {
                        Some(text) => text,
                        None => old(self).text_at(other),
                    }),
                forall|col: usize| #[trigger] self.width_of(col) == old(self).width_of(col),
                self.edits_done() == old(self).edits_done(),
                self.edits_undone() == old(self).edits_undone(),
            decreases mat.len() - r,
        {
            let ghost at_row = *self;
            let mut c: usize = 0;
            while c < mat[r as usize].len()
                invariant
                    r < mat.len(),
                    c <= mat@[r as int]@.len(),
                    forall|other: SpreadsheetCell| #[trigger]
                        self.text_at(other) == (match pasted_in_row(
                            mat@[r as int]@.take(c as int),
                            *start,
                            r as int,
                            other,
                        ) {
                            Some(text) => text,
                            None => at_row.text_at(other),
                        }),
                    forall|col: usize| #[trigger] self.width_of(col) == old(self).width_of(col),
                    self.edits_done() == old(self).edits_done(),
                    self.edits_undone() == old(self).edits_undone(),
                decreases mat@[r as int]@.len() - c,
            {
                let ghost inner = *self;
                match (start.row.checked_add(r), start.col.checked_add(c)) {
                    (Some(row), Some(col)) => {
                        let cell = SpreadsheetCell { row, col };
                        changes.push(
                            SpreadsheetEdit {
                                cell,
                                before: String::from_str(self.get_cell(&cell)),
                                after: mat[r][c].clone(),
                            },
                        );
                        self.internal_set_cell(&cell, mat[r][c].as_str());
                    },
                    _ => {},
                }
                proof {
                    let row_now = mat@[r as int]@.take(c + 1);
                    let row_before = mat@[r as int]@.take(c as int);
                    assert forall|other: SpreadsheetCell| #[trigger]
                        self.text_at(other) == (match pasted_in_row(
                            row_now,
                            *start,
                            r as int,
                            other,
                        ) {
                            Some(text) => text,
                            None => at_row.text_at(other),
                        }) by {
                        assert(inner.text_at(other) == (match pasted_in_row(
                            row_before,
                            *start,
                            r as int,
                            other,
                        ) {
                            Some(text) => text,
                            None => at_row.text_at(other),
                        }));
                        assert(row_now[c as int] == mat@[r as int]@[c as int]);
                        assert(forall|k: int| 0 <= k < c ==> row_now[k] == row_before[k]);
                    }
                }
                c += 1;
            }
            proof {
                assert(mat@[r as int]@.take(mat@[r as int]@.len() as int) == mat@[r as int]@);
                let now = mat@.take(r + 1);
                let before = mat@.take(r as int);
                assert forall|other: SpreadsheetCell| #[trigger]
                    self.text_at(other) == (match pasted_at(now, *start, other) {
                        Some(text) => text,
                        None => old(self).text_at(other),
                    }) by {
                    assert(now[r as int] == mat@[r as int]);
                    assert(forall|k: int| 0 <= k < r ==> now[k] == before[k]);
                    assert(at_row.text_at(other) == (match pasted_at(before, *start, other) {
                        Some(text) => text,
                        None => old(self).text_at(other),
                    }));
                }
            }
            r += 1;
        }
        let ghost pasted = *self;
        let ghost repeated = self.undo_stack.repeats(changes);
        self.undo_stack.edit(changes);
        proof {
            if !repeated {
                assert(self.edits_done().drop_last() =~= pasted.edits_done());
            }
        }
        self.formula_cache = Vec::new();
        proof {
            assert(mat@.take(mat@.len() as int) == mat@);
            assert forall|other: SpreadsheetCell| #[trigger]
                self.text_at(other) == (match pasted_at(mat@, *start, other) {
                    Some(text) => text,
                    None => old(self).text_at(other),
                }) by {
                assert(pasted.text_at(other) == self.text_at(other));
            }
            assert forall|col: usize| #[trigger] self.width_of(col) == old(self).width_of(col) by {
                assert(pasted.width_of(col) == old(self).width_of(col));
            }
        }
    }
}

/// `edits` is the change of `cell` alone, from `before` to `after`.
pub open spec fn is_one_edit(
    edits: Seq<SpreadsheetEdit>,
    cell: SpreadsheetCell,
    before: Seq<char>,
    after: Seq<char>,
) -> bool {
    edits.len() == 1 && edits[0].cell == cell && edits[0].before@ == before && edits[0].after@
        == after
}

/// A cell can be stored where counting one past its row and its column stays
/// inside what the machine can count.
pub open spec fn storable(cell: SpreadsheetCell) -> bool {
    cell.row < usize::MAX && cell.col < usize::MAX
}

/// The text of `other` once `value` was written to `cell`, where it was
/// `text` before.
pub open spec fn written(
    text: Seq<char>,
    cell: SpreadsheetCell,
    value: Seq<char>,
    other: SpreadsheetCell,
) -> Seq<char> {
    if other == cell && storable(cell) {
        value
    } else {
        text
    }
}

/// The text of `cell` once the first `n` of `edits` were gone through in
/// their order, where it was `text` before: each edit wrote to its cell the
/// text from before it where `back` holds, else the one from after it.
pub open spec fn text_through(
    text: Seq<char>,
    edits: Seq<SpreadsheetEdit>,
    n: int,
    cell: SpreadsheetCell,
    back: bool,
) -> Seq<char>
    decreases n,
{
    if n <= 0 {
        text
    } else {
        written(
            text_through(text, edits, n - 1, cell, back),
            edits[n - 1].cell,
            if back {
                edits[n - 1].before@
            } else {
                edits[n - 1].after@
            },
            cell,
        )
    }
}

/// The lesser of two indices.
pub open spec fn min_index(a: usize, b: usize) -> usize {
    if a <= b {
        a
    } else {
        b
    }
}

/// The greater of two indices.
pub open spec fn max_index(a: usize, b: usize) -> usize {
    if a <= b {
        b
    } else {
        a
    }
}

/// How many indices lie between `a` and `b`, both included.
pub open spec fn span(a: usize, b: usize) -> nat {
    (max_index(a, b) - min_index(a, b) + 1) as nat
}

/// The upper left and the lower right corner of the least rectangle that
/// holds the cells of the first `n` of `edits`, for `n` at least 1.
pub open spec fn corners_among(edits: Seq<SpreadsheetEdit>, n: int) -> [SpreadsheetCell; 2]
    decreases n,
{
    if n <= 1 {
        [edits[0].cell, edits[0].cell]
    } else {
        [
            SpreadsheetCell {
                row: min_index(corners_among(edits, n - 1)[0].row, edits[n - 1].cell.row),
                col: min_index(corners_among(edits, n - 1)[0].col, edits[n - 1].cell.col),
            },
            SpreadsheetCell {
                row: max_index(corners_among(edits, n - 1)[1].row, edits[n - 1].cell.row),
                col: max_index(corners_among(edits, n - 1)[1].col, edits[n - 1].cell.col),
            },
        ]
    }
}

/// The corners of the least rectangle that holds the cells of `edits`, where
/// there are any.
pub open spec fn corners_of(edits: Seq<SpreadsheetEdit>) -> Option<[SpreadsheetCell; 2]> {
    if edits.len() == 0 {
        None
    } else {
        Some(corners_among(edits, edits.len() as int))
    }
}

/// The corners of the least rectangle that holds the cells of `edits`.
fn bounding_corners(edits: &Vec<SpreadsheetEdit>) -> (corners: Option<[SpreadsheetCell; 2]>)
    ensures
        corners == corners_of(edits@),
{
    if edits.len() == 0 {
        return None;
    }
    let mut low = edits[0].cell;
    let mut high = edits[0].cell;
    let mut i: usize = 1;
    while i < edits.len()
        invariant
            1 <= i <= edits.len(),
            corners_among(edits@, i as int)[0] == low,
            corners_among(edits@, i as int)[1] == high,
        decreases edits.len() - i,
    {
        let cell = edits[i].cell;
        if cell.row < low.row {
            low.row = cell.row;
        }
        if cell.col < low.col {
            low.col = cell.col;
        }
        if cell.row > high.row {
            high.row = cell.row;
        }
        if cell.col > high.col {
            high.col = cell.col;
        }
        i += 1;
    }
    let corners = [low, high];
    assert(corners@ =~= corners_among(edits@, edits@.len() as int)@);
    Some(corners)
}

/// The text that pasting `row` as the row `r` of a matrix at `start` gives
/// `cell`, if it gives it one.
pub open spec fn pasted_in_row(
    row: Seq<String>,
    start: SpreadsheetCell,
    r: int,
    cell: SpreadsheetCell,
) -> Option<Seq<char>> {
    if storable(cell) && cell.row == start.row + r && start.col <= cell.col && cell.col - start.col
        < row.len() {
        Some(row[cell.col - start.col]@)
    } else {
        None
    }
}

/// The text that pasting `mat` at `start` gives `cell`, if it gives it one.
pub open spec fn pasted_at(mat: Seq<Vec<String>>, start: SpreadsheetCell, cell: SpreadsheetCell) -> Option<
    Seq<char>,
> {
    if start.row <= cell.row && cell.row - start.row < mat.len() {
        pasted_in_row(mat[cell.row - start.row]@, start, cell.row - start.row, cell)
    } else {
        None
    }
}

proof fn lemma_cached_none(entries: Seq<CachedValue>, n: int, cell: SpreadsheetCell)
    requires
        0 <= n <= entries.len(),
        forall|k: int| 0 <= k < n ==> (#[trigger] entries[k]).cell != cell,
    ensures
        !cached_among(entries, n).contains_key(cell),
    decreases n,
{
    if n > 0 {
        lemma_cached_none(entries, n - 1, cell);
    }
}

proof fn lemma_cached_last(entries: Seq<CachedValue>, n: int, cell: SpreadsheetCell, at: int)
    requires
        0 <= at < n <= entries.len(),
        entries[at].cell == cell,
        forall|k: int| at < k < n ==> (#[trigger] entries[k]).cell != cell,
    ensures
        cached_among(entries, n).contains_key(cell),
        cached_among(entries, n)[cell] == entries[at].text@,
    decreases n,
{
    if n - 1 > at {
        lemma_cached_last(entries, n - 1, cell, at);
    }
}

proof fn lemma_cached_prefix(longer: Seq<CachedValue>, entries: Seq<CachedValue>, n: int)
    requires
        0 <= n <= entries.len() <= longer.len(),
        forall|k: int| 0 <= k < entries.len() ==> longer[k] == entries[k],
    ensures
        cached_among(longer, n) == cached_among(entries, n),
    decreases n,
{
    if n > 0 {
        lemma_cached_prefix(longer, entries, n - 1);
    }
}


/// The fields of the line `s` from `at` on, where the field under way starts
/// at `start` and `inside` says whether `at` lies in a quoted run. A comma
/// outside quoted runs ends a field; a double quote starts or ends a quoted
/// run and stays in its field.
pub open spec fn fields_from(s: Seq<char>, at: int, start: int, inside: bool) -> Seq<Seq<char>>
    decreases s.len() - at,
{
    if at < 0 || at >= s.len() {
        seq![s.subrange(start, s.len() as int)]
    } else if s[at] == '"' {
        fields_from(s, at + 1, start, !inside)
    } else if s[at] == ',' && !inside {
        seq![s.subrange(start, at)] + fields_from(s, at + 1, at + 1, inside)
    } else {
        fields_from(s, at + 1, start, inside)
    }
}

/// The fields of one line of comma-separated values.
pub open spec fn csv_fields(s: Seq<char>) -> Seq<Seq<char>> {
    fields_from(s, 0, 0, false)
}

/// The line `s[start..end]`, without the carriage return that ends it, if
/// one does.
pub open spec fn line_between(s: Seq<char>, start: int, end: int) -> Seq<char> {
    if start < end && s[end - 1] == '\r' {
        s.subrange(start, end - 1)
    } else {
        s.subrange(start, end)
    }
}

/// The lines of `s` from `at` on, where the line under way starts at
/// `start`. A line ends with a line feed, or with a carriage return and a
/// line feed, or with the text; after the last line feed an empty rest is no
/// line.
pub open spec fn lines_from(s: Seq<char>, at: int, start: int) -> Seq<Seq<char>>
    decreases s.len() - at,
{
    if at < 0 || at >= s.len() {
        if start < s.len() {
            seq![s.subrange(start, s.len() as int)]
        } else {
            Seq::empty()
        }
    } else if s[at] == '\n' {
        seq![line_between(s, start, at)] + lines_from(s, at + 1, at + 1)
    } else {
        lines_from(s, at + 1, start)
    }
}

/// The lines of a text.
pub open spec fn lines_of(s: Seq<char>) -> Seq<Seq<char>> {
    lines_from(s, 0, 0)
}

/// The fields of the line `chars[from..to]`.
fn fields_between(chars: &Vec<char>, from: usize, to: usize) -> (fields: Vec<String>)
    requires
        from <= to <= chars.len(),
    ensures
        texts(fields@) == csv_fields(chars@.subrange(from as int, to as int)),
{
    let ghost s = chars@.subrange(from as int, to as int);
    let mut fields: Vec<String> = Vec::new();
    let mut start: usize = from;
    let mut inside = false;
    let mut at: usize = from;
    assert(texts(fields@) =~= Seq::<Seq<char>>::empty());
    assert(Seq::<Seq<char>>::empty() + fields_from(s, 0, 0, false) =~= fields_from(s, 0, 0, false));
    while at < to
        invariant
            from <= start <= at <= to <= chars.len(),
            s == chars@.subrange(from as int, to as int),
            csv_fields(s) == texts(fields@) + fields_from(
                s,
                at - from,
                start - from,
                inside,
            ),
        decreases to - at,
    {
        let c = chars[at];
        assert(s[at - from] == c);
        if c == '"' {
            inside = !inside;
        } else if c == ',' && !inside {
            let field = string_from(chars, start, at);
            let ghost before = fields@;
            assert(field@ =~= s.subrange(start - from, at - from));
            fields.push(field);
            assert(texts(fields@) =~= texts(before).push(field@));
            assert(texts(before) + (seq![field@] + fields_from(
                s,
                at - from + 1,
                at - from + 1,
                inside,
            )) =~= texts(before).push(field@) + fields_from(
                s,
                at - from + 1,
                at - from + 1,
                inside,
            ));
            start = at + 1;
        }
        at += 1;
    }
    let field = string_from(chars, start, to);
    let ghost before = fields@;
    assert(field@ =~= s.subrange(start - from, s.len() as int));
    fields.push(field);
    assert(texts(fields@) =~= texts(before) + seq![field@]);
    fields
}

/// The fields of one line of comma-separated values: the line is split at
/// the commas outside double-quoted runs, and the quotes stay.
pub fn parse_csv_line(line: &str) -> (fields: Vec<String>)
    ensures
        texts(fields@) == csv_fields(line@),
{
    let chars = chars_of(line);
    assert(chars@.subrange(0, chars.len() as int) =~= line@);
    fields_between(&chars, 0, chars.len())
}

/// The rows that the lines of a text of comma-separated values make.
pub open spec fn csv_rows(s: Seq<char>) -> Seq<Seq<Seq<char>>> {
    Seq::new(lines_of(s).len(), |r: int| csv_fields(lines_of(s)[r]))
}

impl Spreadsheet {
    /// The grid that a text of comma-separated values describes: each line
    /// is a row, each field a cell.
    pub fn from_csv_text(contents: &str) -> (grid: Self)
        ensures
            forall|cell: SpreadsheetCell| #[trigger]
                grid.text_at(cell) == (if cell.row < csv_rows(contents@).len() && cell.col
                    < csv_rows(contents@)[cell.row as int].len() {
                    csv_rows(contents@)[cell.row as int][cell.col as int]
                } else {
                    Seq::<char>::empty()
                }),
            forall|col: usize| #[trigger] grid.width_of(col) == DEFAULT_COL_WIDTH,
            grid.cached() == Map::<SpreadsheetCell, Seq<char>>::empty(),
            grid.edits_done() == Seq::<Vec<SpreadsheetEdit>>::empty(),
            grid.edits_undone() == Seq::<Vec<SpreadsheetEdit>>::empty(),
    {
        let chars = chars_of(contents);
        let ghost s = chars@;
        let ghost all = lines_of(s);
        let mut data: Vec<SpreadsheetRow> = Vec::new();
        let mut start: usize = 0;
        let mut at: usize = 0;
        let ghost mut done: Seq<Seq<char>> = Seq::empty();
        proof {
            assert(done + lines_from(s, 0, 0) =~= all);
        }
        while at < chars.len()
            invariant
                start <= at <= chars.len(),
                s == chars@,
                all == done + lines_from(s, at as int, start as int),
                data@.len() == done.len(),
                forall|r: int|
                    0 <= r < data@.len() ==> texts((#[trigger] data@[r]).contents@)
                        == csv_fields(done[r]),
            decreases chars.len() - at,
        {
            if chars[at] == '\n' {
                let end = if start < at && chars[at - 1] == '\r' {
                    at - 1
                } else {
                    at
                };
                let row = SpreadsheetRow {
                    row_idx: data.len(),
                    contents: fields_between(&chars, start, end),
                };
                proof {
                    let line = line_between(s, start as int, at as int);
                    assert(line == s.subrange(start as int, end as int));
                    assert(done + (seq![line] + lines_from(s, at + 1, at + 1)) =~= done.push(line)
                        + lines_from(s, at + 1, at + 1));
                    done = done.push(line);
                }
                data.push(row);
                start = at + 1;
            }
            at += 1;
        }
        if start < chars.len() {
            let row = SpreadsheetRow {
                row_idx: data.len(),
                contents: fields_between(&chars, start, chars.len()),
            };
            proof {
                done = done.push(s.subrange(start as int, s.len() as int));
            }
            data.push(row);
        }
        proof {
            assert(all =~= done);
        }
        let grid = Self {
            data,
            col_widths: vec![DEFAULT_COL_WIDTH; SPREADSHEET_MAX_COLS],
            row_heights: Vec::new(),
            undo_stack: UndoStack::default(),
            formula_cache: Vec::new(),
        };
        proof {
            let rows = csv_rows(contents@);
            assert forall|cell: SpreadsheetCell| #[trigger]
                grid.text_at(cell) == (if cell.row < rows.len() && cell.col < rows[cell.row as int].len() {
                    rows[cell.row as int][cell.col as int]
                } else {
                    Seq::<char>::empty()
                }) by {
                if cell.row < rows.len() {
                    let held = texts(grid.data@[cell.row as int].contents@);
                    assert(held == csv_fields(all[cell.row as int]));
                    if cell.col < rows[cell.row as int].len() {
                        assert(held[cell.col as int] == grid.data@[cell.row as int].contents@[cell.col as int]@);
                    }
                }
            }
        }
        grid
    }
}


/// `cell` lies in the rectangle between the corners `a` and `b`.
pub open spec fn between(a: SpreadsheetCell, b: SpreadsheetCell, cell: SpreadsheetCell) -> bool {
    min_index(a.row, b.row) <= cell.row <= max_index(a.row, b.row) && min_index(a.col, b.col)
        <= cell.col <= max_index(a.col, b.col)
}

/// `mat` holds a single text.
pub open spec fn is_single(mat: Seq<Vec<String>>) -> bool {
    mat.len() == 1 && mat[0]@.len() == 1
}

impl Spreadsheet {
    /// Pastes `mat` into the selection between the corners `a` and `b`: a
    /// single text goes to every cell of the selection; anything else is
    /// written from the upper left corner of the selection on, as
    /// `replace_matrix` does, however far it reaches.
    pub fn paste_matrix(&mut self, a: &SpreadsheetCell, b: &SpreadsheetCell, mat: Vec<Vec<String>>)
        requires
            span(a.row, b.row) <= usize::MAX,
            span(a.col, b.col) <= usize::MAX,
        ensures
            is_single(mat@) ==> forall|other: SpreadsheetCell| #[trigger]
                final(self).text_at(other) == (if between(*a, *b, other) && storable(other) {
                    mat@[0]@[0]@
                } else {
                    old(self).text_at(other)
                }),
            !is_single(mat@) ==> forall|other: SpreadsheetCell| #[trigger]
                final(self).text_at(other) == (match pasted_at(
                    mat@,
                    SpreadsheetCell {
                        row: min_index(a.row, b.row),
                        col: min_index(a.col, b.col),
                    },
                    other,
                ) {
                    Some(text) => text,
                    None => old(self).text_at(other),
                }),
            forall|col: usize| #[trigger] final(self).width_of(col) == old(self).width_of(col),
            final(self).cached() == Map::<SpreadsheetCell, Seq<char>>::empty(),
    {
        let found = corners(a, b);
        let low = found[0];
        let high = found[1];
        if mat.len() == 1 && mat[0].len() == 1 {
            let rows = high.row - low.row + 1;
            let cols = high.col - low.col + 1;
            let mut filled: Vec<Vec<String>> = Vec::new();
            let mut r: usize = 0;
            while r < rows
                invariant
                    r <= rows,
                    mat@.len() == 1,
                    mat@[0]@.len() == 1,
                    filled@.len() == r,
                    forall|i: int| 0 <= i < r ==> (#[trigger] filled@[i])@.len() == cols,
                    forall|i: int, k: int|
                        0 <= i < r && 0 <= k < cols ==> (#[trigger] filled@[i]@[k])@
                            == mat@[0]@[0]@,
                decreases rows - r,
            {
                let mut row: Vec<String> = Vec::new();
                let mut c: usize = 0;
                while c < cols
                    invariant
                        c <= cols,
                        mat@.len() == 1,
                        mat@[0]@.len() == 1,
                        row@.len() == c,
                        forall|k: int| 0 <= k < c ==> (#[trigger] row@[k])@ == mat@[0]@[0]@,
                    decreases cols - c,
                {
                    row.push(mat[0][0].clone());
                    c += 1;
                }
                filled.push(row);
                r += 1;
            }
            let ghost wanted = filled@;
            self.replace_matrix(&low, filled);
            proof {
                assert forall|other: SpreadsheetCell| #[trigger]
                    self.text_at(other) == (if between(*a, *b, other) && storable(other) {
                        mat@[0]@[0]@
                    } else {
                        old(self).text_at(other)
                    }) by {
                    if between(*a, *b, other) && storable(other) {
                        let i = other.row - low.row;
                        let k = other.col - low.col;
                        assert(wanted[i]@.len() == cols);
                        assert(wanted[i]@[k]@ == mat@[0]@[0]@);
                    } else if low.row <= other.row && other.row - low.row < wanted.len() {
                        assert(wanted[other.row - low.row]@.len() == cols);
                    }
                }
            }
        } else {
            self.replace_matrix(&low, mat);
        }
    }
}

/// The parts of `s` from `at` on that `separator` separates, where the part
/// under way starts at `start`.
pub open spec fn parts_from(s: Seq<char>, at: int, start: int, separator: char) -> Seq<Seq<char>>
    decreases s.len() - at,
{
    if at < 0 || at >= s.len() {
        seq![s.subrange(start, s.len() as int)]
    } else if s[at] == separator {
        seq![s.subrange(start, at)] + parts_from(s, at + 1, at + 1, separator)
    } else {
        parts_from(s, at + 1, start, separator)
    }
}

/// The parts of `s` that `separator` separates; one more than it has
/// separators.
pub open spec fn split_text(s: Seq<char>, separator: char) -> Seq<Seq<char>> {
    parts_from(s, 0, 0, separator)
}

/// The parts of `chars[from..to]` that `separator` separates.
fn split_between(chars: &Vec<char>, from: usize, to: usize, separator: char) -> (parts: Vec<String>)
    requires
        from <= to <= chars.len(),
    ensures
        texts(parts@) == split_text(chars@.subrange(from as int, to as int), separator),
{
    let ghost s = chars@.subrange(from as int, to as int);
    let mut parts: Vec<String> = Vec::new();
    let mut start: usize = from;
    let mut at: usize = from;
    assert(texts(parts@) + parts_from(s, 0, 0, separator) =~= parts_from(s, 0, 0, separator));
    while at < to
        invariant
            from <= start <= at <= to <= chars.len(),
            s == chars@.subrange(from as int, to as int),
            split_text(s, separator) == texts(parts@) + parts_from(
                s,
                at - from,
                start - from,
                separator,
            ),
        decreases to - at,
    {
        assert(s[at - from] == chars@[at as int]);
        if chars[at] == separator {
            let part = string_from(chars, start, at);
            let ghost before = parts@;
            assert(part@ =~= s.subrange(start - from, at - from));
            parts.push(part);
            assert(texts(parts@) =~= texts(before).push(part@));
            assert(texts(before) + (seq![part@] + parts_from(
                s,
                at - from + 1,
                at - from + 1,
                separator,
            )) =~= texts(before).push(part@) + parts_from(
                s,
                at - from + 1,
                at - from + 1,
                separator,
            ));
            start = at + 1;
        }
        at += 1;
    }
    let part = string_from(chars, start, to);
    let ghost before = parts@;
    assert(part@ =~= s.subrange(start - from, s.len() as int));
    parts.push(part);
    assert(texts(parts@) =~= texts(before) + seq![part@]);
    parts
}

/// The matrix that a text of the clipboard holds: its lines are the rows,
/// and tabs separate the cells of a row.
pub fn matrix_from_text(text: &str) -> (mat: Vec<Vec<String>>)
    ensures
        mat@.len() == split_text(text@, '\n').len(),
        forall|r: int|
            0 <= r < mat@.len() ==> texts((#[trigger] mat@[r])@) == split_text(
                split_text(text@, '\n')[r],
                '\t',
            ),
{
    let chars = chars_of(text);
    let ghost s = chars@;
    let ghost all = split_text(s, '\n');
    let mut mat: Vec<Vec<String>> = Vec::new();
    let mut start: usize = 0;
    let mut at: usize = 0;
    let ghost mut done: Seq<Seq<char>> = Seq::empty();
    proof {
        assert(done + parts_from(s, 0, 0, '\n') =~= all);
    }
    while at < chars.len()
        invariant
            start <= at <= chars.len(),
            s == chars@,
            all == done + parts_from(s, at as int, start as int, '\n'),
            mat@.len() == done.len(),
            forall|r: int|
                0 <= r < mat@.len() ==> texts((#[trigger] mat@[r])@) == split_text(done[r], '\t'),
        decreases chars.len() - at,
    {
        if chars[at] == '\n' {
            let row = split_between(&chars, start, at, '\t');
            proof {
                let line = s.subrange(start as int, at as int);
                assert(done + (seq![line] + parts_from(s, at + 1, at + 1, '\n')) =~= done.push(line)
                    + parts_from(s, at + 1, at + 1, '\n'));
                done = done.push(line);
            }
            mat.push(row);
            start = at + 1;
        }
        at += 1;
    }
    let row = split_between(&chars, start, chars.len(), '\t');
    proof {
        let line = s.subrange(start as int, s.len() as int);
        assert(done + seq![line] =~= done.push(line));
        done = done.push(line);
    }
    mat.push(row);
    proof {
        assert(all =~= done);
    }
    mat
}

/// `parts` with `separator` between each two of them.
pub open spec fn join_text(parts: Seq<Seq<char>>, separator: char) -> Seq<char>
    decreases parts.len(),
{
    if parts.len() == 0 {
        Seq::empty()
    } else if parts.len() == 1 {
        parts[0]
    } else {
        join_text(parts.drop_last(), separator) + seq![separator] + parts.last()
    }
}

/// The lines that the first `n` rows of `mat` make: the cells of each row
/// with tabs between them.
pub open spec fn row_lines(mat: Seq<Vec<String>>, n: int) -> Seq<Seq<char>> {
    Seq::new(n as nat, |r: int| join_text(texts(mat[r]@), '\t'))
}

/// Appends the texts of `parts`, with `separator` between each two.
fn append_joined(out: &mut Vec<char>, parts: &Vec<String>, separator: char)
    ensures
        final(out)@ == old(out)@ + join_text(texts(parts@), separator),
{
    let ghost all = texts(parts@);
    let mut i: usize = 0;
    assert(out@ =~= old(out)@ + join_text(all.take(0), separator));
    while i < parts.len()
        invariant
            i <= parts.len(),
            all == texts(parts@),
            out@ == old(out)@ + join_text(all.take(i as int), separator),
        decreases parts.len() - i,
    {
        let ghost before = out@;
        if i > 0 {
            out.push(separator);
        }
        let part = chars_of(parts[i].as_str());
        let mut k: usize = 0;
        let ghost middle = out@;
        while k < part.len()
            invariant
                k <= part.len(),
                out@ == middle + part@.take(k as int),
            decreases part.len() - k,
        {
            out.push(part[k]);
            k += 1;
            assert(middle + part@.take(k as int) =~= (middle + part@.take(k - 1)).push(
                part@[k - 1],
            ));
        }
        proof {
            assert(part@.take(part.len() as int) == part@);
            assert(all.take(i + 1).drop_last() =~= all.take(i as int));
            assert(all.take(i + 1).last() == part@);
            if i > 0 {
                assert(out@ =~= old(out)@ + (join_text(all.take(i as int), separator)
                    + seq![separator] + part@));
            } else {
                assert(all.take(1)[0] == part@);
                assert(join_text(all.take(0), separator) =~= Seq::<char>::empty());
                assert(out@ =~= old(out)@ + part@);
            }
        }
        i += 1;
    }
    assert(all.take(parts.len() as int) =~= all);
}

/// The text that a matrix gives the clipboard: a line for each row, with
/// tabs between the cells of a row.
pub fn text_from_matrix(mat: &Vec<Vec<String>>) -> (text: String)
    ensures
        text@ == join_text(row_lines(mat@, mat@.len() as int), '\n'),
{
    let mut out: Vec<char> = Vec::new();
    let mut r: usize = 0;
    assert(out@ =~= join_text(row_lines(mat@, 0), '\n'));
    while r < mat.len()
        invariant
            r <= mat.len(),
            out@ == join_text(row_lines(mat@, r as int), '\n'),
        decreases mat.len() - r,
    {
        let ghost before = out@;
        if r > 0 {
            out.push('\n');
        }
        append_joined(&mut out, &mat[r], '\t');
        proof {
            let lines = row_lines(mat@, r + 1);
            assert(lines.drop_last() =~= row_lines(mat@, r as int));
            assert(lines.last() == join_text(texts(mat@[r as int]@), '\t'));
            if r > 0 {
                assert(out@ =~= before + seq!['\n'] + lines.last());
            } else {
                assert(out@ =~= lines[0]);
            }
        }
        r += 1;
    }
    string_of(&out)
}

/// The upper left and the lower right corner of the least rectangle that
/// holds `a` and `b`.
pub fn corners(a: &SpreadsheetCell, b: &SpreadsheetCell) -> (found: [SpreadsheetCell; 2])
    ensures
        found[0] == (SpreadsheetCell {
            row: min_index(a.row, b.row),
            col: min_index(a.col, b.col),
        }),
        found[1] == (SpreadsheetCell {
            row: max_index(a.row, b.row),
            col: max_index(a.col, b.col),
        }),
{
    [
        SpreadsheetCell {
            row: if a.row <= b.row {
                a.row
            } else {
                b.row
            },
            col: if a.col <= b.col {
                a.col
            } else {
                b.col
            },
        },
        SpreadsheetCell {
            row: if a.row <= b.row {
                b.row
            } else {
                a.row
            },
            col: if a.col <= b.col {
                b.col
            } else {
                a.col
            },
        },
    ]
}

} // verus!

//! Cell references: the `A1` notation, bijective base-26 column names, and
//! rectangular ranges.

use vstd::prelude::*;

use crate::spreadsheet::max_index;
use crate::spreadsheet::min_index;
use crate::spreadsheet::span;
use crate::spreadsheet::SpreadsheetCell;
use crate::spreadsheet::SPREADSHEET_MAX_COLS;
use crate::spreadsheet::SPREADSHEET_MAX_ROWS;
use crate::numbers::all_digits;
use crate::numbers::decimal_between;
use crate::numbers::decimal_of;
use crate::numbers::decimal_text;
use crate::numbers::decimal_value;
use crate::numbers::lemma_decimal_text_of_value;
use crate::text::append_chars;
use crate::text::chars_of;
use crate::text::reversed;
use crate::text::is_letter;
use crate::text::lemma_run_end;
use crate::text::letter;
use crate::text::run_end;
use crate::text::scan_run;
use crate::text::string_of;
use crate::text::to_upper_char;
use crate::text::upper_char;
use crate::text::upper_text;
use crate::text::CharClass;
use vstd::arithmetic::div_mod::lemma_fundamental_div_mod_converse;

verus! {

/// A reference to a cell (`row` and `col` present), to a whole column (`col`
/// only) or to a whole row (`row` only). Both indices count from 0.
///
/// References are ordered by column, then by row; an absent coordinate comes
/// before every present one.
#[derive(Clone, Copy, Debug, Hash, PartialEq, Eq, Structural, PartialOrd, Ord)]
pub struct Reference {
    pub col: Option<usize>,
    pub row: Option<usize>,
}

/// The position of a coordinate in the order of references.
pub open spec fn rank(coordinate: Option<usize>) -> int {
    match coordinate {
        None => 0,
        Some(index) => index + 1,
    }
}

/// `a` comes strictly before `b` in the order of references.
pub open spec fn precedes(a: Reference, b: Reference) -> bool {
    rank(a.col) < rank(b.col) || (rank(a.col) == rank(b.col) && rank(a.row) < rank(b.row))
}

/// The value of one letter in a column name: `A` and `a` are 1, `Z` and `z` 26.
pub open spec fn letter_value(c: char) -> nat {
    (upper_char(c) as int - 'A' as int + 1) as nat
}

/// The 1-based column index that a column name denotes in bijective base 26.
pub open spec fn alpha_value(s: Seq<char>) -> nat
    decreases s.len(),
{
    if s.len() == 0 {
        0
    } else {
        alpha_value(s.drop_last()) * 26 + letter_value(s.last())
    }
}

/// The upper-case column name of a 1-based column index; empty for 0.
pub open spec fn index_alpha(n: nat) -> Seq<char>
    decreases n,
{
    if n == 0 {
        Seq::empty()
    } else {
        index_alpha(((n - 1) / 26) as nat).push((('A' as int) + (n - 1) % 26) as char)
    }
}

/// Every character of `s` is an ASCII letter.
pub open spec fn all_letters(s: Seq<char>) -> bool {
    forall|i: int| 0 <= i < s.len() ==> is_letter(#[trigger] s[i])
}

/// The reference that `s` spells, if it spells one: letters naming a column
/// in `1..=SPREADSHEET_MAX_COLS`, then digits naming a row in
/// `1..=SPREADSHEET_MAX_ROWS`, then nothing; either part may be missing, not
/// both.
pub open spec fn reference_of_text(s: Seq<char>) -> Option<Reference> {
    let split = run_end(s, 0, CharClass::Letter);
    let stop = run_end(s, split, CharClass::Digit);
    let letters = s.subrange(0, split);
    let digits = s.subrange(split, s.len() as int);
    if s.len() == 0 || stop != s.len() {
        None
    } else if split > 0 && !(1 <= alpha_value(letters) <= SPREADSHEET_MAX_COLS) {
        None
    } else if split < s.len() && !(1 <= decimal_value(digits) <= SPREADSHEET_MAX_ROWS) {
        None
    } else {
        Some(
            Reference {
                col: if split > 0 {
                    Some((alpha_value(letters) - 1) as usize)
                } else {
                    None
                },
                row: if split < s.len() {
                    Some((decimal_value(digits) - 1) as usize)
                } else {
                    None
                },
            },
        )
    }
}

/// The canonical text of a reference: the column name, then the 1-based row.
pub open spec fn reference_text(r: Reference) -> Seq<char> {
    let letters = match r.col {
        Some(col) => index_alpha((col + 1) as nat),
        None => Seq::<char>::empty(),
    };
    let digits = match r.row {
        Some(row) => decimal_text((row + 1) as nat),
        None => Seq::<char>::empty(),
    };
    letters + digits
}

/// The references of the range between `a` and `b`, in the order in which
/// `Reference::range` lists them.
///
/// With both corners complete this is the rectangle they span, row by row.
/// Where a corner lacks its row the range is made of whole columns, where one
/// lacks its column of whole rows; where rows and columns are both open, the
/// range is the two corners themselves, a whole row and a whole column.
pub open spec fn range_of(a: Reference, b: Reference) -> Seq<Reference> {
    match (a.row, b.row, a.col, b.col) {
        (Some(ar), Some(br), Some(ac), Some(bc)) => Seq::new(
            span(ar, br) * span(ac, bc),
            |k: int|
                Reference {
                    col: Some((min_index(ac, bc) + k % (span(ac, bc) as int)) as usize),
                    row: Some((min_index(ar, br) + k / (span(ac, bc) as int)) as usize),
                },
        ),
        (_, _, Some(ac), Some(bc)) => Seq::new(
            span(ac, bc),
            |k: int| Reference { col: Some((min_index(ac, bc) + k) as usize), row: None },
        ),
        (Some(ar), Some(br), _, _) => Seq::new(
            span(ar, br),
            |k: int| Reference { col: None, row: Some((min_index(ar, br) + k) as usize) },
        ),
        _ => if precedes(a, b) {
            seq![a, b]
        } else {
            seq![b, a]
        },
    }
}

/// The bijective base-26 value of a name is at least that of each prefix.
pub proof fn lemma_alpha_value_prefix(s: Seq<char>, k: int)
    requires
        0 <= k <= s.len(),
    ensures
        alpha_value(s.take(k)) <= alpha_value(s),
    decreases s.len() - k,
{
    if k < s.len() {
        lemma_alpha_value_prefix(s, k + 1);
        assert(s.take(k + 1).drop_last() == s.take(k));
        assert(alpha_value(s.take(k + 1)) >= alpha_value(s.take(k)) * 26) ;
    } else {
        assert(s.take(k) == s);
    }
}

/// Converting a column index to its name and back gives the index again.
pub proof fn lemma_alpha_round_trip(n: nat)
    ensures
        alpha_value(index_alpha(n)) == n,
        all_letters(index_alpha(n)),
        upper_text(index_alpha(n)) == index_alpha(n),
        n > 0 ==> index_alpha(n).len() > 0,
    decreases n,
{
    if n > 0 {
        let rest = ((n - 1) / 26) as nat;
        let c = (('A' as int) + (n - 1) % 26) as char;
        lemma_alpha_round_trip(rest);
        assert(index_alpha(n).drop_last() == index_alpha(rest));
        assert(index_alpha(n).last() == c);
        assert(upper_char(c) == c);
        assert(letter_value(c) == (n - 1) % 26 + 1);
        assert(upper_text(index_alpha(n)) =~= index_alpha(n));
    } else {
        assert(upper_text(index_alpha(n)) =~= index_alpha(n));
    }
}

/// Converting a column name to its index and back gives the name in upper
/// case.
pub proof fn lemma_index_alpha_of_value(s: Seq<char>)
    requires
        all_letters(s),
    ensures
        index_alpha(alpha_value(s)) == upper_text(s),
        s.len() > 0 ==> alpha_value(s) > 0,
    decreases s.len(),
{
    if s.len() > 0 {
        let front = s.drop_last();
        let c = s.last();
        lemma_index_alpha_of_value(front);
        let v = letter_value(c);
        assert(is_letter(c));
        assert(1 <= v <= 26);
        let n = alpha_value(s);
        assert(n == alpha_value(front) * 26 + v);
        assert((n - 1) / 26 == alpha_value(front) as int);
        assert((n - 1) % 26 == v - 1);
        assert((('A' as int) + (n - 1) % 26) as char == upper_char(c));
        assert(upper_text(s) =~= upper_text(front).push(upper_char(c)));
    } else {
        assert(upper_text(s) =~= Seq::<char>::empty());
    }
}

/// A complete reference reads back from its own canonical text, and the
/// canonical text of what a text spells is that text in upper case, provided
/// its row number is written without leading zeros.
pub proof fn lemma_parse_canonical(t: Seq<char>)
    requires
        reference_of_text(t) is Some,
        run_end(t, 0, CharClass::Letter) < t.len() ==> t[run_end(t, 0, CharClass::Letter)] != '0',
    ensures
        reference_text(reference_of_text(t)->0) == upper_text(t),
{
    let split = run_end(t, 0, CharClass::Letter);
    lemma_run_end(t, 0, CharClass::Letter);
    lemma_run_end(t, split, CharClass::Digit);
    let letters = t.subrange(0, split);
    let digits = t.subrange(split, t.len() as int);
    let r = reference_of_text(t)->0;
    assert(all_letters(letters));
    assert(all_digits(digits));
    lemma_index_alpha_of_value(letters);
    if split < t.len() {
        assert(digits[0] == t[split]);
        lemma_decimal_text_of_value(digits);
    }
    assert(upper_text(digits) =~= digits);
    assert(upper_text(t) =~= upper_text(letters) + digits);
    if split == 0 {
        assert(letters =~= Seq::<char>::empty());
    }
    if split == t.len() {
        assert(digits =~= Seq::<char>::empty());
    }
}

/// The references of a range between two references of the sheet are
/// references of the sheet.
pub proof fn lemma_range_is_valid(a: Reference, b: Reference, k: int)
    requires
        a.is_valid(),
        b.is_valid(),
        0 <= k < range_of(a, b).len(),
    ensures
        range_of(a, b)[k].is_valid(),
{
    match (a.row, b.row, a.col, b.col) {
        (Some(ar), Some(br), Some(ac), Some(bc)) => {
            let rows = span(ar, br) as int;
            let cols = span(ac, bc) as int;
            assert(0 <= k % cols < cols);
            assert(0 <= k / cols < rows) by (nonlinear_arith)
                requires
                    0 <= k < rows * cols,
                    cols > 0,
            ;
        },
        _ => {},
    }
}

/// A range does not depend on the order of its corners.
pub proof fn lemma_range_symmetric(a: Reference, b: Reference)
    ensures
        range_of(a, b) == range_of(b, a),
        range_of(a, b).to_set() == range_of(b, a).to_set(),
{
    assert(range_of(a, b) =~= range_of(b, a));
}


/// The value of the column name `chars[from..to]`, when it is made of letters
/// only and its value fits in 32 bits.
fn alpha_index_between(chars: &Vec<char>, from: usize, to: usize) -> (index: Option<u32>)
    requires
        from <= to <= chars.len(),
    ensures
        index matches Some(v) ==> all_letters(chars@.subrange(from as int, to as int))
            && alpha_value(chars@.subrange(from as int, to as int)) == v,
        index is None ==> !all_letters(chars@.subrange(from as int, to as int))
            || alpha_value(chars@.subrange(from as int, to as int)) > u32::MAX,
{
    let ghost name = chars@.subrange(from as int, to as int);
    let mut acc: u64 = 0;
    let mut i: usize = from;
    while i < to
        invariant
            from <= i <= to <= chars.len(),
            name == chars@.subrange(from as int, to as int),
            acc <= u32::MAX,
            acc == alpha_value(name.take(i - from)),
            forall|k: int| 0 <= k < i - from ==> is_letter(#[trigger] name[k]),
        decreases to - i,
    {
        let c = chars[i];
        assert(name[i - from] == c);
        if !letter(c) {
            return None;
        }
        let value: u64 = (to_upper_char(c) as u64) - 64;
        let next: u64 = acc * 26 + value;
        proof {
            assert(name.take(i - from + 1).drop_last() == name.take(i - from));
            assert(name.take(i - from + 1).last() == c);
            assert(next == alpha_value(name.take(i - from + 1)));
            lemma_alpha_value_prefix(name, i - from + 1);
        }
        if next > 0xffff_ffff {
            return None;
        }
        acc = next;
        i += 1;
    }
    proof {
        assert(name.take(to - from) == name);
    }
    Some(acc as u32)
}

/// The upper-case column name of the 1-based column index `n`.
fn alpha_of(n: u128) -> (name: Vec<char>)
    ensures
        name@ == index_alpha(n as nat),
{
    let mut rest: u128 = n;
    let mut low_first: Vec<char> = Vec::new();
    while rest > 0
        invariant
            index_alpha(n as nat) == index_alpha(rest as nat) + low_first@.reverse(),
        decreases rest,
    {
        let k: u128 = (rest - 1) % 26;
        let c: char = (65u8 + (k as u8)) as char;
        let ghost before = low_first@;
        let ghost old_rest = rest;
        low_first.push(c);
        rest = (rest - 1) / 26;
        proof {
            assert(index_alpha(old_rest as nat) == index_alpha(rest as nat).push(c));
            assert(low_first@.reverse() =~= seq![c] + before.reverse());
            assert(index_alpha(rest as nat).push(c) + before.reverse() =~= index_alpha(
                rest as nat,
            ) + (seq![c] + before.reverse()));
        }
    }
    let name = reversed(&low_first);
    assert(index_alpha(0nat) + name@ =~= name@);
    name
}

impl Reference {
    /// A reference names a row, a column or both, inside the sheet's limits.
    pub open spec fn is_valid(self) -> bool {
        &&& (self.row is Some || self.col is Some)
        &&& (self.row matches Some(row) ==> row < SPREADSHEET_MAX_ROWS)
        &&& (self.col matches Some(col) ==> col < SPREADSHEET_MAX_COLS)
    }

    /// The reference to the cell at `row` and `col`, both counted from 0.
    pub fn cell(row: usize, col: usize) -> (r: Reference)
        ensures
            r == (Reference { col: Some(col), row: Some(row) }),
    {
        Reference { col: Some(col), row: Some(row) }
    }

    /// Whether `self` comes strictly before `other` in the order of
    /// references.
    pub fn comes_before(&self, other: &Reference) -> (before: bool)
        ensures
            before == precedes(*self, *other),
    {
        let (sc, oc) = (axis_rank(self.col), axis_rank(other.col));
        if sc != oc {
            sc < oc
        } else {
            axis_rank(self.row) < axis_rank(other.row)
        }
    }

    /// How many references the range between `self` and `other` holds, when
    /// that number fits the machine's word.
    pub fn range_len(&self, other: &Reference) -> (len: Option<usize>)
        ensures
            len matches Some(n) ==> n == range_of(*self, *other).len(),
            len is None ==> range_of(*self, *other).len() > usize::MAX,
    {
        match (self.row, other.row, self.col, other.col) {
            (Some(ar), Some(br), Some(ac), Some(bc)) => {
                let rows = index_span(ar, br);
                let cols = index_span(ac, bc);
                match (rows, cols) {
                    (Some(rows), Some(cols)) => {
                        let total = rows.checked_mul(cols);
                        total
                    },
                    _ => {
                        proof {
                            let r = span(ar, br);
                            let c = span(ac, bc);
                            assert(r >= 1 && c >= 1);
                            assert(r > usize::MAX || c > usize::MAX);
                            assert(r * c >= r && r * c >= c) by (nonlinear_arith)
                                requires
                                    r >= 1,
                                    c >= 1,
                            ;
                        }
                        None
                    },
                }
            },
            (_, _, Some(ac), Some(bc)) => index_span(ac, bc),
            (Some(ar), Some(br), _, _) => index_span(ar, br),
            _ => Some(2),
        }
    }

    /// All references of the range between `self` and `other`; the corners
    /// may come in either order.
    pub fn range(&self, other: &Reference) -> (cells: Vec<Reference>)
        requires
            range_of(*self, *other).len() <= usize::MAX,
        ensures
            cells@ == range_of(*self, *other),
    {
        let ghost all = range_of(*self, *other);
        let mut cells: Vec<Reference> = Vec::new();
        match (self.row, other.row, self.col, other.col) {
            (Some(ar), Some(br), Some(ac), Some(bc)) => {
                let min_row = lesser(ar, br);
                let min_col = lesser(ac, bc);
                proof {
                    let r = span(ar, br) as int;
                    let c = span(ac, bc) as int;
                    assert(r <= r * c && c <= r * c) by (nonlinear_arith)
                        requires
                            r >= 1,
                            c >= 1,
                    ;
                }
                let rows = greater(ar, br) - min_row + 1;
                let cols = greater(ac, bc) - min_col + 1;
                let mut r: usize = 0;
                while r < rows
                    invariant
                        all == range_of(*self, *other),
                        self.row == Some(ar),
                        other.row == Some(br),
                        self.col == Some(ac),
                        other.col == Some(bc),
                        min_row == min_index(ar, br),
                        min_col == min_index(ac, bc),
                        rows == span(ar, br),
                        cols == span(ac, bc),
                        rows * cols <= usize::MAX,
                        r <= rows,
                        cells@.len() == r * cols,
                        forall|k: int| 0 <= k < cells@.len() ==> cells@[k] == all[k],
                    decreases rows - r,
                {
                    let mut c: usize = 0;
                    while c < cols
                        invariant
                            all == range_of(*self, *other),
                            self.row == Some(ar),
                            other.row == Some(br),
                            self.col == Some(ac),
                            other.col == Some(bc),
                            min_row == min_index(ar, br),
                            min_col == min_index(ac, bc),
                            rows == span(ar, br),
                            cols == span(ac, bc),
                            rows * cols <= usize::MAX,
                            r < rows,
                            c <= cols,
                            cells@.len() == r * cols + c,
                            forall|k: int| 0 <= k < cells@.len() ==> cells@[k] == all[k],
                        decreases cols - c,
                    {
                        proof {
                            let k = r * cols + c;
                            assert(k < rows * cols) by (nonlinear_arith)
                                requires
                                    k == r * cols + c,
                                    0 <= r < rows,
                                    0 <= c < cols,
                            ;
                            lemma_fundamental_div_mod_converse(k, cols as int, r as int, c as int);
                        }
                        cells.push(Reference { col: Some(min_col + c), row: Some(min_row + r) });
                        c += 1;
                    }
                    assert((r + 1) * cols == r * cols + cols) by (nonlinear_arith);
                    r += 1;
                }
            },
            (_, _, Some(ac), Some(bc)) => {
                let min_col = lesser(ac, bc);
                let cols = greater(ac, bc) - min_col + 1;
                let mut c: usize = 0;
                while c < cols
                    invariant
                        all == range_of(*self, *other),
                        all.len() == cols,
                        forall|k: int|
                            0 <= k < all.len() ==> all[k] == (Reference {
                                col: Some((min_index(ac, bc) + k) as usize),
                                row: None,
                            }),
                        min_col == min_index(ac, bc),
                        cols == span(ac, bc),
                        c <= cols,
                        cells@.len() == c,
                        forall|k: int| 0 <= k < cells@.len() ==> cells@[k] == all[k],
                    decreases cols - c,
                {
                    cells.push(Reference { col: Some(min_col + c), row: None });
                    c += 1;
                }
            },
            (Some(ar), Some(br), _, _) => {
                let min_row = lesser(ar, br);
                let rows = greater(ar, br) - min_row + 1;
                let mut r: usize = 0;
                while r < rows
                    invariant
                        all == range_of(*self, *other),
                        all.len() == rows,
                        forall|k: int|
                            0 <= k < all.len() ==> all[k] == (Reference {
                                col: None,
                                row: Some((min_index(ar, br) + k) as usize),
                            }),
                        min_row == min_index(ar, br),
                        rows == span(ar, br),
                        r <= rows,
                        cells@.len() == r,
                        forall|k: int| 0 <= k < cells@.len() ==> cells@[k] == all[k],
                    decreases rows - r,
                {
                    cells.push(Reference { col: None, row: Some(min_row + r) });
                    r += 1;
                }
            },
            _ => {
                if self.comes_before(other) {
                    cells.push(*self);
                    cells.push(*other);
                } else {
                    cells.push(*other);
                    cells.push(*self);
                }
            },
        }
        assert(cells@ =~= all);
        cells
    }

    /// The canonical text of the reference: the upper-case column name, then
    /// the 1-based row number.
    pub fn to_string(&self) -> (text: String)
        ensures
            text@ == reference_text(*self),
    {
        let mut out: Vec<char> = Vec::new();
        if let Some(col) = self.col {
            let letters = alpha_of((col as u128) + 1);
            append_chars(&mut out, &letters);
        }
        if let Some(row) = self.row {
            let digits = decimal_of((row as u128) + 1);
            append_chars(&mut out, &digits);
        }
        assert(out@ =~= reference_text(*self));
        string_of(&out)
    }

    /// The 1-based index of the column named `alpha`, in either case: `None`
    /// when `alpha` holds anything but ASCII letters, or names a column past
    /// what 32 bits can count.
    pub fn alpha_to_index(alpha: &str) -> (index: Option<u32>)
        ensures
            index matches Some(v) ==> all_letters(alpha@) && alpha_value(alpha@) == v,
            index is None ==> !all_letters(alpha@) || alpha_value(alpha@) > u32::MAX,
    {
        let chars = chars_of(alpha);
        assert(chars@.subrange(0, chars.len() as int) == alpha@);
        alpha_index_between(&chars, 0, chars.len())
    }

    /// The upper-case name of the column with the 1-based index `index`; the
    /// empty name for 0.
    pub fn index_to_alpha(index: u32) -> (alpha: Option<String>)
        ensures
            alpha matches Some(name) && name@ == index_alpha(index as nat),
    {
        let letters = alpha_of(index as u128);
        Some(string_of(&letters))
    }

    /// The cell that the reference points at, with 0 for a missing
    /// coordinate.
    pub fn get_cell(&self) -> (cell: SpreadsheetCell)
        ensures
            cell.row == (match self.row {
                Some(row) => row,
                None => 0,
            }),
            cell.col == (match self.col {
                Some(col) => col,
                None => 0,
            }),
    {
        SpreadsheetCell {
            row: match self.row {
                Some(row) => row,
                None => 0,
            },
            col: match self.col {
                Some(col) => col,
                None => 0,
            },
        }
    }
}

/// The rank of a coordinate, as `rank` defines it.
fn axis_rank(coordinate: Option<usize>) -> (r: u128)
    ensures
        r == rank(coordinate),
{
    match coordinate {
        None => 0,
        Some(index) => (index as u128) + 1,
    }
}

fn lesser(a: usize, b: usize) -> (m: usize)
    ensures
        m == min_index(a, b),
{
    if a <= b {
        a
    } else {
        b
    }
}

fn greater(a: usize, b: usize) -> (m: usize)
    ensures
        m == max_index(a, b),
{
    if a <= b {
        b
    } else {
        a
    }
}

/// The number of indices from the lesser of `a` and `b` to the greater, when
/// it fits the machine's word.
fn index_span(a: usize, b: usize) -> (count: Option<usize>)
    ensures
        count matches Some(n) ==> n == span(a, b),
        count is None ==> span(a, b) > usize::MAX,
{
    (greater(a, b) - lesser(a, b)).checked_add(1)
}

/// The reference that `chars` spells, as `parse_reference` reads it.
pub fn reference_of_chars(chars: &Vec<char>) -> (reference: Option<Reference>)
    ensures
        reference == reference_of_text(chars@),
        reference matches Some(r) ==> r.is_valid(),
{
    let split = scan_run(chars, 0, CharClass::Letter);
    let stop = scan_run(chars, split, CharClass::Digit);
    if chars.len() == 0 || stop != chars.len() {
        return None;
    }
    proof {
        lemma_run_end(chars@, 0, CharClass::Letter);
        lemma_run_end(chars@, split as int, CharClass::Digit);
        assert(all_digits(chars@.subrange(split as int, chars.len() as int)));
    }
    let mut col: Option<usize> = None;
    if split > 0 {
        match alpha_index_between(chars, 0, split) {
            Some(index) => {
                if index < 1 || index as usize > SPREADSHEET_MAX_COLS {
                    return None;
                }
                col = Some((index - 1) as usize);
            },
            None => {
                assert(all_letters(chars@.subrange(0, split as int)));
                return None;
            },
        }
    }
    let mut row: Option<usize> = None;
    if split < chars.len() {
        match decimal_between(chars, split, chars.len(), SPREADSHEET_MAX_ROWS) {
            Some(number) => {
                if number < 1 {
                    return None;
                }
                row = Some(number - 1);
            },
            None => {
                return None;
            },
        }
    }
    Some(Reference { col, row })
}

/// Reads a reference in `A1` notation, in either case: letters for the
/// column, then digits for the row, either of which may be missing. `None`
/// when `text` is anything else, or points outside the sheet's limits.
pub fn parse_reference(text: &str) -> (reference: Option<Reference>)
    ensures
        reference == reference_of_text(text@),
        reference matches Some(r) ==> r.is_valid(),
{
    let chars = chars_of(text);
    reference_of_chars(&chars)
}

} // verus!

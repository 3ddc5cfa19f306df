//! What is written into each sheet: the cells as they are, and two more
//! columns, `ФИО` and `Л/с`, filled from the last non-empty cell of each row.
//!
//! The sheet is modelled by the values that the rules read; writing it, with
//! its numbers and column widths, is left to the caller, who follows the plan
//! computed here.

use vstd::prelude::*;
use crate::parse::{extract_account_and_name_with, extraction, DecimalDigits, Extracted};
use crate::text::{
    chars_of, decimal_digits, push_char, push_decimal, push_str, trim, trim_bounds, zero_padded,
};

verus! {

/// A cell as the rules see it. `Shown` holds the text of a cell whose value
/// is neither empty, a string, an integer nor a boolean (a float, a date, a
/// duration, an error), as it is displayed.
pub enum Cell {
    Empty,
    Text(String),
    Int(i64),
    Bool(bool),
    Shown(String),
}

/// The decimal text of an integer, with a minus sign when it is negative.
pub open spec fn int_text(v: int) -> Seq<char> {
    if v < 0 {
        seq!['-'] + decimal_digits((-v) as nat)
    } else {
        decimal_digits(v as nat)
    }
}

/// The text of a cell.
pub open spec fn cell_text(c: Cell) -> Seq<char> {
    match c {
        Cell::Empty => Seq::<char>::empty(),
        Cell::Text(s) => s@,
        Cell::Int(v) => int_text(v as int),
        Cell::Bool(b) => if b {
            seq!['t', 'r', 'u', 'e']
        } else {
            seq!['f', 'a', 'l', 's', 'e']
        },
        Cell::Shown(s) => s@,
    }
}

/// An empty cell, or a string cell that holds only white space.
pub open spec fn cell_is_empty(c: Cell) -> bool {
    match c {
        Cell::Empty => true,
        Cell::Text(s) => trim(s@).len() == 0,
        _ => false,
    }
}

/// The position of the last cell of `row` that is not empty.
pub open spec fn last_filled(row: Seq<Cell>) -> Option<int>
    decreases row.len(),
{
    if row.len() == 0 {
        None
    } else if !cell_is_empty(row.last()) {
        Some(row.len() - 1)
    } else {
        last_filled(row.drop_last())
    }
}

/// What a row yields: the account and name in its last non-empty cell.
pub open spec fn row_extraction(row: Seq<Cell>) -> Option<(Seq<char>, Seq<char>)> {
    match last_filled(row) {
        Some(k) => extraction(cell_text(row[k])),
        None => None,
    }
}

/// What is written into the two added columns of a row.
pub enum RowOutcome {
    /// The column titles `ФИО` and `Л/с`: the first row yields nothing.
    Header,
    /// The name and the account found in the row.
    Filled(Extracted),
    /// Nothing: the row yields nothing.
    Skipped,
}

/// The outcome that the rules give a row; `first` marks the sheet's first.
pub open spec fn outcome_for(o: RowOutcome, row: Seq<Cell>, first: bool) -> bool {
    match row_extraction(row) {
        Some((account, name)) => o matches RowOutcome::Filled(x) && x.personal_account@
            == account && x.full_name@ == name,
        None => if first {
            o is Header
        } else {
            o is Skipped
        },
    }
}

/// The number of rows that are filled.
pub open spec fn filled_count(rows: Seq<RowOutcome>) -> nat
    decreases rows.len(),
{
    if rows.len() == 0 {
        0
    } else {
        filled_count(rows.drop_last()) + if rows.last() is Filled {
            1nat
        } else {
            0nat
        }
    }
}

/// The used part of a sheet: its top-left cell, its width, and its rows of
/// `width` cells each.
pub struct SheetGrid {
    pub start_row: u32,
    pub start_col: u32,
    pub width: usize,
    pub rows: Vec<Vec<Cell>>,
}

/// A sheet without data: nothing is written into it.
pub open spec fn grid_is_blank(g: SheetGrid) -> bool {
    g.rows@.len() == 0 || g.width == 0
}

/// The grid's cells, its two added columns and its rows have positions that
/// a worksheet can address.
pub open spec fn grid_fits(g: SheetGrid) -> bool {
    grid_is_blank(g) || (g.start_col + g.width + 1 <= u16::MAX && g.start_row + g.rows@.len()
        <= u32::MAX + 1)
}

/// The plan of a sheet: the added columns (none for a sheet without data),
/// the outcome of each row, and how many rows were filled and skipped.
pub struct SheetPlan {
    pub start_row: u32,
    pub start_col: u16,
    pub columns: Option<(u16, u16)>,
    pub rows: Vec<RowOutcome>,
    pub processed: usize,
    pub skipped: usize,
}

/// `p` is the plan of `g`: for a sheet with data, the name column follows
/// the last column and the account column follows it; each row has the
/// outcome the rules give it; the counts add up.
pub open spec fn plan_of(g: SheetGrid, p: SheetPlan) -> bool {
    if grid_is_blank(g) {
        &&& p.columns is None
        &&& p.rows@.len() == 0
        &&& p.processed == 0
        &&& p.skipped == 0
    } else {
        &&& p.start_row == g.start_row
        &&& p.start_col == g.start_col
        &&& p.columns == Some(((g.start_col + g.width) as u16, (g.start_col + g.width + 1) as u16))
        &&& p.rows@.len() == g.rows@.len()
        &&& forall|k: int|
            0 <= k < p.rows@.len() ==> outcome_for(#[trigger] p.rows@[k], g.rows@[k]@, k == 0)
        &&& p.processed == filled_count(p.rows@)
        &&& p.skipped == p.rows@.len() - filled_count(p.rows@)
    }
}

/// The position of the last non-empty cell lies within the row.
proof fn lemma_last_filled_bound(row: Seq<Cell>)
    ensures
        last_filled(row) matches Some(k) ==> 0 <= k < row.len() && !cell_is_empty(row[k]),
    decreases row.len(),
{
    if row.len() > 0 && cell_is_empty(row.last()) {
        lemma_last_filled_bound(row.drop_last());
    }
}

/// Empty cells at the end of a row do not change what the row yields: the
/// last non-empty cell is read.
pub proof fn law_trailing_empty_cells_ignored(row: Seq<Cell>, tail: Seq<Cell>)
    requires
        forall|k: int| 0 <= k < tail.len() ==> cell_is_empty(#[trigger] tail[k]),
    ensures
        row_extraction(row + tail) == row_extraction(row),
    decreases tail.len(),
{
    if tail.len() == 0 {
        assert(row + tail =~= row);
    } else {
        let whole = row + tail;
        assert(whole.drop_last() =~= row + tail.drop_last());
        assert(whole.last() == tail.last());
        assert(cell_is_empty(tail[tail.len() - 1]));
        law_trailing_empty_cells_ignored(row, tail.drop_last());
        lemma_last_filled_bound(row);
        lemma_last_filled_bound(row + tail.drop_last());
        lemma_trailing_index(row, tail.drop_last());
    }
}

/// Appending empty cells keeps the position of the last non-empty one.
proof fn lemma_trailing_index(row: Seq<Cell>, tail: Seq<Cell>)
    requires
        forall|k: int| 0 <= k < tail.len() ==> cell_is_empty(#[trigger] tail[k]),
    ensures
        last_filled(row + tail) == last_filled(row),
    decreases tail.len(),
{
    if tail.len() == 0 {
        assert(row + tail =~= row);
    } else {
        let whole = row + tail;
        assert(whole.drop_last() =~= row + tail.drop_last());
        assert(whole.last() == tail.last());
        assert(cell_is_empty(tail[tail.len() - 1]));
        lemma_trailing_index(row, tail.drop_last());
    }
}

/// The number of rows whose last non-empty cell yields an account.
pub open spec fn rows_with_account(rows: Seq<Vec<Cell>>) -> nat
    decreases rows.len(),
{
    if rows.len() == 0 {
        0
    } else {
        rows_with_account(rows.drop_last()) + if row_extraction(rows.last()@) is Some {
            1nat
        } else {
            0nat
        }
    }
}

/// A row whose last non-empty cell yields an account is filled with that
/// account and the name found after it, whether or not a name was found;
/// a row that yields no account is not filled.
pub proof fn law_rows_with_account_are_filled(g: SheetGrid, p: SheetPlan, k: int)
    requires
        plan_of(g, p),
        !grid_is_blank(g),
        0 <= k < g.rows@.len(),
    ensures
        row_extraction(g.rows@[k]@) matches Some((account, name)) ==> p.rows@[k] matches RowOutcome::Filled(
            x,
        ) && x.personal_account@ == account && x.full_name@ == name,
        row_extraction(g.rows@[k]@) is None ==> !(p.rows@[k] is Filled),
{
    assert(outcome_for(p.rows@[k], g.rows@[k]@, k == 0));
}

/// The rows counted as filled are exactly the rows that yield an account.
pub proof fn law_filled_rows_are_rows_with_account(g: SheetGrid, p: SheetPlan)
    requires
        plan_of(g, p),
        !grid_is_blank(g),
    ensures
        p.processed == rows_with_account(g.rows@),
        p.skipped == g.rows@.len() - rows_with_account(g.rows@),
{
    lemma_filled_prefix(g, p, g.rows@.len() as int);
    assert(p.rows@.take(p.rows@.len() as int) =~= p.rows@);
    assert(g.rows@.take(g.rows@.len() as int) =~= g.rows@);
}

proof fn lemma_filled_prefix(g: SheetGrid, p: SheetPlan, m: int)
    requires
        plan_of(g, p),
        !grid_is_blank(g),
        0 <= m <= g.rows@.len(),
    ensures
        filled_count(p.rows@.take(m)) == rows_with_account(g.rows@.take(m)),
    decreases m,
{
    if m > 0 {
        lemma_filled_prefix(g, p, m - 1);
        assert(p.rows@.take(m).drop_last() =~= p.rows@.take(m - 1));
        assert(g.rows@.take(m).drop_last() =~= g.rows@.take(m - 1));
        law_rows_with_account_are_filled(g, p, m - 1);
        assert(p.rows@.take(m).last() == p.rows@[m - 1]);
        assert(g.rows@.take(m).last() == g.rows@[m - 1]);
        assert(outcome_for(p.rows@[m - 1], g.rows@[m - 1]@, m - 1 == 0));
    } else {
        assert(p.rows@.take(0) =~= Seq::<RowOutcome>::empty());
        assert(g.rows@.take(0) =~= Seq::<Vec<Cell>>::empty());
    }
}

/// Every row of a sheet with data is counted once, as filled or as skipped.
pub proof fn law_rows_counted_once(g: SheetGrid, p: SheetPlan)
    requires
        plan_of(g, p),
    ensures
        p.processed + p.skipped == p.rows@.len(),
        p.rows@.len() == if grid_is_blank(g) {
            0
        } else {
            g.rows@.len()
        },
{
    if !grid_is_blank(g) {
        lemma_filled_count_bound(p.rows@);
    }
}

proof fn lemma_filled_count_bound(rows: Seq<RowOutcome>)
    ensures
        filled_count(rows) <= rows.len(),
    decreases rows.len(),
{
    if rows.len() > 0 {
        lemma_filled_count_bound(rows.drop_last());
    }
}

/// Only the first row of a sheet can be given the column titles.
pub proof fn law_titles_only_on_first_row(g: SheetGrid, p: SheetPlan)
    requires
        plan_of(g, p),
    ensures
        forall|k: int| 1 <= k < p.rows@.len() ==> !(#[trigger] p.rows@[k] is Header),
{
    if !grid_is_blank(g) {
        assert forall|k: int| 1 <= k < p.rows@.len() implies !(#[trigger] p.rows@[k] is Header) by {
            assert(outcome_for(p.rows@[k], g.rows@[k]@, k == 0));
        }
    }
}

/// The decimal text of an integer.
pub fn int_to_text(v: i64) -> (r: String)
    ensures
        r@ == int_text(v as int),
{
    let mut out = String::new();
    let magnitude: u64 = if v < 0 {
        (-(v as i128)) as u64
    } else {
        v as u64
    };
    if v < 0 {
        push_char(&mut out, '-');
    }
    let ghost before = out@;
    push_decimal(&mut out, magnitude, 0);
    proof {
        let d = decimal_digits(magnitude as nat);
        assert(zero_padded(magnitude as nat, 0) == d);
        if v < 0 {
            assert(out@ =~= seq!['-'] + d);
        } else {
            assert(out@ =~= d);
        }
    }
    out
}

/// The text of a cell.
pub fn cell_to_text(c: &Cell) -> (r: String)
    ensures
        r@ == cell_text(*c),
{
    match c {
        Cell::Empty => String::new(),
        Cell::Text(s) => s.clone(),
        Cell::Int(v) => int_to_text(*v),
        Cell::Bool(b) => {
            let mut out = String::new();
            if *b {
                push_str(&mut out, "true");
                proof {
                    reveal_strlit("true");
                }
                assert(out@ =~= seq!['t', 'r', 'u', 'e']);
            } else {
                push_str(&mut out, "false");
                proof {
                    reveal_strlit("false");
                }
                assert(out@ =~= seq!['f', 'a', 'l', 's', 'e']);
            }
            out
        },
        Cell::Shown(s) => s.clone(),
    }
}

/// Whether a cell is empty or holds only white space.
pub fn is_empty_cell(c: &Cell) -> (r: bool)
    ensures
        r == cell_is_empty(*c),
{
    match c {
        Cell::Text(s) => {
            let v = chars_of(s.as_str());
            let (lo, hi) = trim_bounds(&v);
            lo == hi
        },
        Cell::Empty => true,
        _ => false,
    }
}

/// The position of the last cell of `row` that is not empty.
pub fn last_filled_cell(row: &Vec<Cell>) -> (r: Option<usize>)
    ensures
        match r {
            Some(k) => last_filled(row@) == Some(k as int) && k < row@.len(),
            None => last_filled(row@) is None,
        },
{
    let mut n = row.len();
    assert(row@.take(n as int) =~= row@);
    while n > 0
        invariant
            n <= row@.len(),
            last_filled(row@) == last_filled(row@.take(n as int)),
        decreases n,
    {
        assert(row@.take(n as int).drop_last() =~= row@.take(n - 1));
        if !is_empty_cell(&row[n - 1]) {
            return Some(n - 1);
        }
        n = n - 1;
    }
    None
}

/// The account and name in the last non-empty cell of `row`.
pub fn row_account_and_name(digits: &DecimalDigits, row: &Vec<Cell>) -> (r: Option<Extracted>)
    ensures
        match r {
            Some(x) => row_extraction(row@) == Some((x.personal_account@, x.full_name@)),
            None => row_extraction(row@) is None,
        },
{
    proof {
        assert(row@.take(row@.len() as int) =~= row@);
    }
    match last_filled_cell(row) {
        None => None,
        Some(k) => {
            let text = cell_to_text(&row[k]);
            extract_account_and_name_with(digits, text.as_str())
        },
    }
}

/// The plan of a sheet: the two added columns after the last one, and for
/// every row its account and name, or the column titles for a first row
/// that yields nothing, or nothing.
pub fn plan_sheet(digits: &DecimalDigits, grid: &SheetGrid) -> (p: SheetPlan)
    requires
        grid_fits(*grid),
    ensures
        plan_of(*grid, p),
{
    let start_col = if grid.start_col <= 65535 { grid.start_col as u16 } else { 0 };
    if grid.rows.len() == 0 || grid.width == 0 {
        return SheetPlan {
            start_row: grid.start_row,
            start_col,
            columns: None,
            rows: Vec::new(),
            processed: 0,
            skipped: 0,
        };
    }
    let fio_col = start_col + grid.width as u16;
    let ls_col = fio_col + 1;
    let mut rows: Vec<RowOutcome> = Vec::new();
    let mut processed: usize = 0;
    let mut skipped: usize = 0;
    for k in 0..grid.rows.len()
        invariant
            rows@.len() == k,
            forall|j: int| 0 <= j < k ==> outcome_for(#[trigger] rows@[j], grid.rows@[j]@, j == 0),
            processed == filled_count(rows@),
            processed + skipped == k,
    {
        let extracted = row_account_and_name(digits, &grid.rows[k]);
        let ghost before = rows@;
        if k == 0 && extracted.is_none() {
            rows.push(RowOutcome::Header);
            skipped = skipped + 1;
        } else {
            match extracted {
                Some(x) => {
                    rows.push(RowOutcome::Filled(x));
                    processed = processed + 1;
                },
                None => {
                    rows.push(RowOutcome::Skipped);
                    skipped = skipped + 1;
                },
            }
        }
        assert(rows@.drop_last() =~= before);
    }
    SheetPlan { start_row: grid.start_row, start_col, columns: Some((fio_col, ls_col)), rows, processed, skipped }
}

} // verus!

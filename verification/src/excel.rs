//! The plan of a whole workbook: which sheets are processed, under which
//! names, and the totals that are reported.

use vstd::prelude::*;
use crate::sheet::{grid_fits, grid_is_blank, plan_of, plan_sheet, SheetGrid, SheetPlan};
use crate::parse::DecimalDigits;
use crate::text::{chars_of, push_char};

verus! {

/// The longest sheet name that a workbook accepts.
pub const MAX_SHEET_NAME: usize = 31;

/// A character that a sheet name may not hold.
pub open spec fn is_forbidden_in_name(c: char) -> bool {
    c == '\\' || c == '/' || c == '*' || c == '?' || c == ':' || c == '[' || c == ']'
}

/// The character as it stands in a sheet name: forbidden ones become spaces.
pub open spec fn name_char(c: char) -> char {
    if is_forbidden_in_name(c) {
        ' '
    } else {
        c
    }
}

/// A sheet name with its forbidden characters replaced by spaces, cut to
/// its first 31 characters.
pub open spec fn safe_sheet_name(name: Seq<char>) -> Seq<char> {
    let m = name.map_values(|c: char| name_char(c));
    if m.len() <= MAX_SHEET_NAME {
        m
    } else {
        m.take(MAX_SHEET_NAME as int)
    }
}

/// A sheet of the input workbook: its name and its used cells.
pub struct SheetInput {
    pub name: String,
    pub grid: SheetGrid,
}

/// The positions, in order, of the input sheets that hold at least one row.
pub open spec fn data_sheets(inputs: Seq<SheetInput>) -> Seq<int>
    decreases inputs.len(),
{
    if inputs.len() == 0 {
        Seq::<int>::empty()
    } else {
        let d = data_sheets(inputs.drop_last());
        if inputs.last().grid.rows@.len() > 0 {
            d.push(inputs.len() - 1)
        } else {
            d
        }
    }
}

/// The number of rows over all input sheets.
pub open spec fn rows_total(inputs: Seq<SheetInput>) -> nat
    decreases inputs.len(),
{
    if inputs.len() == 0 {
        0
    } else {
        rows_total(inputs.drop_last()) + inputs.last().grid.rows@.len()
    }
}

/// Every sheet can be addressed and the row count fits a `usize`.
pub open spec fn inputs_fit(inputs: Seq<SheetInput>) -> bool {
    &&& rows_total(inputs) <= usize::MAX
    &&& forall|k: int| 0 <= k < inputs.len() ==> grid_fits(#[trigger] inputs[k].grid)
}

/// Every sheet that holds rows has at least one column, as every non-empty
/// range of cells does.
pub open spec fn grids_well_sized(inputs: Seq<SheetInput>) -> bool {
    forall|k: int|
        0 <= k < inputs.len() && (#[trigger] inputs[k]).grid.rows@.len() > 0 ==> inputs[k].grid.width
            > 0
}

/// A sheet of the output workbook: which input sheet it comes from, the
/// name it is given (none when the cleaned name is empty), and its plan.
pub struct PlannedSheet {
    pub source: usize,
    pub name: Option<String>,
    pub plan: SheetPlan,
}

/// The plan of the output workbook.
pub struct WorkbookPlan {
    pub sheets: Vec<PlannedSheet>,
    pub total_rows: usize,
    pub progress_total: usize,
    pub processed_rows: usize,
    pub skipped_rows: usize,
}

/// The rows filled over the planned sheets.
pub open spec fn processed_sum(sheets: Seq<PlannedSheet>) -> nat
    decreases sheets.len(),
{
    if sheets.len() == 0 {
        0
    } else {
        processed_sum(sheets.drop_last()) + sheets.last().plan.processed as nat
    }
}

/// The rows skipped over the planned sheets.
pub open spec fn skipped_sum(sheets: Seq<PlannedSheet>) -> nat
    decreases sheets.len(),
{
    if sheets.len() == 0 {
        0
    } else {
        skipped_sum(sheets.drop_last()) + sheets.last().plan.skipped as nat
    }
}

/// The planned sheet `s` is input sheet `source` under its cleaned name.
pub open spec fn planned_sheet_of(inputs: Seq<SheetInput>, source: int, s: PlannedSheet) -> bool {
    let safe = safe_sheet_name(inputs[source].name@);
    &&& s.source == source
    &&& match s.name {
        Some(n) => safe.len() > 0 && n@ == safe,
        None => safe.len() == 0,
    }
    &&& plan_of(inputs[source].grid, s.plan)
}

/// `p` is the plan of the workbook with sheets `inputs`: one planned sheet
/// for each sheet that holds rows, in order; the progress counts all rows
/// (at least one); the totals add up the sheets' counts.
pub open spec fn workbook_plan_of(inputs: Seq<SheetInput>, p: WorkbookPlan) -> bool {
    let ds = data_sheets(inputs);
    &&& p.sheets@.len() == ds.len()
    &&& forall|j: int|
        0 <= j < ds.len() ==> planned_sheet_of(inputs, ds[j], #[trigger] p.sheets@[j])
    &&& p.total_rows == rows_total(inputs)
    &&& p.progress_total == if rows_total(inputs) == 0 {
        1
    } else {
        rows_total(inputs)
    }
    &&& p.processed_rows == processed_sum(p.sheets@)
    &&& p.skipped_rows == skipped_sum(p.sheets@)
}

/// The message given for a workbook without any data.
pub open spec fn no_data_message() -> Seq<char> {
    "\u{412} \u{444}\u{430}\u{439}\u{43b}\u{435} \u{43d}\u{435} \u{43d}\u{430}\u{439}\u{434}\u{435}\u{43d}\u{430} \u{442}\u{430}\u{431}\u{43b}\u{438}\u{446}\u{430} \u{441} \u{434}\u{430}\u{43d}\u{43d}\u{44b}\u{43c}\u{438}."@
}

/// The sheet name cleaned for the output workbook.
pub fn safe_name(name: &str) -> (r: String)
    ensures
        r@ == safe_sheet_name(name@),
{
    let v = chars_of(name);
    let n = if v.len() <= MAX_SHEET_NAME { v.len() } else { MAX_SHEET_NAME };
    let ghost m = name@.map_values(|c: char| name_char(c));
    let mut out = String::new();
    for i in 0..n
        invariant
            n <= v@.len(),
            v@ == name@,
            m == name@.map_values(|c: char| name_char(c)),
            out@ == m.take(i as int),
    {
        let c = v[i];
        let d = if c == '\\' || c == '/' || c == '*' || c == '?' || c == ':' || c == '[' || c
            == ']' {
            ' '
        } else {
            c
        };
        push_char(&mut out, d);
        assert(m.take(i + 1) =~= m.take(i as int).push(d));
    }
    assert(m.len() <= MAX_SHEET_NAME ==> m.take(n as int) =~= m);
    out
}

/// Whether every sheet can be addressed and the rows can be counted.
pub fn inputs_fit_exec(inputs: &Vec<SheetInput>) -> (r: bool)
    ensures
        r == inputs_fit(inputs@),
{
    let mut total: usize = 0;
    for k in 0..inputs.len()
        invariant
            total == rows_total(inputs@.take(k as int)),
            forall|j: int| 0 <= j < k ==> grid_fits(#[trigger] inputs@[j].grid),
    {
        assert(inputs@.take(k + 1).drop_last() =~= inputs@.take(k as int));
        let g = &inputs[k].grid;
        let blank = g.rows.len() == 0 || g.width == 0;
        let fits = blank || ((g.start_col as u128) + (g.width as u128) + 1 <= 65535 && (
        g.start_row as u128) + (g.rows.len() as u128) <= 4294967296);
        if !fits {
            proof {
                assert(!grid_fits(inputs@[k as int].grid));
            }
            return false;
        }
        match total.checked_add(g.rows.len()) {
            Some(t) => {
                total = t;
            },
            None => {
                proof {
                    lemma_rows_total_monotone(inputs@, k + 1);
                }
                return false;
            },
        }
    }
    assert(inputs@.take(inputs@.len() as int) =~= inputs@);
    true
}

/// The rows of a prefix of the sheets are no more than those of all.
proof fn lemma_rows_total_monotone(inputs: Seq<SheetInput>, k: int)
    requires
        0 <= k <= inputs.len(),
    ensures
        rows_total(inputs.take(k)) <= rows_total(inputs),
    decreases inputs.len() - k,
{
    if k < inputs.len() {
        lemma_rows_total_monotone(inputs, k + 1);
        assert(inputs.take(k + 1).drop_last() =~= inputs.take(k));
    } else {
        assert(inputs.take(k) =~= inputs);
    }
}

/// Declares `std::path::PathBuf` to the verifier; values of it stay opaque.
#[verifier::external_type_specification]
#[verifier::external_body]
pub struct ExPathBuf(std::path::PathBuf);

/// What processing a workbook reports: where the new file was written and
/// how many rows and sheets it went through.
#[derive(Debug)]
pub struct ProcessResult {
    pub output_path: std::path::PathBuf,
    pub processed_rows: usize,
    pub skipped_rows: usize,
    pub sheets: usize,
}

impl WorkbookPlan {
    /// What is reported once the planned workbook is saved at `output_path`.
    pub fn result(&self, output_path: std::path::PathBuf) -> (r: ProcessResult)
        ensures
            r.output_path == output_path,
            r.processed_rows == self.processed_rows,
            r.skipped_rows == self.skipped_rows,
            r.sheets == self.sheets@.len(),
    {
        ProcessResult {
            output_path,
            processed_rows: self.processed_rows,
            skipped_rows: self.skipped_rows,
            sheets: self.sheets.len(),
        }
    }
}

/// A cleaned sheet name is at most 31 characters long, holds none of the
/// forbidden characters, and keeps every other character in its place.
pub proof fn law_safe_sheet_name(name: Seq<char>)
    ensures
        safe_sheet_name(name).len() <= MAX_SHEET_NAME,
        safe_sheet_name(name).len() == if name.len() <= MAX_SHEET_NAME {
            name.len()
        } else {
            MAX_SHEET_NAME as nat
        },
        forall|i: int|
            0 <= i < safe_sheet_name(name).len() ==> !is_forbidden_in_name(
                #[trigger] safe_sheet_name(name)[i],
            ) && (!is_forbidden_in_name(name[i]) ==> safe_sheet_name(name)[i] == name[i]),
{
}

/// The plan of the output workbook: each sheet that holds rows, in order,
/// under its cleaned name, with its sheet plan; or the message for a
/// workbook without data.
pub fn plan_workbook(inputs: &Vec<SheetInput>) -> (r: Result<WorkbookPlan, String>)
    requires
        inputs_fit(inputs@),
    ensures
        match r {
            Ok(p) => {
                &&& data_sheets(inputs@).len() > 0
                &&& workbook_plan_of(inputs@, p)
                &&& grids_well_sized(inputs@) ==> p.processed_rows + p.skipped_rows == p.total_rows
            },
            Err(msg) => data_sheets(inputs@).len() == 0 && msg@ == no_data_message(),
        },
{
    let digits = DecimalDigits::new();
    let mut sheets: Vec<PlannedSheet> = Vec::new();
    let mut total: usize = 0;
    let mut processed: usize = 0;
    let mut skipped: usize = 0;
    for k in 0..inputs.len()
        invariant
            inputs_fit(inputs@),
            total == rows_total(inputs@.take(k as int)),
            sheets@.len() == data_sheets(inputs@.take(k as int)).len(),
            forall|j: int|
                0 <= j < sheets@.len() ==> planned_sheet_of(
                    inputs@,
                    data_sheets(inputs@.take(k as int))[j],
                    #[trigger] sheets@[j],
                ),
            processed == processed_sum(sheets@),
            skipped == skipped_sum(sheets@),
            processed + skipped <= total,
            grids_well_sized(inputs@.take(k as int)) ==> processed + skipped == total,
    {
        let ghost pre = inputs@.take(k as int);
        let ghost cur = inputs@.take(k + 1);
        assert(cur.drop_last() =~= pre);
        proof {
            lemma_rows_total_monotone(inputs@, k + 1);
        }
        assert(grids_well_sized(cur) ==> grids_well_sized(pre)) by {
            if grids_well_sized(cur) {
                assert forall|j: int|
                    0 <= j < pre.len() && (#[trigger] pre[j]).grid.rows@.len() > 0 implies pre[j].grid.width
                    > 0 by {
                    assert(pre[j] == cur[j]);
                }
            }
        }
        assert(grids_well_sized(cur) && inputs@[k as int].grid.rows@.len() > 0 ==> inputs@[k as int].grid.width > 0) by {
            if grids_well_sized(cur) && inputs@[k as int].grid.rows@.len() > 0 {
                assert(cur[k as int] == inputs@[k as int]);
            }
        }
        let input = &inputs[k];
        total = total + input.grid.rows.len();
        if input.grid.rows.len() > 0 {
            let ghost before = sheets@;
            assert(grid_fits(inputs@[k as int].grid));
            let plan = plan_sheet(&digits, &input.grid);
            let cleaned = safe_name(input.name.as_str());
            let name = if cleaned.as_str().is_empty() { None } else { Some(cleaned) };
            proof {
                if plan.columns is None {
                    assert(plan.processed + plan.skipped == 0);
                } else {
                    assert(plan.processed + plan.skipped == input.grid.rows@.len());
                }
            }
            processed = processed + plan.processed;
            skipped = skipped + plan.skipped;
            sheets.push(PlannedSheet { source: k, name, plan });
            proof {
                assert(sheets@.drop_last() =~= before);
                assert forall|j: int| 0 <= j < sheets@.len() implies planned_sheet_of(
                    inputs@,
                    data_sheets(cur)[j],
                    #[trigger] sheets@[j],
                ) by {
                    if j < before.len() {
                        assert(sheets@[j] == before[j]);
                    }
                }
            }
        }
    }
    assert(inputs@.take(inputs@.len() as int) =~= inputs@);
    if sheets.len() == 0 {
        broadcast use vstd::string::group_string_axioms;

        return Err("\u{412} \u{444}\u{430}\u{439}\u{43b}\u{435} \u{43d}\u{435} \u{43d}\u{430}\u{439}\u{434}\u{435}\u{43d}\u{430} \u{442}\u{430}\u{431}\u{43b}\u{438}\u{446}\u{430} \u{441} \u{434}\u{430}\u{43d}\u{43d}\u{44b}\u{43c}\u{438}.".to_string());
    }
    let progress_total = if total == 0 { 1 } else { total };
    Ok(WorkbookPlan { sheets, total_rows: total, progress_total, processed_rows: processed, skipped_rows: skipped })
}

} // verus!

use excel_gui_app::parse::DecimalDigits;
use excel_gui_app::sheet::{
    cell_to_text, int_to_text, is_empty_cell, last_filled_cell, plan_sheet, row_account_and_name,
    Cell, RowOutcome, SheetGrid,
};
use excel_gui_app::stamp::{output_file_name, output_file_name_for, Timestamp};
use excel_gui_app::excel::{inputs_fit_exec, plan_workbook, safe_name, SheetInput};

fn text(s: &str) -> Cell {
    Cell::Text(s.to_string())
}

fn sample_grid() -> SheetGrid {
    SheetGrid {
        start_row: 0,
        start_col: 0,
        width: 2,
        rows: vec![
            vec![text("№"), text("Комментарий")],
            vec![text("1"), text("1234567890 Иванов И.И.")],
            vec![text("2"), text("л/с 9876543210 Петров П.П. г. Казань, доп. сведения")],
        ],
    }
}

fn filled(o: &RowOutcome) -> Option<(String, String)> {
    match o {
        RowOutcome::Filled(x) => Some((x.full_name.clone(), x.personal_account.clone())),
        _ => None,
    }
}

#[test]
fn plans_fio_and_account_columns() {
    let inputs = vec![SheetInput { name: "Sheet1".to_string(), grid: sample_grid() }];
    assert!(inputs_fit_exec(&inputs));
    let plan = plan_workbook(&inputs).unwrap();
    assert_eq!(plan.processed_rows, 2);
    assert_eq!(plan.skipped_rows, 1);
    assert_eq!(plan.total_rows, 3);
    assert_eq!(plan.progress_total, 3);
    assert_eq!(plan.sheets.len(), 1);
    let sheet = &plan.sheets[0];
    assert_eq!(sheet.source, 0);
    assert_eq!(sheet.name.as_deref(), Some("Sheet1"));
    assert_eq!(sheet.plan.columns, Some((2, 3)));
    assert!(matches!(sheet.plan.rows[0], RowOutcome::Header));
    assert_eq!(
        filled(&sheet.plan.rows[1]),
        Some(("Иванов И.И.".to_string(), "1234567890".to_string()))
    );
    assert_eq!(
        filled(&sheet.plan.rows[2]),
        Some(("Петров П.П.".to_string(), "9876543210".to_string()))
    );
    let result = plan.result(std::path::PathBuf::from("/tmp/out.xlsx"));
    assert_eq!(result.processed_rows, 2);
    assert_eq!(result.skipped_rows, 1);
    assert_eq!(result.sheets, 1);
    assert_eq!(result.output_path, std::path::PathBuf::from("/tmp/out.xlsx"));
}

#[test]
fn first_row_with_data_is_filled_not_titled() {
    let digits = DecimalDigits::new();
    let grid = SheetGrid {
        start_row: 4,
        start_col: 3,
        width: 1,
        rows: vec![vec![text("1234567890 Иванов И.И.")], vec![text("нет данных")]],
    };
    let plan = plan_sheet(&digits, &grid);
    assert_eq!(plan.columns, Some((4, 5)));
    assert_eq!(plan.start_row, 4);
    assert_eq!(plan.start_col, 3);
    assert!(matches!(plan.rows[0], RowOutcome::Filled(_)));
    assert!(matches!(plan.rows[1], RowOutcome::Skipped));
    assert_eq!((plan.processed, plan.skipped), (1, 1));
}

#[test]
fn blank_sheets_get_no_columns() {
    let digits = DecimalDigits::new();
    let grid = SheetGrid { start_row: 0, start_col: 0, width: 0, rows: vec![] };
    let plan = plan_sheet(&digits, &grid);
    assert_eq!(plan.columns, None);
    assert!(plan.rows.is_empty());
    assert_eq!((plan.processed, plan.skipped), (0, 0));
}

#[test]
fn workbook_without_data_is_refused() {
    let inputs = vec![
        SheetInput {
            name: "A".to_string(),
            grid: SheetGrid { start_row: 0, start_col: 0, width: 0, rows: vec![] },
        },
    ];
    match plan_workbook(&inputs) {
        Err(msg) => assert_eq!(msg, "В файле не найдена таблица с данными."),
        Ok(_) => panic!("a workbook without data has no plan"),
    }
    match plan_workbook(&Vec::new()) {
        Err(msg) => assert_eq!(msg, "В файле не найдена таблица с данными."),
        Ok(_) => panic!("a workbook without sheets has no plan"),
    }
}

#[test]
fn empty_sheets_are_left_out() {
    let inputs = vec![
        SheetInput {
            name: "Пусто".to_string(),
            grid: SheetGrid { start_row: 0, start_col: 0, width: 0, rows: vec![] },
        },
        SheetInput { name: "Данные".to_string(), grid: sample_grid() },
        SheetInput { name: "a/b:c*d?e[f]g\\h".to_string(), grid: sample_grid() },
    ];
    let plan = plan_workbook(&inputs).unwrap();
    assert_eq!(plan.sheets.len(), 2);
    assert_eq!(plan.sheets[0].source, 1);
    assert_eq!(plan.sheets[1].source, 2);
    assert_eq!(plan.sheets[1].name.as_deref(), Some("a b c d e f g h"));
    assert_eq!(plan.processed_rows, 4);
    assert_eq!(plan.skipped_rows, 2);
    assert_eq!(plan.total_rows, 6);
}

#[test]
fn sheet_names_are_cleaned_and_cut() {
    assert_eq!(safe_name("Лист/1"), "Лист 1");
    let long = "абвгдеёжзийклмнопрстуфхцчшщъыьэюя";
    let cut = safe_name(long);
    assert_eq!(cut.chars().count(), 31);
    assert!(long.starts_with(&cut));
    assert_eq!(safe_name(""), "");
    assert_eq!(safe_name("[]"), "  ");
}

#[test]
fn a_sheet_whose_name_cleans_to_nothing_keeps_its_default_name() {
    let inputs = vec![SheetInput { name: String::new(), grid: sample_grid() }];
    let plan = plan_workbook(&inputs).unwrap();
    assert_eq!(plan.sheets[0].name, None);
}

#[test]
fn the_last_non_empty_cell_is_read() {
    let digits = DecimalDigits::new();
    let row = vec![text("1234567890 Иванов И.И."), Cell::Empty, text("  \t")];
    assert_eq!(last_filled_cell(&row), Some(0));
    let got = row_account_and_name(&digits, &row).unwrap();
    assert_eq!(got.full_name, "Иванов И.И.");
    let row = vec![text("1234567890 Иванов И.И."), Cell::Int(5)];
    assert_eq!(last_filled_cell(&row), Some(1));
    assert!(row_account_and_name(&digits, &row).is_none());
    let row = vec![Cell::Empty, text(" ")];
    assert_eq!(last_filled_cell(&row), None);
    assert!(row_account_and_name(&digits, &row).is_none());
    // A value shown as blank text still counts as filled.
    let row = vec![text("1234567890 Иванов И.И."), Cell::Shown(" ".to_string())];
    assert_eq!(last_filled_cell(&row), Some(1));
}

#[test]
fn integer_cells_hold_their_account() {
    let digits = DecimalDigits::new();
    let row = vec![Cell::Int(1234567890)];
    let got = row_account_and_name(&digits, &row).unwrap();
    assert_eq!(got.personal_account, "1234567890");
    assert_eq!(got.full_name, "");
}

#[test]
fn cell_texts() {
    assert_eq!(int_to_text(0), "0");
    assert_eq!(int_to_text(-45), "-45");
    assert_eq!(int_to_text(i64::MIN), i64::MIN.to_string());
    assert_eq!(int_to_text(i64::MAX), i64::MAX.to_string());
    assert_eq!(cell_to_text(&Cell::Bool(true)), "true");
    assert_eq!(cell_to_text(&Cell::Bool(false)), "false");
    assert_eq!(cell_to_text(&Cell::Empty), "");
    assert_eq!(cell_to_text(&Cell::Shown("12.5".to_string())), "12.5");
    assert!(is_empty_cell(&Cell::Empty));
    assert!(is_empty_cell(&text(" \u{a0} ")));
    assert!(!is_empty_cell(&Cell::Bool(false)));
    assert!(!is_empty_cell(&Cell::Shown(String::new())));
}

#[test]
fn builds_output_file_name() {
    let now = Timestamp::new(2026, 9, 18, 23, 53, 1).unwrap();
    assert_eq!(output_file_name("реестр", &now), "реестр_исправ_2026-09-18_23-53-01.xlsx");
    let name = output_file_name("", &now);
    assert_eq!(name.chars().count(), "_исправ_".chars().count() + 19 + ".xlsx".len());
}

#[test]
fn stamps_pad_and_sign_years() {
    let early = Timestamp::new(7, 1, 2, 3, 4, 5).unwrap();
    assert_eq!(output_file_name("f", &early), "f_исправ_0007-01-02_03-04-05.xlsx");
    let late = Timestamp::new(12345, 12, 31, 0, 0, 0).unwrap();
    assert_eq!(output_file_name("f", &late), "f_исправ_+12345-12-31_00-00-00.xlsx");
    let last = Timestamp::new(262142, 12, 31, 23, 59, 59).unwrap();
    assert_eq!(output_file_name("f", &last), "f_исправ_+262142-12-31_23-59-59.xlsx");
    let first = Timestamp::new(-262143, 1, 1, 0, 0, 0).unwrap();
    assert_eq!(output_file_name("f", &first), "f_исправ_-262143-01-01_00-00-00.xlsx");
    let leap = Timestamp::new(-4, 2, 29, 0, 0, 0).unwrap();
    assert_eq!(output_file_name("f", &leap), "f_исправ_-0004-02-29_00-00-00.xlsx");
    let before = Timestamp::new(-44, 3, 15, 12, 0, 0).unwrap();
    assert_eq!(output_file_name("f", &before), "f_исправ_-0044-03-15_12-00-00.xlsx");
}

#[test]
fn only_real_dates_and_times_are_stamps() {
    assert!(Timestamp::new(2024, 2, 29, 0, 0, 0).is_some());
    assert!(Timestamp::new(2023, 2, 29, 0, 0, 0).is_none());
    assert!(Timestamp::new(1900, 2, 29, 0, 0, 0).is_none());
    assert!(Timestamp::new(2000, 2, 29, 0, 0, 0).is_some());
    assert!(Timestamp::new(2024, 4, 31, 0, 0, 0).is_none());
    assert!(Timestamp::new(2024, 13, 1, 0, 0, 0).is_none());
    assert!(Timestamp::new(2024, 1, 0, 0, 0, 0).is_none());
    assert!(Timestamp::new(2024, 1, 1, 24, 0, 0).is_none());
    assert!(Timestamp::new(2024, 1, 1, 0, 60, 0).is_none());
    assert!(Timestamp::new(2024, 1, 1, 0, 0, 60).is_none());
    assert!(Timestamp::new(262142, 12, 31, 23, 59, 59).is_some());
    assert!(Timestamp::new(262143, 1, 1, 0, 0, 0).is_none());
    assert!(Timestamp::new(-262143, 1, 1, 0, 0, 0).is_some());
    assert!(Timestamp::new(-262144, 12, 31, 0, 0, 0).is_none());
    assert!(Timestamp::new(-4, 2, 29, 0, 0, 0).is_some());
}

#[test]
fn oversized_positions_do_not_fit() {
    let inputs = vec![SheetInput {
        name: "x".to_string(),
        grid: SheetGrid { start_row: 0, start_col: 65534, width: 1, rows: vec![vec![Cell::Empty]] },
    }];
    assert!(!inputs_fit_exec(&inputs));
}

#[test]
fn a_missing_stem_becomes_file() {
    let now = Timestamp::new(2026, 9, 18, 23, 53, 1).unwrap();
    assert_eq!(output_file_name_for(None, &now), "file_исправ_2026-09-18_23-53-01.xlsx");
    assert_eq!(output_file_name_for(Some("a.b"), &now), "a.b_исправ_2026-09-18_23-53-01.xlsx");
}

use excel_gui_app::status::{JobUpdate, ViewState};

#[test]
fn starts_waiting_for_a_file() {
    let view = ViewState::new();
    assert!(!view.busy);
    assert!(!view.waiting_for_job);
    assert_eq!(view.status, "Выберите Excel-файл (.xlsx или .xls).");
    assert!(!view.status_is_error);
    assert_eq!((view.progress.done, view.progress.of), (0, 1));
    assert!(view.progress_text.is_empty());
}

#[test]
fn asks_for_a_file_before_starting() {
    let mut view = ViewState::new();
    assert!(!view.start(false));
    assert_eq!(view.status, "Сначала выберите файл.");
    assert!(view.status_is_error);
    assert!(!view.busy);
}

#[test]
fn runs_a_job_to_the_end() {
    let mut view = ViewState::new();
    view.file_chosen("/tmp/реестр.xlsx");
    assert_eq!(view.status, "Выбран файл:\n/tmp/реестр.xlsx");
    assert!(view.start(true));
    assert!(view.busy && view.waiting_for_job);
    assert_eq!(view.progress_text, "Запуск…");
    assert_eq!(view.status, "Обработка файла…");
    // A second start while busy does nothing.
    assert!(!view.start(true));
    assert_eq!(view.status, "Обработка файла…");

    assert!(view.update(JobUpdate::Progress { current: 0, total: 0 }));
    assert_eq!((view.progress.done, view.progress.of), (0, 1));
    assert_eq!(view.progress_text, "Строка 0 из 1");
    assert!(view.update(JobUpdate::Progress { current: 12, total: 340 }));
    assert_eq!(view.progress_text, "Строка 12 из 340");
    assert_eq!(view.status, "Идёт обработка: строка 12 из 340");
    assert!(!view.update(JobUpdate::Nothing));
    assert!(view.busy);

    assert!(!view.update(JobUpdate::Done {
        processed_rows: 2,
        skipped_rows: 1,
        sheets: 1,
        saved_to: "/tmp/out.xlsx".to_string(),
    }));
    assert!(!view.busy && !view.waiting_for_job);
    assert_eq!((view.progress.done, view.progress.of), (1, 1));
    assert_eq!(view.progress_text, "Готово");
    assert_eq!(
        view.status,
        "Готово.\nОбработано строк: 2.\nПропущено строк: 1.\nЛистов: 1.\nСохранено:\n/tmp/out.xlsx"
    );
}

#[test]
fn reports_failures() {
    let mut view = ViewState::new();
    assert!(view.start(true));
    assert!(!view.update(JobUpdate::Failed("Файл не найден: x".to_string())));
    assert!(!view.busy);
    assert!(view.status_is_error);
    assert_eq!(view.status, "Ошибка: Файл не найден: x");
    assert!(view.progress_text.is_empty());

    let mut view = ViewState::new();
    assert!(view.start(true));
    view.update(JobUpdate::Progress { current: 3, total: 9 });
    assert!(!view.update(JobUpdate::Disconnected));
    assert!(!view.busy && !view.waiting_for_job && view.status_is_error);
    assert_eq!(view.status, "Ошибка: обработка прервалась.");
    assert_eq!(view.progress_text, "Строка 3 из 9");
}

#[test]
fn no_file_is_chosen_while_busy() {
    let mut view = ViewState::new();
    assert!(view.start(true));
    view.file_chosen("/tmp/other.xlsx");
    assert_eq!(view.status, "Обработка файла…");
    assert_eq!(view.progress_text, "Запуск…");
}

//! What the window shows while a workbook is chosen and processed: the
//! status line, whether it reports an error, the progress bar and its
//! label. The window feeds in what happens; these functions decide what is
//! shown next.

use vstd::prelude::*;
use crate::text::{decimal_digits, push_decimal, string_of, zero_padded};

verus! {

/// How far the progress bar is filled: `done` of `of` (never zero).
pub struct Progress {
    pub done: usize,
    pub of: usize,
}

/// What the window shows.
pub struct ViewState {
    pub busy: bool,
    pub waiting_for_job: bool,
    pub status: String,
    pub status_is_error: bool,
    pub progress: Progress,
    pub progress_text: String,
}

/// What happened to the running job since the window last looked.
pub enum JobUpdate {
    /// Row `current` of `total` is done.
    Progress { current: usize, total: usize },
    /// The workbook was saved; `saved_to` is its path as shown to the user.
    Done { processed_rows: usize, skipped_rows: usize, sheets: usize, saved_to: String },
    /// The job stopped with this message.
    Failed(String),
    /// Nothing new.
    Nothing,
    /// The job went away without a word.
    Disconnected,
}

pub open spec fn empty_text() -> Seq<char> {
    Seq::<char>::empty()
}

/// `Строка {current} из {total}`.
pub open spec fn row_label(current: nat, total: nat) -> Seq<char> {
    "Строка "@ + decimal_digits(current) + " из "@ + decimal_digits(total)
}

/// `Идёт обработка: строка {current} из {total}`.
pub open spec fn row_status(current: nat, total: nat) -> Seq<char> {
    "Идёт обработка: строка "@ + decimal_digits(current) + " из "@ + decimal_digits(total)
}

/// The report shown once the workbook is saved.
pub open spec fn done_status(processed: nat, skipped: nat, sheets: nat, saved_to: Seq<char>) -> Seq<
    char,
> {
    "Готово.\nОбработано строк: "@ + decimal_digits(processed) + ".\nПропущено строк: "@
        + decimal_digits(skipped) + ".\nЛистов: "@ + decimal_digits(sheets) + ".\nСохранено:\n"@
        + saved_to
}

/// The report puts each count after its own label, line by line: first
/// the processed rows, then the skipped rows, then the sheets, then the
/// path the workbook was saved to.
pub proof fn law_report_shows_each_count(
    processed: nat,
    skipped: nat,
    sheets: nat,
    saved_to: Seq<char>,
)
    ensures
        done_status(processed, skipped, sheets, saved_to) =~= "Готово.\n"@ + "Обработано строк: "@
            + decimal_digits(processed) + ".\n"@ + "Пропущено строк: "@ + decimal_digits(skipped)
            + ".\n"@ + "Листов: "@ + decimal_digits(sheets) + ".\n"@ + "Сохранено:\n"@
            + saved_to,
{
    reveal_strlit("Готово.\nОбработано строк: ");
    reveal_strlit(".\nПропущено строк: ");
    reveal_strlit(".\nЛистов: ");
    reveal_strlit(".\nСохранено:\n");
    reveal_strlit("Готово.\n");
    reveal_strlit("Обработано строк: ");
    reveal_strlit(".\n");
    reveal_strlit("Пропущено строк: ");
    reveal_strlit("Листов: ");
    reveal_strlit("Сохранено:\n");
}

/// `Ошибка: {message}`.
pub open spec fn error_status(message: Seq<char>) -> Seq<char> {
    "Ошибка: "@ + message
}

/// `Выбран файл:\n{path}`.
pub open spec fn chosen_status(path: Seq<char>) -> Seq<char> {
    "Выбран файл:\n"@ + path
}

fn push_number(out: &mut String, n: usize)
    ensures
        final(out)@ == old(out)@ + decimal_digits(n as nat),
{
    push_decimal(out, n as u64, 0);
    assert(zero_padded(n as nat, 0) == decimal_digits(n as nat));
}

impl ViewState {
    /// The window before anything is chosen.
    pub fn new() -> (r: ViewState)
        ensures
            !r.busy,
            !r.waiting_for_job,
            r.status@ == "Выберите Excel-файл (.xlsx или .xls)."@,
            !r.status_is_error,
            r.progress.done == 0 && r.progress.of == 1,
            r.progress_text@ == empty_text(),
    {
        ViewState {
            busy: false,
            waiting_for_job: false,
            status: string_of("Выберите Excel-файл (.xlsx или .xls)."),
            status_is_error: false,
            progress: Progress { done: 0, of: 1 },
            progress_text: String::new(),
        }
    }

    /// A file was chosen; `shown_path` is its path as shown to the user.
    /// While a job runs, no file can be chosen and nothing changes.
    pub fn file_chosen(&mut self, shown_path: &str)
        ensures
            old(self).busy ==> *final(self) == *old(self),
            !old(self).busy ==> {
                &&& final(self).status@ == chosen_status(shown_path@)
                &&& !final(self).status_is_error
                &&& final(self).progress.done == 0 && final(self).progress.of == 1
                &&& final(self).progress_text@ == empty_text()
                &&& final(self).busy == old(self).busy
                &&& final(self).waiting_for_job == old(self).waiting_for_job
            },
    {
        if self.busy {
            return;
        }
        let mut status = string_of("Выбран файл:\n");
        status.append(shown_path);
        self.status = status;
        self.status_is_error = false;
        self.progress = Progress { done: 0, of: 1 };
        self.progress_text = String::new();
    }

    /// Processing is asked for. Returns whether the job is to be started:
    /// not while one runs, and not without a chosen file, which is then
    /// asked for.
    pub fn start(&mut self, has_file: bool) -> (start: bool)
        ensures
            start == (!old(self).busy && has_file),
            old(self).busy ==> *final(self) == *old(self),
            !old(self).busy && !has_file ==> {
                &&& final(self).status@ == "Сначала выберите файл."@
                &&& final(self).status_is_error
                &&& final(self).busy == old(self).busy
                &&& final(self).waiting_for_job == old(self).waiting_for_job
                &&& final(self).progress == old(self).progress
                &&& final(self).progress_text == old(self).progress_text
            },
            start ==> {
                &&& final(self).busy
                &&& final(self).waiting_for_job
                &&& !final(self).status_is_error
                &&& final(self).progress.done == 0 && final(self).progress.of == 1
                &&& final(self).progress_text@ == "Запуск…"@
                &&& final(self).status@ == "Обработка файла…"@
            },
    {
        if self.busy {
            return false;
        }
        if !has_file {
            self.status = string_of("Сначала выберите файл.");
            self.status_is_error = true;
            return false;
        }
        self.waiting_for_job = true;
        self.busy = true;
        self.status_is_error = false;
        self.progress = Progress { done: 0, of: 1 };
        self.progress_text = string_of("Запуск…");
        self.status = string_of("Обработка файла…");
        true
    }

    /// Takes in what happened to the job. Returns whether to look again
    /// right away: after a progress report, not after anything else.
    pub fn update(&mut self, update: JobUpdate) -> (again: bool)
        ensures
            again == (update is Progress),
            match update {
                JobUpdate::Progress { current, total } => {
                    let t = if total == 0 { 1 } else { total };
                    &&& final(self).progress.done == current
                    &&& final(self).progress.of == t
                    &&& final(self).progress_text@ == row_label(current as nat, t as nat)
                    &&& final(self).status@ == row_status(current as nat, t as nat)
                    &&& final(self).busy == old(self).busy
                    &&& final(self).waiting_for_job == old(self).waiting_for_job
                    &&& final(self).status_is_error == old(self).status_is_error
                },
                JobUpdate::Done { processed_rows, skipped_rows, sheets, saved_to } => {
                    &&& !final(self).busy
                    &&& !final(self).waiting_for_job
                    &&& final(self).progress.done == 1 && final(self).progress.of == 1
                    &&& final(self).progress_text@ == "Готово"@
                    &&& !final(self).status_is_error
                    &&& final(self).status@ == done_status(
                        processed_rows as nat,
                        skipped_rows as nat,
                        sheets as nat,
                        saved_to@,
                    )
                },
                JobUpdate::Failed(message) => {
                    &&& !final(self).busy
                    &&& !final(self).waiting_for_job
                    &&& final(self).progress.done == 0 && final(self).progress.of == 1
                    &&& final(self).progress_text@ == empty_text()
                    &&& final(self).status_is_error
                    &&& final(self).status@ == error_status(message@)
                },
                JobUpdate::Nothing => *final(self) == *old(self),
                JobUpdate::Disconnected => {
                    &&& !final(self).busy
                    &&& !final(self).waiting_for_job
                    &&& final(self).status_is_error
                    &&& final(self).status@ == "Ошибка: обработка прервалась."@
                    &&& final(self).progress == old(self).progress
                    &&& final(self).progress_text == old(self).progress_text
                },
            },
    {
        match update {
            JobUpdate::Progress { current, total } => {
                let t = if total == 0 { 1 } else { total };
                self.progress = Progress { done: current, of: t };
                let mut label = string_of("Строка ");
                push_number(&mut label, current);
                label.append(" из ");
                push_number(&mut label, t);
                self.progress_text = label;
                let mut status = string_of("Идёт обработка: строка ");
                push_number(&mut status, current);
                status.append(" из ");
                push_number(&mut status, t);
                self.status = status;
                true
            },
            JobUpdate::Done { processed_rows, skipped_rows, sheets, saved_to } => {
                self.busy = false;
                self.waiting_for_job = false;
                self.progress = Progress { done: 1, of: 1 };
                self.progress_text = string_of("Готово");
                self.status_is_error = false;
                let mut status = string_of("Готово.\nОбработано строк: ");
                push_number(&mut status, processed_rows);
                status.append(".\nПропущено строк: ");
                push_number(&mut status, skipped_rows);
                status.append(".\nЛистов: ");
                push_number(&mut status, sheets);
                status.append(".\nСохранено:\n");
                status.append(saved_to.as_str());
                self.status = status;
                false
            },
            JobUpdate::Failed(message) => {
                self.busy = false;
                self.waiting_for_job = false;
                self.progress = Progress { done: 0, of: 1 };
                self.progress_text = String::new();
                self.status_is_error = true;
                let mut status = string_of("Ошибка: ");
                status.append(message.as_str());
                self.status = status;
                false
            },
            JobUpdate::Nothing => false,
            JobUpdate::Disconnected => {
                self.busy = false;
                self.waiting_for_job = false;
                self.status_is_error = true;
                self.status = string_of("Ошибка: обработка прервалась.");
                false
            },
        }
    }
}

} // verus!

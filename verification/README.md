# excel_gui_app

A desktop tool that opens an Excel workbook, finds in the last filled cell of
every row a ten-digit personal account number and the person's name after it
(`Иванов И.И.`, `Иванов И И`, `Петрова-Сидорова П.С.`), and saves a copy of
the workbook with two more columns, `ФИО` and `Л/с`.

The library under `src/` is verified with Verus:

- `text` — white space, trimming, runs of character classes, decimal digits;
- `fio` — the grammar of a name, the scan that finds its unique match, and
  the surname as it is written back;
- `parse` — the account number (ten Unicode decimal digits, recognised with
  the `regex` crate) and the name after it;
- `sheet` — cells, rows and the plan of what is written into a sheet;
- `excel` — the plan of the whole workbook and the result reported;
- `stamp` — the date-time stamp (formatted by `chrono`) and the output name;
- `status` — what the window shows as a job starts, progresses and ends.

`app/` is the program around it: the `eframe` window, the `rfd` file dialog,
reading with `calamine` and writing with `rust_xlsxwriter`.

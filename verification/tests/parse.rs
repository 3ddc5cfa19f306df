use excel_gui_app::fio::{extract_fio, normalize_surname};
use excel_gui_app::parse::extract_account_and_name;

#[test]
fn extracts_account_and_name() {
    let got = extract_account_and_name("1234567890 Иванов И.И.").unwrap();
    assert_eq!(got.personal_account, "1234567890");
    assert_eq!(got.full_name, "Иванов И.И.");
}

#[test]
fn extracts_when_prefix_exists() {
    let got = extract_account_and_name("л/с: 9876543210 Петров П.П.").unwrap();
    assert_eq!(got.personal_account, "9876543210");
    assert_eq!(got.full_name, "Петров П.П.");
}

#[test]
fn ignores_text_after_initials() {
    let got = extract_account_and_name(
        "1234567890 Иванов И.И. г. Москва ул. Ленина д. 1 тел. 89001234567",
    )
    .unwrap();
    assert_eq!(got.personal_account, "1234567890");
    assert_eq!(got.full_name, "Иванов И.И.");
}

#[test]
fn accepts_extra_spaces_between_parts() {
    let got = extract_account_and_name("1234567890 Сидоров   С.  С.").unwrap();
    assert_eq!(got.full_name, "Сидоров С.С.");
}

#[test]
fn extracts_hyphenated_surname() {
    let got = extract_account_and_name("1234567890 Петрова-Сидорова П.С.").unwrap();
    assert_eq!(got.full_name, "Петрова-Сидорова П.С.");
}

#[test]
fn extracts_hyphenated_surname_with_spaces_around_hyphen() {
    let got = extract_account_and_name("1234567890 Римский - Корсаков Р.К. лишние данные")
        .unwrap();
    assert_eq!(got.full_name, "Римский-Корсаков Р.К.");
}

#[test]
fn extracts_initials_without_dots() {
    let got = extract_account_and_name("1234567890 Иванов И И г. Москва").unwrap();
    assert_eq!(got.personal_account, "1234567890");
    assert_eq!(got.full_name, "Иванов И.И.");
}

#[test]
fn allows_account_without_name() {
    let got = extract_account_and_name("1234567890").unwrap();
    assert_eq!(got.personal_account, "1234567890");
    assert!(got.full_name.is_empty());
}

#[test]
fn returns_none_without_ten_digits() {
    assert!(extract_account_and_name("Иванов И.И.").is_none());
    assert!(extract_account_and_name("").is_none());
    assert!(extract_account_and_name("12345").is_none());
}

#[test]
fn takes_first_ten_of_a_longer_number() {
    let got = extract_account_and_name("12345678901 Иванов И.И.").unwrap();
    assert_eq!(got.personal_account, "1234567890");
    // The eleventh digit stands where the name should begin.
    assert_eq!(got.full_name, "");
}

#[test]
fn takes_the_first_run_of_ten_digits() {
    let got = extract_account_and_name("тел. 123 45 1111111111 Иванов И.И. 2222222222").unwrap();
    assert_eq!(got.personal_account, "1111111111");
    assert_eq!(got.full_name, "Иванов И.И.");
}

#[test]
fn accepts_unicode_decimal_digits() {
    let got = extract_account_and_name("١٢٣٤٥٦٧٨٩٠ Иванов И.И.").unwrap();
    assert_eq!(got.personal_account, "١٢٣٤٥٦٧٨٩٠");
    assert_eq!(got.full_name, "Иванов И.И.");
}

#[test]
fn nine_digits_and_a_letter_are_no_account() {
    assert!(extract_account_and_name("123456789O Иванов И.И.").is_none());
    assert!(extract_account_and_name("   \t  ").is_none());
}

#[test]
fn accepts_separators_and_a_dash_before_the_name() {
    let got = extract_account_and_name("1234567890, — Иванов И.И.").unwrap();
    assert_eq!(got.full_name, "Иванов И.И.");
    let got = extract_account_and_name("1234567890;/\\ -Иванов И.И.").unwrap();
    assert_eq!(got.full_name, "Иванов И.И.");
    let got = extract_account_and_name("1234567890 – Иванов И.И.").unwrap();
    assert_eq!(got.full_name, "Иванов И.И.");
}

#[test]
fn two_dashes_before_the_name_give_no_name() {
    let got = extract_account_and_name("1234567890 -- Иванов И.И.").unwrap();
    assert_eq!(got.full_name, "");
}

#[test]
fn latin_names_and_yo_are_letters() {
    let got = extract_account_and_name("1234567890 Smith J K").unwrap();
    assert_eq!(got.full_name, "Smith J.K.");
    let got = extract_account_and_name("1234567890 Ёлкин Ё.Ё.").unwrap();
    assert_eq!(got.full_name, "Ёлкин Ё.Ё.");
    let got = extract_account_and_name("1234567890 Королёв С.П.").unwrap();
    assert_eq!(got.full_name, "Королёв С.П.");
}

#[test]
fn lower_case_initials_give_no_name() {
    let got = extract_account_and_name("1234567890 Иванов и.и.").unwrap();
    assert_eq!(got.full_name, "");
    let got = extract_account_and_name("1234567890 иванов И.И.").unwrap();
    assert_eq!(got.full_name, "");
}

#[test]
fn a_single_letter_surname_gives_no_name() {
    let got = extract_account_and_name("1234567890 И И.И.").unwrap();
    assert_eq!(got.full_name, "");
}

#[test]
fn a_dot_then_no_space_before_second_initial() {
    let got = extract_account_and_name("1234567890 Иванов И.И").unwrap();
    assert_eq!(got.full_name, "Иванов И.И.");
    // Initials run together without a dot or space are not two initials.
    let got = extract_account_and_name("1234567890 Иванов ИИ").unwrap();
    assert_eq!(got.full_name, "");
}

#[test]
fn surrounding_white_space_is_ignored() {
    let a = extract_account_and_name("  \u{a0}1234567890 Иванов И.И.\u{3000} ").unwrap();
    let b = extract_account_and_name("1234567890 Иванов И.И.").unwrap();
    assert_eq!(a, b);
}

#[test]
fn appended_text_does_not_change_the_result() {
    let base = extract_account_and_name("1234567890 Петров П.П.").unwrap();
    let longer = extract_account_and_name("1234567890 Петров П.П.ПРИМЕЧАНИЕ 1234567899").unwrap();
    assert_eq!(base, longer);
}

#[test]
fn three_word_surname_is_joined() {
    let got = extract_account_and_name("1234567890 Иванов -Петров- Сидоров А.Б.").unwrap();
    assert_eq!(got.full_name, "Иванов-Петров-Сидоров А.Б.");
}

#[test]
fn trailing_hyphen_is_not_part_of_the_surname() {
    let got = extract_account_and_name("1234567890 Иванов - И.И.").unwrap();
    assert_eq!(got.full_name, "");
}

#[test]
fn extract_fio_reads_from_the_start() {
    assert_eq!(extract_fio(" Иванов И.И."), "Иванов И.И.");
    assert_eq!(extract_fio("x Иванов И.И."), "");
    assert_eq!(extract_fio(""), "");
}

#[test]
fn normalize_surname_joins_trimmed_parts() {
    assert_eq!(normalize_surname("Римский - Корсаков"), "Римский-Корсаков");
    assert_eq!(normalize_surname(" - a -- b - "), "a-b");
    assert_eq!(normalize_surname(""), "");
    assert_eq!(normalize_surname("Иванов"), "Иванов");
}

#[test]
fn written_name_reads_back() {
    for text in [" Римский - Корсаков Р К", ", — Иванов И.  И. дом 5", "Smith -Jones- Lee A B"] {
        let name = extract_fio(text);
        assert!(!name.is_empty());
        assert_eq!(extract_fio(&name), name);
    }
}

#[test]
fn account_and_written_name_read_back() {
    for text in [" Римский - Корсаков Р К", "x", ", — Иванов И.  И."] {
        let name = extract_fio(text);
        let again = extract_account_and_name(&format!("0123456789 {name}")).unwrap();
        assert_eq!(again.personal_account, "0123456789");
        assert_eq!(again.full_name, name);
    }
}

#[test]
fn normalizing_twice_is_normalizing_once() {
    for raw in [" - a -- b - ", "Римский - Корсаков", "", "-", "x y-z"] {
        let once = normalize_surname(raw);
        assert_eq!(normalize_surname(&once), once);
    }
}

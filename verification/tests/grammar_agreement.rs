//! The grammar checked against the same grammar written as regular
//! expressions, on many generated cell texts.

use excel_gui_app::parse::{extract_account_and_name, extract_account_and_name_with, DecimalDigits};
use regex::Regex;

fn by_patterns(account: &Regex, name: &Regex, text: &str) -> Option<(String, String)> {
    let text = text.trim();
    if text.is_empty() {
        return None;
    }
    let found = account.find(text)?;
    let after = &text[found.end()..];
    let full_name = match name.captures(after) {
        Some(caps) => {
            let surname = caps
                .get(1)
                .map(|m| m.as_str())
                .unwrap_or("")
                .split('-')
                .map(str::trim)
                .filter(|part| !part.is_empty())
                .collect::<Vec<_>>()
                .join("-");
            let first = caps.get(2).map(|m| m.as_str()).unwrap_or("");
            let second = caps.get(3).map(|m| m.as_str()).unwrap_or("");
            format!("{surname} {first}.{second}.")
        }
        None => String::new(),
    };
    Some((found.as_str().to_string(), full_name))
}

const TOKENS: &[&str] = &[
    "1234567890", "12345", "9", "٣", "١٢٣٤٥٦٧٨٩٠", " ", "  ", "\t", "\u{a0}", "\u{3000}", "\u{2003}",
    ",", ";", ":", "/", "\\", "-", "–", "—", ".", "Иванов", "Петрова", "И", "П", "Ё", "ё", "иванов",
    "A", "Smith", "J", "x", "Z", "ы", "Я", "я", "0", "л/с", "№",
];

#[test]
fn agrees_with_the_patterns_on_generated_texts() {
    let account = Regex::new(r"(\d{10})").unwrap();
    let name = Regex::new(
        r"(?x)
        ^[\s,;:/\\]*(?:[-–—]\s*)?
        (
            [А-ЯЁA-Z][а-яёa-z]+
            (?:\s*-\s*[А-ЯЁA-Z][а-яёa-z]+)*
        )
        \s+
        ([А-ЯЁA-Z])(?:\.\s*|\s+)
        ([А-ЯЁA-Z])\.?
        ",
    )
    .unwrap();
    let digits = DecimalDigits::new();
    let mut state: u64 = 0x2545_f491_4f6c_dd1d;
    let mut next = move || {
        state ^= state << 13;
        state ^= state >> 7;
        state ^= state << 17;
        state
    };
    for _ in 0..20000 {
        let mut text = String::new();
        if next() % 4 != 0 {
            text.push_str("1234567890");
        }
        let n = next() % 10;
        for _ in 0..n {
            text.push_str(TOKENS[(next() % TOKENS.len() as u64) as usize]);
        }
        let got = extract_account_and_name_with(&digits, &text)
            .map(|x| (x.personal_account, x.full_name));
        assert_eq!(got, by_patterns(&account, &name, &text), "text: {text:?}");
    }
}

#[test]
fn agrees_with_the_patterns_on_name_shapes() {
    let account = Regex::new(r"(\d{10})").unwrap();
    let name = Regex::new(
        r"(?x)
        ^[\s,;:/\\]*(?:[-–—]\s*)?
        (
            [А-ЯЁA-Z][а-яёa-z]+
            (?:\s*-\s*[А-ЯЁA-Z][а-яёa-z]+)*
        )
        \s+
        ([А-ЯЁA-Z])(?:\.\s*|\s+)
        ([А-ЯЁA-Z])\.?
        ",
    )
    .unwrap();
    let digits = DecimalDigits::new();
    let parts = ["", " ", "  ", "-", " - ", ".", ". ", "Иванов", "Ли", "И", "К", "ов", ",", "—"];
    for a in parts {
        for b in parts {
            for c in parts {
                for d in parts {
                    let text = format!("1234567890 {a}{b}{c}{d}");
                    let got = extract_account_and_name_with(&digits, &text)
                        .map(|x| (x.personal_account, x.full_name));
                    assert_eq!(got, by_patterns(&account, &name, &text), "text: {text:?}");
                }
            }
        }
    }
}

#[test]
fn ascii_digits_are_exactly_zero_to_nine() {
    let digits = DecimalDigits::new();
    for code in 0u8..128 {
        let c = code as char;
        assert_eq!(digits.matches(c), c.is_ascii_digit(), "char {code:#x}");
    }
    assert!(digits.matches('٣'));
    assert!(digits.matches('७'));
    assert!(!digits.matches('½'));
    assert!(!digits.matches('Ⅷ'));
    assert!(!digits.matches('И'));
}

#[test]
fn the_plain_function_agrees_with_the_shared_class() {
    let digits = DecimalDigits::new();
    for text in ["1234567890 Иванов И.И.", "", "x", "١٢٣٤٥٦٧٨٩٠ Иванов И И", "123 Петров П.П."] {
        assert_eq!(extract_account_and_name(text), extract_account_and_name_with(&digits, text));
    }
}

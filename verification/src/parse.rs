//! The cell grammar as a whole: the first run of ten decimal digits is the
//! personal account number, and the name is looked for right after it.

use vstd::prelude::*;
use crate::fio::{
    extract_fio_chars, fio_name, law_initials_with_dots, law_text_after_initials_ignored,
    law_written_name_after_separator, law_written_name_after_space, lemma_fio_name_by_scan,
};
use crate::text::{is_dash, is_lead, is_lower, is_space, is_upper, trim_end, trim_start, chars_of, copy_range, lemma_trim_append, lemma_trim_idempotent, string_of_range, trim, trim_bounds};

verus! {

/// The number of digits in a personal account number.
pub const ACCOUNT_DIGITS: usize = 10;

/// Declares `regex::Regex` to the verifier; values of it stay opaque.
#[verifier::external_type_specification]
#[verifier::external_body]
pub struct ExRegex(regex::Regex);

/// What `regex::Regex::is_match` answers for the pattern `\A\d\z` on the
/// one-character text `c`: whether `c` is a Unicode decimal digit (general
/// category `Nd`), the class that `\d` denotes.
pub uninterp spec fn is_decimal_digit(c: char) -> bool;

/// The pattern of a single Unicode decimal digit: `\A\d\z`.
pub open spec fn digit_pattern() -> Seq<char> {
    seq!['\\', 'A', '\\', 'd', '\\', 'z']
}

/// `regex::Regex::new` on `pattern`, which can only be the digit pattern,
/// a valid one: the `unwrap` never fails.
#[verifier::external_body]
fn compile_digit_pattern(pattern: &str) -> (r: regex::Regex)
    requires
        pattern@ == digit_pattern(),
{
    regex::Regex::new(pattern).unwrap()
}

/// `regex::Regex::is_match` of the pattern compiled into `digits`, which
/// is the digit pattern, on the one-character text `c`. The regex
/// documentation states that `\d` is the Unicode class `Nd`: its ASCII
/// members are exactly `0` to `9`, and it holds no letter, white space or
/// punctuation. The contract says that much and names the rest.
#[verifier::external_body]
fn digit_pattern_matches(digits: &DecimalDigits, c: char) -> (r: bool)
    requires
        digits.source() == digit_pattern(),
    ensures
        r == is_decimal_digit(c),
        c <= '\u{7f}' ==> (r <==> '0' <= c <= '9'),
        is_upper(c) || is_lower(c) || is_lead(c) || is_dash(c) || c == '.' ==> !r,
{
    let mut buf = [0u8; 4];
    digits.re.is_match(c.encode_utf8(&mut buf))
}

/// The class of Unicode decimal digits, compiled once and used for many
/// texts. It keeps the pattern it was compiled from, which is always the
/// digit pattern.
pub struct DecimalDigits {
    re: regex::Regex,
    pattern: Ghost<Seq<char>>,
}

impl DecimalDigits {
    /// The pattern that the class was compiled from.
    pub closed spec fn source(&self) -> Seq<char> {
        self.pattern@
    }

    #[verifier::type_invariant]
    spec fn compiled_from_digit_pattern(self) -> bool {
        self.pattern@ == digit_pattern()
    }

    /// The class compiled from the digit pattern `\A\d\z`.
    pub fn new() -> (r: DecimalDigits)
        ensures
            r.source() == digit_pattern(),
    {
        let pattern = "\\A\\d\\z";
        proof {
            reveal_strlit("\\A\\d\\z");
            assert(pattern@ =~= digit_pattern());
        }
        DecimalDigits { re: compile_digit_pattern(pattern), pattern: Ghost(pattern@) }
    }

    /// Whether `c` is a decimal digit.
    pub fn matches(&self, c: char) -> (r: bool)
        ensures
            r == is_decimal_digit(c),
            c <= '\u{7f}' ==> (r <==> '0' <= c <= '9'),
            is_upper(c) || is_lower(c) || is_lead(c) || is_dash(c) || c == '.' ==> !r,
    {
        proof {
            use_type_invariant(self);
        }
        digit_pattern_matches(self, c)
    }
}

/// Ten decimal digits start at `i` in `t`.
pub open spec fn account_at(t: Seq<char>, i: int) -> bool {
    &&& 0 <= i
    &&& i + ACCOUNT_DIGITS <= t.len()
    &&& forall|k: int| i <= k < i + ACCOUNT_DIGITS ==> is_decimal_digit(#[trigger] t[k])
}

/// The first ten decimal digits of `t` start at `i`.
pub open spec fn first_account(t: Seq<char>, i: int) -> bool {
    &&& account_at(t, i)
    &&& forall|j: int| 0 <= j < i ==> !account_at(t, j)
}

/// What a cell's text yields: its trimmed text holds ten decimal digits, the
/// first of them are the account, and the name is the one that the text
/// right after them begins with (empty when there is none).
pub open spec fn extraction(text: Seq<char>) -> Option<(Seq<char>, Seq<char>)> {
    let t = trim(text);
    if exists|i: int| first_account(t, i) {
        let i = choose|i: int| first_account(t, i);
        Some(
            (
                t.subrange(i, i + ACCOUNT_DIGITS),
                fio_name(t.subrange(i + ACCOUNT_DIGITS, t.len() as int)),
            ),
        )
    } else {
        None
    }
}

/// The account found is ten decimal digits that stand together in the
/// trimmed text, and no ten digits stand together before them.
pub proof fn law_account_is_first_ten_digits(text: Seq<char>)
    requires
        extraction(text) is Some,
    ensures
        ({
            let t = trim(text);
            let account = (extraction(text)->0).0;
            exists|i: int|
                first_account(t, i) && account == t.subrange(i, i + ACCOUNT_DIGITS) && account.len()
                    == ACCOUNT_DIGITS && forall|k: int|
                    0 <= k < ACCOUNT_DIGITS ==> is_decimal_digit(#[trigger] account[k])
        }),
{
    let t = trim(text);
    let i = choose|i: int| first_account(t, i);
    let account = t.subrange(i, i + ACCOUNT_DIGITS);
    assert forall|k: int| 0 <= k < ACCOUNT_DIGITS implies is_decimal_digit(#[trigger] account[k]) by {
        assert(account[k] == t[i + k]);
    }
}

/// Whatever follows the name is dropped: once a text yields an account and
/// a name, appending anything to it yields the same account and name.
pub proof fn law_text_after_name_ignored(text: Seq<char>, x: Seq<char>)
    requires
        extraction(text) matches Some((account, name)) && name.len() > 0,
    ensures
        extraction(text + x) == extraction(text),
{
    let t = trim(text);
    let i = choose|i: int| first_account(t, i);
    assert(t.len() > 0);
    let y = lemma_trim_append(text, x);
    let t2 = trim(text + x);
    assert(t2 == t + y);
    assert forall|j: int| 0 <= j <= i implies account_at(t2, j) == account_at(t, j) by {
        if j + ACCOUNT_DIGITS <= t.len() {
            assert forall|k: int| j <= k < j + ACCOUNT_DIGITS implies t2[k] == t[k] by {}
            if account_at(t, j) {
                assert forall|k: int| j <= k < j + ACCOUNT_DIGITS implies is_decimal_digit(
                    #[trigger] t2[k],
                ) by {
                    assert(is_decimal_digit(t[k]));
                }
            }
            if account_at(t2, j) {
                assert forall|k: int| j <= k < j + ACCOUNT_DIGITS implies is_decimal_digit(
                    #[trigger] t[k],
                ) by {
                    assert(is_decimal_digit(t2[k]));
                }
            }
        }
    }
    assert(first_account(t2, i));
    assert forall|j: int| first_account(t2, j) implies j == i by {
        if j < i {
            assert(account_at(t2, j) == account_at(t, j));
        } else if j > i {
            assert(!account_at(t2, i));
        }
    }
    let after = t.subrange(i + ACCOUNT_DIGITS, t.len() as int);
    assert(t2.subrange(i + ACCOUNT_DIGITS, t2.len() as int) =~= after + y);
    assert(t2.subrange(i, i + ACCOUNT_DIGITS) =~= t.subrange(i, i + ACCOUNT_DIGITS));
    law_text_after_initials_ignored(after, y);
}

/// White space around the text does not matter: the text is trimmed first.
pub proof fn law_surrounding_space_ignored(text: Seq<char>)
    ensures
        extraction(trim(text)) == extraction(text),
{
    lemma_trim_idempotent(text);
}

/// The account, a space and a name as it is written back, read together,
/// give back that account and that name. The account is ten decimal digits
/// that are no white space, as `0` to `9` are.
pub proof fn law_account_and_name_read_back(account: Seq<char>, x: Seq<char>)
    requires
        account.len() == ACCOUNT_DIGITS,
        forall|k: int|
            0 <= k < ACCOUNT_DIGITS ==> is_decimal_digit(#[trigger] account[k]) && !is_space(
                account[k],
            ),
    ensures
        extraction(account + seq![' '] + fio_name(x)) == Some((account, fio_name(x))),
{
    let r = fio_name(x);
    let text = account + seq![' '] + r;
    assert(text[0] == account[0]);
    assert(trim_start(text) == text);
    if r.len() == 0 {
        assert(text.drop_last() =~= account);
        assert(trim_end(text) == trim_end(account));
        assert(account.last() == account[ACCOUNT_DIGITS - 1]);
        assert(trim_end(account) == account);
        assert(trim(text) == account);
    } else {
        law_initials_with_dots(x);
        assert(text.last() == r.last());
        assert(trim_end(text) == text);
    }
    let t = trim(text);
    assert forall|k: int| 0 <= k < ACCOUNT_DIGITS implies t[k] == account[k] by {}
    assert(account_at(t, 0)) by {
        assert forall|k: int| 0 <= k < ACCOUNT_DIGITS implies is_decimal_digit(#[trigger] t[k]) by {
            assert(t[k] == account[k]);
        }
    }
    assert(first_account(t, 0));
    assert forall|j: int| first_account(t, j) implies j == 0 by {
        if j > 0 {
            assert(!account_at(t, 0));
        }
    }
    assert(t.subrange(0, ACCOUNT_DIGITS as int) =~= account);
    if r.len() == 0 {
        let after = t.subrange(ACCOUNT_DIGITS as int, t.len() as int);
        assert(after =~= Seq::<char>::empty());
        lemma_fio_name_by_scan(after);
    } else {
        assert(t.subrange(ACCOUNT_DIGITS as int, t.len() as int) =~= seq![' '] + r);
        law_written_name_after_space(x);
    }
}

/// The account, any one white-space character (a space, a tab, a line
/// break, ...) and a name as it is written back, read together, give back
/// that account and that name.
pub proof fn law_account_and_name_across_white_space(
    account: Seq<char>,
    separator: char,
    x: Seq<char>,
)
    requires
        account.len() == ACCOUNT_DIGITS,
        forall|k: int|
            0 <= k < ACCOUNT_DIGITS ==> is_decimal_digit(#[trigger] account[k]) && !is_space(
                account[k],
            ),
        is_space(separator),
    ensures
        extraction(account + seq![separator] + fio_name(x)) == Some((account, fio_name(x))),
{
    let r = fio_name(x);
    let text = account + seq![separator] + r;
    assert(text[0] == account[0]);
    assert(trim_start(text) == text);
    if r.len() == 0 {
        assert(text.drop_last() =~= account);
        assert(trim_end(text) == trim_end(account));
        assert(account.last() == account[ACCOUNT_DIGITS - 1]);
        assert(trim_end(account) == account);
        assert(trim(text) == account);
    } else {
        law_initials_with_dots(x);
        assert(text.last() == r.last());
        assert(trim_end(text) == text);
    }
    let t = trim(text);
    assert forall|k: int| 0 <= k < ACCOUNT_DIGITS implies t[k] == account[k] by {}
    assert(account_at(t, 0)) by {
        assert forall|k: int| 0 <= k < ACCOUNT_DIGITS implies is_decimal_digit(#[trigger] t[k]) by {
            assert(t[k] == account[k]);
        }
    }
    assert(first_account(t, 0));
    assert forall|j: int| first_account(t, j) implies j == 0 by {
        if j > 0 {
            assert(!account_at(t, 0));
        }
    }
    assert(t.subrange(0, ACCOUNT_DIGITS as int) =~= account);
    if r.len() == 0 {
        let after = t.subrange(ACCOUNT_DIGITS as int, t.len() as int);
        assert(after =~= Seq::<char>::empty());
        lemma_fio_name_by_scan(after);
    } else {
        assert(t.subrange(ACCOUNT_DIGITS as int, t.len() as int) =~= seq![separator] + r);
        law_written_name_after_separator(separator, x);
    }
}

/// A line break between the account and the name separates them like a
/// space: the account, a line feed and a name as it is written back give
/// back that account and that name.
pub proof fn law_line_break_between_account_and_name(account: Seq<char>, x: Seq<char>)
    requires
        account.len() == ACCOUNT_DIGITS,
        forall|k: int|
            0 <= k < ACCOUNT_DIGITS ==> is_decimal_digit(#[trigger] account[k]) && !is_space(
                account[k],
            ),
    ensures
        extraction(account + seq!['\n'] + fio_name(x)) == Some((account, fio_name(x))),
{
    law_account_and_name_across_white_space(account, '\n', x);
}

/// A personal account number and the name found after it.
#[derive(Debug, Clone, PartialEq, Eq)]
pub struct Extracted {
    pub personal_account: String,
    pub full_name: String,
}

/// Whether ten decimal digits start at `i`.
fn account_at_exec(digits: &DecimalDigits, t: &Vec<char>, i: usize) -> (r: bool)
    requires
        i + ACCOUNT_DIGITS <= t.len(),
    ensures
        r == account_at(t@, i as int),
{
    let mut k: usize = 0;
    while k < ACCOUNT_DIGITS
        invariant
            k <= ACCOUNT_DIGITS,
            i + ACCOUNT_DIGITS <= t.len(),
            forall|m: int| i <= m < i + k ==> is_decimal_digit(#[trigger] t@[m]),
        decreases ACCOUNT_DIGITS - k,
    {
        if !digits.matches(t[i + k]) {
            return false;
        }
        k = k + 1;
    }
    true
}

/// The start of the first ten decimal digits of `t`, if any.
fn find_account(digits: &DecimalDigits, t: &Vec<char>) -> (r: Option<usize>)
    ensures
        match r {
            Some(i) => first_account(t@, i as int),
            None => forall|i: int| !account_at(t@, i),
        },
{
    if t.len() < ACCOUNT_DIGITS {
        return None;
    }
    let mut i: usize = 0;
    while i <= t.len() - ACCOUNT_DIGITS
        invariant
            ACCOUNT_DIGITS <= t.len(),
            i <= t.len() - ACCOUNT_DIGITS + 1,
            forall|j: int| 0 <= j < i ==> !account_at(t@, j),
        decreases t.len() - i,
    {
        if account_at_exec(digits, t, i) {
            return Some(i);
        }
        i = i + 1;
    }
    None
}

/// Looks in `text` for the first ten decimal digits and the name right after
/// them.
///
/// The name is read as `Иванов И.И.`, `Иванов И И` or `Петрова-Сидорова П.С.`
/// and always written with dots after the initials; what follows the
/// initials is dropped. Without ten digits there is no result; with them but
/// without a name, the name is empty.
pub fn extract_account_and_name(text: &str) -> (r: Option<Extracted>)
    ensures
        match r {
            Some(x) => extraction(text@) == Some((x.personal_account@, x.full_name@)),
            None => extraction(text@) is None,
        },
{
    let digits = DecimalDigits::new();
    extract_account_and_name_with(&digits, text)
}

/// `extract_account_and_name` with a digit class compiled beforehand, for
/// the many cells of a workbook.
pub fn extract_account_and_name_with(digits: &DecimalDigits, text: &str) -> (r: Option<Extracted>)
    ensures
        match r {
            Some(x) => extraction(text@) == Some((x.personal_account@, x.full_name@)),
            None => extraction(text@) is None,
        },
{
    let v = chars_of(text);
    let (lo, hi) = trim_bounds(&v);
    let t = copy_range(&v, lo, hi);
    if t.len() == 0 {
        return None;
    }
    match find_account(digits, &t) {
        None => None,
        Some(i) => {
            proof {
                assert forall|j: int| first_account(t@, j) implies j == i by {
                    if j < i {
                        assert(!account_at(t@, j));
                    } else if j > i {
                        assert(!account_at(t@, i as int));
                    }
                }
            }
            let personal_account = string_of_range(&t, i, i + ACCOUNT_DIGITS);
            let after = copy_range(&t, i + ACCOUNT_DIGITS, t.len());
            let full_name = extract_fio_chars(&after);
            Some(Extracted { personal_account, full_name })
        },
    }
}

} // verus!

//! Character classes, runs of a class, trimming, and the conversions between
//! `&str`/`String` and vectors of characters on which the grammar works.

use vstd::prelude::*;

verus! {

/// The Unicode `White_Space` property: the characters that `str::trim`
/// removes and that the pattern class `\s` accepts.
pub open spec fn is_space(c: char) -> bool {
    ||| ('\u{9}' <= c && c <= '\u{d}')
    ||| c == ' '
    ||| c == '\u{85}'
    ||| c == '\u{a0}'
    ||| c == '\u{1680}'
    ||| ('\u{2000}' <= c && c <= '\u{200a}')
    ||| c == '\u{2028}'
    ||| c == '\u{2029}'
    ||| c == '\u{202f}'
    ||| c == '\u{205f}'
    ||| c == '\u{3000}'
}

/// An upper-case letter of the name grammar: `А`..`Я`, `Ё` or `A`..`Z`.
pub open spec fn is_upper(c: char) -> bool {
    ||| ('\u{410}' <= c && c <= '\u{42f}')
    ||| c == '\u{401}'
    ||| ('A' <= c && c <= 'Z')
}

/// A lower-case letter of the name grammar: `а`..`я`, `ё` or `a`..`z`.
pub open spec fn is_lower(c: char) -> bool {
    ||| ('\u{430}' <= c && c <= '\u{44f}')
    ||| c == '\u{451}'
    ||| ('a' <= c && c <= 'z')
}

/// A character that may stand between the account number and the name:
/// white space, `,`, `;`, `:`, `/` or `\`.
pub open spec fn is_lead(c: char) -> bool {
    ||| is_space(c)
    ||| c == ','
    ||| c == ';'
    ||| c == ':'
    ||| c == '/'
    ||| c == '\\'
}

/// A dash that may open the name: hyphen-minus, en dash or em dash.
pub open spec fn is_dash(c: char) -> bool {
    ||| c == '-'
    ||| c == '\u{2013}'
    ||| c == '\u{2014}'
}

/// White space is exactly the Unicode `White_Space` set: tab, line feed,
/// vertical tab, form feed, carriage return, space, next line, no-break
/// space, ogham space mark, the eleven spaces from en quad to hair space,
/// line separator, paragraph separator, narrow no-break space, medium
/// mathematical space and ideographic space.
pub proof fn law_white_space_set(c: char)
    ensures
        is_space(c) <==> (c == '\t' || c == '\n' || c == '\u{0B}' || c == '\u{0C}' || c == '\r'
            || c == ' ' || c == '\u{85}' || c == '\u{A0}' || c == '\u{1680}' || c == '\u{2000}'
            || c == '\u{2001}' || c == '\u{2002}' || c == '\u{2003}' || c == '\u{2004}' || c
            == '\u{2005}' || c == '\u{2006}' || c == '\u{2007}' || c == '\u{2008}' || c
            == '\u{2009}' || c == '\u{200A}' || c == '\u{2028}' || c == '\u{2029}' || c
            == '\u{202F}' || c == '\u{205F}' || c == '\u{3000}'),
{
}

/// The capitals of the name grammar are exactly `А` to `Я`, `Ё`, and `A` to
/// `Z`: 33 Cyrillic and 26 Latin letters.
pub proof fn law_upper_letters(c: char)
    ensures
        is_upper(c) <==> ('А' <= c && c <= 'Я') || c == 'Ё' || ('A' <= c && c <= 'Z'),
        is_upper('А') && is_upper('Т') && is_upper('Я') && is_upper('Ё') && is_upper('A')
            && is_upper('Z'),
{
}

/// The small letters of the name grammar are exactly `а` to `я`, `ё`, and
/// `a` to `z`.
pub proof fn law_lower_letters(c: char)
    ensures
        is_lower(c) <==> ('а' <= c && c <= 'я') || c == 'ё' || ('a' <= c && c <= 'z'),
{
}

/// What may stand between the account and the name is white space and
/// `,` `;` `:` `/` `\`; a dash is `-`, `–` or `—`.
pub proof fn law_separators(c: char)
    ensures
        is_lead(c) <==> (is_space(c) || c == ',' || c == ';' || c == ':' || c == '/' || c == '\\'),
        is_dash(c) <==> (c == '-' || c == '–' || c == '—'),
{
}

/// The classes whose maximal runs the name grammar skips over.
#[derive(Clone, Copy, PartialEq, Eq, Debug)]
pub enum Class {
    Space,
    Lead,
    Lower,
}

pub open spec fn in_class(k: Class, c: char) -> bool {
    match k {
        Class::Space => is_space(c),
        Class::Lead => is_lead(c),
        Class::Lower => is_lower(c),
    }
}

/// Every character of `s` in `[i, j)` belongs to class `k`.
pub open spec fn all_in(s: Seq<char>, i: int, j: int, k: Class) -> bool {
    forall|m: int| i <= m < j ==> in_class(k, #[trigger] s[m])
}

/// The end of the maximal run of class `k` that starts at `i`.
pub open spec fn skip(s: Seq<char>, i: int, k: Class) -> int
    decreases s.len() - i,
{
    if 0 <= i < s.len() && in_class(k, s[i]) {
        skip(s, i + 1, k)
    } else {
        i
    }
}

/// `s` without its leading white space.
pub open spec fn trim_start(s: Seq<char>) -> Seq<char>
    decreases s.len(),
{
    if s.len() > 0 && is_space(s[0]) {
        trim_start(s.drop_first())
    } else {
        s
    }
}

/// `s` without its trailing white space.
pub open spec fn trim_end(s: Seq<char>) -> Seq<char>
    decreases s.len(),
{
    if s.len() > 0 && is_space(s.last()) {
        trim_end(s.drop_last())
    } else {
        s
    }
}

/// `s` without leading and trailing white space, as `str::trim` gives it.
pub open spec fn trim(s: Seq<char>) -> Seq<char> {
    trim_end(trim_start(s))
}

/// The run of class `k` from `i` ends where `skip` says, holds only that
/// class, and is followed by a character outside it (or by the end).
pub proof fn lemma_skip(s: Seq<char>, i: int, k: Class)
    requires
        0 <= i <= s.len(),
    ensures
        i <= skip(s, i, k) <= s.len(),
        all_in(s, i, skip(s, i, k), k),
        skip(s, i, k) == s.len() || !in_class(k, s[skip(s, i, k)]),
    decreases s.len() - i,
{
    if i < s.len() && in_class(k, s[i]) {
        lemma_skip(s, i + 1, k);
    }
}

/// A run of class `k` over `[i, j)` followed by the end or by a character
/// outside the class is the maximal run from `i`.
pub proof fn lemma_skip_to(s: Seq<char>, i: int, j: int, k: Class)
    requires
        0 <= i <= j <= s.len(),
        all_in(s, i, j, k),
        j == s.len() || !in_class(k, s[j]),
    ensures
        skip(s, i, k) == j,
    decreases j - i,
{
    if i < j {
        lemma_skip_to(s, i + 1, j, k);
    }
}

/// Leading white space up to `i` does not change `trim_start`.
pub proof fn lemma_trim_start_skip(s: Seq<char>, i: int)
    requires
        0 <= i <= s.len(),
        all_in(s, 0, i, Class::Space),
    ensures
        trim_start(s) == trim_start(s.subrange(i, s.len() as int)),
    decreases i,
{
    if i == 0 {
        assert(s.subrange(0, s.len() as int) =~= s);
    } else {
        lemma_trim_start_skip(s, i - 1);
        let t = s.subrange(i - 1, s.len() as int);
        assert(is_space(t[0]));
        assert(t.drop_first() =~= s.subrange(i, s.len() as int));
    }
}

/// Trailing white space from `j` on does not change `trim_end`.
pub proof fn lemma_trim_end_skip(s: Seq<char>, j: int)
    requires
        0 <= j <= s.len(),
        all_in(s, j, s.len() as int, Class::Space),
    ensures
        trim_end(s) == trim_end(s.subrange(0, j)),
    decreases s.len() - j,
{
    if j == s.len() {
        assert(s.subrange(0, j) =~= s);
    } else {
        lemma_trim_end_skip(s, j + 1);
        let t = s.subrange(0, j + 1);
        assert(is_space(t.last()));
        assert(t.drop_last() =~= s.subrange(0, j));
    }
}

/// Trimming text that is white space, then `u[i..j]` (which begins and ends
/// with other characters), then white space, gives `u[i..j]`.
pub proof fn lemma_trim_padded(u: Seq<char>, i: int, j: int)
    requires
        0 <= i < j <= u.len(),
        all_in(u, 0, i, Class::Space),
        all_in(u, j, u.len() as int, Class::Space),
        !is_space(u[i]),
        !is_space(u[j - 1]),
    ensures
        trim(u) == u.subrange(i, j),
{
    lemma_trim_start_skip(u, i);
    let v = u.subrange(i, u.len() as int);
    assert(trim_start(v) == v);
    assert(all_in(v, j - i, v.len() as int, Class::Space));
    lemma_trim_end_skip(v, j - i);
    let w = v.subrange(0, j - i);
    assert(w =~= u.subrange(i, j));
    assert(!is_space(w.last()));
}

/// Leading white space is removed the same way whatever follows a text
/// that holds something else.
pub proof fn lemma_trim_start_append(u: Seq<char>, x: Seq<char>)
    requires
        trim_start(u).len() > 0,
    ensures
        trim_start(u + x) == trim_start(u) + x,
    decreases u.len(),
{
    if u.len() > 0 && is_space(u[0]) {
        assert((u + x).drop_first() =~= u.drop_first() + x);
        lemma_trim_start_append(u.drop_first(), x);
    } else {
        assert(u.len() > 0);
        assert((u + x)[0] == u[0]);
    }
}

/// A text is its `trim_end` followed by white space.
pub proof fn lemma_trim_end_split(u: Seq<char>) -> (z: Seq<char>)
    ensures
        u == trim_end(u) + z,
        all_in(z, 0, z.len() as int, Class::Space),
    decreases u.len(),
{
    if u.len() > 0 && is_space(u.last()) {
        let z0 = lemma_trim_end_split(u.drop_last());
        let z = z0.push(u.last());
        assert(trim_end(u) == trim_end(u.drop_last()));
        assert(u =~= u.drop_last().push(u.last()));
        assert(u.drop_last().push(u.last()) =~= (trim_end(u.drop_last()) + z0).push(u.last()));
        assert((trim_end(u.drop_last()) + z0).push(u.last()) =~= trim_end(u) + z);
        z
    } else {
        assert(u =~= trim_end(u) + Seq::<char>::empty());
        Seq::<char>::empty()
    }
}

/// Removing trailing white space from a longer text keeps what it kept of
/// the shorter one, and perhaps more.
pub proof fn lemma_trim_end_append(u: Seq<char>, x: Seq<char>) -> (y: Seq<char>)
    ensures
        trim_end(u + x) == trim_end(u) + y,
    decreases x.len(),
{
    if x.len() == 0 {
        assert(u + x =~= u);
        assert(trim_end(u) + Seq::<char>::empty() =~= trim_end(u));
        Seq::<char>::empty()
    } else if is_space(x.last()) {
        assert((u + x).drop_last() =~= u + x.drop_last());
        assert((u + x).last() == x.last());
        lemma_trim_end_append(u, x.drop_last())
    } else {
        assert((u + x).last() == x.last());
        let z = lemma_trim_end_split(u);
        assert(u + x =~= trim_end(u) + (z + x));
        z + x
    }
}

/// Trimming a longer text keeps what trimming the shorter one kept, when
/// that was not empty, and perhaps more.
pub proof fn lemma_trim_append(u: Seq<char>, x: Seq<char>) -> (y: Seq<char>)
    requires
        trim(u).len() > 0,
    ensures
        trim(u + x) == trim(u) + y,
{
    if trim_start(u).len() == 0 {
        assert(trim_start(u) =~= Seq::<char>::empty());
        assert(trim(u).len() == 0);
    }
    lemma_trim_start_append(u, x);
    lemma_trim_end_append(trim_start(u), x)
}

/// What `trim_start` leaves does not begin with white space.
proof fn lemma_trim_start_shape(u: Seq<char>)
    ensures
        trim_start(u).len() == 0 || !is_space(trim_start(u)[0]),
    decreases u.len(),
{
    if u.len() > 0 && is_space(u[0]) {
        lemma_trim_start_shape(u.drop_first());
    }
}

/// What `trim_end` leaves does not end with white space.
proof fn lemma_trim_end_shape(u: Seq<char>)
    ensures
        trim_end(u).len() == 0 || !is_space(trim_end(u).last()),
    decreases u.len(),
{
    if u.len() > 0 && is_space(u.last()) {
        lemma_trim_end_shape(u.drop_last());
    }
}

/// Trimming twice is trimming once.
pub proof fn lemma_trim_idempotent(u: Seq<char>)
    ensures
        trim(trim(u)) == trim(u),
{
    let v = trim_start(u);
    let t = trim(u);
    lemma_trim_start_shape(u);
    lemma_trim_end_shape(v);
    let z = lemma_trim_end_split(v);
    if t.len() > 0 {
        assert(t[0] == v[0]);
        assert(trim_start(t) == t);
        assert(trim_end(t) == t);
    } else {
        assert(trim_start(t) == t);
        assert(trim_end(t) == t);
    }
}

pub fn char_is_space(c: char) -> (r: bool)
    ensures
        r == is_space(c),
{
    ('\u{9}' <= c && c <= '\u{d}') || c == ' ' || c == '\u{85}' || c == '\u{a0}' || c
        == '\u{1680}' || ('\u{2000}' <= c && c <= '\u{200a}') || c == '\u{2028}' || c
        == '\u{2029}' || c == '\u{202f}' || c == '\u{205f}' || c == '\u{3000}'
}

pub fn char_is_upper(c: char) -> (r: bool)
    ensures
        r == is_upper(c),
{
    ('\u{410}' <= c && c <= '\u{42f}') || c == '\u{401}' || ('A' <= c && c <= 'Z')
}

pub fn char_is_lower(c: char) -> (r: bool)
    ensures
        r == is_lower(c),
{
    ('\u{430}' <= c && c <= '\u{44f}') || c == '\u{451}' || ('a' <= c && c <= 'z')
}

pub fn char_is_dash(c: char) -> (r: bool)
    ensures
        r == is_dash(c),
{
    c == '-' || c == '\u{2013}' || c == '\u{2014}'
}

pub fn char_in_class(k: Class, c: char) -> (r: bool)
    ensures
        r == in_class(k, c),
{
    match k {
        Class::Space => char_is_space(c),
        Class::Lead => char_is_space(c) || c == ',' || c == ';' || c == ':' || c == '/' || c
            == '\\',
        Class::Lower => char_is_lower(c),
    }
}

/// The end of the maximal run of class `k` in `s` from `i`.
pub fn skip_run(s: &Vec<char>, i: usize, k: Class) -> (r: usize)
    requires
        i <= s.len(),
    ensures
        r == skip(s@, i as int, k),
{
    let mut j = i;
    while j < s.len() && char_in_class(k, s[j])
        invariant
            i <= j <= s.len(),
            skip(s@, i as int, k) == skip(s@, j as int, k),
        decreases s.len() - j,
    {
        j = j + 1;
    }
    j
}

/// The bounds `[lo, hi)` of `s` once leading and trailing white space is
/// removed.
pub fn trim_bounds(s: &Vec<char>) -> (r: (usize, usize))
    ensures
        r.0 <= r.1 <= s.len(),
        s@.subrange(r.0 as int, r.1 as int) == trim(s@),
{
    let lo = skip_run(s, 0, Class::Space);
    proof {
        lemma_skip(s@, 0, Class::Space);
        lemma_trim_start_skip(s@, lo as int);
    }
    let ghost u = s@.subrange(lo as int, s.len() as int);
    assert(trim_start(u) == u);
    let mut hi = s.len();
    while hi > lo && char_is_space(s[hi - 1])
        invariant
            lo <= hi <= s.len(),
            u == s@.subrange(lo as int, s.len() as int),
            all_in(s@, hi as int, s.len() as int, Class::Space),
        decreases hi,
    {
        hi = hi - 1;
    }
    proof {
        assert(all_in(u, hi - lo, u.len() as int, Class::Space));
        lemma_trim_end_skip(u, hi - lo);
        let w = u.subrange(0, hi - lo);
        assert(w =~= s@.subrange(lo as int, hi as int));
        if hi > lo {
            assert(!is_space(w.last()));
        } else {
            assert(w.len() == 0);
        }
    }
    (lo, hi)
}

/// The characters of a string slice, in order.
pub fn chars_of(s: &str) -> (v: Vec<char>)
    ensures
        v@ == s@,
{
    broadcast use vstd::string::group_string_axioms;

    let mut v: Vec<char> = Vec::new();
    for c in it: s.chars()
        invariant
            v@ == it.seq().take(it.index() as int),
            it.seq() == s@,
    {
        v.push(c);
    }
    v
}

/// `String::push`: appends one character.
#[verifier::external_body]
pub(crate) fn push_char(s: &mut String, c: char)
    ensures
        final(s)@ == old(s)@.push(c),
{
    s.push(c);
}

/// Appends a string slice.
pub fn push_str(out: &mut String, s: &str)
    ensures
        final(out)@ == old(out)@ + s@,
{
    out.append(s);
}

/// A new string holding the characters of `s`.
pub fn string_of(s: &str) -> (r: String)
    ensures
        r@ == s@,
{
    let mut out = String::new();
    push_str(&mut out, s);
    assert(Seq::<char>::empty() + s@ =~= s@);
    out
}

/// Appends the characters `v[lo..hi]` to `out`.
pub fn push_range(out: &mut String, v: &Vec<char>, lo: usize, hi: usize)
    requires
        lo <= hi <= v.len(),
    ensures
        final(out)@ == old(out)@ + v@.subrange(lo as int, hi as int),
{
    let mut i = lo;
    while i < hi
        invariant
            lo <= i <= hi <= v.len(),
            out@ == old(out)@ + v@.subrange(lo as int, i as int),
        decreases hi - i,
    {
        push_char(out, v[i]);
        i = i + 1;
        assert(v@.subrange(lo as int, i as int) =~= v@.subrange(lo as int, i - 1).push(v@[i - 1]));
    }
}

/// A new string holding `v[lo..hi]`.
pub fn string_of_range(v: &Vec<char>, lo: usize, hi: usize) -> (s: String)
    requires
        lo <= hi <= v.len(),
    ensures
        s@ == v@.subrange(lo as int, hi as int),
{
    let mut s = String::new();
    push_range(&mut s, v, lo, hi);
    assert(Seq::<char>::empty() + v@.subrange(lo as int, hi as int) =~= v@.subrange(lo as int, hi as int));
    s
}

/// A new vector holding `v[lo..hi]`.
pub fn copy_range(v: &Vec<char>, lo: usize, hi: usize) -> (r: Vec<char>)
    requires
        lo <= hi <= v.len(),
    ensures
        r@ == v@.subrange(lo as int, hi as int),
{
    let mut r: Vec<char> = Vec::new();
    let mut i = lo;
    while i < hi
        invariant
            lo <= i <= hi <= v.len(),
            r@ == v@.subrange(lo as int, i as int),
        decreases hi - i,
    {
        r.push(v[i]);
        i = i + 1;
    }
    r
}

/// The character of decimal digit `d`.
pub open spec fn digit_char(d: int) -> char {
    if d == 0 { '0' }
    else if d == 1 { '1' }
    else if d == 2 { '2' }
    else if d == 3 { '3' }
    else if d == 4 { '4' }
    else if d == 5 { '5' }
    else if d == 6 { '6' }
    else if d == 7 { '7' }
    else if d == 8 { '8' }
    else { '9' }
}

/// The decimal digits of `n`, most significant first, without leading zeros.
pub open spec fn decimal_digits(n: nat) -> Seq<char>
    decreases n,
{
    if n < 10 {
        seq![digit_char(n as int)]
    } else {
        decimal_digits(n / 10).push(digit_char((n % 10) as int))
    }
}

/// The decimal digits of `n`, with zeros in front up to `width` characters.
pub open spec fn zero_padded(n: nat, width: nat) -> Seq<char> {
    let d = decimal_digits(n);
    if d.len() >= width {
        d
    } else {
        Seq::new((width - d.len()) as nat, |i: int| '0') + d
    }
}

fn digit_char_exec(d: u64) -> (c: char)
    requires
        d < 10,
    ensures
        c == digit_char(d as int),
{
    if d == 0 { '0' }
    else if d == 1 { '1' }
    else if d == 2 { '2' }
    else if d == 3 { '3' }
    else if d == 4 { '4' }
    else if d == 5 { '5' }
    else if d == 6 { '6' }
    else if d == 7 { '7' }
    else if d == 8 { '8' }
    else { '9' }
}

/// Appends the decimal digits of `n`, padded with zeros to `width`.
pub fn push_decimal(out: &mut String, n: u64, width: usize)
    ensures
        final(out)@ == old(out)@ + zero_padded(n as nat, width as nat),
{
    let mut digits: Vec<char> = Vec::new();
    let mut cur = n;
    while cur >= 10
        invariant
            decimal_digits(n as nat) == decimal_digits(cur as nat) + digits@,
        decreases cur,
    {
        let ghost before = digits@;
        digits.insert(0, digit_char_exec(cur % 10));
        proof {
            assert(decimal_digits(cur as nat) == decimal_digits((cur / 10) as nat).push(digit_char((cur % 10) as int)));
            assert(decimal_digits((cur / 10) as nat).push(digit_char((cur % 10) as int)) + before =~= decimal_digits((cur / 10) as nat) + digits@);
        }
        cur = cur / 10;
    }
    digits.insert(0, digit_char_exec(cur));
    assert(decimal_digits(n as nat) =~= digits@);
    let ghost start = out@;
    let mut pad = digits.len();
    while pad < width
        invariant
            digits.len() <= pad <= width || (pad == digits.len() && pad >= width),
            out@ == start + Seq::new((pad - digits.len()) as nat, |i: int| '0'),
        decreases width - pad,
    {
        push_char(out, '0');
        pad = pad + 1;
        assert(start + Seq::new((pad - digits.len()) as nat, |i: int| '0') =~= (start + Seq::new((pad - 1 - digits.len()) as nat, |i: int| '0')).push('0'));
    }
    let ghost padded = out@;
    let n_digits = digits.len();
    push_range(out, &digits, 0, n_digits);
    proof {
        assert(digits@.subrange(0, n_digits as int) =~= digits@);
        if digits.len() >= width {
            assert(Seq::new(0nat, |i: int| '0') =~= Seq::<char>::empty());
            assert(out@ =~= start + digits@);
        } else {
            assert(out@ =~= start + (Seq::new((width - digits.len()) as nat, |i: int| '0') + digits@));
        }
    }
}

} // verus!

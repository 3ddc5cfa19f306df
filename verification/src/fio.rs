//! The grammar of a person's name as it follows the account number in a
//! cell: a surname (possibly several capitalised words joined by hyphens),
//! then two initials, each with or without a dot.
//!
//! `name_match` states the grammar; `fio_scan` finds its unique match by
//! maximal runs; `fio_name` is the text written back for it.

use vstd::prelude::*;
use crate::text::{
    chars_of, char_is_space, char_is_upper, char_is_lower, char_is_dash, copy_range, push_char, push_range, skip_run, trim_bounds,
    all_in, in_class, is_dash, is_lead, is_lower, is_space, is_upper, lemma_skip, lemma_skip_to, lemma_trim_padded, lemma_trim_idempotent, skip, trim, trim_start, trim_end, Class};

verus! {

// ---------------------------------------------------------------------------
// The grammar
// ---------------------------------------------------------------------------
/// `s[x..y]` is one surname word: an upper-case letter and at least one
/// lower-case letter.
pub open spec fn word_span(s: Seq<char>, x: int, y: int) -> bool {
    &&& 0 <= x
    &&& x + 2 <= y <= s.len()
    &&& is_upper(s[x])
    &&& all_in(s, x + 1, y, Class::Lower)
}

/// `s[y..x]` is a hyphen with white space on either side.
pub open spec fn hyphen_gap(s: Seq<char>, y: int, x: int) -> bool {
    exists|q: int|
        y <= q < x && s[q] == '-' && all_in(s, y, q, Class::Space) && all_in(
            s,
            q + 1,
            x,
            Class::Space,
        )
}

/// `s[b..c]` is a surname whose words are `words`, joined by hyphen gaps.
#[verifier::opaque]
pub open spec fn surname_span(s: Seq<char>, b: int, c: int, words: Seq<(int, int)>) -> bool {
    &&& words.len() >= 1
    &&& words[0].0 == b
    &&& words.last().1 == c
    &&& forall|k: int| 0 <= k < words.len() ==> word_span(s, #[trigger] words[k].0, words[k].1)
    &&& forall|k: int|
        0 <= k < words.len() - 1 ==> hyphen_gap(s, #[trigger] words[k].1, words[k + 1].0)
}

/// `s[..b]` is what may precede the surname: separators, then optionally a
/// dash followed by white space.
#[verifier::opaque]
pub open spec fn lead_span(s: Seq<char>, b: int) -> bool {
    exists|a: int|
        0 <= a <= b && all_in(s, 0, a, Class::Lead) && (a == b || (is_dash(s[a]) && all_in(
            s,
            a + 1,
            b,
            Class::Space,
        )))
}

/// After the surname ending at `c`: white space, the first initial at `d`,
/// then a dot and optional white space, or white space alone, then the
/// second initial at `e`.
#[verifier::opaque]
pub open spec fn initials_span(s: Seq<char>, c: int, d: int, e: int) -> bool {
    &&& c < d
    &&& all_in(s, c, d, Class::Space)
    &&& d < e < s.len()
    &&& is_upper(s[d])
    &&& is_upper(s[e])
    &&& {
        ||| (s[d + 1] == '.' && all_in(s, d + 2, e, Class::Space))
        ||| (d + 1 < e && all_in(s, d + 1, e, Class::Space))
    }
}

/// `s` begins with a name whose surname is `s[b..c]` and whose initials are
/// `s[d]` and `s[e]`.
pub open spec fn name_match(s: Seq<char>, b: int, c: int, d: int, e: int) -> bool {
    &&& lead_span(s, b)
    &&& exists|words: Seq<(int, int)>| surname_span(s, b, c, words)
    &&& initials_span(s, c, d, e)
}

// ---------------------------------------------------------------------------
// The surname as it is written back
// ---------------------------------------------------------------------------
/// `s` cut at every `-`, as `str::split('-')` cuts it.
pub open spec fn split_hyphen(s: Seq<char>) -> Seq<Seq<char>>
    decreases s.len(),
{
    if s.len() == 0 {
        seq![Seq::<char>::empty()]
    } else {
        let parts = split_hyphen(s.drop_last());
        if s.last() == '-' {
            parts.push(Seq::<char>::empty())
        } else {
            parts.update(parts.len() - 1, parts.last().push(s.last()))
        }
    }
}

/// The parts, each trimmed, without those left empty.
pub open spec fn kept_parts(parts: Seq<Seq<char>>) -> Seq<Seq<char>>
    decreases parts.len(),
{
    if parts.len() == 0 {
        Seq::<Seq<char>>::empty()
    } else {
        let kept = kept_parts(parts.drop_last());
        if trim(parts.last()).len() > 0 {
            kept.push(trim(parts.last()))
        } else {
            kept
        }
    }
}

/// The parts joined by `-`.
pub open spec fn join_hyphen(parts: Seq<Seq<char>>) -> Seq<char>
    decreases parts.len(),
{
    if parts.len() == 0 {
        Seq::<char>::empty()
    } else if parts.len() == 1 {
        parts[0]
    } else {
        join_hyphen(parts.drop_last()).push('-') + parts.last()
    }
}

/// A surname with the white space around its hyphens removed.
pub open spec fn normalized_surname(raw: Seq<char>) -> Seq<char> {
    join_hyphen(kept_parts(split_hyphen(raw)))
}

/// The name as written back: surname, a space, and both initials with dots.
pub open spec fn name_text(surname: Seq<char>, first: char, second: char) -> Seq<char> {
    surname + seq![' ', first, '.', second, '.']
}

/// The name that `s` begins with, or the empty text when it begins with none.
pub open spec fn fio_name(s: Seq<char>) -> Seq<char> {
    if exists|b: int, c: int, d: int, e: int| name_match(s, b, c, d, e) {
        let (b, c, d, e) = choose|b: int, c: int, d: int, e: int| name_match(s, b, c, d, e);
        name_text(normalized_surname(s.subrange(b, c)), s[d], s[e])
    } else {
        Seq::<char>::empty()
    }
}

// ---------------------------------------------------------------------------
// The scan by maximal runs
// ---------------------------------------------------------------------------
/// A surname word starts at `r`.
pub open spec fn word_at(s: Seq<char>, r: int) -> bool {
    0 <= r && r + 1 < s.len() && is_upper(s[r]) && is_lower(s[r + 1])
}

/// Where the surname word starting at `r` ends.
pub open spec fn word_end(s: Seq<char>, r: int) -> int {
    skip(s, r + 1, Class::Lower)
}

/// Where the surname whose word at `r` is followed by further hyphenated
/// words, as far as they go, ends.
pub open spec fn chain_end(s: Seq<char>, r: int) -> int
    decreases s.len() - r,
{
    if !word_at(s, r) {
        r
    } else {
        let e = word_end(s, r);
        let q = skip(s, e, Class::Space);
        let n = skip(s, q + 1, Class::Space);
        if q < s.len() && s[q] == '-' && word_at(s, n) && n > r {
            chain_end(s, n)
        } else {
            e
        }
    }
}

/// Where the surname may start: after the separators, and after a dash and
/// its white space if one follows them.
pub open spec fn name_start(s: Seq<char>) -> int {
    let a = skip(s, 0, Class::Lead);
    if a < s.len() && is_dash(s[a]) {
        skip(s, a + 1, Class::Space)
    } else {
        a
    }
}

/// The positions `(b, c, d, e)` of the name found by maximal runs.
pub open spec fn fio_scan(s: Seq<char>) -> Option<(int, int, int, int)> {
    let b = name_start(s);
    if !word_at(s, b) {
        None
    } else {
        let c = chain_end(s, b);
        let d = skip(s, c, Class::Space);
        if d == c || d >= s.len() || !is_upper(s[d]) {
            None
        } else {
            let e = if d + 1 < s.len() && s[d + 1] == '.' {
                skip(s, d + 2, Class::Space)
            } else if d + 1 < s.len() && is_space(s[d + 1]) {
                skip(s, d + 1, Class::Space)
            } else {
                s.len() as int
            };
            if e < s.len() && is_upper(s[e]) {
                Some((b, c, d, e))
            } else {
                None
            }
        }
    }
}

// ---------------------------------------------------------------------------
// The scan finds exactly the grammar's match
// ---------------------------------------------------------------------------
/// The words of the surname that the scan follows from `r`.
proof fn lemma_chain_words(s: Seq<char>, r: int) -> (words: Seq<(int, int)>)
    requires
        word_at(s, r),
    ensures
        surname_span(s, r, chain_end(s, r), words),
    decreases s.len() - r,
{
    reveal(surname_span);
    let e = word_end(s, r);
    lemma_skip(s, r + 1, Class::Lower);
    assert(word_span(s, r, e));
    lemma_skip(s, e, Class::Space);
    let q = skip(s, e, Class::Space);
    if q < s.len() && s[q] == '-' {
        lemma_skip(s, q + 1, Class::Space);
    }
    let n = skip(s, q + 1, Class::Space);
    if q < s.len() && s[q] == '-' && word_at(s, n) && n > r {
        let rest = lemma_chain_words(s, n);
        let words = seq![(r, e)] + rest;
        assert(hyphen_gap(s, e, n));
        assert forall|k: int| 0 <= k < words.len() implies word_span(
            s,
            #[trigger] words[k].0,
            words[k].1,
        ) by {
            if k > 0 {
                assert(words[k] == rest[k - 1]);
            }
        }
        assert forall|k: int| 0 <= k < words.len() - 1 implies hyphen_gap(
            s,
            #[trigger] words[k].1,
            words[k + 1].0,
        ) by {
            if k > 0 {
                assert(words[k] == rest[k - 1]);
                assert(words[k + 1] == rest[k]);
            }
        }
        words
    } else {
        let words = seq![(r, e)];
        words
    }
}

/// Every character class that the grammar separates is disjoint from the
/// upper-case letters, and `-` and `.` are no white space.
proof fn lemma_classes(c: char)
    ensures
        is_upper(c) ==> !is_space(c) && !is_lead(c) && !is_lower(c) && !is_dash(c) && c != '-'
            && c != '.',
        is_lower(c) ==> !is_space(c) && c != '-',
        is_dash(c) ==> !is_lead(c),
        c == '-' || c == '.' ==> !is_space(c),
{
}

/// From word `k` of a matched surname on, the scan reaches the surname's
/// end `c`, which white space and then the upper-case letter at `d` follow.
proof fn lemma_chain_reaches(s: Seq<char>, words: Seq<(int, int)>, k: int, c: int, d: int)
    requires
        surname_span(s, words[0].0, c, words),
        0 <= k < words.len(),
        c < d < s.len(),
        all_in(s, c, d, Class::Space),
        is_upper(s[d]),
    ensures
        chain_end(s, words[k].0) == c,
    decreases words.len() - k,
{
    reveal(surname_span);
    let x = words[k].0;
    let y = words[k].1;
    assert(word_span(s, x, y));
    lemma_classes(s[x]);
    lemma_classes(s[x + 1]);
    lemma_classes(s[d]);
    assert(word_at(s, x));
    if k < words.len() - 1 {
        assert(hyphen_gap(s, y, words[k + 1].0));
        let q = choose|q: int|
            y <= q < words[k + 1].0 && s[q] == '-' && all_in(s, y, q, Class::Space) && all_in(
                s,
                q + 1,
                words[k + 1].0,
                Class::Space,
            );
        assert(word_span(s, words[k + 1].0, words[k + 1].1));
        lemma_classes(s[y]);
        lemma_classes(s[q]);
        lemma_classes(s[words[k + 1].0]);
        lemma_classes(s[words[k + 1].0 + 1]);
        lemma_skip_to(s, x + 1, y, Class::Lower);
        lemma_skip_to(s, y, q, Class::Space);
        lemma_skip_to(s, q + 1, words[k + 1].0, Class::Space);
        lemma_chain_reaches(s, words, k + 1, c, d);
    } else {
        lemma_classes(s[c]);
        lemma_skip_to(s, x + 1, y, Class::Lower);
        lemma_skip_to(s, y, d, Class::Space);
    }
}

/// The separators and the optional dash before a matched surname are what
/// the scan skips.
proof fn lemma_lead_scanned(s: Seq<char>, b: int)
    requires
        lead_span(s, b),
        0 <= b < s.len(),
        is_upper(s[b]),
    ensures
        name_start(s) == b,
{
    reveal(lead_span);
    let a = choose|a: int|
        0 <= a <= b && all_in(s, 0, a, Class::Lead) && (a == b || (is_dash(s[a]) && all_in(
            s,
            a + 1,
            b,
            Class::Space,
        )));
    lemma_classes(s[b]);
    lemma_classes(s[a]);
    lemma_skip_to(s, 0, a, Class::Lead);
    if a < b {
        lemma_skip_to(s, a + 1, b, Class::Space);
    }
}

/// The white space and initials after a matched surname are what the scan
/// finds.
proof fn lemma_initials_scanned(s: Seq<char>, c: int, d: int, e: int)
    requires
        initials_span(s, c, d, e),
        0 <= c,
    ensures
        skip(s, c, Class::Space) == d,
        (if d + 1 < s.len() && s[d + 1] == '.' {
            skip(s, d + 2, Class::Space)
        } else if d + 1 < s.len() && is_space(s[d + 1]) {
            skip(s, d + 1, Class::Space)
        } else {
            s.len() as int
        }) == e,
{
    reveal(initials_span);
    lemma_classes(s[d]);
    lemma_classes(s[e]);
    lemma_skip_to(s, c, d, Class::Space);
    lemma_classes(s[d + 1]);
    if s[d + 1] == '.' {
        lemma_skip_to(s, d + 2, e, Class::Space);
    } else {
        assert(is_space(s[d + 1]));
        lemma_skip_to(s, d + 1, e, Class::Space);
    }
}

/// A surname starts with a word.
proof fn lemma_surname_first_word(s: Seq<char>, b: int, c: int, words: Seq<(int, int)>)
    requires
        surname_span(s, b, c, words),
    ensures
        words.len() >= 1,
        words[0].0 == b,
        words.last().1 == c,
        word_span(s, b, words[0].1),
        b < c,
{
    reveal(surname_span);
    assert(word_span(s, words[0].0, words[0].1));
    lemma_surname_ends_after(s, words, 0);
}

/// Each word of a surname ends no later than the surname.
proof fn lemma_surname_ends_after(s: Seq<char>, words: Seq<(int, int)>, k: int)
    requires
        surname_span(s, words[0].0, words.last().1, words),
        0 <= k < words.len(),
    ensures
        words[k].0 < words.last().1,
    decreases words.len() - k,
{
    reveal(surname_span);
    assert(word_span(s, words[k].0, words[k].1));
    if k < words.len() - 1 {
        assert(hyphen_gap(s, words[k].1, words[k + 1].0));
        lemma_surname_ends_after(s, words, k + 1);
    }
}

/// The scan's result, once each of its steps is known.
proof fn lemma_scan_steps(s: Seq<char>, b: int, c: int, d: int, e: int)
    requires
        name_start(s) == b,
        word_at(s, b),
        chain_end(s, b) == c,
        skip(s, c, Class::Space) == d,
        c < d < s.len(),
        is_upper(s[d]),
        (if d + 1 < s.len() && s[d + 1] == '.' {
            skip(s, d + 2, Class::Space)
        } else if d + 1 < s.len() && is_space(s[d + 1]) {
            skip(s, d + 1, Class::Space)
        } else {
            s.len() as int
        }) == e,
        e < s.len(),
        is_upper(s[e]),
    ensures
        fio_scan(s) == Some((b, c, d, e)),
{
}

/// Any match of the grammar is the one that the scan finds.
pub proof fn lemma_match_is_scanned(s: Seq<char>, b: int, c: int, d: int, e: int)
    requires
        name_match(s, b, c, d, e),
    ensures
        fio_scan(s) == Some((b, c, d, e)),
{
    let words = choose|words: Seq<(int, int)>| surname_span(s, b, c, words);
    lemma_surname_first_word(s, b, c, words);
    reveal(initials_span);
    lemma_classes(s[b]);
    lemma_classes(s[b + 1]);
    lemma_lead_scanned(s, b);
    assert(word_at(s, b));
    lemma_chain_reaches(s, words, 0, c, d);
    assert(chain_end(s, b) == c);
    lemma_initials_scanned(s, c, d, e);
    lemma_scan_steps(s, b, c, d, e);
}

/// What the scan finds is a match of the grammar.
pub proof fn lemma_scanned_is_match(s: Seq<char>)
    requires
        fio_scan(s) is Some,
    ensures
        ({
            let (b, c, d, e) = fio_scan(s)->0;
            name_match(s, b, c, d, e)
        }),
{
    reveal(lead_span);
    reveal(initials_span);
    let (b, c, d, e) = fio_scan(s)->0;
    lemma_skip(s, 0, Class::Lead);
    let a = skip(s, 0, Class::Lead);
    if a < s.len() && is_dash(s[a]) {
        lemma_skip(s, a + 1, Class::Space);
    }
    assert(lead_span(s, b));
    let words = lemma_chain_words(s, b);
    lemma_chain_end_bounds(s, b);
    lemma_skip(s, c, Class::Space);
    if s[d + 1] == '.' {
        lemma_skip(s, d + 2, Class::Space);
    } else {
        lemma_skip(s, d + 1, Class::Space);
    }
    assert(initials_span(s, c, d, e));
}

/// The scanned surname ends within the text, past its first word's start.
proof fn lemma_chain_end_bounds(s: Seq<char>, r: int)
    requires
        word_at(s, r),
    ensures
        r < chain_end(s, r) <= s.len(),
    decreases s.len() - r,
{
    lemma_skip(s, r + 1, Class::Lower);
    let e = word_end(s, r);
    let q = skip(s, e, Class::Space);
    let n = skip(s, q + 1, Class::Space);
    if q < s.len() && s[q] == '-' && word_at(s, n) && n > r {
        lemma_chain_end_bounds(s, n);
    }
}

/// The name is the one at the scanned positions, or empty when the scan
/// finds none.
pub proof fn lemma_fio_name_by_scan(s: Seq<char>)
    ensures
        fio_name(s) == (match fio_scan(s) {
            Some((b, c, d, e)) => name_text(normalized_surname(s.subrange(b, c)), s[d], s[e]),
            None => Seq::<char>::empty(),
        }),
{
    if exists|b: int, c: int, d: int, e: int| name_match(s, b, c, d, e) {
        let (b, c, d, e) = choose|b: int, c: int, d: int, e: int| name_match(s, b, c, d, e);
        lemma_match_is_scanned(s, b, c, d, e);
    } else {
        if fio_scan(s) is Some {
            lemma_scanned_is_match(s);
            let (b, c, d, e) = fio_scan(s)->0;
            assert(name_match(s, b, c, d, e));
        }
    }
}

// ---------------------------------------------------------------------------
// Laws
// ---------------------------------------------------------------------------
/// A match stays a match when more text follows it.
proof fn lemma_match_extends(s: Seq<char>, x: Seq<char>, b: int, c: int, d: int, e: int)
    requires
        name_match(s, b, c, d, e),
    ensures
        name_match(s + x, b, c, d, e),
{
    let t = s + x;
    reveal(lead_span);
    reveal(surname_span);
    reveal(initials_span);
    let a = choose|a: int|
        0 <= a <= b && all_in(s, 0, a, Class::Lead) && (a == b || (is_dash(s[a]) && all_in(
            s,
            a + 1,
            b,
            Class::Space,
        )));
    let words = choose|words: Seq<(int, int)>| surname_span(s, b, c, words);
    lemma_surname_first_word(s, b, c, words);
    assert forall|i: int, j: int, k: Class|
        0 <= i && j <= s.len() && all_in(s, i, j, k) implies all_in(t, i, j, k) by {
        assert forall|m: int| i <= m < j implies in_class(k, #[trigger] t[m]) by {
            assert(t[m] == s[m]);
            assert(in_class(k, s[m]));
        }
    }
    assert(lead_span(t, b)) by {
        if a < b {
            assert(t[a] == s[a]);
        }
    }
    assert forall|k: int| 0 <= k < words.len() implies word_span(
        t,
        #[trigger] words[k].0,
        words[k].1,
    ) by {
        assert(word_span(s, words[k].0, words[k].1));
        lemma_surname_ends_after(s, words, k);
        lemma_word_within(s, words, k);
        assert(t[words[k].0] == s[words[k].0]);
    }
    assert forall|k: int| 0 <= k < words.len() - 1 implies hyphen_gap(
        t,
        #[trigger] words[k].1,
        words[k + 1].0,
    ) by {
        assert(hyphen_gap(s, words[k].1, words[k + 1].0));
        let q = choose|q: int|
            words[k].1 <= q < words[k + 1].0 && s[q] == '-' && all_in(
                s,
                words[k].1,
                q,
                Class::Space,
            ) && all_in(s, q + 1, words[k + 1].0, Class::Space);
        lemma_surname_ends_after(s, words, k + 1);
        assert(word_span(s, words[k].0, words[k].1));
        assert(t[q] == s[q]);
    }
    assert(surname_span(t, b, c, words));
    assert(t[d] == s[d]);
    assert(t[e] == s[e]);
    assert(t[d + 1] == s[d + 1]);
    assert(initials_span(t, c, d, e));
}

/// Every word of a surname lies within the text.
proof fn lemma_word_within(s: Seq<char>, words: Seq<(int, int)>, k: int)
    requires
        surname_span(s, words[0].0, words.last().1, words),
        0 <= k < words.len(),
    ensures
        words[k].1 <= words.last().1,
    decreases words.len() - k,
{
    reveal(surname_span);
    if k < words.len() - 1 {
        assert(hyphen_gap(s, words[k].1, words[k + 1].0));
        assert(word_span(s, words[k + 1].0, words[k + 1].1));
        lemma_word_within(s, words, k + 1);
    }
}

/// Whatever follows the initials is dropped: once a text begins with a name,
/// appending anything to it leaves the name as it is.
pub proof fn law_text_after_initials_ignored(s: Seq<char>, x: Seq<char>)
    requires
        fio_name(s).len() > 0,
    ensures
        fio_name(s + x) == fio_name(s),
{
    lemma_fio_name_by_scan(s);
    let (b, c, d, e) = fio_scan(s)->0;
    lemma_scanned_is_match(s);
    lemma_match_extends(s, x, b, c, d, e);
    lemma_match_is_scanned(s + x, b, c, d, e);
    lemma_fio_name_by_scan(s + x);
    lemma_surname_of_match(s, b, c, d, e);
    assert((s + x).subrange(b, c) =~= s.subrange(b, c));
    assert((s + x)[d] == s[d]);
    assert((s + x)[e] == s[e]);
}

/// The positions of a match are in order and within the text.
proof fn lemma_surname_of_match(s: Seq<char>, b: int, c: int, d: int, e: int)
    requires
        name_match(s, b, c, d, e),
    ensures
        0 <= b < c < d < e < s.len(),
{
    reveal(initials_span);
    reveal(lead_span);
    let words = choose|words: Seq<(int, int)>| surname_span(s, b, c, words);
    lemma_surname_first_word(s, b, c, words);
}

/// The initials are always written with dots: a name that is found ends in
/// a space, an upper-case initial, a dot, another upper-case initial and a
/// dot.
pub proof fn law_initials_with_dots(s: Seq<char>)
    requires
        fio_name(s).len() > 0,
    ensures
        ({
            let n = fio_name(s);
            &&& n.len() >= 5
            &&& n[n.len() - 5] == ' '
            &&& is_upper(n[n.len() - 4])
            &&& n[n.len() - 3] == '.'
            &&& is_upper(n[n.len() - 2])
            &&& n[n.len() - 1] == '.'
        }),
{
    lemma_fio_name_by_scan(s);
}

/// `s` cut at its hyphens, when it holds none, is `s` alone.
proof fn lemma_split_no_hyphen(s: Seq<char>)
    requires
        forall|m: int| 0 <= m < s.len() ==> #[trigger] s[m] != '-',
    ensures
        split_hyphen(s) == seq![s],
    decreases s.len(),
{
    if s.len() > 0 {
        lemma_split_no_hyphen(s.drop_last());
        assert(s.drop_last().push(s.last()) =~= s);
        assert(seq![s.drop_last()].update(0, s.drop_last().push(s.last())) =~= seq![s]);
    } else {
        assert(s =~= Seq::<char>::empty());
    }
}

/// Cutting at a hyphen splits the parts of either side.
proof fn lemma_split_at_hyphen(x: Seq<char>, y: Seq<char>)
    ensures
        split_hyphen(x.push('-') + y) == split_hyphen(x) + split_hyphen(y),
    decreases y.len(),
{
    if y.len() == 0 {
        assert(x.push('-') + y =~= x.push('-'));
        assert((x.push('-')).drop_last() =~= x);
        assert(split_hyphen(x).push(Seq::<char>::empty()) =~= split_hyphen(x) + seq![Seq::<char>::empty()]);
    } else {
        let z = x.push('-') + y;
        assert(z.drop_last() =~= x.push('-') + y.drop_last());
        lemma_split_at_hyphen(x, y.drop_last());
        lemma_split_nonempty(y.drop_last());
        let p = split_hyphen(x);
        let r = split_hyphen(y.drop_last());
        if y.last() == '-' {
            assert((p + r).push(Seq::<char>::empty()) =~= p + r.push(Seq::<char>::empty()));
        } else {
            let pr = p + r;
            assert(pr.update(pr.len() - 1, pr.last().push(y.last())) =~= p + r.update(
                r.len() - 1,
                r.last().push(y.last()),
            ));
        }
    }
}

/// There is always at least one part.
proof fn lemma_split_nonempty(s: Seq<char>)
    ensures
        split_hyphen(s).len() >= 1,
    decreases s.len(),
{
    if s.len() > 0 {
        lemma_split_nonempty(s.drop_last());
    }
}

/// Keeping parts works part by part.
proof fn lemma_kept_concat(p: Seq<Seq<char>>, q: Seq<Seq<char>>)
    ensures
        kept_parts(p + q) == kept_parts(p) + kept_parts(q),
    decreases q.len(),
{
    if q.len() == 0 {
        assert(p + q =~= p);
        assert(kept_parts(p) + kept_parts(q) =~= kept_parts(p));
    } else {
        assert((p + q).drop_last() =~= p + q.drop_last());
        lemma_kept_concat(p, q.drop_last());
        if trim(q.last()).len() > 0 {
            assert((kept_parts(p) + kept_parts(q.drop_last())).push(trim(q.last()))
                =~= kept_parts(p) + kept_parts(q.drop_last()).push(trim(q.last())));
        }
    }
}

/// The texts of the words of a surname.
pub open spec fn word_texts(s: Seq<char>, words: Seq<(int, int)>) -> Seq<Seq<char>> {
    Seq::new(words.len(), |k: int| s.subrange(words[k].0, words[k].1))
}

/// A part made of white space, one surname word `s[x..y]` and white space
/// holds no hyphen and keeps just the word.
proof fn lemma_segment_word(s: Seq<char>, start: int, x: int, y: int, end: int)
    requires
        0 <= start <= x,
        y <= end <= s.len(),
        word_span(s, x, y),
        all_in(s, start, x, Class::Space),
        all_in(s, y, end, Class::Space),
    ensures
        forall|m: int| 0 <= m < end - start ==> #[trigger] s.subrange(start, end)[m] != '-',
        kept_parts(split_hyphen(s.subrange(start, end))) == seq![s.subrange(x, y)],
{
    let seg = s.subrange(start, end);
    assert forall|m: int| 0 <= m < seg.len() implies #[trigger] seg[m] != '-' by {
        lemma_classes(seg[m]);
        if start + m < x {
            assert(in_class(Class::Space, s[start + m]));
        } else if start + m > x && start + m < y {
            assert(in_class(Class::Lower, s[start + m]));
        } else if start + m >= y {
            assert(in_class(Class::Space, s[start + m]));
        }
    }
    lemma_split_no_hyphen(seg);
    lemma_classes(s[x]);
    lemma_classes(s[y - 1]);
    assert(s[y - 1] == seg[y - 1 - start]);
    if y - 1 > x {
        assert(in_class(Class::Lower, s[y - 1]));
    }
    lemma_trim_padded(seg, x - start, y - start);
    assert(seg.subrange(x - start, y - start) =~= s.subrange(x, y));
    assert(seq![seg].drop_last() =~= Seq::<Seq<char>>::empty());
    reveal_with_fuel(kept_parts, 2);
    assert(kept_parts(seq![seg]) =~= seq![s.subrange(x, y)]);
}

/// A word of a surname.
proof fn lemma_surname_word(s: Seq<char>, words: Seq<(int, int)>, k: int)
    requires
        surname_span(s, words[0].0, words.last().1, words),
        0 <= k < words.len(),
    ensures
        word_span(s, words[k].0, words[k].1),
{
    reveal(surname_span);
}

/// A gap between two words of a surname.
proof fn lemma_surname_gap(s: Seq<char>, words: Seq<(int, int)>, k: int)
    requires
        surname_span(s, words[0].0, words.last().1, words),
        0 <= k < words.len() - 1,
    ensures
        hyphen_gap(s, words[k].1, words[k + 1].0),
{
    reveal(surname_span);
}

/// From word `k` on, each part between hyphens trims to its word.
proof fn lemma_kept_words(s: Seq<char>, words: Seq<(int, int)>, k: int, start: int)
    requires
        surname_span(s, words[0].0, words.last().1, words),
        0 <= k < words.len(),
        0 <= start <= words[k].0,
        all_in(s, start, words[k].0, Class::Space),
    ensures
        kept_parts(split_hyphen(s.subrange(start, words.last().1))) == word_texts(
            s,
            words,
        ).subrange(k, words.len() as int),
    decreases words.len() - k,
{
    let c = words.last().1;
    let x = words[k].0;
    let y = words[k].1;
    lemma_surname_word(s, words, k);
    lemma_word_within(s, words, k);
    if k == words.len() - 1 {
        lemma_segment_word(s, start, x, y, c);
        assert(word_texts(s, words).subrange(k, words.len() as int) =~= seq![s.subrange(x, y)]);
    } else {
        lemma_surname_gap(s, words, k);
        let q = choose|q: int|
            y <= q < words[k + 1].0 && s[q] == '-' && all_in(s, y, q, Class::Space) && all_in(
                s,
                q + 1,
                words[k + 1].0,
                Class::Space,
            );
        lemma_word_within(s, words, k + 1);
        lemma_surname_word(s, words, k + 1);
        lemma_surname_ends_after(s, words, k + 1);
        lemma_surname_word(s, words, words.len() - 1);
        assert(start <= q < c <= s.len());
        let seg = s.subrange(start, q);
        let rest = s.subrange(q + 1, c);
        assert(s.subrange(start, c) =~= seg.push('-') + rest);
        lemma_segment_word(s, start, x, y, q);
        lemma_split_no_hyphen(seg);
        lemma_split_at_hyphen(seg, rest);
        lemma_kept_concat(seq![seg], split_hyphen(rest));
        lemma_kept_words(s, words, k + 1, q + 1);
        assert(word_texts(s, words).subrange(k, words.len() as int) =~= seq![s.subrange(x, y)]
            + word_texts(s, words).subrange(k + 1, words.len() as int));
    }
}

/// The surname is written as its words joined by single hyphens, without
/// the white space that stood around the hyphens.
pub proof fn law_surname_words_joined(s: Seq<char>, b: int, c: int, words: Seq<(int, int)>)
    requires
        surname_span(s, b, c, words),
    ensures
        normalized_surname(s.subrange(b, c)) == join_hyphen(word_texts(s, words)),
{
    lemma_surname_first_word(s, b, c, words);
    lemma_kept_words(s, words, 0, b);
    assert(word_texts(s, words).subrange(0, words.len() as int) =~= word_texts(s, words));
}

/// `t` is one surname word on its own.
pub open spec fn is_word_text(t: Seq<char>) -> bool {
    t.len() >= 2 && is_upper(t[0]) && all_in(t, 1, t.len() as int, Class::Lower)
}

/// Where each part stands in the parts joined by hyphens.
pub open spec fn joined_spans(parts: Seq<Seq<char>>) -> Seq<(int, int)>
    decreases parts.len(),
{
    if parts.len() == 0 {
        Seq::<(int, int)>::empty()
    } else if parts.len() == 1 {
        seq![(0, parts[0].len() as int)]
    } else {
        let base: int = join_hyphen(parts.drop_last()).len() as int + 1;
        joined_spans(parts.drop_last()).push((base, base + parts.last().len() as int))
    }
}

/// The parts stand, in order, in their join, one hyphen apart.
proof fn lemma_joined_spans(parts: Seq<Seq<char>>)
    requires
        parts.len() >= 1,
    ensures
        ({
            let j = join_hyphen(parts);
            let sp = joined_spans(parts);
            &&& sp.len() == parts.len()
            &&& sp[0].0 == 0
            &&& sp.last().1 == j.len()
            &&& forall|k: int|
                0 <= k < sp.len() ==> 0 <= #[trigger] sp[k].0 <= sp[k].1 <= j.len() && sp[k].1 - sp[k].0
                    == parts[k].len() && j.subrange(sp[k].0, sp[k].1) == parts[k]
            &&& forall|k: int|
                0 <= k < sp.len() - 1 ==> #[trigger] sp[k + 1].0 == sp[k].1 + 1 && j[sp[k].1] == '-'
        }),
    decreases parts.len(),
{
    if parts.len() == 1 {
        assert(join_hyphen(parts).subrange(0, parts[0].len() as int) =~= parts[0]);
    } else {
        let pre = parts.drop_last();
        lemma_joined_spans(pre);
        let jp = join_hyphen(pre);
        let j = join_hyphen(parts);
        let sp = joined_spans(parts);
        let spp = joined_spans(pre);
        assert(j == jp.push('-') + parts.last());
        assert forall|k: int| 0 <= k < sp.len() implies 0 <= #[trigger] sp[k].0 <= sp[k].1 <= j.len()
            && sp[k].1 - sp[k].0 == parts[k].len() && j.subrange(sp[k].0, sp[k].1) == parts[k] by {
            if k < sp.len() - 1 {
                assert(sp[k] == spp[k]);
                assert(pre[k] == parts[k]);
                assert(j.subrange(sp[k].0, sp[k].1) =~= jp.subrange(sp[k].0, sp[k].1));
            } else {
                assert(j.subrange(sp[k].0, sp[k].1) =~= parts.last());
            }
        }
        assert forall|k: int| 0 <= k < sp.len() - 1 implies #[trigger] sp[k + 1].0 == sp[k].1 + 1
            && j[sp[k].1] == '-' by {
            assert(sp[k] == spp[k]);
            if k < sp.len() - 2 {
                assert(sp[k + 1] == spp[k + 1]);
                assert(0 <= spp[k + 1].0 <= spp[k + 1].1 <= jp.len());
                assert(spp[k + 1].0 == spp[k].1 + 1);
                assert(0 <= spp[k].0 <= spp[k].1);
                assert(0 <= sp[k].1 < jp.len());
                assert(j[sp[k].1] == jp[sp[k].1]);
            } else {
                assert(sp[k].1 == jp.len());
                assert(j[jp.len() as int] == '-');
            }
        }
    }
}

/// Surname words joined by single hyphens, followed by anything, form a
/// surname whose words are the parts.
proof fn lemma_joined_is_surname(parts: Seq<Seq<char>>, tail: Seq<char>)
    requires
        parts.len() >= 1,
        forall|k: int| 0 <= k < parts.len() ==> is_word_text(#[trigger] parts[k]),
    ensures
        surname_span(join_hyphen(parts) + tail, 0, join_hyphen(parts).len() as int, joined_spans(parts)),
        word_texts(join_hyphen(parts) + tail, joined_spans(parts)) == parts,
{
    reveal(surname_span);
    lemma_joined_spans(parts);
    let j = join_hyphen(parts);
    let n = j + tail;
    let sp = joined_spans(parts);
    assert forall|k: int| 0 <= k < sp.len() implies word_span(n, #[trigger] sp[k].0, sp[k].1) by {
        let t = parts[k];
        assert(is_word_text(t));
        assert(j.subrange(sp[k].0, sp[k].1) == t);
        assert(n[sp[k].0] == t[0]);
        assert forall|m: int| sp[k].0 + 1 <= m < sp[k].1 implies in_class(Class::Lower, #[trigger] n[m]) by {
            assert(n[m] == t[m - sp[k].0]);
            assert(in_class(Class::Lower, t[m - sp[k].0]));
        }
    }
    assert forall|k: int| 0 <= k < sp.len() - 1 implies hyphen_gap(n, #[trigger] sp[k].1, sp[k + 1].0) by {
        assert(sp[k + 1].0 == sp[k].1 + 1);
        assert(0 <= sp[k + 1].0 <= sp[k + 1].1 <= j.len());
        assert(j[sp[k].1] == '-');
        assert(0 <= sp[k].0 <= sp[k].1);
        assert(0 <= sp[k].1 < j.len());
        assert(n[sp[k].1] == j[sp[k].1]);
        assert(all_in(n, sp[k].1, sp[k].1, Class::Space));
        assert(all_in(n, sp[k].1 + 1, sp[k + 1].0, Class::Space));
    }
    assert(word_texts(n, sp) =~= parts) by {
        assert forall|k: int| 0 <= k < parts.len() implies word_texts(n, sp)[k] == parts[k] by {
            assert(n.subrange(sp[k].0, sp[k].1) =~= j.subrange(sp[k].0, sp[k].1));
        }
    }
}

/// The words of a matched surname are words on their own.
proof fn lemma_word_texts_are_words(s: Seq<char>, b: int, c: int, words: Seq<(int, int)>)
    requires
        surname_span(s, b, c, words),
    ensures
        word_texts(s, words).len() >= 1,
        forall|k: int| 0 <= k < words.len() ==> is_word_text(#[trigger] word_texts(s, words)[k]),
{
    lemma_surname_first_word(s, b, c, words);
    assert forall|k: int| 0 <= k < words.len() implies is_word_text(#[trigger] word_texts(s, words)[k]) by {
        lemma_surname_word(s, words, k);
        let t = word_texts(s, words)[k];
        assert(t == s.subrange(words[k].0, words[k].1));
        assert forall|m: int| 1 <= m < t.len() implies in_class(Class::Lower, #[trigger] t[m]) by {
            assert(t[m] == s[words[k].0 + m]);
        }
    }
}

/// What is written back reads back as itself: the name found in a text,
/// read again, is the same name.
pub proof fn law_written_name_reads_back(s: Seq<char>)
    requires
        fio_name(s).len() > 0,
    ensures
        fio_name(fio_name(s)) == fio_name(s),
{
    lemma_fio_name_by_scan(s);
    let (b, c, d, e) = fio_scan(s)->0;
    lemma_scanned_is_match(s);
    let words = choose|words: Seq<(int, int)>| surname_span(s, b, c, words);
    law_surname_words_joined(s, b, c, words);
    lemma_word_texts_are_words(s, b, c, words);
    let parts = word_texts(s, words);
    let j = join_hyphen(parts);
    let tail = seq![' ', s[d], '.', s[e], '.'];
    let n = j + tail;
    reveal(initials_span);
    assert(fio_name(s) == n);
    lemma_joined_is_surname(parts, tail);
    let jl = j.len() as int;
    reveal(lead_span);
    assert(all_in(n, 0, 0, Class::Lead));
    assert(lead_span(n, 0));
    assert(n[jl] == ' ');
    assert(n[jl + 1] == s[d]);
    assert(n[jl + 2] == '.');
    assert(n[jl + 3] == s[e]);
    assert(all_in(n, jl, jl + 1, Class::Space));
    assert(all_in(n, jl + 3, jl + 3, Class::Space));
    assert(initials_span(n, jl, jl + 1, jl + 3));
    assert(name_match(n, 0, jl, jl + 1, jl + 3));
    lemma_match_is_scanned(n, 0, jl, jl + 1, jl + 3);
    lemma_fio_name_by_scan(n);
    law_surname_words_joined(n, 0, jl, joined_spans(parts));
    assert(n.subrange(0, jl) =~= j);
}

/// No part of the cut holds a hyphen.
proof fn lemma_split_parts_no_hyphen(s: Seq<char>)
    ensures
        forall|k: int, m: int|
            0 <= k < split_hyphen(s).len() && 0 <= m < split_hyphen(s)[k].len() ==> #[trigger] split_hyphen(s)[k][m]
                != '-',
    decreases s.len(),
{
    if s.len() > 0 {
        lemma_split_parts_no_hyphen(s.drop_last());
        lemma_split_nonempty(s.drop_last());
        let p = split_hyphen(s.drop_last());
        if s.last() != '-' {
            let q = split_hyphen(s);
            assert forall|k: int, m: int|
                0 <= k < q.len() && 0 <= m < q[k].len() implies #[trigger] q[k][m] != '-' by {
                if k < p.len() - 1 {
                    assert(q[k] == p[k]);
                } else {
                    assert(q[k] == p.last().push(s.last()));
                    if m < p.last().len() {
                        assert(q[k][m] == p[p.len() - 1][m]);
                    }
                }
            }
        } else {
            let q = split_hyphen(s);
            assert forall|k: int, m: int|
                0 <= k < q.len() && 0 <= m < q[k].len() implies #[trigger] q[k][m] != '-' by {
                if k < p.len() {
                    assert(q[k] == p[k]);
                }
            }
        }
    }
}

/// Removing leading white space keeps a text free of hyphens.
proof fn lemma_trim_start_no_hyphen(u: Seq<char>)
    requires
        forall|m: int| 0 <= m < u.len() ==> #[trigger] u[m] != '-',
    ensures
        forall|m: int| 0 <= m < trim_start(u).len() ==> #[trigger] trim_start(u)[m] != '-',
    decreases u.len(),
{
    if u.len() > 0 && is_space(u[0]) {
        let v = u.drop_first();
        assert forall|m: int| 0 <= m < v.len() implies #[trigger] v[m] != '-' by {
            assert(v[m] == u[m + 1]);
        }
        lemma_trim_start_no_hyphen(v);
        assert(trim_start(u) == trim_start(v));
    } else {
        assert(trim_start(u) == u);
    }
}

/// Removing trailing white space keeps a text free of hyphens.
proof fn lemma_trim_end_no_hyphen(u: Seq<char>)
    requires
        forall|m: int| 0 <= m < u.len() ==> #[trigger] u[m] != '-',
    ensures
        forall|m: int| 0 <= m < trim_end(u).len() ==> #[trigger] trim_end(u)[m] != '-',
    decreases u.len(),
{
    if u.len() > 0 && is_space(u.last()) {
        let v = u.drop_last();
        assert forall|m: int| 0 <= m < v.len() implies #[trigger] v[m] != '-' by {
            assert(v[m] == u[m]);
        }
        lemma_trim_end_no_hyphen(v);
        assert(trim_end(u) == trim_end(v));
    } else {
        assert(trim_end(u) == u);
    }
}

/// The kept parts are non-empty, trimmed, and free of hyphens when the parts
/// were.
proof fn lemma_kept_shape(parts: Seq<Seq<char>>)
    requires
        forall|k: int, m: int|
            0 <= k < parts.len() && 0 <= m < parts[k].len() ==> #[trigger] parts[k][m] != '-',
    ensures
        forall|k: int|
            0 <= k < kept_parts(parts).len() ==> (#[trigger] kept_parts(parts)[k]).len() > 0 && trim(
                kept_parts(parts)[k],
            ) == kept_parts(parts)[k] && forall|m: int|
                0 <= m < kept_parts(parts)[k].len() ==> kept_parts(parts)[k][m] != '-',
    decreases parts.len(),
{
    if parts.len() > 0 {
        let pre = parts.drop_last();
        assert forall|k: int, m: int|
            0 <= k < pre.len() && 0 <= m < pre[k].len() implies #[trigger] pre[k][m] != '-' by {
            assert(pre[k] == parts[k]);
        }
        lemma_kept_shape(pre);
        let last = parts.last();
        assert forall|m: int| 0 <= m < last.len() implies #[trigger] last[m] != '-' by {
            assert(last[m] == parts[parts.len() - 1][m]);
        }
        lemma_trim_start_no_hyphen(last);
        lemma_trim_end_no_hyphen(trim_start(last));
        lemma_trim_idempotent(last);
        let kp = kept_parts(pre);
        let kk = kept_parts(parts);
        assert forall|k: int|
            0 <= k < kk.len() implies (#[trigger] kk[k]).len() > 0 && trim(kk[k]) == kk[k] && forall|m: int|
                0 <= m < kk[k].len() ==> kk[k][m] != '-' by {
            if k < kp.len() {
                assert(kk[k] == kp[k]);
            } else {
                assert(kk[k] == trim(last));
            }
        }
    }
}

/// Parts free of hyphens, joined by hyphens and cut again, are the parts.
proof fn lemma_split_join(parts: Seq<Seq<char>>)
    requires
        parts.len() >= 1,
        forall|k: int, m: int|
            0 <= k < parts.len() && 0 <= m < parts[k].len() ==> #[trigger] parts[k][m] != '-',
    ensures
        split_hyphen(join_hyphen(parts)) == parts,
    decreases parts.len(),
{
    if parts.len() == 1 {
        assert forall|m: int| 0 <= m < parts[0].len() implies #[trigger] parts[0][m] != '-' by {}
        lemma_split_no_hyphen(parts[0]);
        assert(seq![parts[0]] =~= parts);
    } else {
        let pre = parts.drop_last();
        assert forall|k: int, m: int|
            0 <= k < pre.len() && 0 <= m < pre[k].len() implies #[trigger] pre[k][m] != '-' by {
            assert(pre[k] == parts[k]);
        }
        lemma_split_join(pre);
        let last = parts.last();
        assert forall|m: int| 0 <= m < last.len() implies #[trigger] last[m] != '-' by {
            assert(last[m] == parts[parts.len() - 1][m]);
        }
        lemma_split_no_hyphen(last);
        lemma_split_at_hyphen(join_hyphen(pre), last);
        assert(pre + seq![last] =~= parts);
    }
}

/// Parts that are non-empty and trimmed are all kept as they are.
proof fn lemma_kept_fixed(parts: Seq<Seq<char>>)
    requires
        forall|k: int| 0 <= k < parts.len() ==> (#[trigger] parts[k]).len() > 0 && trim(parts[k]) == parts[k],
    ensures
        kept_parts(parts) == parts,
    decreases parts.len(),
{
    if parts.len() > 0 {
        let pre = parts.drop_last();
        assert forall|k: int| 0 <= k < pre.len() implies (#[trigger] pre[k]).len() > 0 && trim(pre[k]) == pre[k] by {
            assert(pre[k] == parts[k]);
        }
        lemma_kept_fixed(pre);
        assert(trim(parts.last()) == parts[parts.len() - 1]);
        assert(pre.push(parts.last()) =~= parts);
    }
}

/// Normalising a surname twice is normalising it once.
pub proof fn law_normalize_idempotent(raw: Seq<char>)
    ensures
        normalized_surname(normalized_surname(raw)) == normalized_surname(raw),
{
    let parts = split_hyphen(raw);
    lemma_split_parts_no_hyphen(raw);
    lemma_kept_shape(parts);
    let kept = kept_parts(parts);
    if kept.len() == 0 {
        assert(join_hyphen(kept) =~= Seq::<char>::empty());
        let e = Seq::<char>::empty();
        assert(split_hyphen(e) == seq![e]);
        assert(trim(e) =~= e) by {
            assert(trim_start(e) == e);
        }
        reveal_with_fuel(kept_parts, 2);
        assert(seq![e].drop_last() =~= Seq::<Seq<char>>::empty());
        assert(kept_parts(seq![e]) =~= Seq::<Seq<char>>::empty());
    } else {
        lemma_split_join(kept);
        lemma_kept_fixed(kept);
    }
}

/// A run of a class stays a run one place further on after a character is
/// put in front.
proof fn lemma_all_in_shift(n: Seq<char>, p: char, i: int, j: int, k: Class)
    requires
        0 <= i,
        j <= n.len(),
        all_in(n, i, j, k),
    ensures
        all_in(seq![p] + n, i + 1, j + 1, k),
{
    let t = seq![p] + n;
    assert forall|m: int| i + 1 <= m < j + 1 implies in_class(k, #[trigger] t[m]) by {
        assert(t[m] == n[m - 1]);
        assert(in_class(k, n[m - 1]));
    }
}

/// What may precede a surname still does after a space is put in front.
proof fn lemma_lead_after_space(n: Seq<char>, p: char, b: int)
    requires
        is_lead(p),
        lead_span(n, b),
        b <= n.len(),
    ensures
        lead_span(seq![p] + n, b + 1),
{
    let t = seq![p] + n;
    reveal(lead_span);
    let a = choose|a: int|
        0 <= a <= b && all_in(n, 0, a, Class::Lead) && (a == b || (is_dash(n[a]) && all_in(
            n,
            a + 1,
            b,
            Class::Space,
        )));
    assert(all_in(t, 0, a + 1, Class::Lead)) by {
        assert forall|m: int| 0 <= m < a + 1 implies in_class(Class::Lead, #[trigger] t[m]) by {
            if m > 0 {
                assert(t[m] == n[m - 1]);
                assert(in_class(Class::Lead, n[m - 1]));
            }
        }
    }
    if a < b {
        assert(t[a + 1] == n[a]);
        lemma_all_in_shift(n, p, a + 1, b, Class::Space);
    }
}

/// A surname is still one, one place further on, after a space is put in
/// front.
proof fn lemma_surname_after_space(n: Seq<char>, p: char, b: int, c: int, words: Seq<(int, int)>)
    requires
        surname_span(n, b, c, words),
    ensures
        surname_span(
            seq![p] + n,
            b + 1,
            c + 1,
            Seq::new(words.len(), |k: int| (words[k].0 + 1, words[k].1 + 1)),
        ),
{
    let t = seq![p] + n;
    lemma_surname_first_word(n, b, c, words);
    let moved = Seq::new(words.len(), |k: int| (words[k].0 + 1, words[k].1 + 1));
    assert forall|k: int| 0 <= k < moved.len() implies word_span(t, #[trigger] moved[k].0, moved[k].1) by {
        lemma_surname_word(n, words, k);
        lemma_word_within(n, words, k);
        assert(t[moved[k].0] == n[words[k].0]);
        lemma_all_in_shift(n, p, words[k].0 + 1, words[k].1, Class::Lower);
    }
    assert forall|k: int| 0 <= k < moved.len() - 1 implies hyphen_gap(t, #[trigger] moved[k].1, moved[k + 1].0) by {
        lemma_surname_gap(n, words, k);
        let q = choose|q: int|
            words[k].1 <= q < words[k + 1].0 && n[q] == '-' && all_in(
                n,
                words[k].1,
                q,
                Class::Space,
            ) && all_in(n, q + 1, words[k + 1].0, Class::Space);
        lemma_word_within(n, words, k + 1);
        lemma_surname_word(n, words, k);
        lemma_surname_word(n, words, k + 1);
        assert(0 <= q < n.len());
        assert(t[q + 1] == n[q]);
        lemma_all_in_shift(n, p, words[k].1, q, Class::Space);
        lemma_all_in_shift(n, p, q + 1, words[k + 1].0, Class::Space);
    }
    reveal(surname_span);
}

/// The initials are still found, one place further on, after a space is put
/// in front.
proof fn lemma_initials_after_space(n: Seq<char>, p: char, c: int, d: int, e: int)
    requires
        initials_span(n, c, d, e),
        0 <= c,
    ensures
        initials_span(seq![p] + n, c + 1, d + 1, e + 1),
{
    let t = seq![p] + n;
    reveal(initials_span);
    lemma_all_in_shift(n, p, c, d, Class::Space);
    assert(t[d + 1] == n[d]);
    assert(t[e + 1] == n[e]);
    assert(t[d + 2] == n[d + 1]);
    if n[d + 1] == '.' {
        lemma_all_in_shift(n, p, d + 2, e, Class::Space);
    } else {
        lemma_all_in_shift(n, p, d + 1, e, Class::Space);
    }
}

/// A match stays a match, one place further on, after a separator is put
/// in front of the text.
proof fn lemma_match_after_space(n: Seq<char>, p: char, b: int, c: int, d: int, e: int)
    requires
        is_lead(p),
        name_match(n, b, c, d, e),
    ensures
        name_match(seq![p] + n, b + 1, c + 1, d + 1, e + 1),
{
    lemma_surname_of_match(n, b, c, d, e);
    lemma_lead_after_space(n, p, b);
    let words = choose|words: Seq<(int, int)>| surname_span(n, b, c, words);
    lemma_surname_after_space(n, p, b, c, words);
    lemma_initials_after_space(n, p, c, d, e);
}

/// A name as it is written back, after any one separator (white space,
/// `,`, `;`, `:`, `/` or `\`), reads back as itself.
pub proof fn law_written_name_after_separator(p: char, x: Seq<char>)
    requires
        is_lead(p),
        fio_name(x).len() > 0,
    ensures
        fio_name(seq![p] + fio_name(x)) == fio_name(x),
{
    let r = fio_name(x);
    law_written_name_reads_back(x);
    lemma_fio_name_by_scan(r);
    let (b, c, d, e) = fio_scan(r)->0;
    lemma_scanned_is_match(r);
    lemma_surname_of_match(r, b, c, d, e);
    lemma_match_after_space(r, p, b, c, d, e);
    let t = seq![p] + r;
    lemma_match_is_scanned(t, b + 1, c + 1, d + 1, e + 1);
    lemma_fio_name_by_scan(t);
    assert(t.subrange(b + 1, c + 1) =~= r.subrange(b, c));
    assert(t[d + 1] == r[d]);
    assert(t[e + 1] == r[e]);
}

/// A name as it is written back, after a space, reads back as itself.
pub proof fn law_written_name_after_space(x: Seq<char>)
    requires
        fio_name(x).len() > 0,
    ensures
        fio_name(seq![' '] + fio_name(x)) == fio_name(x),
{
    law_written_name_after_separator(' ', x);
}

// ---------------------------------------------------------------------------
// Executable scan
// ---------------------------------------------------------------------------
fn word_at_exec(s: &Vec<char>, r: usize) -> (b: bool)
    ensures
        b == word_at(s@, r as int),
{
    r < s.len() && r + 1 < s.len() && char_is_upper(s[r]) && char_is_lower(s[r + 1])
}

fn chain_end_exec(s: &Vec<char>, b: usize) -> (c: usize)
    requires
        word_at(s@, b as int),
    ensures
        c == chain_end(s@, b as int),
{
    let mut r = b;
    loop
        invariant
            word_at(s@, r as int),
            chain_end(s@, b as int) == chain_end(s@, r as int),
        decreases s.len() - r,
    {
        let e = skip_run(s, r + 1, Class::Lower);
        proof {
            lemma_skip(s@, r + 1, Class::Lower);
        }
        let q = skip_run(s, e, Class::Space);
        proof {
            lemma_skip(s@, e as int, Class::Space);
        }
        if q < s.len() && s[q] == '-' {
            let n = skip_run(s, q + 1, Class::Space);
            if word_at_exec(s, n) && n > r {
                r = n;
                continue;
            }
        }
        return e;
    }
}

/// The positions of the name that `s` begins with, found by maximal runs.
fn fio_scan_exec(s: &Vec<char>) -> (r: Option<(usize, usize, usize, usize)>)
    ensures
        match r {
            Some((b, c, d, e)) => {
                &&& fio_scan(s@) == Some((b as int, c as int, d as int, e as int))
                &&& b < c < d < e < s.len()
            },
            None => fio_scan(s@) is None,
        },
{
    let a = skip_run(s, 0, Class::Lead);
    proof {
        lemma_skip(s@, 0, Class::Lead);
    }
    let b = if a < s.len() && char_is_dash(s[a]) {
        skip_run(s, a + 1, Class::Space)
    } else {
        a
    };
    if !word_at_exec(s, b) {
        return None;
    }
    let c = chain_end_exec(s, b);
    proof {
        lemma_chain_end_bounds(s@, b as int);
    }
    let d = skip_run(s, c, Class::Space);
    proof {
        lemma_skip(s@, c as int, Class::Space);
    }
    if d == c || d >= s.len() || !char_is_upper(s[d]) {
        return None;
    }
    let e = if d + 1 < s.len() && s[d + 1] == '.' {
        proof {
            lemma_skip(s@, d + 2, Class::Space);
        }
        skip_run(s, d + 2, Class::Space)
    } else if d + 1 < s.len() && char_is_space(s[d + 1]) {
        proof {
            lemma_skip(s@, d + 1, Class::Space);
        }
        skip_run(s, d + 1, Class::Space)
    } else {
        s.len()
    };
    if e < s.len() && char_is_upper(s[e]) {
        Some((b, c, d, e))
    } else {
        None
    }
}

/// Trims `part` and, when something is left, appends it to `kept`.
fn keep_part(kept: &mut Vec<Vec<char>>, part: &Vec<char>)
    ensures
        final(kept)@.len() == old(kept)@.len() + (if trim(part@).len() > 0 { 1int } else { 0 }),
        forall|k: int| 0 <= k < old(kept)@.len() ==> #[trigger] final(kept)@[k] == old(kept)@[k],
        trim(part@).len() > 0 ==> final(kept)@.last()@ == trim(part@),
{
    let (lo, hi) = trim_bounds(part);
    if lo < hi {
        kept.push(copy_range(part, lo, hi));
    }
}

/// `raw` cut at its hyphens, each part trimmed, the empty parts dropped, and
/// the rest joined by single hyphens.
fn normalize_chars(raw: &Vec<char>) -> (r: String)
    ensures
        r@ == normalized_surname(raw@),
{
    let mut kept: Vec<Vec<char>> = Vec::new();
    let mut cur: Vec<char> = Vec::new();
    let ghost mut done: Seq<Seq<char>> = Seq::empty();
    for i in 0..raw.len()
        invariant
            split_hyphen(raw@.take(i as int)) == done.push(cur@),
            kept@.len() == kept_parts(done).len(),
            forall|k: int| 0 <= k < kept@.len() ==> #[trigger] kept@[k]@ == kept_parts(done)[k],
    {
        let ch = raw[i];
        assert(raw@.take(i + 1).drop_last() =~= raw@.take(i as int));
        if ch == '-' {
            let ghost before = kept@;
            keep_part(&mut kept, &cur);
            proof {
                let d2 = done.push(cur@);
                assert(d2.drop_last() =~= done);
                done = d2;
            }
            cur = Vec::new();
            proof {
                assert(split_hyphen(raw@.take(i + 1)) =~= done.push(cur@));
            }
        } else {
            cur.push(ch);
            proof {
                let p = split_hyphen(raw@.take(i as int));
                assert(p.update(p.len() - 1, p.last().push(ch)) =~= done.push(cur@));
            }
        }
    }
    assert(raw@.take(raw.len() as int) =~= raw@);
    let ghost all_parts = done.push(cur@);
    keep_part(&mut kept, &cur);
    proof {
        assert(all_parts.drop_last() =~= done);
    }
    let ghost parts = kept_parts(all_parts);
    assert(kept@.len() == parts.len());
    assert(forall|k: int| 0 <= k < kept@.len() ==> #[trigger] kept@[k]@ == parts[k]);
    let mut out = String::new();
    for j in 0..kept.len()
        invariant
            kept@.len() == parts.len(),
            forall|k: int| 0 <= k < kept@.len() ==> #[trigger] kept@[k]@ == parts[k],
            out@ == join_hyphen(parts.take(j as int)),
    {
        let ghost prev = out@;
        if j > 0 {
            push_char(&mut out, '-');
        }
        let n = kept[j].len();
        push_range(&mut out, &kept[j], 0, n);
        proof {
            let t = parts.take(j + 1);
            assert(t.drop_last() =~= parts.take(j as int));
            assert(kept@[j as int]@.subrange(0, n as int) =~= parts[j as int]);
            if j == 0 {
                assert(out@ =~= t[0]);
            }
        }
    }
    assert(parts.take(parts.len() as int) =~= parts);
    out
}

/// The surname as written back: the parts between hyphens, trimmed, the
/// empty ones dropped, joined by single hyphens.
pub fn normalize_surname(raw: &str) -> (r: String)
    ensures
        r@ == normalized_surname(raw@),
{
    let v = chars_of(raw);
    normalize_chars(&v)
}

/// The name that `s` begins with, as written back, or the empty text.
pub fn extract_fio_chars(s: &Vec<char>) -> (r: String)
    ensures
        r@ == fio_name(s@),
{
    proof {
        lemma_fio_name_by_scan(s@);
    }
    match fio_scan_exec(s) {
        None => String::new(),
        Some((b, c, d, e)) => {
            let raw = copy_range(s, b, c);
            let mut out = normalize_chars(&raw);
            push_char(&mut out, ' ');
            push_char(&mut out, s[d]);
            push_char(&mut out, '.');
            push_char(&mut out, s[e]);
            push_char(&mut out, '.');
            assert(out@ =~= name_text(normalized_surname(s@.subrange(b as int, c as int)), s@[d as int], s@[e as int]));
            out
        },
    }
}

/// The name that the text after the account number begins with, as written
/// back (`Фамилия И.О.`), or the empty text when it begins with none.
pub fn extract_fio(after_account: &str) -> (r: String)
    ensures
        r@ == fio_name(after_account@),
{
    let v = chars_of(after_account);
    extract_fio_chars(&v)
}

} // verus!

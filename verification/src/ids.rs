//! Slugs and plan identifiers.
use vstd::prelude::*;

use crate::text::{
    ascii_lower, chars_of, decimal, digit_char, fold, is_digit, is_white_space, owned, push_char, push_str,
    string_of, strip_char, strip_end, strip_start, trim, trim_end, trim_start, trim_str, u64_text,
};

verus! {

/// What `str::to_lowercase` returns (Unicode lower-case mapping).
pub uninterp spec fn unicode_lowercase(s: Seq<char>) -> Seq<char>;

/// A character a slug keeps as it is: `a-z` or `0-9`.
pub open spec fn slug_char(c: char) -> bool {
    ('a' <= c && c <= 'z') || ('0' <= c && c <= '9')
}

/// `s` with every maximal run of characters other than `a-z0-9` replaced by
/// `rep`; `in_run` says whether such a run is already under way before `s`.
pub open spec fn runs_replaced_from(s: Seq<char>, rep: Seq<char>, in_run: bool) -> Seq<char>
    decreases s.len(),
{
    if s.len() == 0 {
        seq![]
    } else if slug_char(s[0]) {
        seq![s[0]] + runs_replaced_from(s.drop_first(), rep, false)
    } else if in_run {
        runs_replaced_from(s.drop_first(), rep, true)
    } else {
        rep + runs_replaced_from(s.drop_first(), rep, true)
    }
}

/// `s` with every maximal run of characters other than `a-z0-9` replaced by `rep`.
pub open spec fn runs_replaced(s: Seq<char>, rep: Seq<char>) -> Seq<char> {
    runs_replaced_from(s, rep, false)
}

/// A slug's shape: only `a-z`, `0-9` and `-`, no `-` at either end, and never
/// two `-` in a row.
pub open spec fn slug_shaped(s: Seq<char>) -> bool {
    &&& forall|i: int| 0 <= i < s.len() ==> slug_char(#[trigger] s[i]) || s[i] == '-'
    &&& s.len() > 0 ==> s[0] != '-' && s.last() != '-'
    &&& forall|i: int| 0 <= i < s.len() - 1 ==> !(#[trigger] s[i] == '-' && s[i + 1] == '-')
}

proof fn lemma_runs_replaced_keeps_slug(s: Seq<char>, in_run: bool)
    requires
        forall|i: int| 0 <= i < s.len() ==> slug_char(#[trigger] s[i]) || s[i] == '-',
        forall|i: int| 0 <= i < s.len() - 1 ==> !(#[trigger] s[i] == '-' && s[i + 1] == '-'),
        in_run && s.len() > 0 ==> s[0] != '-',
    ensures
        runs_replaced_from(s, "-"@, in_run) == s,
    decreases s.len(),
{
    reveal_strlit("-");
    if s.len() > 0 {
        let t = s.drop_first();
        assert forall|i: int| 0 <= i < t.len() - 1 implies !(#[trigger] t[i] == '-' && t[i + 1] == '-') by {
            assert(t[i] == s[i + 1] && t[i + 1] == s[i + 2]);
        }
        assert forall|i: int| 0 <= i < t.len() implies slug_char(#[trigger] t[i]) || t[i] == '-' by {
            assert(t[i] == s[i + 1]);
        }
        if slug_char(s[0]) {
            lemma_runs_replaced_keeps_slug(t, false);
        } else {
            if t.len() > 0 {
                assert(t[0] == s[1]);
            }
            lemma_runs_replaced_keeps_slug(t, true);
        }
        assert(s =~= seq![s[0]] + t);
    }
}

/// What a slug-shaped text goes through in `slugify`: it has no white space to
/// trim, no upper case, and no run to collapse or dash to strip.
proof fn lemma_slug_fixed(s: Seq<char>)
    requires
        slug_shaped(s),
    ensures
        all_ascii(s),
        trim(s) == s,
        fold(s) == s,
        strip_char(runs_replaced(s, "-"@), '-') == s,
{
    assert forall|i: int| 0 <= i < s.len() implies (#[trigger] s[i] as u32) < 128 && !is_white_space(s[i])
        && ascii_lower(s[i]) == s[i] by {
        assert(slug_char(s[i]) || s[i] == '-');
    }
    if s.len() > 0 {
        assert(!is_white_space(s[0]) && !is_white_space(s.last()));
        assert(trim_start(s) == s);
        assert(trim_end(s) == s);
    }
    assert(fold(s) =~= s);
    lemma_runs_replaced_keeps_slug(s, false);
}

/// Every character of `s` is ASCII.
pub open spec fn all_ascii(s: Seq<char>) -> bool {
    forall|i: int| 0 <= i < s.len() ==> (#[trigger] s[i] as u32) < 128
}

/// `str::to_lowercase`: the Unicode lower-case mapping of `s`, a function of `s`.
/// Of the mapping only its ASCII part is claimed: on ASCII text `A`-`Z` become
/// `a`-`z` and every other character stays as it is.
#[verifier::external_body]
pub(crate) fn to_lowercase(s: &str) -> (r: String)
    ensures
        r@ == unicode_lowercase(s@),
        all_ascii(s@) ==> r@ == fold(s@),
{
    s.to_lowercase()
}

/// `regex::Regex::new(pattern).unwrap().replace_all(text, rep)`, taken as an owned
/// string. The pattern is required to be `[^a-z0-9]+`, which compiles, so the
/// `unwrap` cannot panic; a greedy class repetition matches each maximal run of
/// characters outside `a-z0-9`, and `replace_all` puts `rep` (which holds no `$`)
/// in place of each match.
#[verifier::external_body]
fn regex_replace(pattern: &str, text: &str, rep: &str) -> (r: String)
    requires
        pattern@ == "[^a-z0-9]+"@,
        rep@ == "-"@,
    ensures
        r@ == runs_replaced(text@, rep@),
{
    regex::Regex::new(pattern).unwrap().replace_all(text, rep).into_owned()
}

/// The slug of a list name: trimmed, lower-cased, every run of characters other
/// than `a-z0-9` replaced by one `-`, and leading and trailing `-` dropped.
pub open spec fn slug_of(name: Seq<char>) -> Seq<char> {
    strip_char(
        runs_replaced(unicode_lowercase(trim(name)), "-"@),
        '-',
    )
}

/// Turns a list name into a URL-style slug, e.g. `"Web Mapping"` into `"web-mapping"`.
/// A text already shaped like a slug comes back as it is, so slugifying a slug
/// gives the same slug.
pub fn slugify(name: &str) -> (r: String)
    ensures
        r@ == slug_of(name@),
        all_ascii(trim(name@)) ==> r@ == strip_char(runs_replaced(fold(trim(name@)), "-"@), '-'),
        slug_shaped(name@) ==> r@ == name@,
{
    let trimmed = trim_str(name);
    proof {
        if slug_shaped(name@) {
            lemma_slug_fixed(name@);
        }
    }
    let lower = to_lowercase(trimmed.as_str());
    let replaced = regex_replace("[^a-z0-9]+", lower.as_str(), "-");
    trim_dashes(replaced.as_str())
}

/// Drops every leading and trailing `-`.
pub fn trim_dashes(s: &str) -> (r: String)
    ensures
        r@ == strip_char(s@, '-'),
{
    let v = chars_of(s);
    let n = v.len();
    let mut i: usize = 0;
    assert(s@.skip(0) =~= s@);
    while i < n && v[i] == '-'
        invariant
            v@ == s@,
            n == v.len(),
            i <= n,
            strip_start(s@, '-') == strip_start(s@.skip(i as int), '-'),
        decreases n - i,
    {
        assert(s@.skip(i as int).drop_first() =~= s@.skip(i + 1));
        i = i + 1;
    }
    let ghost rest = s@.skip(i as int);
    assert(strip_start(s@, '-') == rest);
    let mut j: usize = n;
    assert(rest.take(rest.len() as int) =~= rest);
    while j > i && v[j - 1] == '-'
        invariant
            v@ == s@,
            n == v.len(),
            i <= j <= n,
            rest == s@.skip(i as int),
            strip_end(rest, '-') == strip_end(rest.take(j - i), '-'),
        decreases j,
    {
        assert(rest.take(j - i).drop_last() =~= rest.take(j - i - 1));
        j = j - 1;
    }
    assert(strip_end(rest, '-') == rest.take(j - i));
    assert(rest.take(j - i) =~= s@.subrange(i as int, j as int));
    string_of(&v, i, j)
}

/// `x` is one of the texts of `taken`.
pub open spec fn is_taken(taken: Seq<Seq<char>>, x: Seq<char>) -> bool {
    exists|j: int| 0 <= j < taken.len() && taken[j] == x
}

/// The texts of a slice of strings.
pub open spec fn texts(v: Seq<String>) -> Seq<Seq<char>> {
    v.map_values(|s: String| s@)
}

/// `base`, a dash and the decimal number `i`.
pub open spec fn suffixed(base: Seq<char>, i: nat) -> Seq<char> {
    base + seq!['-'] + decimal(i)
}

/// The slug `unique_slug` chooses: `base` if free, else the first free
/// `base-i` for `i` from 2 to 999, else `base-x`.
pub open spec fn unique_slug_of(base: Seq<char>, taken: Seq<Seq<char>>) -> Seq<char> {
    if !is_taken(taken, base) {
        base
    } else {
        first_free(base, taken, 2)
    }
}

pub open spec fn first_free(base: Seq<char>, taken: Seq<Seq<char>>, i: nat) -> Seq<char>
    decreases 1000 - i,
{
    if i >= 1000 {
        base + seq!['-', 'x']
    } else if !is_taken(taken, suffixed(base, i)) {
        suffixed(base, i)
    } else {
        first_free(base, taken, i + 1)
    }
}

pub fn taken_contains(taken: &[String], x: &String) -> (r: bool)
    ensures
        r == is_taken(texts(taken@), x@),
{
    let mut j: usize = 0;
    while j < taken.len()
        invariant
            j <= taken.len(),
            forall|k: int| 0 <= k < j ==> texts(taken@)[k] != x@,
        decreases taken.len() - j,
    {
        if taken[j] == *x {
            assert(texts(taken@)[j as int] == x@);
            return true;
        }
        j = j + 1;
    }
    false
}

/// A slug not among `taken`: `base` if free, else `base-2`, `base-3`, ...
/// up to `base-999`, else `base-x`.
pub fn unique_slug(base: &str, taken: &[String]) -> (r: String)
    ensures
        r@ == unique_slug_of(base@, texts(taken@)),
        !is_taken(texts(taken@), base@) ==> r@ == base@,
{
    let b = owned(base);
    if !taken_contains(taken, &b) {
        return b;
    }
    let mut i: u64 = 2;
    while i < 1000
        invariant
            2 <= i <= 1000,
            b@ == base@,
            is_taken(texts(taken@), base@),
            unique_slug_of(base@, texts(taken@)) == first_free(base@, texts(taken@), i as nat),
        decreases 1000 - i,
    {
        let mut candidate = owned(base);
        push_char(&mut candidate, '-');
        let num = u64_text(i);
        push_str(&mut candidate, num.as_str());
        assert(candidate@ =~= suffixed(base@, i as nat));
        if !taken_contains(taken, &candidate) {
            return candidate;
        }
        i = i + 1;
    }
    let mut r = owned(base);
    push_char(&mut r, '-');
    push_char(&mut r, 'x');
    assert(r@ =~= base@ + seq!['-', 'x']);
    r
}

/// The ASCII digits of `s`, in order.
pub open spec fn digits_in(s: Seq<char>) -> Seq<char>
    decreases s.len(),
{
    if s.len() == 0 {
        seq![]
    } else if is_digit(s.last()) {
        digits_in(s.drop_last()).push(s.last())
    } else {
        digits_in(s.drop_last())
    }
}

/// The plan id derived from a timestamp: `PLAN_` and the first 14 digits of it.
pub open spec fn plan_id_of(now: Seq<char>) -> Seq<char> {
    let d = digits_in(now);
    "PLAN_"@ + if d.len() <= 14 {
        d
    } else {
        d.take(14)
    }
}

/// A plan id from a timestamp, e.g. `2026-01-02T03:04:05Z` gives `PLAN_20260102030405`.
pub fn new_plan_id(now: &str) -> (r: String)
    ensures
        r@ == plan_id_of(now@),
{
    let v = chars_of(now);
    let mut compact = String::new();
    let mut count: usize = 0;
    let mut i: usize = 0;
    while i < v.len()
        invariant
            v@ == now@,
            i <= v.len(),
            count == compact@.len(),
            count <= 14,
            compact@ == (if digits_in(now@.take(i as int)).len() <= 14 {
                digits_in(now@.take(i as int))
            } else {
                digits_in(now@.take(i as int)).take(14)
            }),
        decreases v.len() - i,
    {
        let c = v[i];
        let ghost before = digits_in(now@.take(i as int));
        assert(now@.take(i + 1).drop_last() =~= now@.take(i as int));
        if '0' <= c && c <= '9' {
            assert(digits_in(now@.take(i + 1)) == before.push(c));
            if count < 14 {
                push_char(&mut compact, c);
                count = count + 1;
                assert(compact@ =~= before.push(c));
            } else {
                assert(before.push(c).take(14) =~= (if before.len() <= 14 { before } else { before.take(14) }));
            }
        } else {
            assert(digits_in(now@.take(i + 1)) == before);
        }
        i = i + 1;
    }
    assert(now@.take(v.len() as int) =~= now@);
    let mut r = owned("PLAN_");
    push_str(&mut r, compact.as_str());
    r
}

} // verus!

//! Facts about the canonical form: which characters it can hold, and when
//! making a canonical key canonical again leaves it unchanged.

use vstd::prelude::*;
use crate::text::{chars_within, is_digit, last_index_of, lemma_last_index_of};
use crate::formatter::{
    canonical, digit_run, first_marker_from, has_id, id_at, is_marker_at, lower_of, normalized,
    replace_chars, replace_in_order, season_episode, starts_with_article, strip_article, strip_forbidden, strip_ids,
    strip_ids_from, strip_suffix, strip_year, trim_end, unify, year_suffix_applies,
    UNIFIED_SEPARATOR,
};

verus! {

/// Each character that `replace_chars` puts out is from `new`, or is a
/// character of `s` that is not in `old`.
pub proof fn lemma_replace_chars_source(s: Seq<char>, old: Seq<char>, new: Seq<char>)
    ensures
        forall|k: int|
            0 <= k < replace_chars(s, old, new).len() ==> new.contains(
                #[trigger] replace_chars(s, old, new)[k],
            ) || (s.contains(replace_chars(s, old, new)[k]) && !old.contains(
                replace_chars(s, old, new)[k],
            )),
    decreases s.len(),
{
    if s.len() > 0 {
        let rest = replace_chars(s.drop_last(), old, new);
        lemma_replace_chars_source(s.drop_last(), old, new);
        let out = replace_chars(s, old, new);
        assert forall|k: int| 0 <= k < out.len() implies new.contains(#[trigger] out[k]) || (
        s.contains(out[k]) && !old.contains(out[k])) by {
            if k < rest.len() {
                assert(out[k] == rest[k]);
                if !new.contains(rest[k]) {
                    let j = choose|j: int| 0 <= j < s.drop_last().len() && s.drop_last()[j] == rest[k];
                    assert(s[j] == rest[k]);
                }
            } else if old.contains(s.last()) {
                assert(out[k] == new[k - rest.len()]);
            } else {
                assert(out[k] == s[s.len() - 1]);
            }
        }
    }
}

/// `replace_chars` leaves a text with none of `old` as it is.
pub proof fn lemma_replace_chars_unchanged(s: Seq<char>, old: Seq<char>, new: Seq<char>)
    requires
        forall|k: int| 0 <= k < s.len() ==> !old.contains(#[trigger] s[k]),
    ensures
        replace_chars(s, old, new) == s,
    decreases s.len(),
{
    if s.len() > 0 {
        assert forall|k: int| 0 <= k < s.drop_last().len() implies !old.contains(
            #[trigger] s.drop_last()[k],
        ) by {
            assert(s.drop_last()[k] == s[k]);
        }
        lemma_replace_chars_unchanged(s.drop_last(), old, new);
        assert(!old.contains(s[s.len() - 1]));
        assert(s.drop_last().push(s.last()) =~= s);
    }
}

/// `replace_chars` works on the two parts of a text separately.
pub proof fn lemma_replace_chars_concat(x: Seq<char>, y: Seq<char>, old: Seq<char>, new: Seq<char>)
    ensures
        replace_chars(x + y, old, new) == replace_chars(x, old, new) + replace_chars(y, old, new),
    decreases y.len(),
{
    if y.len() == 0 {
        assert(x + y =~= x);
        assert(replace_chars(x, old, new) + replace_chars(y, old, new) =~= replace_chars(x, old, new));
    } else {
        assert((x + y).drop_last() =~= x + y.drop_last());
        assert((x + y).last() == y.last());
        lemma_replace_chars_concat(x, y.drop_last(), old, new);
        let rx = replace_chars(x, old, new);
        let ry = replace_chars(y.drop_last(), old, new);
        if old.contains(y.last()) {
            assert(rx + ry + new =~= rx + (ry + new));
        } else {
            assert((rx + ry).push(y.last()) =~= rx + ry.push(y.last()));
        }
    }
}

/// Replacing `a`, then `b`, by a text without `b` gives what replacing both
/// at once gives.
pub proof fn lemma_replace_in_order_pair(s: Seq<char>, a: char, b: char, new: Seq<char>)
    requires
        !new.contains(b),
    ensures
        replace_in_order(s, seq![a, b], new) == replace_chars(s, seq![a, b], new),
{
    let s1 = replace_chars(s, seq![a], new);
    let s2 = replace_chars(s1, seq![b], new);
    assert(seq![a, b][0] == a && seq![b][0] == b);
    assert(seq![a, b].subrange(1, 2) =~= seq![b]);
    assert(seq![b].subrange(1, 1) =~= Seq::<char>::empty());
    assert(replace_in_order(s2, Seq::<char>::empty(), new) == s2);
    assert(replace_in_order(s1, seq![b], new) == s2);
    assert(replace_in_order(s, seq![a, b], new) == replace_chars(
        replace_chars(s, seq![a], new),
        seq![b],
        new,
    ));
    lemma_replace_pair(s, a, b, new);
}

proof fn lemma_replace_pair(s: Seq<char>, a: char, b: char, new: Seq<char>)
    requires
        !new.contains(b),
    ensures
        replace_chars(replace_chars(s, seq![a], new), seq![b], new) == replace_chars(
            s,
            seq![a, b],
            new,
        ),
    decreases s.len(),
{
    if s.len() > 0 {
        let c = s.last();
        let r1 = replace_chars(s.drop_last(), seq![a], new);
        lemma_replace_pair(s.drop_last(), a, b, new);
        assert(seq![c].drop_last() =~= Seq::<char>::empty());
        assert(seq![c].last() == c);
        assert(seq![a, b][0] == a && seq![a, b][1] == b && seq![a][0] == a && seq![b][0] == b);
        assert(seq![a].contains(c) <==> c == a);
        assert(seq![b].contains(c) <==> c == b);
        assert(seq![a, b].contains(c) <==> (c == a || c == b));
        if c == a {
            lemma_replace_chars_concat(r1, new, seq![b], new);
            assert forall|k: int| 0 <= k < new.len() implies !seq![b].contains(#[trigger] new[k]) by {
                if new[k] == b {
                    assert(new.contains(b));
                }
            }
            lemma_replace_chars_unchanged(new, seq![b], new);
        } else {
            lemma_replace_chars_concat(r1, seq![c], seq![b], new);
            assert(r1.push(c) =~= r1 + seq![c]);
            let e = Seq::<char>::empty();
            assert(replace_chars(e, seq![b], new) == e);
            assert(seq![c].drop_last() == e);
            if c == b {
                assert(replace_chars(seq![c], seq![b], new) =~= e + new);
            } else {
                assert(replace_chars(seq![c], seq![b], new) =~= e.push(c));
                assert(replace_chars(s.drop_last(), seq![a, b], new).push(c) =~= replace_chars(
                    s.drop_last(),
                    seq![a, b],
                    new,
                ) + seq![c]);
            }
        }
    }
}

/// Replacing by at most one character never lengthens a text.
pub proof fn lemma_replace_chars_len(s: Seq<char>, old: Seq<char>, new: Seq<char>)
    requires
        new.len() <= 1,
    ensures
        replace_chars(s, old, new).len() <= s.len(),
    decreases s.len(),
{
    if s.len() > 0 {
        lemma_replace_chars_len(s.drop_last(), old, new);
    }
}

pub proof fn lemma_chars_within_trans(a: Seq<char>, b: Seq<char>, c: Seq<char>)
    requires
        chars_within(a, b),
        chars_within(b, c),
    ensures
        chars_within(a, c),
{
    assert forall|k: int| 0 <= k < a.len() implies c.contains(#[trigger] a[k]) by {
        assert(b.contains(a[k]));
        let j = choose|j: int| 0 <= j < b.len() && b[j] == a[k];
        assert(c.contains(b[j]));
    }
}

pub proof fn lemma_subrange_within(s: Seq<char>, i: int, j: int)
    requires
        0 <= i <= j <= s.len(),
    ensures
        chars_within(s.subrange(i, j), s),
{
    assert forall|k: int| 0 <= k < j - i implies s.contains(#[trigger] s.subrange(i, j)[k]) by {
        assert(s[i + k] == s.subrange(i, j)[k]);
    }
}

pub proof fn lemma_trim_end(s: Seq<char>, sep: char)
    ensures
        trim_end(s, sep).len() <= s.len(),
        trim_end(s, sep) == s.subrange(0, trim_end(s, sep).len() as int),
        s.len() > 0 && s.last() == sep ==> trim_end(s, sep).len() < s.len(),
    decreases s.len(),
{
    if s.len() > 0 && s.last() == sep {
        lemma_trim_end(s.drop_last(), sep);
        assert(s.drop_last().subrange(0, trim_end(s, sep).len() as int) =~= s.subrange(
            0,
            trim_end(s, sep).len() as int,
        ));
    } else {
        assert(s.subrange(0, s.len() as int) =~= s);
    }
}

pub proof fn lemma_trim_end_within(s: Seq<char>, sep: char)
    ensures
        chars_within(trim_end(s, sep), s),
{
    lemma_trim_end(s, sep);
    lemma_subrange_within(s, 0, trim_end(s, sep).len() as int);
}

pub proof fn lemma_strip_year(s: Seq<char>, sep: char)
    ensures
        chars_within(strip_year(s, sep), s),
        strip_year(s, sep).len() <= s.len(),
        year_suffix_applies(s, sep) ==> strip_year(s, sep).len() < s.len(),
{
    lemma_last_index_of(s, sep);
    if year_suffix_applies(s, sep) {
        let k = last_index_of(s, sep);
        let p = s.subrange(0, k);
        lemma_trim_end(p, sep);
        lemma_trim_end_within(p, sep);
        lemma_subrange_within(s, 0, k);
        lemma_chars_within_trans(trim_end(p, sep), p, s);
    } else {
        lemma_subrange_within(s, 0, s.len() as int);
        assert(s.subrange(0, s.len() as int) =~= s);
    }
}

pub proof fn lemma_strip_article(s: Seq<char>, sep: char)
    ensures
        chars_within(strip_article(s, sep), s),
        strip_article(s, sep).len() <= s.len(),
        starts_with_article(s, sep) ==> strip_article(s, sep).len() < s.len(),
{
    lemma_subrange_within(s, 0, s.len() as int);
    assert(s.subrange(0, s.len() as int) =~= s);
    if starts_with_article(s, sep) {
        lemma_subrange_within(s, 4, s.len() as int);
    }
}

/// Removing ids keeps only characters of the text, never lengthens it, and
/// shortens it exactly when it holds an id.
pub proof fn lemma_strip_ids_from(s: Seq<char>, i: int)
    requires
        0 <= i <= s.len(),
    ensures
        chars_within(strip_ids_from(s, i), s),
        strip_ids_from(s, i).len() <= s.len() - i,
        (exists|j: int| i <= j && id_at(s, j)) ==> strip_ids_from(s, i).len() < s.len() - i,
        (forall|j: int| i <= j ==> !id_at(s, j)) ==> strip_ids_from(s, i) == s.subrange(
            i,
            s.len() as int,
        ),
    decreases s.len() - i,
{
    if i < s.len() {
        if id_at(s, i) {
            let j = i + 2 + digit_run(s, i + 2);
            let next = if j > s.len() {
                s.len() as int
            } else {
                j
            };
            assert(is_digit(s[i + 2]));
            assert(digit_run(s, i + 2) >= 1);
            lemma_strip_ids_from(s, next);
        } else {
            lemma_strip_ids_from(s, i + 1);
            let rest = strip_ids_from(s, i + 1);
            let out = strip_ids_from(s, i);
            assert(out == seq![s[i]] + rest);
            assert forall|k: int| 0 <= k < out.len() implies s.contains(#[trigger] out[k]) by {
                if k == 0 {
                    assert(out[0] == s[i]);
                } else {
                    assert(out[k] == rest[k - 1]);
                }
            }
            if exists|j: int| i <= j && id_at(s, j) {
                let j = choose|j: int| i <= j && id_at(s, j);
                assert(i + 1 <= j);
            }
            if forall|j: int| i <= j ==> !id_at(s, j) {
                assert(forall|j: int| i + 1 <= j ==> !id_at(s, j));
                assert(out =~= s.subrange(i, s.len() as int));
            }
        }
    } else {
        assert(s.subrange(i, s.len() as int) =~= Seq::<char>::empty());
    }
}

pub proof fn lemma_strip_suffix(s: Seq<char>, sep: char)
    ensures
        chars_within(strip_suffix(s, sep), s),
        strip_suffix(s, sep).len() <= s.len(),
{
    lemma_strip_ids_from(s, 0);
    let a = strip_ids(s);
    lemma_trim_end(a, sep);
    lemma_trim_end_within(a, sep);
    let b = trim_end(a, sep);
    lemma_strip_year(b, sep);
    lemma_chars_within_trans(b, a, s);
    lemma_chars_within_trans(strip_year(b, sep), b, s);
}

/// A canonical key holds no space, underscore, colon or semicolon, and
/// each of its other characters is `.` or a character of the input.
pub proof fn lemma_canonical_chars(t: Seq<char>)
    ensures
        forall|k: int|
            0 <= k < canonical(t).len() ==> {
                let c = #[trigger] canonical(t)[k];
                &&& c != ' ' && c != '_' && c != ':' && c != ';'
                &&& c == UNIFIED_SEPARATOR || t.contains(c)
            },
{
    let sep = UNIFIED_SEPARATOR;
    let u = unify(t, sep);
    let v = strip_article(u, sep);
    let w = strip_suffix(v, sep);
    let y = canonical(t);
    lemma_replace_chars_source(t, seq![' ', '_'], seq![sep]);
    lemma_strip_article(u, sep);
    lemma_strip_suffix(v, sep);
    lemma_chars_within_trans(w, v, u);
    lemma_replace_chars_source(w, seq![':', ';'], seq![]);
    assert forall|k: int| 0 <= k < y.len() implies {
        let c = #[trigger] y[k];
        &&& c != ' ' && c != '_' && c != ':' && c != ';'
        &&& c == sep || t.contains(c)
    } by {
        let c = y[k];
        assert(!seq![':', ';'].contains(c)) by {
            if c == ':' {
                assert(seq![':', ';'][0] == c);
            }
            if c == ';' {
                assert(seq![':', ';'][1] == c);
            }
        }
        assert(w.contains(c));
        let j = choose|j: int| 0 <= j < w.len() && w[j] == c;
        assert(u.contains(w[j]));
        let i = choose|i: int| 0 <= i < u.len() && u[i] == c;
        assert(seq![sep].contains(u[i]) || (t.contains(u[i]) && !seq![' ', '_'].contains(u[i])));
        if seq![sep].contains(c) {
            assert(c == seq![sep][0]);
        }
        if c == ' ' {
            assert(seq![' ', '_'][0] == c);
        }
        if c == '_' {
            assert(seq![' ', '_'][1] == c);
        }
    }
}

/// A canonical key that a second pass leaves alone: it does not begin with
/// an article, holds no external id, does not end in a separator, and has
/// no release year that the length rule would remove.
pub open spec fn is_stable_key(y: Seq<char>) -> bool {
    &&& !starts_with_article(y, UNIFIED_SEPARATOR)
    &&& !has_id(y)
    &&& !(y.len() > 0 && y.last() == UNIFIED_SEPARATOR)
    &&& !year_suffix_applies(y, UNIFIED_SEPARATOR)
}

/// The canonical key of any title holds neither `:` nor `;`, and no space
/// or underscore.
pub proof fn lemma_normalized_has_no_forbidden_content(s: Seq<char>)
    ensures
        forall|k: int|
            0 <= k < normalized(s).len() ==> {
                let c = #[trigger] normalized(s)[k];
                c != ':' && c != ';' && c != ' ' && c != '_'
            },
{
    lemma_canonical_chars(lower_of(s));
}

/// Making a canonical key canonical once more gives the same key exactly
/// when the key is stable; otherwise the second pass shortens it (for
/// instance `the.the.x` becomes `the.x` and then `x`).
pub proof fn lemma_canonical_idempotent(t: Seq<char>)
    ensures
        canonical(canonical(t)) == canonical(t) <==> is_stable_key(canonical(t)),
{
    let sep = UNIFIED_SEPARATOR;
    let y = canonical(t);
    lemma_canonical_chars(t);
    assert forall|k: int| 0 <= k < y.len() implies !seq![' ', '_'].contains(#[trigger] y[k]) by {
        if seq![' ', '_'].contains(y[k]) {
            let j = choose|j: int| 0 <= j < 2 && seq![' ', '_'][j] == y[k];
            assert(j == 0 || j == 1);
        }
    }
    assert forall|k: int| 0 <= k < y.len() implies !seq![':', ';'].contains(#[trigger] y[k]) by {
        if seq![':', ';'].contains(y[k]) {
            let j = choose|j: int| 0 <= j < 2 && seq![':', ';'][j] == y[k];
            assert(j == 0 || j == 1);
        }
    }
    lemma_replace_chars_unchanged(y, seq![' ', '_'], seq![sep]);
    assert(unify(y, sep) == y);
    let a = strip_article(y, sep);
    let b = strip_ids(a);
    let c = trim_end(b, sep);
    let d = strip_year(c, sep);
    let e = strip_forbidden(d);
    assert(canonical(y) == e);
    lemma_strip_article(y, sep);
    lemma_strip_ids_from(a, 0);
    lemma_trim_end(b, sep);
    lemma_strip_year(c, sep);
    lemma_replace_chars_len(d, seq![':', ';'], seq![]);
    if is_stable_key(y) {
        assert(a == y);
        assert(forall|j: int| 0 <= j ==> !id_at(a, j));
        assert(a.subrange(0, a.len() as int) =~= a);
        assert(b == y);
        assert(c == y);
        assert(d == y);
        lemma_replace_chars_unchanged(y, seq![':', ';'], seq![]);
    } else {
        if !starts_with_article(y, sep) {
            assert(a == y);
            if !has_id(y) {
                assert(forall|j: int| 0 <= j ==> !id_at(a, j));
                assert(a.subrange(0, a.len() as int) =~= a);
                assert(b == y);
                if !(y.len() > 0 && y.last() == sep) {
                    assert(c == y);
                }
            } else {
                let j = choose|j: int| id_at(y, j);
                assert(0 <= j && id_at(a, j));
            }
        }
        assert(e.len() < y.len());
    }
}

/// `s` and `t` differ at most in the case of the letters `s` and `e`.
pub open spec fn same_up_to_marker_case(s: Seq<char>, t: Seq<char>) -> bool {
    &&& s.len() == t.len()
    &&& forall|k: int|
        0 <= k < s.len() ==> {
            ||| #[trigger] s[k] == t[k]
            ||| (s[k] == 's' || s[k] == 'S') && (t[k] == 's' || t[k] == 'S')
            ||| (s[k] == 'e' || s[k] == 'E') && (t[k] == 'e' || t[k] == 'E')
        }
}

proof fn lemma_first_marker_case(s: Seq<char>, t: Seq<char>, i: int)
    requires
        same_up_to_marker_case(s, t),
    ensures
        first_marker_from(s, i) == first_marker_from(t, i),
    decreases s.len() - i,
{
    if 0 <= i && i + 6 <= s.len() {
        assert(s[i] == t[i] || (s[i] == 's' || s[i] == 'S') && (t[i] == 's' || t[i] == 'S') || (
        s[i] == 'e' || s[i] == 'E') && (t[i] == 'e' || t[i] == 'E'));
        assert(s[i + 1] == t[i + 1] || !is_digit(s[i + 1]) && !is_digit(t[i + 1]));
        assert(s[i + 2] == t[i + 2] || !is_digit(s[i + 2]) && !is_digit(t[i + 2]));
        assert(s[i + 3] == t[i + 3] || (s[i + 3] == 's' || s[i + 3] == 'S') && (t[i + 3] == 's'
            || t[i + 3] == 'S') || (s[i + 3] == 'e' || s[i + 3] == 'E') && (t[i + 3] == 'e'
            || t[i + 3] == 'E'));
        assert(s[i + 4] == t[i + 4] || !is_digit(s[i + 4]) && !is_digit(t[i + 4]));
        assert(s[i + 5] == t[i + 5] || !is_digit(s[i + 5]) && !is_digit(t[i + 5]));
        assert(is_marker_at(s, i) == is_marker_at(t, i));
        lemma_first_marker_case(s, t, i + 1);
    }
}

proof fn lemma_first_marker_found(s: Seq<char>, j: int)
    ensures
        first_marker_from(s, j) matches Some(i) ==> is_marker_at(s, i),
    decreases s.len() - j,
{
    if 0 <= j && j + 6 <= s.len() && !is_marker_at(s, j) {
        lemma_first_marker_found(s, j + 1);
    }
}

/// The season/episode marker is found without regard to the case of its
/// letters: texts that differ only in whether `s` and `e` are capitals give
/// the same season and episode, or both none.
pub proof fn lemma_marker_case_insensitive(s: Seq<char>, t: Seq<char>)
    requires
        same_up_to_marker_case(s, t),
    ensures
        season_episode(s) == season_episode(t),
{
    lemma_first_marker_case(s, t, 0);
    lemma_first_marker_found(s, 0);
    if let Some(i) = first_marker_from(s, 0) {
        assert(is_marker_at(s, i));
        assert(is_marker_at(t, i));
        assert forall|k: int| i + 1 <= k < i + 3 || i + 4 <= k < i + 6 implies s[k] == t[k] by {
            assert(is_digit(s[k]));
        }
        assert(s.subrange(i + 1, i + 3) =~= t.subrange(i + 1, i + 3));
        assert(s.subrange(i + 4, i + 6) =~= t.subrange(i + 4, i + 6));
    }
}

} // verus!

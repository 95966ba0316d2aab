//! The list of font families offered for a font setting, made from the names
//! under which the system registers its fonts.
//!
//! A registered name such as `Yu Gothic Medium & Yu Gothic UI (TrueType)`
//! stands for the family `Yu Gothic Medium`: what follows the first `(` and
//! the first `&` is left out. The list holds every family once, in ascending
//! order.

use crate::text::{before_first, chars_of, find_char, string_from, trim, trim_bounds};
use vstd::prelude::*;

verus! {

/// The family that a registered font name stands for.
pub open spec fn family_name(raw: Seq<char>) -> Seq<char> {
    trim(before_first(trim(before_first(raw, '(')), '&'))
}

/// Whether `a` comes before `b`: at the first position where they differ `a`
/// has the lower code point, or `a` ends there and `b` does not. This is the
/// order of the texts' UTF-8 bytes.
pub open spec fn text_lt(a: Seq<char>, b: Seq<char>) -> bool
    decreases a.len(),
{
    if b.len() == 0 {
        false
    } else if a.len() == 0 {
        true
    } else if a[0] != b[0] {
        (a[0] as int) < (b[0] as int)
    } else {
        text_lt(a.drop_first(), b.drop_first())
    }
}

/// Every text of `names` comes before all that follow it.
pub open spec fn strictly_ascending(names: Seq<Seq<char>>) -> bool {
    forall|i: int, j: int| 0 <= i < j < names.len() ==> text_lt(names[i], names[j])
}

/// Whether `name` is a family that one of `raws` stands for. A registered name
/// that leaves nothing stands for no family.
pub open spec fn is_family_of(raws: Seq<Seq<char>>, name: Seq<char>) -> bool {
    name.len() > 0 && exists|k: int| 0 <= k < raws.len() && family_name(#[trigger] raws[k]) == name
}

/// The texts of a list of strings.
pub open spec fn texts_of(strings: Seq<String>) -> Seq<Seq<char>> {
    strings.map_values(|s: String| s@)
}

/// The texts of a list of character vectors.
spec fn rows_of(rows: Seq<Vec<char>>) -> Seq<Seq<char>> {
    rows.map_values(|v: Vec<char>| v@)
}

/// No text comes before itself.
pub proof fn lemma_text_lt_irreflexive(a: Seq<char>)
    ensures
        !text_lt(a, a),
    decreases a.len(),
{
    if a.len() > 0 {
        lemma_text_lt_irreflexive(a.drop_first());
    }
}

/// Of two different texts one comes before the other.
pub proof fn lemma_text_lt_total(a: Seq<char>, b: Seq<char>)
    ensures
        a == b || text_lt(a, b) || text_lt(b, a),
    decreases a.len(),
{
    if a.len() == 0 || b.len() == 0 {
        if a.len() == 0 && b.len() == 0 {
            assert(a =~= b);
        }
    } else if a[0] == b[0] {
        lemma_text_lt_total(a.drop_first(), b.drop_first());
        if a.drop_first() == b.drop_first() {
            assert(a =~= seq![a[0]] + a.drop_first());
            assert(b =~= seq![b[0]] + b.drop_first());
        }
    }
}

/// What comes before a text comes before all that the text comes before.
pub proof fn lemma_text_lt_transitive(a: Seq<char>, b: Seq<char>, c: Seq<char>)
    requires
        text_lt(a, b),
        text_lt(b, c),
    ensures
        text_lt(a, c),
    decreases a.len(),
{
    if a.len() > 0 && a[0] == b[0] && b[0] == c[0] {
        lemma_text_lt_transitive(a.drop_first(), b.drop_first(), c.drop_first());
    }
}

/// Decides [`text_lt`].
fn text_less(a: &Vec<char>, b: &Vec<char>) -> (r: bool)
    ensures
        r == text_lt(a@, b@),
{
    let mut i: usize = 0;
    assert(a@.skip(0) =~= a@ && b@.skip(0) =~= b@);
    while i < a.len() && i < b.len() && a[i] == b[i]
        invariant
            i <= a.len(),
            i <= b.len(),
            text_lt(a@, b@) == text_lt(a@.skip(i as int), b@.skip(i as int)),
        decreases a.len() - i,
    {
        assert(a@.skip(i as int).drop_first() =~= a@.skip(i + 1));
        assert(b@.skip(i as int).drop_first() =~= b@.skip(i + 1));
        i += 1;
    }
    if i == b.len() {
        false
    } else if i == a.len() {
        true
    } else {
        a[i] < b[i]
    }
}

/// The family that the registered font name `name` stands for.
pub fn clean_font_name(name: &str) -> (family: String)
    ensures
        family@ == family_name(name@),
{
    let chars = family_chars(name);
    let family = string_from(&chars, 0, chars.len());
    assert(chars@.subrange(0, chars.len() as int) =~= chars@);
    family
}

/// [`clean_font_name`], as characters.
fn family_chars(name: &str) -> (family: Vec<char>)
    ensures
        family@ == family_name(name@),
{
    let chars = chars_of(name);
    let n = chars.len();
    assert(chars@.subrange(0, n as int) =~= chars@);
    let paren = find_char(&chars, 0, n, '(');
    let (a, b) = trim_bounds(&chars, 0, paren);
    let amp = find_char(&chars, a, b, '&');
    assert(before_first(chars@.subrange(a as int, b as int), '&') =~= chars@.subrange(
        a as int,
        amp as int,
    ));
    let (c, d) = trim_bounds(&chars, a, amp);
    let mut family: Vec<char> = Vec::new();
    let mut i: usize = c;
    while i < d
        invariant
            c <= i <= d <= chars.len(),
            family@ == chars@.subrange(c as int, i as int),
        decreases d - i,
    {
        family.push(chars[i]);
        i += 1;
    }
    family
}

/// Puts `name` into the ascending list `sorted`, unless it is there already.
fn insert_ascending(sorted: &mut Vec<Vec<char>>, name: Vec<char>)
    requires
        strictly_ascending(rows_of(old(sorted)@)),
    ensures
        strictly_ascending(rows_of(final(sorted)@)),
        forall|s: Seq<char>|
            #[trigger] rows_of(final(sorted)@).contains(s) <==> (s == name@ || rows_of(
                old(sorted)@,
            ).contains(s)),
{
    let ghost before = rows_of(sorted@);
    let ghost x = name@;
    let mut p: usize = 0;
    while p < sorted.len() && text_less(&sorted[p], &name)
        invariant
            p <= sorted.len(),
            before == rows_of(sorted@),
            x == name@,
            forall|q: int| 0 <= q < p ==> text_lt(#[trigger] before[q], x),
        decreases sorted.len() - p,
    {
        p += 1;
    }
    if p < sorted.len() && !text_less(&name, &sorted[p]) {
        proof {
            lemma_text_lt_total(x, before[p as int]);
            assert(before.contains(x));
        }
        return ;
    }
    sorted.insert(p, name);
    proof {
        let after = rows_of(sorted@);
        assert(after =~= before.insert(p as int, x));
        assert forall|i: int, j: int| 0 <= i < j < after.len() implies text_lt(
            after[i],
            after[j],
        ) by {
            if j == p {
                assert(after[i] == before[i]);
            } else if i == p {
                assert(after[j] == before[j - 1]);
                if j - 1 > p {
                    lemma_text_lt_transitive(x, before[p as int], before[j - 1]);
                }
            } else if i < p && j > p {
                assert(after[i] == before[i] && after[j] == before[j - 1]);
            } else if i < p {
                assert(after[i] == before[i] && after[j] == before[j]);
            } else {
                assert(after[i] == before[i - 1] && after[j] == before[j - 1]);
            }
        }
        assert forall|s: Seq<char>| #[trigger] after.contains(s) <==> (s == x || before.contains(
            s,
        )) by {
            if after.contains(s) {
                let i = choose|i: int| 0 <= i < after.len() && after[i] == s;
                if i < p {
                    assert(before[i] == s);
                } else if i > p {
                    assert(before[i - 1] == s);
                }
            }
            if s == x {
                assert(after[p as int] == s);
            }
            if before.contains(s) {
                let i = choose|i: int| 0 <= i < before.len() && before[i] == s;
                if i < p {
                    assert(after[i] == s);
                } else {
                    assert(after[i + 1] == s);
                }
            }
        }
    }
}

/// The font families that the registered names `names` stand for: each once,
/// in ascending order.
pub fn font_families(names: &Vec<String>) -> (families: Vec<String>)
    ensures
        strictly_ascending(texts_of(families@)),
        forall|s: Seq<char>|
            #[trigger] texts_of(families@).contains(s) <==> is_family_of(texts_of(names@), s),
{
    let ghost raws = texts_of(names@);
    let mut sorted: Vec<Vec<char>> = Vec::new();
    let mut k: usize = 0;
    while k < names.len()
        invariant
            k <= names.len(),
            raws == texts_of(names@),
            strictly_ascending(rows_of(sorted@)),
            forall|s: Seq<char>|
                #[trigger] rows_of(sorted@).contains(s) <==> is_family_of(raws.take(k as int), s),
        decreases names.len() - k,
    {
        let ghost before = rows_of(sorted@);
        let family = family_chars(names[k].as_str());
        let ghost x = family@;
        assert(x == family_name(raws[k as int]));
        if family.len() > 0 {
            insert_ascending(&mut sorted, family);
        }
        proof {
            let after = rows_of(sorted@);
            let seen = raws.take(k as int);
            let next = raws.take(k + 1);
            assert forall|s: Seq<char>| #[trigger] after.contains(s) <==> is_family_of(next, s) by {
                if is_family_of(seen, s) {
                    let j = choose|j: int|
                        0 <= j < seen.len() && family_name(#[trigger] seen[j]) == s;
                    assert(next[j] == seen[j]);
                }
                if s == x && x.len() > 0 {
                    assert(next[k as int] == raws[k as int]);
                }
                if is_family_of(next, s) {
                    let j = choose|j: int|
                        0 <= j < next.len() && family_name(#[trigger] next[j]) == s;
                    if j < k {
                        assert(seen[j] == next[j]);
                    } else {
                        assert(next[j] == raws[k as int]);
                    }
                }
            }
        }
        k += 1;
    }
    assert(raws.take(k as int) =~= raws);
    let mut families: Vec<String> = Vec::new();
    let mut i: usize = 0;
    while i < sorted.len()
        invariant
            i <= sorted.len(),
            texts_of(families@) == rows_of(sorted@).take(i as int),
        decreases sorted.len() - i,
    {
        let ghost done = families@;
        let name = string_from(&sorted[i], 0, sorted[i].len());
        assert(name@ =~= rows_of(sorted@)[i as int]);
        families.push(name);
        assert(families@ == done.push(name));
        assert(texts_of(families@) =~= texts_of(done).push(name@));
        assert(texts_of(families@) =~= rows_of(sorted@).take(i + 1));
        i += 1;
    }
    assert(rows_of(sorted@).take(i as int) =~= rows_of(sorted@));
    families
}

} // verus!

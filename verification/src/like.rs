//! SQLite's `LIKE` with `ESCAPE '\'`: `%` matches any run of characters,
//! `_` any one character, `\x` the character `x` itself; letters compare
//! without regard to ASCII case. Searching with `%` + escaped term + `%`
//! finds exactly the texts that contain the term.
use vstd::prelude::*;
use crate::text::{ascii_fold, fold_ascii, chars_of};
use crate::validation::like_escaped;

verus! {

/// Two characters that `LIKE` treats as equal.
pub open spec fn like_eq(a: char, b: char) -> bool {
    ascii_fold(a) == ascii_fold(b)
}

/// `t LIKE p ESCAPE '\'`.
pub open spec fn like_match(t: Seq<char>, p: Seq<char>) -> bool
    decreases p.len(), t.len(),
{
    if p.len() == 0 {
        t.len() == 0
    } else if p[0] == '%' {
        like_match(t, p.drop_first()) || (t.len() > 0 && like_match(t.drop_first(), p))
    } else if p[0] == '_' {
        t.len() > 0 && like_match(t.drop_first(), p.drop_first())
    } else if p[0] == '\\' {
        p.len() >= 2 && t.len() > 0 && like_eq(t[0], p[1]) && like_match(
            t.drop_first(),
            p.subrange(2, p.len() as int),
        )
    } else {
        t.len() > 0 && like_eq(t[0], p[0]) && like_match(t.drop_first(), p.drop_first())
    }
}

fn like_from(t: &[char], p: &[char], i: usize, j: usize) -> (r: bool)
    requires
        i <= t@.len(),
        j <= p@.len(),
    ensures
        r == like_match(t@.skip(i as int), p@.skip(j as int)),
    decreases p@.len() - j, t@.len() - i,
{
    let ghost ts = t@.skip(i as int);
    let ghost ps = p@.skip(j as int);
    if j == p.len() {
        return i == t.len();
    }
    assert(ps[0] == p@[j as int]);
    assert(ps.drop_first() =~= p@.skip(j + 1));
    if i < t.len() {
        assert(ts[0] == t@[i as int]);
        assert(ts.drop_first() =~= t@.skip(i + 1));
    }
    let c = p[j];
    if c == '%' {
        if like_from(t, p, i, j + 1) {
            return true;
        }
        if i < t.len() {
            like_from(t, p, i + 1, j)
        } else {
            false
        }
    } else if c == '_' {
        if i < t.len() {
            like_from(t, p, i + 1, j + 1)
        } else {
            false
        }
    } else if c == '\\' {
        if j + 1 < p.len() && i < t.len() {
            assert(ps[1] == p@[j + 1]);
            assert(ps.subrange(2, ps.len() as int) =~= p@.skip(j + 2));
            if fold_ascii(t[i]) == fold_ascii(p[j + 1]) {
                like_from(t, p, i + 1, j + 2)
            } else {
                false
            }
        } else {
            false
        }
    } else {
        if i < t.len() && fold_ascii(t[i]) == fold_ascii(c) {
            like_from(t, p, i + 1, j + 1)
        } else {
            false
        }
    }
}

/// `t LIKE p ESCAPE '\'`.
pub fn like_matches(t: &str, p: &str) -> (r: bool)
    ensures
        r == like_match(t@, p@),
{
    let tc = chars_of(t);
    let pc = chars_of(p);
    assert(tc@.skip(0) =~= tc@);
    assert(pc@.skip(0) =~= pc@);
    like_from(tc.as_slice(), pc.as_slice(), 0, 0)
}

/// `t` starts with `s`, comparing as `LIKE` does.
pub open spec fn like_prefix(t: Seq<char>, s: Seq<char>) -> bool {
    s.len() <= t.len() && forall|k: int| 0 <= k < s.len() ==> like_eq(#[trigger] t[k], s[k])
}

/// `t` contains `s` somewhere, comparing as `LIKE` does (ASCII letters
/// without regard to case).
pub open spec fn contains_folded(t: Seq<char>, s: Seq<char>) -> bool {
    exists|i: int| 0 <= i <= t.len() && #[trigger] like_prefix(t.skip(i), s)
}

/// The search pattern for a term: `%` + escaped term + `%`.
pub open spec fn search_pattern(s: Seq<char>) -> Seq<char> {
    seq!['%'] + like_escaped(s) + seq!['%']
}

proof fn lemma_escaped_concat(a: Seq<char>, b: Seq<char>)
    ensures
        like_escaped(a + b) == like_escaped(a) + like_escaped(b),
    decreases b.len(),
{
    if b.len() == 0 {
        assert(a + b =~= a);
        assert(like_escaped(b) =~= Seq::<char>::empty());
        assert(like_escaped(a) + like_escaped(b) =~= like_escaped(a));
    } else {
        lemma_escaped_concat(a, b.drop_last());
        assert((a + b).drop_last() =~= a + b.drop_last());
        assert((a + b).last() == b.last());
        let c = b.last();
        if c == '\\' || c == '%' || c == '_' {
            assert(like_escaped(a) + like_escaped(b) =~= like_escaped(a) + like_escaped(
                b.drop_last(),
            ) + seq!['\\', c]);
        } else {
            assert(like_escaped(a) + like_escaped(b) =~= (like_escaped(a) + like_escaped(
                b.drop_last(),
            )).push(c));
        }
    }
}

proof fn lemma_escaped_front(s: Seq<char>)
    requires
        s.len() > 0,
    ensures
        (s[0] == '\\' || s[0] == '%' || s[0] == '_') ==> like_escaped(s) == seq!['\\', s[0]]
            + like_escaped(s.drop_first()),
        !(s[0] == '\\' || s[0] == '%' || s[0] == '_') ==> like_escaped(s) == seq![s[0]]
            + like_escaped(s.drop_first()),
{
    assert(s =~= seq![s[0]] + s.drop_first());
    lemma_escaped_concat(seq![s[0]], s.drop_first());
    let one = seq![s[0]];
    assert(one.drop_last() =~= Seq::<char>::empty());
    assert(like_escaped(one.drop_last()) =~= Seq::<char>::empty());
    if s[0] == '\\' || s[0] == '%' || s[0] == '_' {
        assert(like_escaped(one) =~= seq!['\\', s[0]]);
    } else {
        assert(like_escaped(one) =~= seq![s[0]]);
    }
}

/// Matching an escaped term followed by more pattern: the text starts with
/// the term and the rest matches the rest.
proof fn lemma_escaped_then(t: Seq<char>, s: Seq<char>, q: Seq<char>)
    ensures
        like_match(t, like_escaped(s) + q) == (like_prefix(t, s) && like_match(
            t.skip(s.len() as int),
            q,
        )),
    decreases s.len(),
{
    if s.len() == 0 {
        assert(like_escaped(s) =~= Seq::<char>::empty());
        assert(like_escaped(s) + q =~= q);
        assert(t.skip(0) =~= t);
    } else {
        lemma_escaped_front(s);
        let p = like_escaped(s) + q;
        let rest = like_escaped(s.drop_first()) + q;
        lemma_escaped_then(t.drop_first(), s.drop_first(), q);
        if s[0] == '\\' || s[0] == '%' || s[0] == '_' {
            assert(p =~= seq!['\\', s[0]] + rest);
            assert(p[0] == '\\');
            assert(p[1] == s[0]);
            assert(p.subrange(2, p.len() as int) =~= rest);
        } else {
            assert(p =~= seq![s[0]] + rest);
            assert(p[0] == s[0]);
            assert(p.drop_first() =~= rest);
        }
        if t.len() >= s.len() {
            assert(t.drop_first().skip(s.len() - 1) =~= t.skip(s.len() as int));
        }
        if t.len() > 0 {
            if like_prefix(t, s) {
                assert(like_eq(t[0], s[0]));
                assert forall|k: int| 0 <= k < s.drop_first().len() implies like_eq(
                    #[trigger] t.drop_first()[k],
                    s.drop_first()[k],
                ) by {
                    assert(like_eq(t[k + 1], s[k + 1]));
                }
            }
            if like_eq(t[0], s[0]) && like_prefix(t.drop_first(), s.drop_first()) {
                assert forall|k: int| 0 <= k < s.len() implies like_eq(#[trigger] t[k], s[k]) by {
                    if k > 0 {
                        assert(like_eq(t.drop_first()[k - 1], s.drop_first()[k - 1]));
                    }
                }
            }
        }
    }
}

/// A trailing `%` matches anything.
proof fn lemma_percent_any(t: Seq<char>)
    ensures
        like_match(t, seq!['%']),
    decreases t.len(),
{
    let p = seq!['%'];
    assert(p[0] == '%');
    assert(p.drop_first() =~= Seq::<char>::empty());
    assert(p.len() == 1);
    if t.len() > 0 {
        lemma_percent_any(t.drop_first());
        assert(like_match(t.drop_first(), p));
    } else {
        assert(like_match(t, p.drop_first()));
    }
    assert(like_match(t, p) == (like_match(t, p.drop_first()) || (t.len() > 0 && like_match(t.drop_first(), p))));
}

/// Some suffix of `t` matches `q`.
pub open spec fn suffix_matches(t: Seq<char>, q: Seq<char>) -> bool {
    exists|k: int| 0 <= k <= t.len() && #[trigger] like_match(t.skip(k), q)
}

/// A leading `%` lets the rest of the pattern match any suffix.
proof fn lemma_percent_then(t: Seq<char>, q: Seq<char>)
    ensures
        like_match(t, seq!['%'] + q) == suffix_matches(t, q),
    decreases t.len(),
{
    let p = seq!['%'] + q;
    assert(p[0] == '%');
    assert(p.drop_first() =~= q);
    assert(t.skip(0) =~= t);
    assert(like_match(t, p) == (like_match(t, q) || (t.len() > 0 && like_match(t.drop_first(), p))));
    if t.len() > 0 {
        lemma_percent_then(t.drop_first(), q);
        if like_match(t, q) {
            assert(like_match(t.skip(0), q));
        } else if like_match(t.drop_first(), p) {
            let k = choose|k: int|
                0 <= k <= t.drop_first().len() && #[trigger] like_match(t.drop_first().skip(k), q);
            assert(t.drop_first().skip(k) =~= t.skip(k + 1));
            assert(like_match(t.skip(k + 1), q));
        }
        if suffix_matches(t, q) {
            let k = choose|k: int| 0 <= k <= t.len() && #[trigger] like_match(t.skip(k), q);
            if k > 0 {
                assert(t.drop_first().skip(k - 1) =~= t.skip(k));
                assert(like_match(t.drop_first().skip(k - 1), q));
            }
        }
    } else {
        if like_match(t, q) {
            assert(like_match(t.skip(0), q));
        }
        if suffix_matches(t, q) {
            let k = choose|k: int| 0 <= k <= t.len() && #[trigger] like_match(t.skip(k), q);
            assert(k == 0);
        }
    }
}

/// Law: the search pattern of a term matches a text exactly when the text
/// contains the term (ASCII letters compared without regard to case):
/// escaping makes `%`, `_` and `\` in the term literal.
pub proof fn lemma_search_pattern_is_containment(t: Seq<char>, s: Seq<char>)
    ensures
        like_match(t, search_pattern(s)) == contains_folded(t, s),
{
    let q = like_escaped(s) + seq!['%'];
    assert(search_pattern(s) =~= seq!['%'] + q);
    lemma_percent_then(t, q);
    if like_match(t, search_pattern(s)) {
        let k = choose|k: int| 0 <= k <= t.len() && #[trigger] like_match(t.skip(k), q);
        lemma_escaped_then(t.skip(k), s, seq!['%']);
        assert(like_prefix(t.skip(k), s));
        assert(contains_folded(t, s));
    }
    if contains_folded(t, s) {
        let i = choose|i: int| 0 <= i <= t.len() && #[trigger] like_prefix(t.skip(i), s);
        lemma_escaped_then(t.skip(i), s, seq!['%']);
        lemma_percent_any(t.skip(i).skip(s.len() as int));
        assert(like_match(t.skip(i), q));
        assert(suffix_matches(t, q));
    }
}

} // verus!

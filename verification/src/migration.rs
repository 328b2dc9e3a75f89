//! Schema migrations, as decisions on plain rows: which steps a database at
//! a given version needs, which rows lose a duplicated serial or asset
//! number when the unique indexes arrive, whether a name column holds
//! duplicates (then its unique index is skipped), and the height each
//! device is given when heights become a column of their own.
use vstd::prelude::*;
use crate::text::str_equal;

verus! {

/// The schema version the steps lead to.
pub const CURRENT_VERSION: i32 = 4;

/// The steps a database at `version` needs, in order; step `k` takes the
/// schema from version `k - 1` to `k`. None for the current version or an
/// unknown one.
pub open spec fn plan(version: int) -> Seq<u32> {
    if 0 <= version < CURRENT_VERSION {
        Seq::new((CURRENT_VERSION - version) as nat, |i: int| (version + 1 + i) as u32)
    } else {
        Seq::empty()
    }
}

/// The steps to run for a database at `version` and whether the version
/// is one this program does not know (then nothing is run and a warning is
/// due).
pub fn migration_plan(version: i32) -> (r: (Vec<u32>, bool))
    ensures
        r.0@ == plan(version as int),
        r.1 == !(0 <= version <= CURRENT_VERSION),
{
    let mut steps: Vec<u32> = Vec::new();
    if version < 0 || version > CURRENT_VERSION {
        assert(steps@ =~= plan(version as int));
        return (steps, true);
    }
    let mut v: i32 = version;
    while v < CURRENT_VERSION
        invariant
            0 <= version <= v <= CURRENT_VERSION,
            steps@ =~= Seq::new((v - version) as nat, |i: int| (version + 1 + i) as u32),
        decreases CURRENT_VERSION - v,
    {
        v = v + 1;
        steps.push(v as u32);
    }
    (steps, false)
}

/// A row carries a key that an earlier row (a smaller id) also carries:
/// the key is cleared so that only the earliest keeps it. Empty keys are
/// never cleared.
pub open spec fn loses_key(rows: Seq<(i32, Seq<char>)>, k: int) -> bool {
    &&& rows[k].1.len() > 0
    &&& exists|j: int| 0 <= j < rows.len() && #[trigger] rows[j].1 == rows[k].1 && rows[j].0 < rows[k].0
}

/// The ids of the first `n` rows that lose their key, in row order.
pub open spec fn losers(rows: Seq<(i32, Seq<char>)>, n: int) -> Seq<i32>
    decreases n,
{
    if n <= 0 {
        Seq::empty()
    } else if loses_key(rows, n - 1) {
        losers(rows, n - 1).push(rows[n - 1].0)
    } else {
        losers(rows, n - 1)
    }
}

/// The view of (id, key) rows.
pub open spec fn key_rows(v: Seq<(i32, String)>) -> Seq<(i32, Seq<char>)> {
    v.map_values(|p: (i32, String)| (p.0, p.1@))
}

/// The ids whose key is to be cleared before a unique index on the key is
/// built: every row with a non-empty key that a row with a smaller id also
/// has, in row order.
pub fn ids_losing_key(rows: &Vec<(i32, String)>) -> (r: Vec<i32>)
    ensures
        r@ == losers(key_rows(rows@), rows@.len() as int),
{
    let ghost kr = key_rows(rows@);
    let mut out: Vec<i32> = Vec::new();
    let mut k: usize = 0;
    while k < rows.len()
        invariant
            k <= rows@.len(),
            kr == key_rows(rows@),
            out@ == losers(kr, k as int),
        decreases rows.len() - k,
    {
        let key: &str = rows[k].1.as_str();
        let id: i32 = rows[k].0;
        assert(key@ == kr[k as int].1 && id == kr[k as int].0);
        let mut lost = false;
        if key.unicode_len() > 0 {
            let mut j: usize = 0;
            while j < rows.len() && !lost
                invariant
                    j <= rows@.len(),
                    kr == key_rows(rows@),
                    k < rows@.len(),
                    kr[k as int].1.len() > 0,
                    key@ == kr[k as int].1,
                    id == kr[k as int].0,
                    lost ==> loses_key(kr, k as int),
                    !lost ==> forall|i: int| 0 <= i < j ==> !(#[trigger] kr[i].1 == kr[k as int].1 && kr[i].0
                        < kr[k as int].0),
                decreases rows.len() - j + if lost { 0int } else { 1int },
            {
                assert(kr[j as int] == (rows@[j as int].0, rows@[j as int].1@));
                assert(kr[k as int] == (rows@[k as int].0, rows@[k as int].1@));
                let same = str_equal(rows[j].1.as_str(), key);
                if same && rows[j].0 < id {
                    assert(kr[j as int].1 == kr[k as int].1 && kr[j as int].0 < kr[k as int].0);
                    lost = true;
                } else {
                    assert(!(kr[j as int].1 == kr[k as int].1 && kr[j as int].0 < kr[k as int].0));
                    j = j + 1;
                }
            }
            assert(kr[k as int] == (rows@[k as int].0, rows@[k as int].1@));
            if !lost {
                assert(!loses_key(kr, k as int));
            }
        } else {
            assert(kr[k as int] == (rows@[k as int].0, rows@[k as int].1@));
            assert(!loses_key(kr, k as int));
        }
        if lost {
            out.push(id);
        }
        assert(kr[k as int].0 == id);
        k = k + 1;
    }
    out
}

proof fn lemma_losers_members(rows: Seq<(i32, Seq<char>)>, n: int, id: i32)
    requires
        0 <= n <= rows.len(),
    ensures
        losers(rows, n).contains(id) <==> exists|k: int| 0 <= k < n && rows[k].0 == id && #[trigger] loses_key(rows, k),
    decreases n,
{
    if n > 0 {
        lemma_losers_members(rows, n - 1, id);
        let prev = losers(rows, n - 1);
        if loses_key(rows, n - 1) {
            let next = prev.push(rows[n - 1].0);
            assert(losers(rows, n) == next);
            if next.contains(id) && !prev.contains(id) {
                let j = choose|j: int| 0 <= j < next.len() && #[trigger] next[j] == id;
                if j < prev.len() {
                    assert(prev[j] == id);
                }
            }
            if prev.contains(id) {
                let j = choose|j: int| 0 <= j < prev.len() && #[trigger] prev[j] == id;
                assert(next[j] == id);
            }
            if rows[n - 1].0 == id {
                assert(next[prev.len() as int] == id);
            }
        }
    } else {
        assert(losers(rows, 0) =~= Seq::<i32>::empty());
    }
}

/// Clearing the keys of the rows that [`ids_losing_key`] returns leaves
/// every non-empty key on one row only, the one with the smallest id
/// (ids are the rows' distinct primary keys): of two rows sharing a key,
/// the later one is cleared and the earliest of all never is.
pub proof fn law_clearing_keeps_only_the_earliest(rows: Seq<(i32, Seq<char>)>)
    requires
        forall|i: int, j: int| 0 <= i < rows.len() && 0 <= j < rows.len() && i != j ==> rows[i].0 != rows[j].0,
    ensures
        forall|i: int, j: int|
            0 <= i < rows.len() && 0 <= j < rows.len() && i != j && rows[i].1.len() > 0 && #[trigger] rows[i].1
                == #[trigger] rows[j].1 ==> (rows[i].0 < rows[j].0 ==> losers(rows, rows.len() as int).contains(
                rows[j].0)),
        forall|i: int|
            0 <= i < rows.len() && (forall|j: int| 0 <= j < rows.len() && rows[j].1 == rows[i].1 ==> rows[i].0
                <= rows[j].0) ==> !losers(rows, rows.len() as int).contains(#[trigger] rows[i].0),
{
    assert forall|i: int, j: int|
        0 <= i < rows.len() && 0 <= j < rows.len() && i != j && rows[i].1.len() > 0 && #[trigger] rows[i].1
            == #[trigger] rows[j].1 && rows[i].0 < rows[j].0 implies losers(rows, rows.len() as int).contains(rows[j].0) by {
        assert(loses_key(rows, j));
        lemma_losers_members(rows, rows.len() as int, rows[j].0);
    }
    assert forall|i: int|
        0 <= i < rows.len() && (forall|j: int| 0 <= j < rows.len() && rows[j].1 == rows[i].1 ==> rows[i].0
            <= rows[j].0) implies !losers(rows, rows.len() as int).contains(#[trigger] rows[i].0) by {
        lemma_losers_members(rows, rows.len() as int, rows[i].0);
        if losers(rows, rows.len() as int).contains(rows[i].0) {
            let k = choose|k: int| 0 <= k < rows.len() && rows[k].0 == rows[i].0 && #[trigger] loses_key(rows, k);
            assert(k == i);
            let j = choose|j: int| 0 <= j < rows.len() && #[trigger] rows[j].1 == rows[k].1 && rows[j].0 < rows[k].0;
            assert(rows[i].0 <= rows[j].0);
        }
    }
}

/// Two rows carry the same non-empty name.
pub open spec fn has_duplicate(names: Seq<Seq<char>>) -> bool {
    exists|i: int, j: int|
        0 <= i < j < names.len() && names[i].len() > 0 && #[trigger] names[i] == #[trigger] names[j]
}

/// The texts of names.
pub open spec fn texts_of(v: Seq<String>) -> Seq<Seq<char>> {
    v.map_values(|s: String| s@)
}

/// Whether two of the names are the same non-empty name (then the unique
/// index on the column is not built).
pub fn has_duplicate_names(names: &Vec<String>) -> (r: bool)
    ensures
        r == has_duplicate(texts_of(names@)),
{
    let ghost t = texts_of(names@);
    let mut i: usize = 0;
    while i < names.len()
        invariant
            i <= names@.len(),
            t == texts_of(names@),
            forall|a: int, b: int| 0 <= a < i && a < b < t.len() ==> !(t[a].len() > 0 && #[trigger] t[a] == #[trigger] t[b]),
        decreases names.len() - i,
    {
        assert(t[i as int] == names@[i as int]@);
        if names[i].as_str().unicode_len() > 0 {
            let mut j: usize = i + 1;
            while j < names.len()
                invariant
                    i < j <= names@.len(),
                    t == texts_of(names@),
                    t[i as int].len() > 0,
                    forall|b: int| i < b < j ==> !(#[trigger] t[b] == t[i as int]),
                decreases names.len() - j,
            {
                assert(t[j as int] == names@[j as int]@);
                if str_equal(names[i].as_str(), names[j].as_str()) {
                    assert(t[i as int] == t[j as int]);
                    return true;
                }
                j = j + 1;
            }
        }
        i = i + 1;
    }
    false
}

/// The height a device is given when heights become a column: the span it
/// occupies when both ends are set and the end is not below the start;
/// otherwise its model's height when it has a model that still exists
/// (`model_height`); otherwise 1.
pub open spec fn backfill(start_u: Option<i32>, end_u: Option<i32>, model_height: Option<i32>) -> int {
    match (start_u, end_u) {
        (Some(s), Some(e)) if e >= s => e - s + 1,
        _ => match model_height {
            Some(h) => h as int,
            None => 1,
        },
    }
}

/// The height a device is given when heights become a column (see
/// [`backfill`]).
pub fn backfilled_height(start_u: Option<i32>, end_u: Option<i32>, model_height: Option<i32>) -> (r: i64)
    ensures
        r == backfill(start_u, end_u, model_height),
{
    match (start_u, end_u) {
        (Some(s), Some(e)) if e >= s => e as i64 - s as i64 + 1,
        _ => match model_height {
            Some(h) => h as i64,
            None => 1,
        },
    }
}

} // verus!

//! Backups: where backups, the staged restore and its marker live; which
//! files are automatic backups and which of them to prune; the checks that
//! decide whether a database file can be restored; and the steps that apply
//! a staged restore at start-up.
use vstd::prelude::*;
use crate::error::{AppError, is_validation, is_io_error, is_database_error};
use crate::text::{chars_of, concat2, concat3, int_to_text, int_text, owned, str_equal, str_before, text_before,
    has_char, starts_with, ends_with, has_prefix, has_suffix, lemma_text_before_irreflexive,
    lemma_text_before_transitive, lemma_text_before_total};

verus! {

/// The highest schema version this program reads; newer backups are refused.
pub const LIVE_SCHEMA_VERSION: i32 = 5;

/// Backups taken automatically are kept this many at most.
pub const AUTO_BACKUP_KEEP: usize = 7;

// ---------------------------------------------------------------------------
// Paths
// ---------------------------------------------------------------------------

/// A single file or directory name: not empty, not `.` or `..`, without
/// separators or drive marks.
pub open spec fn plain_name(s: Seq<char>) -> bool {
    &&& s.len() > 0
    &&& s != "."@
    &&& s != ".."@
    &&& forall|i: int| 0 <= i < s.len() ==> #[trigger] s[i] != '/' && s[i] != '\\' && s[i] != ':'
}

/// A path separator on some platform.
pub open spec fn is_sep(c: char) -> bool {
    c == '/' || c == '\\'
}

/// The text starts with two separators (a network or verbatim prefix on
/// Windows, whose joins are normalised).
pub open spec fn doubled_start(s: Seq<char>) -> bool {
    s.len() >= 2 && is_sep(s[0]) && is_sep(s[1])
}

/// A directory after which `Path::join` puts a separator: not empty, not
/// ending in a separator or a drive mark, without a network or verbatim
/// prefix.
pub open spec fn open_dir(d: Seq<char>) -> bool {
    &&& d.len() > 0
    &&& !is_sep(d.last())
    &&& d.last() != ':'
    &&& !doubled_start(d)
}

/// `r` is `d` and `name` with a separator (`/` or `\`) between them.
pub open spec fn joined(d: Seq<char>, name: Seq<char>, r: Seq<char>) -> bool {
    r == d + seq!['/'] + name || r == d + seq!['\\'] + name
}

/// The last component of `path` follows the `/` at position `i`, and the
/// text before it is a directory as every platform reads it: not empty,
/// not ending in a separator, `.` or a drive mark, and the last component
/// has no separator or drive mark and is not `.` or `..`.
pub open spec fn cut_at(path: Seq<char>, i: int) -> bool {
    &&& 0 < i < path.len() - 1
    &&& path[i] == '/'
    &&& forall|j: int| i < j < path.len() ==> !is_sep(#[trigger] path[j]) && path[j] != ':'
    &&& path.subrange(i + 1, path.len() as int) != "."@
    &&& path.subrange(i + 1, path.len() as int) != ".."@
    &&& !is_sep(path[i - 1])
    &&& path[i - 1] != '.'
    &&& path[i - 1] != ':'
    &&& !doubled_start(path)
}

/// The path's last component follows a `/` as [`cut_at`] describes.
pub open spec fn slash_cut(path: Seq<char>) -> bool {
    exists|i: int| cut_at(path, i)
}

/// Where the path is cut before its last component (see [`slash_cut`]).
pub open spec fn cut_index(path: Seq<char>) -> int {
    choose|i: int| cut_at(path, i)
}

/// `Path::join` of a plain name: the name after the directory, with a
/// separator (`/` or `\`, the platform's) between them unless the directory
/// is empty or ends in a separator (or, on Windows, is a bare drive): the
/// name alone for an empty directory, and no separator added after a `/`. For a
/// directory with a network or verbatim prefix (two leading separators),
/// where Windows normalises the joined path, nothing is stated. Which
/// separator comes depends on the platform and is not stated.
#[verifier::external_body]
fn path_join(dir: &str, name: &str) -> (r: String)
    requires
        plain_name(name@),
    ensures
        !doubled_start(dir@) ==> r@ == dir@ + name@ || joined(dir@, name@, r@),
        open_dir(dir@) ==> joined(dir@, name@, r@),
        dir@.len() == 0 ==> r@ == name@,
        dir@.len() > 0 && dir@.last() == '/' && !doubled_start(dir@) ==> r@ == dir@ + name@,
{
    std::path::Path::new(dir).join(name).to_string_lossy().into_owned()
}

/// A file directly under the root: `/` and a plain name.
pub open spec fn root_file(p: Seq<char>) -> bool {
    p.len() >= 2 && p[0] == '/' && plain_name(p.subrange(1, p.len() as int))
}

/// `Path::parent`: the path without its last component, a strict prefix of
/// it, or none for a root or empty path. Where the cut falls is stated for
/// a plain name (the empty parent), a file under the root (the root) and a
/// path whose last component follows a `/` (see [`cut_at`]); elsewhere it
/// depends on the platform's separators and is not stated.
#[verifier::external_body]
fn path_parent(path: &str) -> (r: Option<String>)
    ensures
        r matches Some(d) ==> d@.len() < path@.len() && d@ == path@.subrange(0, d@.len() as int),
        r matches Some(d) ==> (slash_cut(path@) ==> d@ == path@.subrange(0, cut_index(path@))),
        slash_cut(path@) ==> r is Some,
        plain_name(path@) || root_file(path@) ==> r is Some,
        path@.len() == 0 || path@ == seq!['/'] ==> r is None,
        r matches Some(d) ==> (plain_name(path@) ==> d@.len() == 0),
        r matches Some(d) ==> (root_file(path@) ==> d@ == seq!['/']),
{
    std::path::Path::new(path).parent().map(|d| d.to_string_lossy().into_owned())
}

/// The file `name` next to the file at `path`: in its directory, or on its
/// own when the path has none.
pub open spec fn beside(path: Seq<char>, name: Seq<char>, r: Seq<char>) -> bool {
    ||| r == name
    ||| exists|dir: Seq<char>|
        #![trigger path.subrange(0, dir.len() as int), dir + name]
        dir.len() < path.len() && dir == path.subrange(0, dir.len() as int) && (r == dir + name || r == dir
            + seq!['/'] + name || r == dir + seq!['\\'] + name)
}

/// The file `name` in the directory of `path`: the name alone for a path
/// that is a plain name, empty or the root; `/` and the name for a file
/// under the root; for a path whose last component follows a `/` (see
/// [`cut_at`]), that directory, a separator and the name; otherwise
/// beside the path (see [`beside`]) unless the path has a network or
/// verbatim prefix.
pub open spec fn sibling_of(path: Seq<char>, name: Seq<char>, r: Seq<char>) -> bool {
    &&& !doubled_start(path) ==> beside(path, name, r)
    &&& plain_name(path) ==> r == name
    &&& path.len() == 0 || path == seq!['/'] ==> r == name
    &&& root_file(path) ==> r == seq!['/'] + name
    &&& slash_cut(path) ==> joined(path.subrange(0, cut_index(path)), name, r)
}

fn sibling(path: &str, name: &str) -> (r: String)
    requires
        plain_name(name@),
    ensures
        sibling_of(path@, name@, r@),
{
    match path_parent(path) {
        Some(dir) => {
            let r = path_join(dir.as_str(), name);
            assert(dir@.len() < path@.len() && dir@ == path@.subrange(0, dir@.len() as int));
            proof {
                if !doubled_start(path@) {
                    if dir@.len() >= 2 {
                        assert(dir@[0] == path@[0] && dir@[1] == path@[1]);
                    }
                    assert(!doubled_start(dir@));
                    assert(r@ == dir@ + name@ || r@ == dir@ + seq!['/'] + name@ || r@ == dir@ + seq!['\\'] + name@);
                    assert(path@.subrange(0, dir@.len() as int) == dir@);
                    assert(beside(path@, name@, r@));
                }
                if slash_cut(path@) {
                    let i = cut_index(path@);
                    assert(cut_at(path@, i));
                    assert(dir@ == path@.subrange(0, i));
                    assert(dir@.last() == path@[i - 1]);
                    if i >= 2 {
                        assert(dir@[0] == path@[0] && dir@[1] == path@[1]);
                    }
                    assert(open_dir(dir@));
                }
            }
            r
        },
        None => owned(name),
    }
}

/// `path` with `suffix` appended to its last component.
pub fn with_suffix(path: &str, suffix: &str) -> (r: String)
    ensures
        r@ == path@ + suffix@,
{
    concat2(path, suffix)
}

/// The file a restore is staged in: `<db>.restore-pending`.
pub fn staging_path(db_path: &str) -> (r: String)
    ensures
        r@ == db_path@ + ".restore-pending"@,
{
    with_suffix(db_path, ".restore-pending")
}

proof fn lemma_plain(s: &str)
    requires
        s@ == "restore.pending"@ || s@ == "backups"@ || s@ == "logs"@,
    ensures
        plain_name(s@),
{
    reveal_strlit("restore.pending");
    reveal_strlit("backups");
    reveal_strlit("logs");
    reveal_strlit(".");
    reveal_strlit("..");
    assert("."@.len() == 1 && ".."@.len() == 2);
    assert("restore.pending"@.len() == 15 && "backups"@.len() == 7 && "logs"@.len() == 4);
}

/// The marker of a staged restore: `restore.pending` in the database's
/// directory (see [`sibling_of`]).
pub fn marker_path(db_path: &str) -> (r: String)
    ensures
        sibling_of(db_path@, "restore.pending"@, r@),
{
    proof {
        lemma_plain("restore.pending");
    }
    sibling(db_path, "restore.pending")
}

/// The directory of automatic backups: `backups` in the database's
/// directory (see [`sibling_of`]).
pub fn auto_backup_dir(db_path: &str) -> (r: String)
    ensures
        sibling_of(db_path@, "backups"@, r@),
{
    proof {
        lemma_plain("backups");
    }
    sibling(db_path, "backups")
}

/// The directory of the log files: `logs` in the application's data
/// directory, after a separator unless the directory is empty or ends in
/// one.
pub fn log_dir(app_data_dir: &str) -> (r: String)
    ensures
        !doubled_start(app_data_dir@) ==> r@ == app_data_dir@ + "logs"@ || joined(app_data_dir@, "logs"@, r@),
        open_dir(app_data_dir@) ==> joined(app_data_dir@, "logs"@, r@),
{
    proof {
        lemma_plain("logs");
    }
    path_join(app_data_dir, "logs")
}

// ---------------------------------------------------------------------------
// Automatic backups
// ---------------------------------------------------------------------------

/// The name of an automatic backup: `rackviz-auto-…` ending in `.db`.
pub open spec fn is_auto_backup(name: Seq<char>) -> bool {
    has_prefix(name, "rackviz-auto-"@) && has_suffix(name, ".db"@)
}

/// Whether `name` is the name of an automatic backup.
pub fn is_auto_backup_name(name: &str) -> (r: bool)
    ensures
        r == is_auto_backup(name@),
{
    let cs = chars_of(name);
    let p = chars_of("rackviz-auto-");
    let s = chars_of(".db");
    starts_with(cs.as_slice(), p.as_slice()) && ends_with(cs.as_slice(), s.as_slice())
}

/// `s` with `n` inserted before the first name that comes after it.
pub open spec fn insert_name(s: Seq<Seq<char>>, n: Seq<char>) -> Seq<Seq<char>>
    decreases s.len(),
{
    if s.len() == 0 {
        seq![n]
    } else if text_before(n, s[0]) {
        seq![n] + s
    } else {
        seq![s[0]] + insert_name(s.drop_first(), n)
    }
}

/// The current UTC time as `%Y%m%d-%H%M%S` (chrono's `Utc::now().format`).
/// The text depends on the clock; what is stated is that the format writes
/// digits, `-` and at most a year's sign, so no separator or drive mark.
#[verifier::external_body]
fn utc_backup_stamp() -> (r: String)
    ensures
        forall|i: int| 0 <= i < r@.len() ==> #[trigger] r@[i] != '/' && r@[i] != '\\' && r@[i] != ':',
{
    chrono::Utc::now().format("%Y%m%d-%H%M%S").to_string()
}

/// The file of the next automatic backup in directory `dir`:
/// `rackviz-auto-<UTC time>.db`, where the time is read from the clock.
pub fn next_auto_backup_path(dir: &str) -> (r: String)
    ensures
        exists|name: Seq<char>|
            #![trigger plain_name(name)]
            {
                &&& is_auto_backup(name)
                &&& plain_name(name)
                &&& !doubled_start(dir@) ==> r@ == dir@ + name || joined(dir@, name, r@)
                &&& open_dir(dir@) ==> joined(dir@, name, r@)
            },
{
    let stamp = utc_backup_stamp();
    let head = concat2("rackviz-auto-", stamp.as_str());
    let name = concat2(head.as_str(), ".db");
    proof {
        reveal_strlit("rackviz-auto-");
        reveal_strlit(".db");
        let n = name@;
        assert(n == "rackviz-auto-"@ + stamp@ + ".db"@);
        assert(n.subrange(0, 13) =~= "rackviz-auto-"@);
        assert(n.subrange(n.len() - 3, n.len() as int) =~= ".db"@);
        assert forall|i: int| 0 <= i < n.len() implies #[trigger] n[i] != '/' && n[i] != '\\' && n[i] != ':' by {
            if i < 13 {
                assert(n[i] == "rackviz-auto-"@[i]);
            } else if i < 13 + stamp@.len() {
                assert(n[i] == stamp@[i - 13]);
            } else {
                assert(n[i] == ".db"@[i - 13 - stamp@.len()]);
            }
        }
        assert(is_auto_backup(n));
        reveal_strlit(".");
        reveal_strlit("..");
        assert(n.len() >= 16);
        assert(plain_name(n));
    }
    path_join(dir, name.as_str())
}

/// Names in ascending order (the timestamp in an automatic backup's name
/// makes this the order of time).
pub open spec fn names_sorted(s: Seq<Seq<char>>) -> Seq<Seq<char>>
    decreases s.len(),
{
    if s.len() == 0 {
        s
    } else {
        insert_name(names_sorted(s.drop_last()), s.last())
    }
}

/// The texts of names.
pub open spec fn name_texts(v: Seq<String>) -> Seq<Seq<char>> {
    v.map_values(|s: String| s@)
}

proof fn lemma_insert_name_at(s: Seq<Seq<char>>, n: Seq<char>, p: int)
    requires
        0 <= p <= s.len(),
        forall|k: int| 0 <= k < p ==> !text_before(n, #[trigger] s[k]),
        p < s.len() ==> text_before(n, s[p]),
    ensures
        insert_name(s, n) == s.insert(p, n),
    decreases s.len(),
{
    if s.len() == 0 {
        assert(s.insert(p, n) =~= seq![n]);
    } else if p == 0 {
        assert(s.insert(0, n) =~= seq![n] + s);
    } else {
        assert forall|k: int| 0 <= k < p - 1 implies !text_before(n, #[trigger] s.drop_first()[k]) by {
            assert(s.drop_first()[k] == s[k + 1]);
        }
        lemma_insert_name_at(s.drop_first(), n, p - 1);
        assert(seq![s[0]] + s.drop_first().insert(p - 1, n) =~= s.insert(p, n));
    }
}

/// Sorts names in ascending order (see [`names_sorted`]).
pub fn sort_names(names: &Vec<String>) -> (r: Vec<String>)
    ensures
        name_texts(r@) == names_sorted(name_texts(names@)),
{
    let mut out: Vec<String> = Vec::new();
    let mut i: usize = 0;
    while i < names.len()
        invariant
            i <= names@.len(),
            name_texts(out@) == names_sorted(name_texts(names@.take(i as int))),
        decreases names.len() - i,
    {
        let n = names[i].clone();
        assert(name_texts(names@.take(i + 1)).drop_last() =~= name_texts(names@.take(i as int)));
        assert(name_texts(names@.take(i + 1)).last() == n@);
        let mut p: usize = 0;
        while p < out.len()
            invariant
                p <= out@.len(),
                forall|k: int| 0 <= k < p ==> !text_before(n@, #[trigger] name_texts(out@)[k]),
            ensures
                p <= out@.len(),
                forall|k: int| 0 <= k < p ==> !text_before(n@, #[trigger] name_texts(out@)[k]),
                p < out@.len() ==> text_before(n@, name_texts(out@)[p as int]),
            decreases out.len() - p,
        {
            if str_before(n.as_str(), out[p].as_str()) {
                break;
            }
            p = p + 1;
        }
        proof {
            lemma_insert_name_at(name_texts(out@), n@, p as int);
        }
        let ghost before = out@;
        out.insert(p, n);
        assert(name_texts(out@) =~= name_texts(before).insert(p as int, n@));
        i = i + 1;
    }
    assert(names@.take(names@.len() as int) =~= names@);
    out
}

/// The names of automatic backups among `s`, in order.
pub open spec fn auto_backups(s: Seq<Seq<char>>) -> Seq<Seq<char>>
    decreases s.len(),
{
    if s.len() == 0 {
        s
    } else if is_auto_backup(s.last()) {
        auto_backups(s.drop_last()).push(s.last())
    } else {
        auto_backups(s.drop_last())
    }
}

/// The automatic backups among the names of a directory, oldest first.
pub fn sorted_auto_backups(names: &Vec<String>) -> (r: Vec<String>)
    ensures
        name_texts(r@) == names_sorted(auto_backups(name_texts(names@))),
{
    let mut picked: Vec<String> = Vec::new();
    let mut i: usize = 0;
    while i < names.len()
        invariant
            i <= names@.len(),
            name_texts(picked@) == auto_backups(name_texts(names@.take(i as int))),
        decreases names.len() - i,
    {
        let ghost before = picked@;
        assert(name_texts(names@.take(i + 1)) =~= name_texts(names@.take(i as int)).push(names@[i as int]@));
        assert(name_texts(names@.take(i as int)).push(names@[i as int]@).drop_last() =~= name_texts(names@.take(i as int)));
        if is_auto_backup_name(names[i].as_str()) {
            picked.push(names[i].clone());
            assert(name_texts(picked@) =~= name_texts(before).push(names@[i as int]@));
        }
        i = i + 1;
    }
    assert(names@.take(names@.len() as int) =~= names@);
    sort_names(&picked)
}

/// The oldest of the sorted backups, all but the newest `keep`.
pub open spec fn prune_set(sorted: Seq<Seq<char>>, keep: int) -> Seq<Seq<char>> {
    if sorted.len() <= keep {
        Seq::empty()
    } else {
        sorted.take(sorted.len() - keep)
    }
}

/// The backups to delete so that only the newest `keep` remain (see
/// [`prune_set`]).
pub fn prune_selection(sorted: &Vec<String>, keep: usize) -> (r: Vec<String>)
    ensures
        name_texts(r@) == prune_set(name_texts(sorted@), keep as int),
{
    let mut out: Vec<String> = Vec::new();
    if sorted.len() <= keep {
        assert(name_texts(out@) =~= prune_set(name_texts(sorted@), keep as int));
        return out;
    }
    let n = sorted.len() - keep;
    let mut i: usize = 0;
    while i < n
        invariant
            n == sorted@.len() - keep,
            i <= n,
            name_texts(out@) =~= name_texts(sorted@).take(i as int),
        decreases n - i,
    {
        let ghost before = out@;
        out.push(sorted[i].clone());
        assert(name_texts(out@) =~= name_texts(before).push(sorted@[i as int]@));
        i = i + 1;
    }
    out
}

/// Pruning keeps exactly the newest backups: the ones it deletes followed
/// by the ones it keeps are the sorted backups, and at most `keep` are
/// kept.
pub proof fn law_prune_keeps_newest(sorted: Seq<Seq<char>>, keep: int)
    requires
        keep >= 0,
    ensures
        prune_set(sorted, keep) + sorted.skip(prune_set(sorted, keep).len() as int) == sorted,
        sorted.skip(prune_set(sorted, keep).len() as int).len() == if sorted.len() <= keep {
            sorted.len() as int
        } else {
            keep
        },
{
    assert(prune_set(sorted, keep) + sorted.skip(prune_set(sorted, keep).len() as int) =~= sorted);
}

/// Whether an automatic backup is due: none yet, or the latest is at least
/// a day old (an age that cannot be read does not hold one back).
pub open spec fn backup_due(latest_age_secs: Option<u64>) -> bool {
    match latest_age_secs {
        Some(age) => age >= 86400,
        None => true,
    }
}

/// Whether an automatic backup is due (see [`backup_due`]).
pub fn auto_backup_due(latest_age_secs: Option<u64>) -> (r: bool)
    ensures
        r == backup_due(latest_age_secs),
{
    match latest_age_secs {
        Some(age) => age >= 86400,
        None => true,
    }
}

// ---------------------------------------------------------------------------
// Deleting a backup
// ---------------------------------------------------------------------------

/// A name that may be deleted: an automatic backup's, without separators.
pub open spec fn deletable_name(name: Seq<char>) -> bool {
    is_auto_backup(name) && !name.contains('/') && !name.contains('\\')
}

/// Checks a request to delete backup `name` from the backup directory:
/// refused unless the name is an automatic backup's without separators
/// (nothing outside the directory can be named), or when no such file is
/// there.
pub fn delete_backup_check(name: &str, is_file: bool) -> (r: Result<(), AppError>)
    ensures
        !deletable_name(name@) ==> (r matches Err(e) && is_validation(e, "非法的备份文件名"@)),
        deletable_name(name@) && !is_file ==> (r matches Err(e) && is_validation(e, "备份文件不存在"@)),
        deletable_name(name@) && is_file ==> r is Ok,
{
    let cs = chars_of(name);
    let legal = is_auto_backup_name(name) && !has_char(cs.as_slice(), '/') && !has_char(cs.as_slice(), '\\');
    if !legal {
        return Err(AppError::validation("非法的备份文件名"));
    }
    if !is_file {
        return Err(AppError::validation("备份文件不存在"));
    }
    Ok(())
}

// ---------------------------------------------------------------------------
// Checking a database file
// ---------------------------------------------------------------------------

/// The message for a failed integrity check of the live database.
pub open spec fn damaged_message(report: Seq<char>) -> Seq<char> {
    "数据库结构损坏（integrity_check: "@ + report + "）"@
}

/// The message for a live database newer than this program.
pub open spec fn too_new_message(version: int, max: int) -> Seq<char> {
    "数据库版本（v"@ + int_text(version) + "）高于当前程序支持版本（v"@ + int_text(max) + "）"@
}

/// Decides the start-up check of the live database from what the database
/// answered: the integrity report (or the text of the query's failure) and
/// the schema version. Passes when the report is `ok` and the version is
/// at most `max_version`.
pub fn check_db_integrity(integrity: &Result<String, String>, version: i32, max_version: i32) -> (r: Result<(), AppError>)
    ensures
        match integrity {
            Err(msg) => r matches Err(e) && is_io_error(e, "integrity_check 执行失败: "@ + msg@),
            Ok(report) => if report@ != "ok"@ {
                r matches Err(e) && is_validation(e, damaged_message(report@))
            } else if version > max_version {
                r matches Err(e) && is_validation(e, too_new_message(version as int, max_version as int))
            } else {
                r is Ok
            },
        },
{
    match integrity {
        Err(msg) => {
            let m = concat2("integrity_check 执行失败: ", msg.as_str());
            Err(AppError::io(m.as_str()))
        },
        Ok(report) => {
            if !str_equal(report.as_str(), "ok") {
                let m = concat3("数据库结构损坏（integrity_check: ", report.as_str(), "）");
                return Err(AppError::validation(m.as_str()));
            }
            if version > max_version {
                let v = int_to_text(version as i64);
                let x = int_to_text(max_version as i64);
                let a = concat3("数据库版本（v", v.as_str(), "）高于当前程序支持版本（v");
                let m = concat3(a.as_str(), x.as_str(), "）");
                return Err(AppError::validation(m.as_str()));
            }
            Ok(())
        },
    }
}

/// What reading a backup file gave, step by step: whether it exists; the
/// database's failure text when it could not be opened or queried; the
/// integrity report; the number of `devices` tables; the schema version.
pub struct BackupProbe {
    pub exists: bool,
    pub open_failure: Option<String>,
    pub integrity: Result<String, String>,
    pub devices_tables: Result<i64, String>,
    pub version: i32,
}

/// The message for a damaged backup.
pub open spec fn backup_damaged_message(report: Seq<char>) -> Seq<char> {
    "备份文件已损坏（integrity_check: "@ + report + "）"@
}

/// The message for a backup newer than this program.
pub open spec fn backup_too_new_message(version: int) -> Seq<char> {
    "备份文件版本（v"@ + int_text(version) + "）高于当前程序支持版本（v5），请升级程序后再恢复"@
}

/// Decides whether a backup can be restored: it must exist, open, pass the
/// integrity check, hold a `devices` table (it is this program's), and be
/// at most the live schema version. The first step that fails gives the
/// error.
pub fn validate_backup(probe: &BackupProbe) -> (r: Result<(), AppError>)
    ensures
        !probe.exists ==> (r matches Err(e) && is_validation(e, "备份文件不存在"@)),
        probe.exists && probe.open_failure is Some ==> (r matches Err(e) && is_database_error(e, probe.open_failure->0@)),
        probe.exists && probe.open_failure is None ==> match probe.integrity {
            Err(m) => r matches Err(e) && is_database_error(e, m@),
            Ok(report) => if report@ != "ok"@ {
                r matches Err(e) && is_validation(e, backup_damaged_message(report@))
            } else {
                match probe.devices_tables {
                    Err(m) => r matches Err(e) && is_database_error(e, m@),
                    Ok(n) => if n == 0 {
                        r matches Err(e) && is_validation(e, "备份文件缺少 devices 表，不是有效的 RackViz 备份"@)
                    } else if probe.version > LIVE_SCHEMA_VERSION {
                        r matches Err(e) && is_validation(e, backup_too_new_message(probe.version as int))
                    } else {
                        r is Ok
                    },
                }
            },
        },
{
    if !probe.exists {
        return Err(AppError::validation("备份文件不存在"));
    }
    if let Some(m) = &probe.open_failure {
        return Err(AppError::database(m.as_str()));
    }
    let report = match &probe.integrity {
        Err(m) => return Err(AppError::database(m.as_str())),
        Ok(x) => x,
    };
    if !str_equal(report.as_str(), "ok") {
        let m = concat3("备份文件已损坏（integrity_check: ", report.as_str(), "）");
        return Err(AppError::validation(m.as_str()));
    }
    let n = match &probe.devices_tables {
        Err(m) => return Err(AppError::database(m.as_str())),
        Ok(n) => *n,
    };
    if n == 0 {
        return Err(AppError::validation("备份文件缺少 devices 表，不是有效的 RackViz 备份"));
    }
    if probe.version > LIVE_SCHEMA_VERSION {
        let v = int_to_text(probe.version as i64);
        let m = concat3("备份文件版本（v", v.as_str(), "）高于当前程序支持版本（v5），请升级程序后再恢复");
        return Err(AppError::validation(m.as_str()));
    }
    Ok(())
}

} // verus!

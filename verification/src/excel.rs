//! Spreadsheet exchange: the labels and texts the sheets carry, the cells
//! of a sheet as plain values, and the rules that turn sheet rows into
//! devices (import) and devices into sheet rows (export).
use vstd::prelude::*;
use crate::text::{chars_of, concat2, concat3, int_to_text, int_text, owned, str_equal, string_of, trim_chars,
    trim_str, trimmed};
use crate::validation::{is_digit, digits_value};

verus! {

// ---------------------------------------------------------------------------
// Labels
// ---------------------------------------------------------------------------

/// The Chinese label of a device type; anything unknown is `其他`.
pub open spec fn type_label(ty: Seq<char>) -> Seq<char> {
    if ty == "server"@ {
        "服务器"@
    } else if ty == "switch"@ {
        "交换机"@
    } else if ty == "router"@ {
        "路由器"@
    } else if ty == "storage"@ {
        "存储阵列"@
    } else if ty == "nas"@ {
        "NAS 存储"@
    } else if ty == "security"@ {
        "网安设备"@
    } else if ty == "loadbalancer"@ {
        "负载均衡"@
    } else {
        "其他"@
    }
}

/// The Chinese label of a device type (the sheets' type column).
pub fn device_type_label(ty: &str) -> (r: &'static str)
    ensures
        r@ == type_label(ty@),
{
    if str_equal(ty, "server") {
        "服务器"
    } else if str_equal(ty, "switch") {
        "交换机"
    } else if str_equal(ty, "router") {
        "路由器"
    } else if str_equal(ty, "storage") {
        "存储阵列"
    } else if str_equal(ty, "nas") {
        "NAS 存储"
    } else if str_equal(ty, "security") {
        "网安设备"
    } else if str_equal(ty, "loadbalancer") {
        "负载均衡"
    } else {
        "其他"
    }
}

/// The text of a slot range: `s-eU` with both ends, `sU` with the start
/// alone, empty otherwise.
pub open spec fn position_text(start_u: Option<i32>, end_u: Option<i32>) -> Seq<char> {
    match (start_u, end_u) {
        (Some(s), Some(e)) => int_text(s as int) + "-"@ + int_text(e as int) + "U"@,
        (Some(u), None) => int_text(u as int) + "U"@,
        _ => ""@,
    }
}

/// The text of a slot range (see [`position_text`]).
pub fn format_position(start_u: Option<i32>, end_u: Option<i32>) -> (r: String)
    ensures
        r@ == position_text(start_u, end_u),
{
    match (start_u, end_u) {
        (Some(s), Some(e)) => {
            let a = int_to_text(s as i64);
            let b = int_to_text(e as i64);
            let c = concat3(a.as_str(), "-", b.as_str());
            concat2(c.as_str(), "U")
        },
        (Some(u), None) => {
            let a = int_to_text(u as i64);
            concat2(a.as_str(), "U")
        },
        _ => owned(""),
    }
}

/// The label of a status: `开机`, `离线`, `未上架` for the three known ones,
/// the status itself otherwise.
pub open spec fn status_label(status: Seq<char>) -> Seq<char> {
    if status == "online"@ {
        "开机"@
    } else if status == "offline"@ {
        "离线"@
    } else if status == "unconfigured"@ {
        "未上架"@
    } else {
        status
    }
}

/// The label of a status (see [`status_label`]).
pub fn get_status_label(status: &str) -> (r: String)
    ensures
        r@ == status_label(status@),
{
    if str_equal(status, "online") {
        owned("开机")
    } else if str_equal(status, "offline") {
        owned("离线")
    } else if str_equal(status, "unconfigured") {
        owned("未上架")
    } else {
        owned(status)
    }
}

/// The status a sheet label stands for: `开机`/`online` is `online`,
/// `离线`/`offline` is `offline`, anything else `unconfigured`.
pub open spec fn status_of_label(label: Seq<char>) -> Seq<char> {
    if label == "开机"@ || label == "online"@ {
        "online"@
    } else if label == "离线"@ || label == "offline"@ {
        "offline"@
    } else {
        "unconfigured"@
    }
}

/// The status a sheet label stands for (see [`status_of_label`]).
pub fn status_from_label(label: &str) -> (r: String)
    ensures
        r@ == status_of_label(label@),
{
    if str_equal(label, "开机") || str_equal(label, "online") {
        owned("online")
    } else if str_equal(label, "离线") || str_equal(label, "offline") {
        owned("offline")
    } else {
        owned("unconfigured")
    }
}

// ---------------------------------------------------------------------------
// Integers in text
// ---------------------------------------------------------------------------

/// All characters are ASCII digits, and there is at least one.
pub open spec fn all_digits(s: Seq<char>) -> bool {
    s.len() > 0 && forall|i: int| 0 <= i < s.len() ==> is_digit(#[trigger] s[i])
}

/// The integer a text spells as `i32::from_str` reads it: an optional `+`
/// or `-`, then one or more ASCII digits, nothing else, and a value within
/// the `i32` range.
pub open spec fn parsed_i32(s: Seq<char>) -> Option<i32> {
    let neg = s.len() > 0 && s[0] == '-';
    let body = if s.len() > 0 && (s[0] == '+' || s[0] == '-') {
        s.drop_first()
    } else {
        s
    };
    let v = if neg {
        -digits_value(body)
    } else {
        digits_value(body)
    };
    if all_digits(body) && i32::MIN <= v <= i32::MAX {
        Some(v as i32)
    } else {
        None
    }
}

proof fn lemma_digits_value_nonneg(p: Seq<char>)
    requires
        forall|i: int| 0 <= i < p.len() ==> is_digit(#[trigger] p[i]),
    ensures
        digits_value(p) >= 0,
    decreases p.len(),
{
    if p.len() > 0 {
        lemma_digits_value_nonneg(p.drop_last());
    }
}

proof fn lemma_digits_value_grows(p: Seq<char>, q: Seq<char>)
    requires
        forall|i: int| 0 <= i < q.len() ==> is_digit(#[trigger] q[i]),
        q.len() > 0,
        p == q.drop_last(),
    ensures
        digits_value(q) >= digits_value(p),
{
    lemma_digits_value_nonneg(p);
}

/// Reads an `i32` as `i32::from_str` does (see [`parsed_i32`]).
pub fn parse_i32(s: &str) -> (r: Option<i32>)
    ensures
        r == parsed_i32(s@),
{
    let cs = chars_of(s);
    let n = cs.len();
    if n == 0 {
        return None;
    }
    let neg = cs[0] == '-';
    let start: usize = if cs[0] == '+' || cs[0] == '-' {
        1
    } else {
        0
    };
    let ghost body = if cs@[0] == '+' || cs@[0] == '-' {
        cs@.drop_first()
    } else {
        cs@
    };
    assert(body =~= cs@.subrange(start as int, n as int));
    if start == n {
        return None;
    }
    let mut acc: i64 = 0;
    let mut i: usize = start;
    while i < n
        invariant
            start <= i <= n,
            n == cs@.len(),
            cs@ == s@,
            body == cs@.subrange(start as int, n as int),
            body == (if cs@[0] == '+' || cs@[0] == '-' {
                cs@.drop_first()
            } else {
                cs@
            }),
            neg == (cs@[0] == '-'),
            n > 0,
            forall|k: int| start <= k < i ==> is_digit(#[trigger] cs@[k]),
            digits_value(cs@.subrange(start as int, i as int)) >= 0,
            acc == (if digits_value(cs@.subrange(start as int, i as int)) > 2147483648 {
                2147483649
            } else {
                digits_value(cs@.subrange(start as int, i as int))
            }),
        decreases n - i,
    {
        let c = cs[i];
        if !('0' <= c && c <= '9') {
            assert(body[i - start] == c);
            assert(!is_digit(body[i - start]));
            return None;
        }
        let d = (c as u32 - '0' as u32) as i64;
        let ghost pre = cs@.subrange(start as int, i as int);
        let ghost post = cs@.subrange(start as int, i + 1);
        assert(post.drop_last() =~= pre);
        assert(post.last() == c);
        assert(digits_value(post) == digits_value(pre) * 10 + d);
        acc = if acc * 10 + d > 2147483648 {
            2147483649
        } else {
            acc * 10 + d
        };
        i = i + 1;
    }
    assert(cs@.subrange(start as int, n as int) == body);
    if acc > 2147483648 {
        return None;
    }
    if neg {
        Some((-acc) as i32)
    } else {
        if acc > 2147483647 {
            None
        } else {
            Some(acc as i32)
        }
    }
}

proof fn lemma_prefix_value_bound(p: Seq<char>, k: int)
    requires
        forall|i: int| 0 <= i < p.len() ==> is_digit(#[trigger] p[i]),
        0 <= k <= p.len(),
    ensures
        digits_value(p) >= digits_value(p.subrange(0, k)),
    decreases p.len() - k,
{
    if k < p.len() {
        lemma_prefix_value_bound(p, k + 1);
        assert(p.subrange(0, k + 1).drop_last() =~= p.subrange(0, k));
        lemma_digits_value_grows(p.subrange(0, k), p.subrange(0, k + 1));
    } else {
        assert(p.subrange(0, k) =~= p);
    }
}

/// `s` without its trailing run of `c` (`str::trim_end_matches` with one
/// character).
pub open spec fn strip_trailing(s: Seq<char>, c: char) -> Seq<char>
    decreases s.len(),
{
    if s.len() > 0 && s.last() == c {
        strip_trailing(s.drop_last(), c)
    } else {
        s
    }
}

/// Position of the first `c` in `s`, or -1.
pub open spec fn index_of(s: Seq<char>, c: char) -> int
    decreases s.len(),
{
    if s.len() == 0 {
        -1
    } else if s[0] == c {
        0
    } else if index_of(s.drop_first(), c) < 0 {
        -1
    } else {
        index_of(s.drop_first(), c) + 1
    }
}

/// The slot range a sheet's position text gives: trimmed, trailing `U`s and
/// then `u`s dropped; `a-b` (each side trimmed) gives `(a, b)`, a lone
/// number `u` gives `(u, u)`; anything else gives none.
pub open spec fn parsed_u_range(s: Seq<char>) -> Option<(i32, i32)> {
    let t = strip_trailing(strip_trailing(trimmed(s), 'U'), 'u');
    let k = index_of(t, '-');
    if k >= 0 {
        match (parsed_i32(trimmed(t.subrange(0, k))), parsed_i32(trimmed(t.subrange(k + 1, t.len() as int)))) {
            (Some(a), Some(b)) => Some((a, b)),
            _ => None,
        }
    } else {
        match parsed_i32(t) {
            Some(u) => Some((u, u)),
            None => None,
        }
    }
}

fn strip_trailing_chars(v: &mut Vec<char>, c: char)
    ensures
        final(v)@ == strip_trailing(old(v)@, c),
{
    while v.len() > 0 && v[v.len() - 1] == c
        invariant
            strip_trailing(v@, c) == strip_trailing(old(v)@, c),
        decreases v.len(),
    {
        v.pop();
    }
}

fn index_of_char(s: &Vec<char>, c: char) -> (r: Option<usize>)
    ensures
        match r {
            Some(k) => k == index_of(s@, c) && k < s@.len(),
            None => index_of(s@, c) == -1,
        },
{
    let mut i: usize = 0;
    assert(s@.skip(0) =~= s@);
    while i < s.len()
        invariant
            i <= s@.len(),
            forall|k: int| 0 <= k < i ==> s@[k] != c,
            index_of(s@, c) == (if index_of(s@.skip(i as int), c) < 0 {
                -1
            } else {
                index_of(s@.skip(i as int), c) + i
            }),
        decreases s.len() - i,
    {
        assert(s@.skip(i as int)[0] == s@[i as int]);
        assert(s@.skip(i as int).drop_first() =~= s@.skip(i + 1));
        if s[i] == c {
            return Some(i);
        }
        i = i + 1;
    }
    None
}

fn slice_text(s: &Vec<char>, from: usize, to: usize) -> (r: String)
    requires
        from <= to <= s@.len(),
    ensures
        r@ == s@.subrange(from as int, to as int),
{
    let mut out: Vec<char> = Vec::new();
    let mut i = from;
    while i < to
        invariant
            from <= i <= to <= s@.len(),
            out@ =~= s@.subrange(from as int, i as int),
        decreases to - i,
    {
        out.push(s[i]);
        i = i + 1;
    }
    string_of(out.as_slice())
}

/// Reads a sheet's position text (see [`parsed_u_range`]).
pub fn parse_u_range(s: &str) -> (r: Option<(i32, i32)>)
    ensures
        r == parsed_u_range(s@),
{
    let cs = chars_of(s);
    let mut t = trim_chars(cs.as_slice());
    strip_trailing_chars(&mut t, 'U');
    strip_trailing_chars(&mut t, 'u');
    match index_of_char(&t, '-') {
        Some(k) => {
            let left = slice_text(&t, 0, k);
            let right = slice_text(&t, k + 1, t.len());
            let lt = trim_str(left.as_str());
            let rt = trim_str(right.as_str());
            match (parse_i32(lt.as_str()), parse_i32(rt.as_str())) {
                (Some(a), Some(b)) => Some((a, b)),
                _ => None,
            }
        },
        None => {
            let whole = string_of(t.as_slice());
            match parse_i32(whole.as_str()) {
                Some(u) => Some((u, u)),
                None => None,
            }
        },
    }
}

// ---------------------------------------------------------------------------
// Cells
// ---------------------------------------------------------------------------

/// A cell of a sheet, as plain values. A floating-point cell comes as its
/// text and its value cut to an `i32`, both worked out by the reader.
#[derive(Debug)]
pub enum Cell {
    Empty,
    Text(String),
    Int(i64),
    Bool(bool),
    Float { text: String, whole: i32 },
    /// Dates, durations and error values.
    Other,
}

/// The text of a cell: text as it is, numbers in decimal, `true`/`false`,
/// and nothing for the other kinds.
pub open spec fn cell_text(c: Cell) -> Seq<char> {
    match c {
        Cell::Text(s) => s@,
        Cell::Float { text, .. } => text@,
        Cell::Int(i) => int_text(i as int),
        Cell::Bool(b) => if b {
            "true"@
        } else {
            "false"@
        },
        _ => ""@,
    }
}

/// The integer of a cell: numbers cut to an `i32`, text read as an `i32`,
/// nothing otherwise.
pub open spec fn cell_int(c: Cell) -> Option<i32> {
    match c {
        Cell::Float { whole, .. } => Some(whole),
        Cell::Int(i) => Some(i as i32),
        Cell::Text(s) => parsed_i32(s@),
        _ => None,
    }
}

/// The text of a cell (see [`cell_text`]).
pub fn cell_to_string(c: &Cell) -> (r: String)
    ensures
        r@ == cell_text(*c),
{
    match c {
        Cell::Text(s) => s.clone(),
        Cell::Float { text, .. } => text.clone(),
        Cell::Int(i) => int_to_text(*i),
        Cell::Bool(b) => if *b {
            owned("true")
        } else {
            owned("false")
        },
        _ => owned(""),
    }
}

/// The integer of a cell (see [`cell_int`]).
pub fn cell_to_int(c: &Cell) -> (r: Option<i32>)
    ensures
        r == cell_int(*c),
{
    match c {
        Cell::Float { whole, .. } => Some(*whole),
        Cell::Int(i) => Some(*i as i32),
        Cell::Text(s) => parse_i32(s.as_str()),
        _ => None,
    }
}

/// The cell at `idx` of a row; past the end of the row, an empty cell.
pub open spec fn cell_at(row: Seq<Cell>, idx: int) -> Cell {
    if 0 <= idx < row.len() {
        row[idx]
    } else {
        Cell::Empty
    }
}

/// The trimmed text of the cell at `idx`.
pub open spec fn field(row: Seq<Cell>, idx: int) -> Seq<char> {
    trimmed(cell_text(cell_at(row, idx)))
}

/// The trimmed text of the cell at `idx` (see [`field`]).
pub fn field_text(row: &Vec<Cell>, idx: usize) -> (r: String)
    ensures
        r@ == field(row@, idx as int),
{
    if idx < row.len() {
        let t = cell_to_string(&row[idx]);
        trim_str(t.as_str())
    } else {
        proof {
            reveal_strlit("");
            assert(""@ =~= Seq::<char>::empty());
        }
        owned("")
    }
}

/// `None` for the empty text.
pub fn none_if_empty(s: String) -> (r: Option<String>)
    ensures
        s@.len() == 0 ==> r is None,
        s@.len() > 0 ==> r == Some(s),
{
    if s.as_str().is_empty() {
        None
    } else {
        Some(s)
    }
}

} // verus!

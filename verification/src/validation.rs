//! Input rules for devices: slot ranges, IP address lists, the status
//! enumeration and date texts, and the escaping of search terms for `LIKE`.
use vstd::prelude::*;
use chrono::Datelike;
use crate::error::{AppError, is_validation};
use crate::models::Date;
use crate::text::{chars_of, concat3, int_to_text, int_text, string_of, str_equal, trim_chars,
    trimmed, all_white, is_white_space, has_char};

verus! {

// ---------------------------------------------------------------------------
// LIKE escaping
// ---------------------------------------------------------------------------

/// `s` with `\`, `%` and `_` each preceded by `\`.
pub open spec fn like_escaped(s: Seq<char>) -> Seq<char>
    decreases s.len(),
{
    if s.len() == 0 {
        s
    } else {
        let c = s.last();
        let rest = like_escaped(s.drop_last());
        if c == '\\' || c == '%' || c == '_' {
            rest + seq!['\\', c]
        } else {
            rest.push(c)
        }
    }
}

/// Escapes the wildcards of a `LIKE` pattern (`%`, `_`, and the escape
/// character `\` itself), so that the term matches literally under
/// `ESCAPE '\'`.
pub fn escape_like(s: &str) -> (r: String)
    ensures
        r@ == like_escaped(s@),
{
    let cs = chars_of(s);
    let mut out: Vec<char> = Vec::new();
    let mut i: usize = 0;
    while i < cs.len()
        invariant
            i <= cs@.len(),
            out@ == like_escaped(cs@.take(i as int)),
        decreases cs.len() - i,
    {
        let c = cs[i];
        assert(cs@.take(i + 1).drop_last() =~= cs@.take(i as int));
        if c == '\\' || c == '%' || c == '_' {
            out.push('\\');
            out.push(c);
            assert(out@ =~= like_escaped(cs@.take(i + 1)));
        } else {
            out.push(c);
        }
        i = i + 1;
    }
    assert(cs@.take(cs@.len() as int) =~= cs@);
    string_of(out.as_slice())
}

/// The number of `\\`, `%` and `_` in `s`.
pub open spec fn like_specials(s: Seq<char>) -> nat
    decreases s.len(),
{
    if s.len() == 0 {
        0
    } else {
        like_specials(s.drop_last()) + if s.last() == '\\' || s.last() == '%' || s.last() == '_' {
            1nat
        } else {
            0nat
        }
    }
}

/// Reads an escaped pattern back, left to right: `\\` followed by a
/// character stands for that character.
pub open spec fn like_unescaped(r: Seq<char>) -> Seq<char>
    decreases r.len(),
{
    if r.len() == 0 {
        r
    } else if r[0] == '\\' && r.len() >= 2 {
        seq![r[1]] + like_unescaped(r.skip(2))
    } else {
        seq![r[0]] + like_unescaped(r.drop_first())
    }
}

proof fn lemma_escaped_concat(a: Seq<char>, b: Seq<char>)
    ensures
        like_escaped(a + b) == like_escaped(a) + like_escaped(b),
    decreases b.len(),
{
    if b.len() == 0 {
        assert(a + b =~= a);
        assert(like_escaped(a) + like_escaped(b) =~= like_escaped(a));
    } else {
        assert((a + b).drop_last() =~= a + b.drop_last());
        assert((a + b).last() == b.last());
        lemma_escaped_concat(a, b.drop_last());
        let c = b.last();
        if c == '\\' || c == '%' || c == '_' {
            assert(like_escaped(a) + like_escaped(b.drop_last()) + seq!['\\', c] =~= like_escaped(a) + (like_escaped(
                b.drop_last(),
            ) + seq!['\\', c]));
        } else {
            assert((like_escaped(a) + like_escaped(b.drop_last())).push(c) =~= like_escaped(a) + like_escaped(
                b.drop_last(),
            ).push(c));
        }
    }
}

/// Escaping a search term adds exactly one `\\` before each `\\`, `%` and
/// `_`, and reading the escaped text back gives the term again.
pub proof fn law_escape_like_round_trip(s: Seq<char>)
    ensures
        like_escaped(s).len() == s.len() + like_specials(s),
        like_unescaped(like_escaped(s)) == s,
    decreases s.len(),
{
    if s.len() > 0 {
        law_escape_like_round_trip(s.drop_last());
        let c = s[0];
        let rest = s.drop_first();
        law_escape_like_round_trip(rest);
        assert(s =~= seq![c] + rest);
        lemma_escaped_concat(seq![c], rest);
        assert(seq![c].drop_last() =~= Seq::<char>::empty());
        assert(like_escaped(Seq::<char>::empty()) == Seq::<char>::empty());
        assert(seq![c].last() == c);
        let e = like_escaped(seq![c]);
        let r = e + like_escaped(rest);
        if c == '\\' || c == '%' || c == '_' {
            assert(e =~= seq!['\\', c]);
            assert(r.skip(2) =~= like_escaped(rest));
            assert(like_unescaped(r) == seq![c] + like_unescaped(r.skip(2)));
        } else {
            assert(e =~= seq![c]);
            assert(r.drop_first() =~= like_escaped(rest));
            assert(like_unescaped(r) == seq![c] + like_unescaped(r.drop_first()));
        }
    }
}

// ---------------------------------------------------------------------------
// Slot ranges
// ---------------------------------------------------------------------------

/// The message for a slot number below 1.
pub open spec fn bad_slot_message(v: int) -> Seq<char> {
    "U 位("@ + int_text(v) + ")无效：U 位从 1 开始"@
}

/// The message for a range that ends before it starts.
pub open spec fn reversed_range_message(s: int, e: int) -> Seq<char> {
    "结束U位("@ + int_text(e) + ")不能小于起始U位("@ + int_text(s) + ")"@
}

/// The error, if any, of a slot range: a given slot below 1 (start checked
/// first), then an end before the start when both are given.
pub open spec fn u_range_error(start_u: Option<i32>, end_u: Option<i32>) -> Option<Seq<char>> {
    if start_u is Some && start_u->0 < 1 {
        Some(bad_slot_message(start_u->0 as int))
    } else if end_u is Some && end_u->0 < 1 {
        Some(bad_slot_message(end_u->0 as int))
    } else if start_u is Some && end_u is Some && end_u->0 < start_u->0 {
        Some(reversed_range_message(start_u->0 as int, end_u->0 as int))
    } else {
        None
    }
}

fn bad_slot_error(v: i32) -> (e: AppError)
    ensures
        is_validation(e, bad_slot_message(v as int)),
{
    let t = int_to_text(v as i64);
    let m = concat3("U 位(", t.as_str(), ")无效：U 位从 1 开始");
    AppError::validation(m.as_str())
}

/// Slots start at 1; when both ends are given the end may not precede the
/// start. A single given end is accepted.
pub fn validate_u_range(start_u: Option<i32>, end_u: Option<i32>) -> (r: Result<(), AppError>)
    ensures
        match u_range_error(start_u, end_u) {
            None => r is Ok,
            Some(m) => r matches Err(e) && is_validation(e, m),
        },
{
    if let Some(s) = start_u {
        if s < 1 {
            return Err(bad_slot_error(s));
        }
    }
    if let Some(e) = end_u {
        if e < 1 {
            return Err(bad_slot_error(e));
        }
    }
    if let (Some(s), Some(e)) = (start_u, end_u) {
        if e < s {
            let te = int_to_text(e as i64);
            let ts = int_to_text(s as i64);
            let a = concat3("结束U位(", te.as_str(), ")不能小于起始U位(");
            let m = concat3(a.as_str(), ts.as_str(), ")");
            return Err(AppError::validation(m.as_str()));
        }
    }
    Ok(())
}

// ---------------------------------------------------------------------------
// Splitting texts
// ---------------------------------------------------------------------------

/// The pieces of `s` between separators (`.` when `dot`, else the IP list
/// separators), left to right, empty pieces included (`str::split`).
pub open spec fn split_by(s: Seq<char>, dot: bool) -> Seq<Seq<char>>
    decreases s.len(),
{
    if s.len() == 0 {
        seq![Seq::<char>::empty()]
    } else {
        let prev = split_by(s.drop_last(), dot);
        if is_sep_of(dot, s.last()) {
            prev.push(Seq::<char>::empty())
        } else {
            prev.update(prev.len() - 1, prev.last().push(s.last()))
        }
    }
}

/// The separator test of `split_by`: `.` when `dot`, else the IP list
/// separators.
pub open spec fn is_sep_of(dot: bool, c: char) -> bool {
    if dot {
        is_dot(c)
    } else {
        is_ip_separator(c)
    }
}

/// The separator of dotted IPv4 text.
pub open spec fn is_dot(c: char) -> bool {
    c == '.'
}

/// Separators of an IP address list: `,` `，` `;` `；` space, tab, CR, LF.
pub open spec fn is_ip_separator(c: char) -> bool {
    c == ',' || c == '，' || c == ';' || c == '；' || c == ' ' || c == '\t' || c == '\r' || c
        == '\n'
}

fn ip_separator(c: char) -> (r: bool)
    ensures
        r == is_ip_separator(c),
{
    c == ',' || c == '，' || c == ';' || c == '；' || c == ' ' || c == '\t' || c == '\r' || c
        == '\n'
}

/// Views of a list of character vectors.
pub open spec fn views(v: Seq<Vec<char>>) -> Seq<Seq<char>> {
    v.map_values(|x: Vec<char>| x@)
}

/// Splits on `.` (`dot == true`) or on the IP list separators.
fn split_chars(s: &[char], dot: bool) -> (res: Vec<Vec<char>>)
    ensures
        views(res@) == split_by(s@, dot),
{
    let mut done: Vec<Vec<char>> = Vec::new();
    let mut cur: Vec<char> = Vec::new();
    let mut i: usize = 0;
    assert(views(done@).push(cur@) =~= split_by(s@.take(0), dot));
    while i < s.len()
        invariant
            i <= s@.len(),
            views(done@).push(cur@) == split_by(s@.take(i as int), dot),
        decreases s.len() - i,
    {
        let c = s[i];
        assert(s@.take(i + 1).drop_last() =~= s@.take(i as int));
        assert(s@.take(i + 1).last() == c);
        let is_sep = if dot {
            c == '.'
        } else {
            ip_separator(c)
        };
        assert(is_sep == is_sep_of(dot, c));
        let ghost before = views(done@);
        if is_sep {
            let finished = cur;
            done.push(finished);
            cur = Vec::new();
            assert(views(done@) =~= before.push(finished@));
            assert(views(done@).push(cur@) =~= split_by(s@.take(i + 1), dot));
        } else {
            cur.push(c);
            assert(views(done@).push(cur@) =~= split_by(s@.take(i + 1), dot));
        }
        i = i + 1;
    }
    assert(s@.take(s@.len() as int) =~= s@);
    let ghost before = views(done@);
    done.push(cur);
    assert(views(done@) =~= before.push(cur@));
    done
}

// ---------------------------------------------------------------------------
// IPv4
// ---------------------------------------------------------------------------

/// True for an ASCII digit.
pub open spec fn is_digit(c: char) -> bool {
    '0' <= c <= '9'
}

/// The value of a run of ASCII digits.
pub open spec fn digits_value(p: Seq<char>) -> int
    decreases p.len(),
{
    if p.len() == 0 {
        0
    } else {
        digits_value(p.drop_last()) * 10 + ((p.last() as u32) - ('0' as u32))
    }
}

/// One part of a dotted IPv4 address: one to three digits, no leading zero,
/// at most 255.
pub open spec fn ipv4_part_ok(p: Seq<char>) -> bool {
    &&& 1 <= p.len() <= 3
    &&& forall|i: int| 0 <= i < p.len() ==> is_digit(#[trigger] p[i])
    &&& !(p.len() > 1 && p[0] == '0')
    &&& digits_value(p) <= 255
}

/// Four dotted parts, each a valid IPv4 part.
pub open spec fn is_ipv4(s: Seq<char>) -> bool {
    let parts = split_by(s, true);
    &&& parts.len() == 4
    &&& forall|i: int| 0 <= i < 4 ==> ipv4_part_ok(#[trigger] parts[i])
}

fn ipv4_part(p: &[char]) -> (r: bool)
    ensures
        r == ipv4_part_ok(p@),
{
    if p.len() < 1 || p.len() > 3 {
        return false;
    }
    let mut v: u32 = 0;
    let mut i: usize = 0;
    while i < p.len()
        invariant
            1 <= p@.len() <= 3,
            i <= p@.len(),
            forall|k: int| 0 <= k < i ==> is_digit(#[trigger] p@[k]),
            v == digits_value(p@.take(i as int)),
            i == 0 ==> v == 0,
            i <= 1 ==> v < 10,
            i <= 2 ==> v < 100,
            v < 1000,
        decreases p.len() - i,
    {
        let c = p[i];
        if !('0' <= c && c <= '9') {
            return false;
        }
        assert(p@.take(i + 1).drop_last() =~= p@.take(i as int));
        v = v * 10 + ((c as u32) - ('0' as u32));
        i = i + 1;
    }
    assert(p@.take(p@.len() as int) =~= p@);
    if p.len() > 1 && p[0] == '0' {
        return false;
    }
    v <= 255
}

/// A dotted IPv4 address: four parts of one to three digits, no leading
/// zeros, each at most 255.
pub fn is_valid_ipv4(s: &str) -> (r: bool)
    ensures
        r == is_ipv4(s@),
{
    let cs = chars_of(s);
    let parts = split_chars(cs.as_slice(), true);
    if parts.len() != 4 {
        return false;
    }
    let mut i: usize = 0;
    while i < 4
        invariant
            parts@.len() == 4,
            views(parts@) == split_by(cs@, true),
            cs@ == s@,
            i <= 4,
            forall|k: int| 0 <= k < i ==> ipv4_part_ok(#[trigger] views(parts@)[k]),
        decreases 4 - i,
    {
        if !ipv4_part(parts[i].as_slice()) {
            assert(views(parts@)[i as int] == parts@[i as int]@);
            assert(cs@ == s@);
            assert(!ipv4_part_ok(split_by(s@, true)[i as int]));
            return false;
        }
        assert(views(parts@)[i as int] == parts@[i as int]@);
        i = i + 1;
    }
    assert(cs@ == s@);
    true
}

// ---------------------------------------------------------------------------
// IP address lists
// ---------------------------------------------------------------------------

/// An accepted list item: an IPv4 address, or any text with `:` (IPv6 is
/// let through).
pub open spec fn ip_item_ok(p: Seq<char>) -> bool {
    is_ipv4(p) || p.contains(':')
}

/// The first non-empty trimmed piece that is not an accepted item.
pub open spec fn first_bad_ip(pieces: Seq<Seq<char>>) -> Option<Seq<char>>
    decreases pieces.len(),
{
    if pieces.len() == 0 {
        None
    } else {
        let t = trimmed(pieces[0]);
        if t.len() > 0 && !ip_item_ok(t) {
            Some(t)
        } else {
            first_bad_ip(pieces.drop_first())
        }
    }
}

/// The rejected item of an IP address list, if any.
pub open spec fn ip_list_error(raw: Seq<char>) -> Option<Seq<char>> {
    first_bad_ip(split_by(raw, false))
}

/// The message for a rejected IP item.
pub open spec fn bad_ip_message(p: Seq<char>) -> Seq<char> {
    "IP 地址格式不正确："@ + p + "（多个 IP 用逗号分隔）"@
}

/// An IP address list: items split on `,` `，` `;` `；` and white space,
/// trimmed, empty items ignored; each item an IPv4 address or a text with
/// `:`. An empty or blank list is accepted. The first rejected item is
/// named in the error.
pub fn validate_ip_addresses(raw: &str) -> (r: Result<(), AppError>)
    ensures
        match ip_list_error(raw@) {
            None => r is Ok,
            Some(p) => r matches Err(e) && is_validation(e, bad_ip_message(p)),
        },
{
    let cs = chars_of(raw);
    let pieces = split_chars(cs.as_slice(), false);
    let ghost all = views(pieces@);
    let mut i: usize = 0;
    assert(all.skip(0) =~= all);
    while i < pieces.len()
        invariant
            i <= pieces@.len(),
            all == views(pieces@),
            all == split_by(raw@, false),
            first_bad_ip(all) == first_bad_ip(all.skip(i as int)),
        decreases pieces.len() - i,
    {
        let t = trim_chars(pieces[i].as_slice());
        assert(all.skip(i as int)[0] == pieces@[i as int]@);
        assert(all.skip(i as int).drop_first() =~= all.skip(i + 1));
        if t.len() > 0 {
            let ts = string_of(t.as_slice());
            let ok = is_valid_ipv4(ts.as_str()) || has_char(t.as_slice(), ':');
            if !ok {
                let m = concat3("IP 地址格式不正确：", ts.as_str(), "（多个 IP 用逗号分隔）");
                return Err(AppError::validation(m.as_str()));
            }
        }
        i = i + 1;
    }
    Ok(())
}

// ---------------------------------------------------------------------------
// Status
// ---------------------------------------------------------------------------

/// The accepted device states.
pub open spec fn is_device_status(s: Seq<char>) -> bool {
    s == "online"@ || s == "offline"@ || s == "unconfigured"@
}

/// What `{:?}` (`Debug` of `str`) makes of a text: quoted and escaped.
pub uninterp spec fn debug_text(s: Seq<char>) -> Seq<char>;

/// `format!("{:?}", s)`: the quoted, escaped text; its escape rules are not
/// stated here, only that it depends on the text alone.
#[verifier::external_body]
fn debug_quoted(s: &str) -> (r: String)
    ensures
        r@ == debug_text(s@),
{
    format!("{:?}", s)
}

/// The message for a rejected status.
pub open spec fn bad_status_message(s: Seq<char>) -> Seq<char> {
    "设备状态取值非法："@ + debug_text(s) + "（须为 online / offline / unconfigured）"@
}

/// A status must be `online`, `offline` or `unconfigured` (the empty text
/// is rejected too).
pub fn validate_status(status: &str) -> (r: Result<(), AppError>)
    ensures
        is_device_status(status@) ==> r is Ok,
        !is_device_status(status@) ==> (r matches Err(e) && is_validation(
            e,
            bad_status_message(status@),
        )),
{
    if str_equal(status, "online") || str_equal(status, "offline") || str_equal(
        status,
        "unconfigured",
    ) {
        Ok(())
    } else {
        let q = debug_quoted(status);
        let m = concat3("设备状态取值非法：", q.as_str(), "（须为 online / offline / unconfigured）");
        Err(AppError::validation(m.as_str()))
    }
}

// ---------------------------------------------------------------------------
// Dates
// ---------------------------------------------------------------------------

/// The date that `NaiveDate::parse_from_str(s, fmt)` reads, if any.
pub uninterp spec fn parsed_date(s: Seq<char>, fmt: Seq<char>) -> Option<Date>;

/// `chrono::NaiveDate::parse_from_str`: the outcome depends on the text and
/// the format alone, and is named `parsed_date`; chrono's parsing rules are
/// not stated here.
#[verifier::external_body]
fn parse_date_with(s: &str, fmt: &str) -> (r: Option<Date>)
    ensures
        r == parsed_date(s@, fmt@),
{
    chrono::NaiveDate::parse_from_str(s, fmt).ok().map(
        |d| Date { year: d.year(), month: d.month(), day: d.day() },
    )
}

/// The date of a text in one of `YYYY-MM-DD`, `YYYY/MM/DD`, `YYYY.MM.DD`
/// (tried in that order, on the trimmed text); a blank text has none.
pub open spec fn date_of_text(v: Seq<char>) -> Option<Date> {
    let t = trimmed(v);
    if t.len() == 0 {
        None
    } else if parsed_date(t, "%Y-%m-%d"@) is Some {
        parsed_date(t, "%Y-%m-%d"@)
    } else if parsed_date(t, "%Y/%m/%d"@) is Some {
        parsed_date(t, "%Y/%m/%d"@)
    } else {
        parsed_date(t, "%Y.%m.%d"@)
    }
}

/// Reads a date in one of the three accepted formats; blank or unreadable
/// text gives `None`.
pub fn parse_flexible_date(s: &str) -> (r: Option<Date>)
    ensures
        r == date_of_text(s@),
{
    let cs = chars_of(s);
    let t = trim_chars(cs.as_slice());
    if t.len() == 0 {
        return None;
    }
    let ts = string_of(t.as_slice());
    let a = parse_date_with(ts.as_str(), "%Y-%m-%d");
    if a.is_some() {
        return a;
    }
    let b = parse_date_with(ts.as_str(), "%Y/%m/%d");
    if b.is_some() {
        return b;
    }
    parse_date_with(ts.as_str(), "%Y.%m.%d")
}

/// `parse_flexible_date` on an optional text.
pub fn parse_optional_date(s: &Option<String>) -> (r: Option<Date>)
    ensures
        match s {
            None => r is None,
            Some(v) => r == date_of_text(v@),
        },
{
    match s {
        None => None,
        Some(v) => parse_flexible_date(v.as_str()),
    }
}

/// A leap year of the proleptic Gregorian calendar.
pub open spec fn is_leap_year(y: int) -> bool {
    y % 4 == 0 && (y % 100 != 0 || y % 400 == 0)
}

/// The number of days in month `m` of year `y`.
pub open spec fn month_days(y: int, m: int) -> int {
    if m == 2 {
        if is_leap_year(y) {
            29
        } else {
            28
        }
    } else if m == 4 || m == 6 || m == 9 || m == 11 {
        30
    } else {
        31
    }
}

/// A date that chrono's `NaiveDate::from_ymd_opt` accepts: a year within
/// its range, a month 1–12 and a day within that month.
pub open spec fn is_calendar_date(d: Date) -> bool {
    &&& -262143 <= d.year <= 262142
    &&& 1 <= d.month <= 12
    &&& 1 <= d.day <= month_days(d.year as int, d.month as int)
}

/// `n` in decimal, zero-padded to two digits.
pub open spec fn two_digits(n: int) -> Seq<char> {
    if n < 10 {
        "0"@ + int_text(n)
    } else {
        int_text(n)
    }
}

/// `n` in decimal, zero-padded to four digits.
pub open spec fn four_digits(n: int) -> Seq<char> {
    if n < 10 {
        "000"@ + int_text(n)
    } else if n < 100 {
        "00"@ + int_text(n)
    } else if n < 1000 {
        "0"@ + int_text(n)
    } else {
        int_text(n)
    }
}

/// What `%Y` writes: four digits for years 0–9999, else a sign and at
/// least four digits.
pub open spec fn year_text(y: int) -> Seq<char> {
    if 0 <= y <= 9999 {
        four_digits(y)
    } else if y > 9999 {
        "+"@ + int_text(y)
    } else {
        "-"@ + four_digits(-y)
    }
}

/// The text of a date as `%Y-%m-%d` (month and day zero-padded to two
/// digits); the empty text for a triple that is no calendar date.
pub open spec fn date_text(d: Date) -> Seq<char> {
    if is_calendar_date(d) {
        year_text(d.year as int) + "-"@ + two_digits(d.month as int) + "-"@ + two_digits(d.day as int)
    } else {
        Seq::empty()
    }
}

/// chrono's `NaiveDate::from_ymd_opt` followed by `format("%Y-%m-%d")`:
/// a calendar date is written as [`date_text`] says (`from_ymd_opt`
/// accepts exactly the calendar dates, and `%Y`, `%m`, `%d` write the year
/// with a sign outside 0–9999 and the month and day with two digits); any
/// other triple gives the empty text.
#[verifier::external_body]
fn format_ymd(d: Date) -> (r: String)
    ensures
        r@ == date_text(d),
{
    match chrono::NaiveDate::from_ymd_opt(d.year, d.month, d.day) {
        Some(nd) => nd.format("%Y-%m-%d").to_string(),
        None => String::new(),
    }
}

/// A date as `YYYY-MM-DD`; no date gives the empty text.
pub fn format_date(d: Option<Date>) -> (r: String)
    ensures
        match d {
            None => r@ == Seq::<char>::empty(),
            Some(x) => r@ == date_text(x),
        },
{
    match d {
        None => String::new(),
        Some(x) => format_ymd(x),
    }
}

} // verus!

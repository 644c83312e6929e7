//! The decisions of the dispatch server: error categories, parameter
//! normalisation, the working-directory and sandbox guards, task identity
//! nonces, trimming a steered task's inherited log lines, and reading SQLite
//! UTC timestamps.

use vstd::prelude::*;
use vstd::arithmetic::div_mod::{
    lemma_fundamental_div_mod, lemma_fundamental_div_mod_converse, lemma_mod_bound,
    lemma_mod_multiples_basic,
};

use crate::text::{
    chars_of, dec, find_char_from, lemma_dec_digits, join, join_strings, lemma_next_index_of,
    lemma_next_index_of_prefix, next_index_of, parse_i64_range, parse_i64_spec, string_from_chars,
    to_ascii_lowercase, to_ascii_lowercase_string, trim, trim_str, views, debug_form, debug_str, result_view, str_eq,
};
use crate::backend::{parse_backend, Backend};
use crate::file::{path_starts_with, path_starts_with_spec};

verus! {

// ── error categories ─────────────────────────────────────

/// Stable, machine-readable error categories returned alongside the human
/// message, so a calling agent can branch on the code instead of the prose.
#[derive(Debug, Clone, Copy, PartialEq, Eq, Structural)]
pub enum ErrCode {
    InvalidParams,
    NoSuchTask,
    InvalidWorkingDir,
    SandboxForbidden,
    DirBusy,
    SessionNotReady,
    UnknownBackend,
    RolloutUnreadable,
    DbError,
}

/// The wire name of an error category.
pub open spec fn err_code_name(c: ErrCode) -> Seq<char> {
    match c {
        ErrCode::InvalidParams => "invalid_params"@,
        ErrCode::NoSuchTask => "no_such_task"@,
        ErrCode::InvalidWorkingDir => "invalid_working_dir"@,
        ErrCode::SandboxForbidden => "sandbox_forbidden"@,
        ErrCode::DirBusy => "dir_busy"@,
        ErrCode::SessionNotReady => "session_not_ready"@,
        ErrCode::UnknownBackend => "unknown_backend"@,
        ErrCode::RolloutUnreadable => "rollout_unreadable"@,
        ErrCode::DbError => "db_error"@,
    }
}

impl ErrCode {
    pub fn as_str(self) -> (r: &'static str)
        ensures
            r@ == err_code_name(self),
    {
        match self {
            ErrCode::InvalidParams => "invalid_params",
            ErrCode::NoSuchTask => "no_such_task",
            ErrCode::InvalidWorkingDir => "invalid_working_dir",
            ErrCode::SandboxForbidden => "sandbox_forbidden",
            ErrCode::DirBusy => "dir_busy",
            ErrCode::SessionNotReady => "session_not_ready",
            ErrCode::UnknownBackend => "unknown_backend",
            ErrCode::RolloutUnreadable => "rollout_unreadable",
            ErrCode::DbError => "db_error",
        }
    }
}

// ── optional text parameters ─────────────────────────────

/// A text parameter that is absent or only whitespace counts as unset.
pub open spec fn blank(s: Seq<char>) -> bool {
    trim(s).len() == 0
}

/// `o`, unless it is blank.
pub open spec fn nonempty_spec(o: Option<String>) -> Option<String> {
    match o {
        Some(s) => if blank(s@) { None } else { Some(s) },
        None => None,
    }
}

/// `o`, unless it is blank.
pub fn nonempty(o: Option<String>) -> (r: Option<String>)
    ensures
        r == nonempty_spec(o),
{
    match o {
        Some(s) => {
            if trim_str(s.as_str()).is_empty() {
                None
            } else {
                Some(s)
            }
        },
        None => None,
    }
}

/// `o` trimmed, unless the result is empty.
pub fn nonempty_ref(o: &Option<String>) -> (r: Option<&str>)
    ensures
        match o {
            Some(s) => if blank(s@) {
                r is None
            } else {
                r is Some && r.unwrap()@ == trim(s@)
            },
            None => r is None,
        },
{
    match o {
        Some(s) => {
            let t = trim_str(s.as_str());
            if t.is_empty() {
                None
            } else {
                Some(t)
            }
        },
        None => None,
    }
}

// ── task identity ────────────────────────────────────────

/// The nonce of a task: the server instance id, a dash, and the decimal
/// value of the instance's task counter (`format!("{instance}-{n}")`).
pub open spec fn nonce_text(instance: Seq<char>, n: nat) -> Seq<char> {
    instance + "-"@ + dec(n)
}

/// A per-task identity nonce from the server instance id (unique per
/// process) and the instance's monotonic counter value `n`, so nonces never
/// repeat across tasks and servers.
pub fn make_nonce(instance: &str, n: u64) -> (r: String)
    ensures
        r@ == nonce_text(instance@, n as nat),
{
    let mut v = chars_of(instance);
    v.push('-');
    crate::text::push_dec(&mut v, n);
    proof {
        reveal_strlit("-");
    }
    assert(v@ =~= nonce_text(instance@, n as nat));
    string_from_chars(&v)
}

// ── lines (`str::lines`) ─────────────────────────────────

/// A piece of `split_inclusive('\n')` as `str::lines` yields it: a final
/// `"\n"` or `"\r\n"` is removed; a lone final `'\r'` stays.
pub open spec fn line_text(p: Seq<char>) -> Seq<char> {
    if p.len() > 0 && p.last() == '\n' {
        let a = p.drop_last();
        if a.len() > 0 && a.last() == '\r' {
            a.drop_last()
        } else {
            a
        }
    } else {
        p
    }
}

/// The lines of `s` (`str::lines`): split after each `'\n'`, terminators
/// removed; an empty text has no lines, and a final terminator starts none.
pub open spec fn str_lines(s: Seq<char>) -> Seq<Seq<char>>
    decreases s.len(),
{
    if s.len() == 0 {
        seq![]
    } else {
        let j = next_index_of(s, '\n', 0);
        if j < s.len() {
            proof {
                lemma_next_index_of(s, '\n', 0);
            }
            seq![line_text(s.take(j + 1))] + str_lines(s.skip(j + 1))
        } else {
            seq![s]
        }
    }
}

/// Splitting text after a newline splits its lines.
proof fn lemma_str_lines_concat(a: Seq<char>, b: Seq<char>)
    requires
        a.len() == 0 || a.last() == '\n',
    ensures
        str_lines(a + b) == str_lines(a) + str_lines(b),
    decreases a.len(),
{
    if a.len() == 0 {
        assert(a + b =~= b);
        assert(str_lines(a + b) =~= str_lines(a) + str_lines(b));
    } else {
        lemma_next_index_of(a, '\n', 0);
        let j = next_index_of(a, '\n', 0);
        if j >= a.len() {
            assert(a[a.len() - 1] == '\n');
        }
        lemma_next_index_of_prefix(a, b, '\n', 0);
        assert((a + b).take(j + 1) =~= a.take(j + 1));
        if j + 1 == a.len() {
            assert((a + b).skip(j + 1) =~= b);
            assert(a.skip(j + 1).len() == 0);
            assert(str_lines(a.skip(j + 1)) =~= Seq::<Seq<char>>::empty());
        } else {
            assert((a + b).skip(j + 1) =~= a.skip(j + 1) + b);
            assert(a.skip(j + 1).last() == a.last());
            lemma_str_lines_concat(a.skip(j + 1), b);
        }
        assert(str_lines(a + b) =~= str_lines(a) + str_lines(b));
    }
}

/// A piece holding no newline before its last character is a single line.
proof fn lemma_str_lines_single(p: Seq<char>)
    requires
        p.len() > 0,
        forall|k: int| 0 <= k < p.len() - 1 ==> p[k] != '\n',
    ensures
        str_lines(p) == seq![line_text(p)],
{
    lemma_next_index_of(p, '\n', 0);
    let j = next_index_of(p, '\n', 0);
    if j < p.len() {
        assert(j == p.len() - 1);
        assert(p.take(j + 1) =~= p);
        assert(p.skip(j + 1).len() == 0);
        assert(str_lines(p.skip(j + 1)) =~= Seq::<Seq<char>>::empty());
        assert(str_lines(p) =~= seq![line_text(p)]);
    } else {
        assert(line_text(p) == p) by {
            if p.last() == '\n' {
                assert(p[p.len() - 1] == '\n');
            }
        }
    }
}

/// The characters `v[a..b]` as a `String`.
fn string_of_range(v: &Vec<char>, a: usize, b: usize) -> (r: String)
    requires
        a <= b <= v@.len(),
    ensures
        r@ == v@.subrange(a as int, b as int),
{
    let mut w: Vec<char> = Vec::new();
    let mut i = a;
    while i < b
        invariant
            a <= i <= b <= v@.len(),
            w@ == v@.subrange(a as int, i as int),
        decreases b - i,
    {
        w.push(v[i]);
        i += 1;
        assert(w@ =~= v@.subrange(a as int, i as int));
    }
    string_from_chars(&w)
}

/// The lines of `s` (`s.lines()` collected).
pub fn lines_of(s: &str) -> (r: Vec<String>)
    ensures
        views(r@) == str_lines(s@),
{
    let v = chars_of(s);
    let n = v.len();
    let mut r: Vec<String> = Vec::new();
    let mut ls: usize = 0;
    let mut i: usize = 0;
    while i < n
        invariant
            n == v@.len(),
            ls <= i <= n,
            ls == 0 || v@[ls - 1] == '\n',
            forall|k: int| ls <= k < i ==> v@[k] != '\n',
            views(r@) == str_lines(v@.take(ls as int)),
        decreases n - i,
    {
        if v[i] == '\n' {
            let ce = if i > ls && v[i - 1] == '\r' { i - 1 } else { i };
            let line = string_of_range(&v, ls, ce);
            proof {
                let a = v@.take(ls as int);
                let p = v@.subrange(ls as int, i + 1);
                assert(v@.take(i + 1) =~= a + p);
                if ls > 0 {
                    assert(a.last() == v@[ls - 1]);
                }
                lemma_str_lines_concat(a, p);
                assert forall|k: int| 0 <= k < p.len() - 1 implies p[k] != '\n' by {
                    assert(p[k] == v@[ls + k]);
                }
                lemma_str_lines_single(p);
                assert(p.last() == '\n');
                assert(p.drop_last() =~= v@.subrange(ls as int, i as int));
                if i > ls {
                    assert(p.drop_last().last() == v@[i - 1]);
                    if v@[i - 1] == '\r' {
                        assert(p.drop_last().drop_last() =~= v@.subrange(ls as int, i - 1));
                    }
                }
                assert(line_text(p) =~= v@.subrange(ls as int, ce as int));
                assert(views(r@.push(line)) =~= views(r@).push(line@));
            }
            r.push(line);
            ls = i + 1;
        }
        i += 1;
    }
    if ls < n {
        let line = string_of_range(&v, ls, n);
        proof {
            let a = v@.take(ls as int);
            let p = v@.subrange(ls as int, n as int);
            assert(v@ =~= a + p);
            if ls > 0 {
                assert(a.last() == v@[ls - 1]);
            }
            lemma_str_lines_concat(a, p);
            assert forall|k: int| 0 <= k < p.len() - 1 implies p[k] != '\n' by {
                assert(p[k] == v@[ls + k]);
            }
            lemma_str_lines_single(p);
            assert(p.last() == v@[n - 1]);
            assert(line_text(p) =~= p);
            assert(views(r@.push(line)) =~= views(r@).push(line@));
        }
        r.push(line);
    } else {
        assert(v@.take(ls as int) =~= v@);
    }
    r
}

/// What `dispatch_logs` shows of a steered task's rollout: its lines after
/// the first `start_line` (the inherited parent turns), joined with `"\n"`.
/// Unset or non-positive, the text is left as it is.
pub open spec fn trimmed_log(s: Seq<char>, start_line: Option<i64>) -> Seq<char> {
    match start_line {
        Some(n) => if n > 0 {
            let lines = str_lines(s);
            let k = n as usize as int;
            join(lines.skip(if k <= lines.len() { k } else { lines.len() as int }), "\n"@)
        } else {
            s
        },
        None => s,
    }
}

/// Drops the first `start_line` rollout lines of a steered task, so its logs
/// show only the new turn.
pub fn trim_to_start_line(jsonl: String, start_line: Option<i64>) -> (r: String)
    ensures
        r@ == trimmed_log(jsonl@, start_line),
{
    match start_line {
        Some(n) => {
            if n > 0 {
                let k = n as usize;
                let lines = lines_of(jsonl.as_str());
                let skip = if k <= lines.len() { k } else { lines.len() };
                let mut rest: Vec<String> = Vec::new();
                let mut i = skip;
                while i < lines.len()
                    invariant
                        skip <= i <= lines@.len(),
                        rest@ == lines@.subrange(skip as int, i as int),
                    decreases lines@.len() - i,
                {
                    rest.push(lines[i].clone());
                    i += 1;
                    assert(rest@ =~= lines@.subrange(skip as int, i as int));
                }
                assert(views(rest@) =~= views(lines@).skip(skip as int));
                join_strings(&rest, "\n")
            } else {
                jsonl
            }
        },
        None => jsonl,
    }
}

// ── SQLite UTC timestamps ────────────────────────────────

/// The `k`-th piece of `s[from..]` split at `c` (`split(c).nth(k)`), if there
/// are that many.
pub open spec fn piece(s: Seq<char>, c: char, from: int, k: nat) -> Option<Seq<char>>
    decreases k,
{
    let e = next_index_of(s, c, from);
    if k == 0 {
        Some(s.subrange(from, e))
    } else if e < s.len() {
        piece(s, c, e + 1, (k - 1) as nat)
    } else {
        None
    }
}

/// The `k`-th piece of `s` split at `c`, parsed as an `i64`.
pub open spec fn int_piece(s: Seq<char>, c: char, k: nat) -> Option<i64> {
    match piece(s, c, 0, k) {
        Some(p) => parse_i64_spec(p),
        None => None,
    }
}

/// Proleptic Gregorian leap years.
pub open spec fn is_leap(y: int) -> bool {
    (y % 4 == 0 && y % 100 != 0) || y % 400 == 0
}

/// Days from 0001-01-01 to the first of January of year `y`.
pub open spec fn days_before_year(y: int) -> int {
    let p = y - 1;
    365 * p + p / 4 - p / 100 + p / 400
}

/// Days from the first of January to the first of month `m` (1 to 12) of year `y`.
pub open spec fn days_before_month(y: int, m: int) -> int {
    let base: int = if m == 1 {
        0
    } else if m == 2 {
        31
    } else if m == 3 {
        59
    } else if m == 4 {
        90
    } else if m == 5 {
        120
    } else if m == 6 {
        151
    } else if m == 7 {
        181
    } else if m == 8 {
        212
    } else if m == 9 {
        243
    } else if m == 10 {
        273
    } else if m == 11 {
        304
    } else {
        334
    };
    base + if m > 2 && is_leap(y) { 1int } else { 0 }
}

/// Days from 1970-01-01 to the date `y-m-d` (negative before it).
pub open spec fn days_since_epoch(y: int, m: int, d: int) -> int {
    days_before_year(y) + days_before_month(y, m) + d - 1 - days_before_year(1970)
}

/// Seconds from 1970-01-01 00:00:00 UTC to the given UTC date and time.
pub open spec fn epoch_seconds(y: int, mo: int, d: int, h: int, mi: int, se: int) -> int {
    days_since_epoch(y, mo, d) * 86400 + h * 3600 + mi * 60 + se
}

/// The fields name a real date and time of day: a month, a day within that
/// month of that year (leap years counted), an hour, a minute, and a second up
/// to 60 (a leap second).
pub open spec fn fields_in_range(y: int, mo: int, d: int, h: int, mi: int, se: int) -> bool {
    &&& 1 <= mo <= 12
    &&& 1 <= d <= days_in_month(y, mo)
    &&& 0 <= h <= 23
    &&& 0 <= mi <= 59
    &&& 0 <= se <= 60
}

/// A SQLite `datetime('now')` text `"YYYY-MM-DD HH:MM:SS"` (UTC) read as
/// seconds since the Unix epoch. The trimmed text splits at its first space
/// into a date, whose first three `-`-separated pieces are year, month and
/// day, and a time, whose first three `:`-separated pieces are hour, minute
/// and second, each an `i64`. Any malformed or out-of-range field (a day past
/// the end of its month among them), a moment before the epoch, or one beyond
/// `i64::MAX` seconds gives `None`.
pub open spec fn sqlite_utc_seconds(s: Seq<char>) -> Option<u64> {
    let t = trim(s);
    let sp = next_index_of(t, ' ', 0);
    if sp >= t.len() {
        None
    } else {
        let date = t.subrange(0, sp);
        let time = t.subrange(sp + 1, t.len() as int);
        match (
            int_piece(date, '-', 0),
            int_piece(date, '-', 1),
            int_piece(date, '-', 2),
            int_piece(time, ':', 0),
            int_piece(time, ':', 1),
            int_piece(time, ':', 2),
        ) {
            (Some(y), Some(mo), Some(d), Some(h), Some(mi), Some(se)) => {
                if fields_in_range(y as int, mo as int, d as int, h as int, mi as int, se as int) {
                    let secs = epoch_seconds(y as int, mo as int, d as int, h as int, mi as int, se as int);
                    if 0 <= secs <= i64::MAX {
                        Some(secs as u64)
                    } else {
                        None
                    }
                } else {
                    None
                }
            },
            _ => None,
        }
    }
}

/// The `k`-th `c`-separated piece of `v`, parsed as an `i64`.
fn int_piece_of(v: &Vec<char>, c: char, k: usize) -> (r: Option<i64>)
    ensures
        r == int_piece(v@, c, k as nat),
{
    let n = v.len();
    let mut from: usize = 0;
    let mut j: usize = 0;
    while j < k
        invariant
            n == v@.len(),
            j <= k,
            from <= n,
            piece(v@, c, 0, k as nat) == piece(v@, c, from as int, (k - j) as nat),
        decreases k - j,
    {
        let e = find_char_from(v, c, from);
        if e >= n {
            return None;
        }
        proof {
            lemma_next_index_of(v@, c, from as int);
        }
        from = e + 1;
        j += 1;
    }
    let e = find_char_from(v, c, from);
    proof {
        lemma_next_index_of(v@, c, from as int);
    }
    parse_i64_range(v, from, e)
}

/// The characters `v[a..b]`.
fn chars_of_range(v: &Vec<char>, a: usize, b: usize) -> (r: Vec<char>)
    requires
        a <= b <= v@.len(),
    ensures
        r@ == v@.subrange(a as int, b as int),
{
    let mut w: Vec<char> = Vec::new();
    let mut i = a;
    while i < b
        invariant
            a <= i <= b <= v@.len(),
            w@ == v@.subrange(a as int, i as int),
        decreases b - i,
    {
        w.push(v[i]);
        i += 1;
        assert(w@ =~= v@.subrange(a as int, i as int));
    }
    w
}

/// Days from 1970-01-01 computed on the year that starts in March: whole
/// 400-year eras, then the year and day within the era.
spec fn civil_days_by_era(y: int, m: int, d: int) -> int {
    let yy = if m <= 2 { y - 1 } else { y };
    let era = yy / 400;
    let yoe = yy - era * 400;
    let mp = (m + 9) % 12;
    let doy = (153 * mp + 2) / 5 + d - 1;
    let doe = yoe * 365 + yoe / 4 - yoe / 100 + doy;
    era * 146097 + doe - 719468
}

/// The days of the years before year `p + 1`, counted in whole eras.
proof fn lemma_years_by_era(p: int)
    ensures
        days_before_year(p + 1) == (p / 400) * 146097 + (p - (p / 400) * 400) * 365 + (p - (p
            / 400) * 400) / 4 - (p - (p / 400) * 400) / 100,
{
    let e = p / 400;
    let r = p - e * 400;
    assert(0 <= r < 400);
    assert(p / 4 == 100 * e + r / 4);
    assert(p / 100 == 4 * e + r / 100);
}

/// A year has 365 days, 366 in a leap year.
proof fn lemma_year_length(y: int)
    ensures
        days_before_year(y + 1) == days_before_year(y) + 365 + if is_leap(y) { 1int } else { 0 },
{
    lemma_div_step(y, 4);
    lemma_div_step(y, 100);
    lemma_div_step(y, 400);
    if y % 400 == 0 {
        assert(y % 100 == 0) by {
            lemma_mod_of_multiple(y, 100, 4);
        }
        assert(y % 4 == 0) by {
            lemma_mod_of_multiple(y, 4, 100);
        }
    } else if y % 100 == 0 {
        assert(y % 4 == 0) by {
            lemma_mod_of_multiple(y, 4, 25);
        }
    }
}

/// Stepping `y - 1` to `y` raises `y / k` exactly when `k` divides `y`.
proof fn lemma_div_step(y: int, k: int)
    requires
        k > 0,
    ensures
        y / k - (y - 1) / k == if y % k == 0 { 1int } else { 0 },
{
    lemma_fundamental_div_mod(y, k);
    lemma_fundamental_div_mod(y - 1, k);
    lemma_mod_bound(y, k);
    lemma_mod_bound(y - 1, k);
    let t = y / k - (y - 1) / k;
    assert(k * t == 1 - y % k + (y - 1) % k) by (nonlinear_arith)
        requires
            y == k * (y / k) + y % k,
            y - 1 == k * ((y - 1) / k) + (y - 1) % k,
            t == y / k - (y - 1) / k,
    ;
    assert(t >= 2 ==> k * t >= 2 * k) by (nonlinear_arith)
        requires
            k > 0,
    ;
    assert(t <= -1 ==> k * t <= -k) by (nonlinear_arith)
        requires
            k > 0,
    ;
    assert(t == 1 ==> k * t == k) by (nonlinear_arith);
    assert(t == 0 ==> k * t == 0) by (nonlinear_arith);
}

/// A multiple of `a * b` is a multiple of `a`.
proof fn lemma_mod_of_multiple(y: int, a: int, b: int)
    requires
        a > 0,
        b > 0,
        y % (a * b) == 0,
    ensures
        y % a == 0,
{
    assert(a * b > 0) by (nonlinear_arith)
        requires
            a > 0,
            b > 0,
    ;
    lemma_fundamental_div_mod(y, a * b);
    let q = y / (a * b);
    assert(y == (b * q) * a) by (nonlinear_arith)
        requires
            y == (a * b) * q + y % (a * b),
            y % (a * b) == 0,
    ;
    lemma_mod_multiples_basic(b * q, a);
}

/// The era computation counts the same days as the calendar definition.
proof fn lemma_civil_days(y: int, m: int, d: int)
    requires
        1 <= m <= 12,
    ensures
        civil_days_by_era(y, m, d) == days_since_epoch(y, m, d),
{
    let yy = if m <= 2 { y - 1 } else { y };
    lemma_years_by_era(yy);
    lemma_year_length(y);
    lemma_year_length(y - 1);
    assert(days_before_year(1970) == 719162);
    let mp = (m + 9) % 12;
    if m == 1 {
        assert(mp == 10);
    } else if m == 2 {
        assert(mp == 11);
    } else {
        assert(mp == m - 3);
    }
}

/// Whether `y` is a leap year.
fn leap_year(y: i64) -> (r: bool)
    ensures
        r == is_leap(y as int),
{
    let a: i128 = if y >= 0 { y as i128 } else { 0 - (y as i128) };
    proof {
        if y < 0 {
            lemma_divisible_neg(y as int, 4);
            lemma_divisible_neg(y as int, 100);
            lemma_divisible_neg(y as int, 400);
        }
    }
    (a % 4 == 0 && a % 100 != 0) || a % 400 == 0
}

/// `k` divides `y` exactly when it divides `-y`.
proof fn lemma_divisible_neg(y: int, k: int)
    requires
        k > 0,
    ensures
        (y % k == 0) == ((-y) % k == 0),
{
    lemma_fundamental_div_mod(y, k);
    lemma_fundamental_div_mod(-y, k);
    if y % k == 0 {
        let q = y / k;
        assert(-y == (-q) * k + 0) by (nonlinear_arith)
            requires
                y == k * q + 0,
        ;
        lemma_fundamental_div_mod_converse(-y, k, -q, 0);
    }
    if (-y) % k == 0 {
        let q = (-y) / k;
        assert(y == (-q) * k + 0) by (nonlinear_arith)
            requires
                -y == k * q + 0,
        ;
        lemma_fundamental_div_mod_converse(y, k, -q, 0);
    }
}

/// The number of days of month `m` (1 to 12) of year `y`.
fn month_length(y: i64, m: i64) -> (r: i64)
    requires
        1 <= m <= 12,
    ensures
        r == days_in_month(y as int, m as int),
{
    if m == 2 {
        if leap_year(y) { 29 } else { 28 }
    } else if m == 4 || m == 6 || m == 9 || m == 11 {
        30
    } else {
        31
    }
}

/// Days from 1970-01-01 to `y-m-d`.
fn civil_days(y: i64, m: i64, d: i64) -> (r: i128)
    requires
        1 <= m <= 12,
        1 <= d <= 31,
    ensures
        r == days_since_epoch(y as int, m as int, d as int),
        -0x1_0000_0000_0000_0000_0000 <= r <= 0x1_0000_0000_0000_0000_0000,
{
    let yy: i128 = if m <= 2 { y as i128 - 1 } else { y as i128 };
    let era: i128 = if yy >= 0 { yy / 400 } else { 0 - ((0 - yy + 399) / 400) };
    assert(era == yy / 400);
    let yoe: i128 = yy - era * 400;
    let mp: i128 = (m as i128 + 9) % 12;
    let doy: i128 = (153 * mp + 2) / 5 + d as i128 - 1;
    let doe: i128 = yoe * 365 + yoe / 4 - yoe / 100 + doy;
    let days: i128 = era * 146097 + doe - 719468;
    proof {
        lemma_civil_days(y as int, m as int, d as int);
    }
    days
}

/// Reads a SQLite `datetime('now')` text ("YYYY-MM-DD HH:MM:SS", UTC) as
/// seconds since the Unix epoch; `None` on any malformed field.
pub fn parse_sqlite_utc(s: &str) -> (r: Option<u64>)
    ensures
        r == sqlite_utc_seconds(s@),
{
    let t = chars_of(trim_str(s));
    let n = t.len();
    let sp = find_char_from(&t, ' ', 0);
    if sp >= n {
        return None;
    }
    proof {
        lemma_next_index_of(t@, ' ', 0);
    }
    let date = chars_of_range(&t, 0, sp);
    let time = chars_of_range(&t, sp + 1, n);
    let oy = int_piece_of(&date, '-', 0);
    let omo = int_piece_of(&date, '-', 1);
    let oda = int_piece_of(&date, '-', 2);
    let oh = int_piece_of(&time, ':', 0);
    let omi = int_piece_of(&time, ':', 1);
    let ose = int_piece_of(&time, ':', 2);
    match (oy, omo, oda, oh, omi, ose) {
        (Some(y), Some(mo), Some(da), Some(h), Some(mi), Some(se)) => {
            if !(1 <= mo && mo <= 12 && 1 <= da && da <= 31 && 0 <= h && h <= 23 && 0 <= mi
                && mi <= 59 && 0 <= se && se <= 60) {
                return None;
            }
            if da > month_length(y, mo) {
                return None;
            }
            let days = civil_days(y, mo, da);
            let secs: i128 = days * 86400 + (h as i128) * 3600 + (mi as i128) * 60 + se as i128;
            if secs < 0 || secs > 0x7fff_ffff_ffff_ffff {
                None
            } else {
                Some(secs as u64)
            }
        },
        _ => None,
    }
}

// ── timestamp order ──────────────────────────────────────

/// The number of days of month `m` of year `y`.
pub open spec fn days_in_month(y: int, m: int) -> int {
    if m == 2 {
        if is_leap(y) { 29 } else { 28 }
    } else if m == 4 || m == 6 || m == 9 || m == 11 {
        30
    } else {
        31
    }
}

/// A calendar timestamp (year, month, day, hour, minute, second) naming a
/// real moment: a day within its month and a second below 60.
pub open spec fn valid_timestamp(t: (int, int, int, int, int, int)) -> bool {
    &&& 1 <= t.1 <= 12
    &&& 1 <= t.2 <= days_in_month(t.0, t.1)
    &&& 0 <= t.3 <= 23
    &&& 0 <= t.4 <= 59
    &&& 0 <= t.5 <= 59
}

/// `a` comes before `b` field by field, most significant first.
pub open spec fn timestamp_before(
    a: (int, int, int, int, int, int),
    b: (int, int, int, int, int, int),
) -> bool {
    ||| a.0 < b.0
    ||| a.0 == b.0 && a.1 < b.1
    ||| a.0 == b.0 && a.1 == b.1 && a.2 < b.2
    ||| a.0 == b.0 && a.1 == b.1 && a.2 == b.2 && a.3 < b.3
    ||| a.0 == b.0 && a.1 == b.1 && a.2 == b.2 && a.3 == b.3 && a.4 < b.4
    ||| a.0 == b.0 && a.1 == b.1 && a.2 == b.2 && a.3 == b.3 && a.4 == b.4 && a.5 < b.5
}

pub open spec fn seconds_of(t: (int, int, int, int, int, int)) -> int {
    epoch_seconds(t.0, t.1, t.2, t.3, t.4, t.5)
}

proof fn lemma_days_before_year_mono(a: int, b: int)
    requires
        a <= b,
    ensures
        days_before_year(a) <= days_before_year(b),
        a < b ==> days_before_year(a) + 365 <= days_before_year(b),
    decreases b - a,
{
    if a < b {
        lemma_year_length(a);
        lemma_days_before_year_mono(a + 1, b);
    }
}

/// Within a year, a later date has more days before it.
proof fn lemma_day_of_year_mono(y: int, m1: int, d1: int, m2: int, d2: int)
    requires
        1 <= m1 <= 12,
        1 <= m2 <= 12,
        1 <= d1 <= days_in_month(y, m1),
        1 <= d2,
        m1 < m2 || (m1 == m2 && d1 < d2),
    ensures
        days_before_month(y, m1) + d1 < days_before_month(y, m2) + d2,
{
}

/// The last day of a year comes before any day of a later year.
proof fn lemma_day_of_year_bound(y: int, m: int, d: int)
    requires
        1 <= m <= 12,
        1 <= d <= days_in_month(y, m),
    ensures
        days_before_month(y, m) + d <= 365 + if is_leap(y) { 1int } else { 0 },
{
}

/// Reading timestamps keeps their order: of two real moments, the one that
/// comes first field by field is fewer seconds after the epoch.
pub proof fn law_epoch_seconds_ordered(
    a: (int, int, int, int, int, int),
    b: (int, int, int, int, int, int),
)
    requires
        valid_timestamp(a),
        valid_timestamp(b),
        timestamp_before(a, b),
    ensures
        seconds_of(a) < seconds_of(b),
{
    let da = days_since_epoch(a.0, a.1, a.2);
    let db = days_since_epoch(b.0, b.1, b.2);
    if a.0 < b.0 {
        lemma_day_of_year_bound(a.0, a.1, a.2);
        lemma_year_length(a.0);
        lemma_days_before_year_mono(a.0 + 1, b.0);
        assert(da < db);
    } else if a.0 == b.0 && (a.1 < b.1 || (a.1 == b.1 && a.2 < b.2)) {
        lemma_day_of_year_mono(a.0, a.1, a.2, b.1, b.2);
        assert(da < db);
    } else {
        assert(da == db);
    }
}

// ── guards ───────────────────────────────────────────────

/// The sandbox a request selects: its trimmed value, or `workspace-write`
/// when absent or blank.
pub open spec fn sandbox_choice(s: Option<Seq<char>>) -> Seq<char> {
    match s {
        Some(x) => if blank(x) { "workspace-write"@ } else { trim(x) },
        None => "workspace-write"@,
    }
}

pub open spec fn danger_disabled_error() -> Seq<char> {
    "sandbox 'danger-full-access' is disabled on this server. Set DISPATCH_ALLOW_DANGER=1 to permit running codex with no sandbox."@
}

pub open spec fn invalid_sandbox_error(s: Seq<char>) -> Seq<char> {
    "invalid sandbox "@ + debug_form(s)
        + "; allowed: read-only, workspace-write (or danger-full-access if the server enables it)"@
}

/// The sandbox ceiling: `workspace-write` (the default) and `read-only` are
/// always allowed; `danger-full-access` only when the server enables it.
pub open spec fn sandbox_verdict(s: Option<Seq<char>>, allow_danger: bool) -> Result<Seq<char>, Seq<char>> {
    let c = sandbox_choice(s);
    if c == "read-only"@ || c == "workspace-write"@ {
        Ok(c)
    } else if c == "danger-full-access"@ {
        if allow_danger {
            Ok(c)
        } else {
            Err(danger_disabled_error())
        }
    } else {
        Err(invalid_sandbox_error(c))
    }
}

pub open spec fn opt_view(s: Option<&str>) -> Option<Seq<char>> {
    match s {
        Some(x) => Some(x@),
        None => None,
    }
}

/// Applies the sandbox ceiling to a requested sandbox.
pub fn check_sandbox(s: Option<&str>, allow_danger: bool) -> (r: Result<String, String>)
    ensures
        result_view(r) == sandbox_verdict(opt_view(s), allow_danger),
{
    let c: &str = match s {
        Some(x) => {
            let t = trim_str(x);
            if t.is_empty() {
                "workspace-write"
            } else {
                t
            }
        },
        None => "workspace-write",
    };
    assert(c@ == sandbox_choice(opt_view(s)));
    if str_eq(c, "read-only") || str_eq(c, "workspace-write") {
        Ok(String::from_str(c))
    } else if str_eq(c, "danger-full-access") {
        if allow_danger {
            Ok(String::from_str(c))
        } else {
            Err(
                String::from_str(
                    "sandbox 'danger-full-access' is disabled on this server. Set DISPATCH_ALLOW_DANGER=1 to permit running codex with no sandbox.",
                ),
            )
        }
    } else {
        let mut m = String::from_str("invalid sandbox ");
        m.append(debug_str(c).as_str());
        m.append(
            "; allowed: read-only, workspace-write (or danger-full-access if the server enables it)",
        );
        Err(m)
    }
}

/// Whether the path is absolute, by the host platform's path syntax:
/// `std::path::Path::is_absolute`. On Unix that is a path that starts at the
/// root `/`; on Windows one with a prefix and a root (`C:\x`, a UNC path).
/// The answer depends on the platform the library is built for, so nothing is
/// stated of it.
#[verifier::external_body]
fn path_is_absolute(p: &str) -> bool {
    std::path::Path::new(p).is_absolute()
}

/// Whether the requested working directory (trimmed) is an absolute path on
/// this platform: the input `absolute` of `check_working_dir` and
/// `plan_submit`.
pub fn working_dir_is_absolute(raw: &str) -> bool {
    path_is_absolute(trim_str(raw))
}

/// `path` lies under the project root or one of the extra allowlisted roots.
pub open spec fn within_roots(path: Seq<char>, project_root: Seq<char>, extra_roots: Seq<Seq<char>>) -> bool {
    path_starts_with_spec(path, project_root)
        || exists|i: int| 0 <= i < extra_roots.len() && path_starts_with_spec(path, #[trigger] extra_roots[i])
}

pub open spec fn outside_roots_error(path: Seq<char>, project_root: Seq<char>) -> Seq<char> {
    "working_dir "@ + path + " is outside the project root ("@ + project_root
        + ") and any allowlisted root. dispatch only delegates within the project tree by default; if you intend this, add the root to the DISPATCH_EXTRA_ROOTS env var (an OS-path-list of absolute paths) for this server."@
}

/// The containment guard on a write-capable run: `raw` (trimmed) must be
/// absolute (`absolute`) and resolve (`canonical`, the resolved path or the resolution
/// error) to a directory (`is_dir`) under the project root or an extra root.
pub open spec fn working_dir_verdict(
    raw: Seq<char>,
    absolute: bool,
    canonical: Result<Seq<char>, Seq<char>>,
    is_dir: bool,
    project_root: Seq<char>,
    extra_roots: Seq<Seq<char>>,
) -> Result<Seq<char>, Seq<char>> {
    let r = trim(raw);
    if !absolute {
        Err("working_dir must be an absolute path, got "@ + debug_form(r))
    } else {
        match canonical {
            Err(e) => Err("working_dir "@ + debug_form(r) + " cannot be resolved (does it exist?): "@ + e),
            Ok(c) => if !is_dir {
                Err("working_dir "@ + c + " is not a directory"@)
            } else if within_roots(c, project_root, extra_roots) {
                Ok(c)
            } else {
                Err(outside_roots_error(c, project_root))
            },
        }
    }
}

/// Checks a requested working directory. `absolute` says whether `raw.trim()`
/// is an absolute path (`working_dir_is_absolute`), `canonical` is `raw.trim()`
/// canonicalized on disk (or the error text), `is_dir` whether that path is a
/// directory; the roots are canonical too.
pub fn check_working_dir(
    raw: &str,
    absolute: bool,
    canonical: Result<String, String>,
    is_dir: bool,
    project_root: &str,
    extra_roots: &Vec<String>,
) -> (r: Result<String, String>)
    ensures
        result_view(r) == working_dir_verdict(
            raw@,
            absolute,
            result_view(canonical),
            is_dir,
            project_root@,
            views(extra_roots@),
        ),
{
    let t = trim_str(raw);
    if !absolute {
        let mut m = String::from_str("working_dir must be an absolute path, got ");
        m.append(debug_str(t).as_str());
        return Err(m);
    }
    match canonical {
        Err(e) => {
            let mut m = String::from_str("working_dir ");
            m.append(debug_str(t).as_str());
            m.append(" cannot be resolved (does it exist?): ");
            m.append(e.as_str());
            Err(m)
        },
        Ok(c) => {
            if !is_dir {
                let mut m = String::from_str("working_dir ");
                m.append(c.as_str());
                m.append(" is not a directory");
                return Err(m);
            }
            let mut allowed = path_starts_with(c.as_str(), project_root);
            let mut i: usize = 0;
            while i < extra_roots.len() && !allowed
                invariant
                    i <= extra_roots@.len(),
                    allowed == (path_starts_with_spec(c@, project_root@) || exists|j: int|
                        0 <= j < i && path_starts_with_spec(c@, #[trigger] views(extra_roots@)[j])),
                decreases extra_roots@.len() - i,
            {
                allowed = path_starts_with(c.as_str(), extra_roots[i].as_str());
                assert(views(extra_roots@)[i as int] == extra_roots@[i as int]@);
                i += 1;
            }
            proof {
                if !allowed {
                    assert(i == extra_roots@.len());
                }
            }
            if allowed {
                Ok(c)
            } else {
                let mut m = String::from_str("working_dir ");
                m.append(c.as_str());
                m.append(" is outside the project root (");
                m.append(project_root);
                m.append(
                    ") and any allowlisted root. dispatch only delegates within the project tree by default; if you intend this, add the root to the DISPATCH_EXTRA_ROOTS env var (an OS-path-list of absolute paths) for this server.",
                );
                Err(m)
            }
        },
    }
}

// ── task statuses and replies ────────────────────────────

/// A task still in flight: `queued` or `running` (the other statuses,
/// succeeded / failed / cancelled / interrupted, are terminal).
pub open spec fn is_active_status(s: Seq<char>) -> bool {
    s == "queued"@ || s == "running"@
}

pub fn is_active(status: &str) -> (r: bool)
    ensures
        r == is_active_status(status@),
{
    str_eq(status, "queued") || str_eq(status, "running")
}

/// `no task with id {id:?}`.
pub fn no_such_task_message(id: &str) -> (r: String)
    ensures
        r@ == "no task with id "@ + debug_form(id@),
{
    let mut m = String::from_str("no task with id ");
    m.append(debug_str(id).as_str());
    m
}

/// `db error: {e}`.
pub fn db_error_message(e: &str) -> (r: String)
    ensures
        r@ == "db error: "@ + e@,
{
    let mut m = String::from_str("db error: ");
    m.append(e);
    m
}

// ── dispatch_submit ──────────────────────────────────────

/// The parameters of `dispatch_submit` that the server itself reads (the
/// rest of the step spec goes into the rendered prompt).
pub struct SubmitParams {
    pub objective: String,
    pub working_dir: String,
    pub backend: Option<String>,
    pub sandbox: Option<String>,
    pub allow_concurrent: Option<bool>,
    pub plan_id: Option<String>,
    pub title: Option<String>,
    pub model: Option<String>,
    pub reasoning_effort: Option<String>,
    pub skip_git_repo_check: Option<bool>,
}

/// What an accepted submission runs with.
pub struct SubmitPlan {
    pub backend: Backend,
    /// The canonical working directory.
    pub working_dir: String,
    pub sandbox: String,
    /// The directory on which only one active run is allowed, unless
    /// concurrent runs were asked for.
    pub enforce_dir: Option<String>,
    pub plan_id: Option<String>,
    pub title: Option<String>,
    pub model: Option<String>,
    pub reasoning_effort: Option<String>,
    pub skip_git_repo_check: bool,
}

pub open spec fn opt_string_view(o: Option<String>) -> Option<Seq<char>> {
    match o {
        Some(s) => Some(s@),
        None => None,
    }
}

/// `o` unless blank, viewed as characters.
pub open spec fn nonempty_view(o: Option<String>) -> Option<Seq<char>> {
    match o {
        Some(s) => if blank(s@) { None } else { Some(s@) },
        None => None,
    }
}

/// The backend parameter as text (absent reads as the empty string).
pub open spec fn backend_text(o: Option<String>) -> Seq<char> {
    match o {
        Some(s) => s@,
        None => ""@,
    }
}

/// The error a submission is refused with, if any, in the order the server
/// checks: objective, working_dir, backend, the containment guard, the
/// sandbox, and, unless concurrent runs are asked for, another run already
/// active in the resolved directory (`active_in_dir`, that run's id).
pub open spec fn submit_error(
    p: SubmitParams,
    absolute: bool,
    canonical: Result<Seq<char>, Seq<char>>,
    is_dir: bool,
    project_root: Seq<char>,
    extra_roots: Seq<Seq<char>>,
    allow_danger: bool,
    active_in_dir: Option<Seq<char>>,
) -> Option<(ErrCode, Seq<char>)> {
    if blank(p.objective@) {
        Some((ErrCode::InvalidParams, "objective is required"@))
    } else if blank(p.working_dir@) {
        Some((ErrCode::InvalidParams, "working_dir is required"@))
    } else if parse_backend(backend_text(p.backend)) is None {
        Some(
            (
                ErrCode::UnknownBackend,
                "unknown backend "@ + debug_form(backend_text(p.backend)) + "; supported: codex"@,
            ),
        )
    } else {
        match working_dir_verdict(p.working_dir@, absolute, canonical, is_dir, project_root, extra_roots) {
            Err(e) => Some((ErrCode::InvalidWorkingDir, e)),
            Ok(wd) => match sandbox_verdict(opt_string_view(p.sandbox), allow_danger) {
                Err(e) => Some((ErrCode::SandboxForbidden, e)),
                Ok(_) => match active_in_dir {
                    Some(existing) => if p.allow_concurrent == Some(true) {
                        None
                    } else {
                        Some((ErrCode::DirBusy, dir_busy_text(existing, wd)))
                    },
                    None => None,
                },
            },
        }
    }
}

/// The plan of an accepted submission whose working directory resolved to `wd`.
pub open spec fn submit_plan_ok(p: SubmitParams, wd: Seq<char>, plan: SubmitPlan) -> bool {
    &&& plan.backend == parse_backend(backend_text(p.backend)).unwrap()
    &&& plan.working_dir@ == wd
    &&& plan.sandbox@ == sandbox_choice(opt_string_view(p.sandbox))
    &&& opt_string_view(plan.enforce_dir) == (if p.allow_concurrent == Some(true) {
        None
    } else {
        Some(wd)
    })
    &&& opt_string_view(plan.plan_id) == nonempty_view(p.plan_id)
    &&& opt_string_view(plan.title) == nonempty_view(p.title)
    &&& opt_string_view(plan.model) == nonempty_view(p.model)
    &&& opt_string_view(plan.reasoning_effort) == nonempty_view(p.reasoning_effort)
    &&& plan.skip_git_repo_check == (p.skip_git_repo_check == Some(true))
}

/// Validates a submission and settles what it runs with. `absolute`,
/// `canonical` and `is_dir` describe `p.working_dir.trim()` resolved on disk (see
/// `check_working_dir`).
pub fn plan_submit(
    p: SubmitParams,
    absolute: bool,
    canonical: Result<String, String>,
    is_dir: bool,
    project_root: &str,
    extra_roots: &Vec<String>,
    allow_danger: bool,
    active_in_dir: Option<String>,
) -> (r: Result<SubmitPlan, (ErrCode, String)>)
    ensures
        match r {
            Err((code, msg)) => submit_error(
                p,
                absolute,
                result_view(canonical),
                is_dir,
                project_root@,
                views(extra_roots@),
                allow_danger,
                opt_string_view(active_in_dir),
            ) == Some((code, msg@)),
            Ok(plan) => submit_error(
                p,
                absolute,
                result_view(canonical),
                is_dir,
                project_root@,
                views(extra_roots@),
                allow_danger,
                opt_string_view(active_in_dir),
            ) is None && (match result_view(canonical) {
                Ok(wd) => submit_plan_ok(p, wd, plan),
                Err(_) => false,
            }),
        },
{
    if trim_str(p.objective.as_str()).is_empty() {
        return Err((ErrCode::InvalidParams, String::from_str("objective is required")));
    }
    if trim_str(p.working_dir.as_str()).is_empty() {
        return Err((ErrCode::InvalidParams, String::from_str("working_dir is required")));
    }
    let btext: &str = match &p.backend {
        Some(b) => b.as_str(),
        None => "",
    };
    let backend = match Backend::parse(btext) {
        Some(b) => b,
        None => {
            let mut m = String::from_str("unknown backend ");
            m.append(debug_str(btext).as_str());
            m.append("; supported: codex");
            return Err((ErrCode::UnknownBackend, m));
        },
    };
    let wd = match check_working_dir(p.working_dir.as_str(), absolute, canonical, is_dir, project_root, extra_roots) {
        Ok(c) => c,
        Err(e) => return Err((ErrCode::InvalidWorkingDir, e)),
    };
    let sb: Option<&str> = match &p.sandbox {
        Some(x) => Some(x.as_str()),
        None => None,
    };
    assert(opt_view(sb) == opt_string_view(p.sandbox));
    let sandbox = match check_sandbox(sb, allow_danger) {
        Ok(x) => x,
        Err(e) => return Err((ErrCode::SandboxForbidden, e)),
    };
    let allow_concurrent = match p.allow_concurrent {
        Some(b) => b,
        None => false,
    };
    if !allow_concurrent {
        if let Some(existing) = active_in_dir {
            return Err((ErrCode::DirBusy, dir_busy_message(existing.as_str(), wd.as_str())));
        }
    }
    let enforce_dir = if allow_concurrent {
        None
    } else {
        Some(wd.clone())
    };
    let skip = match p.skip_git_repo_check {
        Some(b) => b,
        None => false,
    };
    let SubmitParams { plan_id, title, model, reasoning_effort, .. } = p;
    Ok(
        SubmitPlan {
            backend,
            working_dir: wd,
            sandbox,
            enforce_dir,
            plan_id: nonempty(plan_id),
            title: nonempty(title),
            model: nonempty(model),
            reasoning_effort: nonempty(reasoning_effort),
            skip_git_repo_check: skip,
        },
    )
}

/// The refusal when another run is active on the directory.
pub open spec fn dir_busy_text(existing: Seq<char>, working_dir: Seq<char>) -> Seq<char> {
    "a dispatch ("@ + existing + ") is already active for "@ + working_dir
        + "; wait for it, cancel it, or pass allow_concurrent=true to override"@
}

/// The refusal when another run is active on the directory.
pub fn dir_busy_message(existing: &str, working_dir: &str) -> (r: String)
    ensures
        r@ == dir_busy_text(existing@, working_dir@),
{
    let mut m = String::from_str("a dispatch (");
    m.append(existing);
    m.append(") is already active for ");
    m.append(working_dir);
    m.append("; wait for it, cancel it, or pass allow_concurrent=true to override");
    m
}

// ── dispatch_cancel ──────────────────────────────────────

/// What `dispatch_cancel` acts on.
#[derive(Debug, Clone, PartialEq, Eq)]
pub enum CancelTarget {
    /// One task, by id.
    Task(String),
    /// Every active task of a plan.
    Plan(String),
}

/// The target of a cancel request: exactly one of `id` and `plan_id`
/// (each trimmed; blank counts as absent).
pub open spec fn cancel_target_spec(id: Option<String>, plan_id: Option<String>) -> Result<
    (bool, Seq<char>),
    Seq<char>,
> {
    let i = nonempty_view(id);
    let pl = nonempty_view(plan_id);
    match (i, pl) {
        (Some(x), None) => Ok((true, trim(x))),
        (None, Some(y)) => Ok((false, trim(y))),
        (Some(_), Some(_)) => Err("pass exactly one of id or plan_id, not both"@),
        (None, None) => Err("pass either id or plan_id to cancel"@),
    }
}

pub open spec fn cancel_target_view(t: CancelTarget) -> (bool, Seq<char>) {
    match t {
        CancelTarget::Task(s) => (true, s@),
        CancelTarget::Plan(s) => (false, s@),
    }
}

/// Picks what to cancel; a request naming both targets or neither is refused
/// as `InvalidParams`.
pub fn cancel_target(id: &Option<String>, plan_id: &Option<String>) -> (r: Result<
    CancelTarget,
    (ErrCode, String),
>)
    ensures
        match r {
            Ok(t) => cancel_target_spec(*id, *plan_id) == Ok::<(bool, Seq<char>), Seq<char>>(
                cancel_target_view(t),
            ),
            Err((code, e)) => code == ErrCode::InvalidParams && cancel_target_spec(*id, *plan_id)
                == Err::<(bool, Seq<char>), Seq<char>>(e@),
        },
{
    match (nonempty_ref(id), nonempty_ref(plan_id)) {
        (Some(i), None) => Ok(CancelTarget::Task(String::from_str(i))),
        (None, Some(pl)) => Ok(CancelTarget::Plan(String::from_str(pl))),
        (Some(_), Some(_)) => Err(
            (
                ErrCode::InvalidParams,
                String::from_str("pass exactly one of id or plan_id, not both"),
            ),
        ),
        (None, None) => Err(
            (ErrCode::InvalidParams, String::from_str("pass either id or plan_id to cancel")),
        ),
    }
}

/// The reply to cancelling one task with status `status`: nothing to do
/// when it is no longer active; otherwise whether this server could signal it.
pub open spec fn cancel_reply(id: Seq<char>, status: Seq<char>, signalled: bool) -> Seq<char> {
    if !is_active_status(status) {
        "task "@ + id + " is already "@ + status + " — nothing to cancel"@
    } else if signalled {
        "cancellation requested for "@ + id + "; it will transition to cancelled shortly"@
    } else {
        "task "@ + id + " is "@ + status
            + " but is not running under this server instance (another session may own it) — cannot cancel it from here"@
    }
}

/// The text answer to cancelling task `id` of status `status`; `signalled`
/// says whether this server owned the run and fired its cancellation (it is
/// not consulted for an inactive task).
pub fn cancel_task_reply(id: &str, status: &str, signalled: bool) -> (r: String)
    ensures
        r@ == cancel_reply(id@, status@, signalled),
{
    if !is_active(status) {
        let mut m = String::from_str("task ");
        m.append(id);
        m.append(" is already ");
        m.append(status);
        m.append(" — nothing to cancel");
        m
    } else if signalled {
        let mut m = String::from_str("cancellation requested for ");
        m.append(id);
        m.append("; it will transition to cancelled shortly");
        m
    } else {
        let mut m = String::from_str("task ");
        m.append(id);
        m.append(" is ");
        m.append(status);
        m.append(
            " but is not running under this server instance (another session may own it) — cannot cancel it from here",
        );
        m
    }
}

/// `no active tasks in plan {plan:?}`.
pub fn no_active_in_plan_message(plan: &str) -> (r: String)
    ensures
        r@ == "no active tasks in plan "@ + debug_form(plan@),
{
    let mut m = String::from_str("no active tasks in plan ");
    m.append(debug_str(plan).as_str());
    m
}

/// The ids whose flag is `keep`, in order.
pub open spec fn select(outcomes: Seq<(String, bool)>, keep: bool) -> Seq<Seq<char>>
    decreases outcomes.len(),
{
    if outcomes.len() == 0 {
        seq![]
    } else {
        let rest = select(outcomes.drop_last(), keep);
        if outcomes.last().1 == keep {
            rest.push(outcomes.last().0@)
        } else {
            rest
        }
    }
}

/// Splits a plan's active ids by whether this server fired their
/// cancellation (each id with that outcome): (cancelled, not owned here).
pub fn split_by_signal(outcomes: &Vec<(String, bool)>) -> (r: (Vec<String>, Vec<String>))
    ensures
        views(r.0@) == select(outcomes@, true),
        views(r.1@) == select(outcomes@, false),
{
    let mut yes: Vec<String> = Vec::new();
    let mut no: Vec<String> = Vec::new();
    let mut i: usize = 0;
    while i < outcomes.len()
        invariant
            i <= outcomes@.len(),
            views(yes@) == select(outcomes@.take(i as int), true),
            views(no@) == select(outcomes@.take(i as int), false),
        decreases outcomes@.len() - i,
    {
        assert(outcomes@.take(i + 1).drop_last() =~= outcomes@.take(i as int));
        let id = outcomes[i].0.clone();
        if outcomes[i].1 {
            assert(views(yes@.push(id)) =~= views(yes@).push(id@));
            yes.push(id);
        } else {
            assert(views(no@.push(id)) =~= views(no@).push(id@));
            no.push(id);
        }
        i += 1;
    }
    assert(outcomes@.take(i as int) =~= outcomes@);
    (yes, no)
}

// ── dispatch_wait and dispatch_steer polling ─────────────

/// `dispatch_wait` timeout bounds, in milliseconds: the long-poll is bounded,
/// never an unbounded block, so a held call cannot outlive the client's own
/// request timeout.
pub const WAIT_MAX_TIMEOUT_MS: u64 = 120000;
pub const WAIT_DEFAULT_TIMEOUT_MS: u64 = 30000;
pub const WAIT_POLL_INTERVAL_MS: u64 = 300;
/// How long `dispatch_steer` waits for the parent run to terminate after cancel.
pub const STEER_TERMINATE_WAIT_MS: u64 = 30000;
/// Sleep between `dispatch_steer`'s termination checks.
pub const STEER_POLL_INTERVAL_MS: u64 = 200;

/// The `dispatch_wait` timeout: the requested value (as `u64`, so a negative
/// one wraps high) clamped to `[300, 120000]`, else 30000.
pub open spec fn wait_timeout_spec(t: Option<i64>) -> u64 {
    match t {
        Some(v) => {
            let u = v as u64;
            if u < WAIT_POLL_INTERVAL_MS {
                WAIT_POLL_INTERVAL_MS
            } else if u > WAIT_MAX_TIMEOUT_MS {
                WAIT_MAX_TIMEOUT_MS
            } else {
                u
            }
        },
        None => WAIT_DEFAULT_TIMEOUT_MS,
    }
}

pub fn wait_timeout_ms(t: Option<i64>) -> (r: u64)
    ensures
        r == wait_timeout_spec(t),
        WAIT_POLL_INTERVAL_MS <= r <= WAIT_MAX_TIMEOUT_MS,
{
    match t {
        Some(v) => {
            let u = v as u64;
            if u < WAIT_POLL_INTERVAL_MS {
                WAIT_POLL_INTERVAL_MS
            } else if u > WAIT_MAX_TIMEOUT_MS {
                WAIT_MAX_TIMEOUT_MS
            } else {
                u
            }
        },
        None => WAIT_DEFAULT_TIMEOUT_MS,
    }
}

/// The next move of a polling loop.
#[derive(Debug, Clone, Copy, PartialEq, Eq, Structural)]
pub enum PollStep {
    /// The task reached a terminal status.
    Finished,
    /// The time budget is spent while the task is still active.
    TimedOut,
    /// Sleep one interval and look again.
    Again,
}

/// One round of `dispatch_wait`, after reading the task: done when it is no
/// longer active, timed out once `waited_ms` reached the timeout, else again.
pub fn wait_poll(active: bool, waited_ms: u64, timeout_ms: u64) -> (r: PollStep)
    ensures
        r == (if !active {
            PollStep::Finished
        } else if waited_ms >= timeout_ms {
            PollStep::TimedOut
        } else {
            PollStep::Again
        }),
{
    if !active {
        PollStep::Finished
    } else if waited_ms >= timeout_ms {
        PollStep::TimedOut
    } else {
        PollStep::Again
    }
}

/// One round of `dispatch_steer`'s wait for the cancelled parent, after a
/// sleep that brought the total to `waited_ms`: done once the parent is no
/// longer active, out of time at `STEER_TERMINATE_WAIT_MS`, else again.
pub fn steer_poll(still_active: bool, waited_ms: u64) -> (r: PollStep)
    ensures
        r == (if !still_active {
            PollStep::Finished
        } else if waited_ms >= STEER_TERMINATE_WAIT_MS {
            PollStep::TimedOut
        } else {
            PollStep::Again
        }),
{
    if !still_active {
        PollStep::Finished
    } else if waited_ms >= STEER_TERMINATE_WAIT_MS {
        PollStep::TimedOut
    } else {
        PollStep::Again
    }
}

/// The note on a `dispatch_wait` that timed out.
pub fn wait_timeout_note(status: &str, waited_ms: u64) -> (r: String)
    ensures
        r@ == "still "@ + status@ + " after "@ + dec(waited_ms as nat)
            + "ms — re-invoke dispatch_wait to keep waiting, or poll dispatch_status"@,
{
    let mut m = String::from_str("still ");
    m.append(status);
    m.append(" after ");
    crate::text::append_dec(&mut m, waited_ms);
    m.append("ms — re-invoke dispatch_wait to keep waiting, or poll dispatch_status");
    m
}

// ── dispatch_steer ───────────────────────────────────────

/// The parameter error of a steer request, if any.
pub open spec fn steer_param_error(id: Seq<char>, instruction: Seq<char>) -> Option<Seq<char>> {
    if blank(id) {
        Some("id is required"@)
    } else if blank(instruction) {
        Some("instruction is required"@)
    } else {
        None
    }
}

/// Checks a steer request's id and instruction (an `InvalidParams` error).
pub fn check_steer_params(id: &str, instruction: &str) -> (r: Result<(), String>)
    ensures
        match r {
            Ok(_) => steer_param_error(id@, instruction@) is None,
            Err(e) => steer_param_error(id@, instruction@) == Some(e@),
        },
{
    if trim_str(id).is_empty() {
        Err(String::from_str("id is required"))
    } else if trim_str(instruction).is_empty() {
        Err(String::from_str("instruction is required"))
    } else {
        Ok(())
    }
}

/// The prompt of a steered turn: the trimmed instruction inside a fixed frame.
pub open spec fn steer_prompt_text(instruction: Seq<char>) -> Seq<char> {
    "Continue working in the same workspace on the SAME task. New instruction from the user:\n\n"@
        + trim(instruction) + "\n\nWhen finished, end with a short summary of what you changed."@
}

pub fn steer_prompt(instruction: &str) -> (r: String)
    ensures
        r@ == steer_prompt_text(instruction@),
{
    let mut m = String::from_str(
        "Continue working in the same workspace on the SAME task. New instruction from the user:\n\n",
    );
    m.append(trim_str(instruction));
    m.append("\n\nWhen finished, end with a short summary of what you changed.");
    m
}

/// The title of a steered task.
pub fn steer_title(id: &str) -> (r: String)
    ensures
        r@ == "steer of "@ + id@,
{
    let mut m = String::from_str("steer of ");
    m.append(id);
    m
}

/// A steered run's knob: its own non-blank value, else the parent's.
pub fn inherit(own: Option<String>, parent: Option<String>) -> (r: Option<String>)
    ensures
        r == (match nonempty_spec(own) {
            Some(s) => Some(s),
            None => parent,
        }),
        opt_string_view(r) == (match nonempty_view(own) {
            Some(s) => Some(s),
            None => opt_string_view(parent),
        }),
{
    match nonempty(own) {
        Some(s) => Some(s),
        None => parent,
    }
}

/// The refusal when no codex session is recorded for the task yet.
pub fn session_not_ready_message(id: &str) -> (r: String)
    ensures
        r@ == "no codex session recorded for "@ + id@
            + " yet — it may not have started; check dispatch_status / dispatch_logs first"@,
{
    let mut m = String::from_str("no codex session recorded for ");
    m.append(id);
    m.append(" yet — it may not have started; check dispatch_status / dispatch_logs first");
    m
}

/// The refusal when the cancelled parent has not terminated in time.
pub fn still_terminating_message(id: &str) -> (r: String)
    ensures
        r@ == id@ + " is still terminating after cancel; retry dispatch_steer shortly"@,
{
    let mut m = String::from_str(id);
    m.append(" is still terminating after cancel; retry dispatch_steer shortly");
    m
}

/// The refusal when another run holds the parent's directory.
pub fn steer_dir_busy_message(existing: &str, working_dir: &str) -> (r: String)
    ensures
        r@ == "another dispatch ("@ + existing@ + ") is active for "@ + working_dir@
            + "; cancel it first"@,
{
    let mut m = String::from_str("another dispatch (");
    m.append(existing);
    m.append(") is active for ");
    m.append(working_dir);
    m.append("; cancel it first");
    m
}

/// The backend a steered run resumes under: the parent's, or codex when the
/// stored name is not recognised.
pub fn backend_or_default(stored: &str) -> (r: Backend)
    ensures
        r == (match parse_backend(stored@) {
            Some(b) => b,
            None => Backend::Codex,
        }),
{
    match Backend::parse(stored) {
        Some(b) => b,
        None => Backend::Codex,
    }
}

/// The number of lines of `s` (`s.lines().count()`); for a steered task's
/// inherited parent rollout this is the line at which its own turn starts.
pub fn line_count(s: &str) -> (r: usize)
    ensures
        r == str_lines(s@).len(),
{
    let lines = lines_of(s);
    lines.len()
}


// ── which rollout is a task's ────────────────────────────

/// The independent signal that ties a task to its codex rollout.
#[derive(Debug, Clone, PartialEq, Eq)]
pub enum RolloutKey {
    /// A fresh task: only the prompt nonce it was submitted with.
    Nonce(String),
    /// A steered task: only the session id it inherited.
    Session(String),
    /// A steered task whose session id is not recorded yet: no rollout is
    /// claimed (fail closed, never a guess by directory).
    Unknown,
    /// A legacy row: the newest rollout of its directory started no earlier
    /// than the task, less a tolerance.
    DirSince,
}

/// The signal for a task, in priority order: a non-empty nonce; for a
/// steered task (one with a parent) its non-empty session id, or nothing;
/// else the directory and start time.
pub open spec fn rollout_key_spec(
    nonce: Option<String>,
    parent_id: Option<String>,
    session_id: Option<String>,
) -> RolloutKey {
    match nonce {
        Some(n) if n@.len() > 0 => RolloutKey::Nonce(n),
        _ => if parent_id is Some {
            match session_id {
                Some(sid) if sid@.len() > 0 => RolloutKey::Session(sid),
                _ => RolloutKey::Unknown,
            }
        } else {
            RolloutKey::DirSince
        },
    }
}

pub fn rollout_key(
    nonce: &Option<String>,
    parent_id: &Option<String>,
    session_id: &Option<String>,
) -> (r: RolloutKey)
    ensures
        r == rollout_key_spec(*nonce, *parent_id, *session_id),
{
    if let Some(n) = nonce {
        if !n.as_str().is_empty() {
            return RolloutKey::Nonce(n.clone());
        }
    }
    if parent_id.is_some() {
        match session_id {
            Some(sid) => {
                if !sid.as_str().is_empty() {
                    RolloutKey::Session(sid.clone())
                } else {
                    RolloutKey::Unknown
                }
            },
            None => RolloutKey::Unknown,
        }
    } else {
        RolloutKey::DirSince
    }
}

/// Tolerance subtracted from a legacy task's start when matching its rollout
/// by time, for clock and ordering skew between the store and the file.
pub const FLOOR_TOLERANCE_SECS: i64 = 60;

/// The earliest time (seconds since the epoch, possibly negative) a legacy
/// task's rollout may date from: its start, else its creation, less the
/// tolerance; `None` when that timestamp does not read.
pub open spec fn task_floor_spec(started_at: Option<String>, created_at: Seq<char>) -> Option<int> {
    let raw = match started_at {
        Some(s) => s@,
        None => created_at,
    };
    match sqlite_utc_seconds(raw) {
        Some(secs) => Some(secs - FLOOR_TOLERANCE_SECS),
        None => None,
    }
}

pub fn task_floor(started_at: &Option<String>, created_at: &str) -> (r: Option<i64>)
    ensures
        match r {
            Some(x) => task_floor_spec(*started_at, created_at@) == Some(x as int),
            None => task_floor_spec(*started_at, created_at@) is None,
        },
{
    let raw: &str = match started_at {
        Some(s) => s.as_str(),
        None => created_at,
    };
    match parse_sqlite_utc(raw) {
        Some(secs) => Some(secs as i64 - FLOOR_TOLERANCE_SECS),
        None => None,
    }
}

// ── configuration and liveness ───────────────────────────

/// An environment flag's value is on: `1`, `true`, `yes` or `on`, ignoring
/// surrounding whitespace and ASCII case.
pub open spec fn truthy(v: Seq<char>) -> bool {
    let t = to_ascii_lowercase(trim(v));
    t == "1"@ || t == "true"@ || t == "yes"@ || t == "on"@
}

pub fn is_truthy(v: &str) -> (r: bool)
    ensures
        r == truthy(v@),
{
    let t = to_ascii_lowercase_string(trim_str(v));
    let ts = t.as_str();
    str_eq(ts, "1") || str_eq(ts, "true") || str_eq(ts, "yes") || str_eq(ts, "on")
}

/// A project directory flattened into one path component: every `/`
/// becomes `-`.
pub open spec fn slug_of(p: Seq<char>) -> Seq<char> {
    p.map_values(|c: char| if c == '/' { '-' } else { c })
}

pub fn project_slug(p: &str) -> (r: String)
    ensures
        r@ == slug_of(p@),
{
    let v = chars_of(p);
    let mut out: Vec<char> = Vec::new();
    let mut i: usize = 0;
    while i < v.len()
        invariant
            i <= v@.len(),
            out@ == slug_of(v@.take(i as int)),
        decreases v@.len() - i,
    {
        let c = v[i];
        out.push(if c == '/' { '-' } else { c });
        i += 1;
        assert(out@ =~= slug_of(v@.take(i as int)));
    }
    assert(v@.take(i as int) =~= v@);
    string_from_chars(&out)
}

/// The verdict of a liveness probe on process `pid`: a non-positive pid is
/// never alive; otherwise `kill(pid, 0)` returning 0 (signalable), or
/// failing with `EPERM` (alive but not ours), means alive. `kill_ret` and
/// `errno` are the probe's result and the error it left; `eperm` is the
/// platform's `EPERM`.
pub fn process_alive(pid: i32, kill_ret: i32, errno: Option<i32>, eperm: i32) -> (r: bool)
    ensures
        r == (pid > 0 && (kill_ret == 0 || errno == Some(eperm))),
{
    if pid <= 0 {
        return false;
    }
    if kill_ret == 0 {
        return true;
    }
    match errno {
        Some(e) => e == eperm,
        None => false,
    }
}

/// A queued or running row is stranded, and is marked interrupted at boot,
/// when it records no owner or its owner process is gone.
pub fn is_stranded(owner_pid: Option<i64>, owner_alive: bool) -> (r: bool)
    ensures
        r == (owner_pid is None || !owner_alive),
{
    match owner_pid {
        Some(_) => !owner_alive,
        None => true,
    }
}


// ── task rows and the status, logs, steer and backends tools ─

/// A dispatched task as the store keeps it.
pub struct TaskRow {
    pub id: String,
    /// queued, running, succeeded, failed, cancelled or interrupted.
    pub status: String,
    pub plan_id: Option<String>,
    pub backend: String,
    pub working_dir: String,
    pub model: Option<String>,
    pub reasoning_effort: Option<String>,
    pub sandbox: String,
    pub session_id: Option<String>,
    pub rollout_path: Option<String>,
    pub nonce: Option<String>,
    /// The steered task this one continues, if any.
    pub parent_id: Option<String>,
    pub started_at: Option<String>,
    pub created_at: String,
    /// For a steered task: how many rollout lines predate its own turn.
    pub rollout_start_line: Option<i64>,
}

/// The task a request names: a blank id is refused, then the store's answer
/// for the trimmed id (`row`, or the store's error text) decides.
pub open spec fn task_lookup_spec(id: Seq<char>, row: Result<Option<TaskRow>, String>) -> Result<
    TaskRow,
    (ErrCode, Seq<char>),
> {
    if blank(id) {
        Err((ErrCode::InvalidParams, "id is required"@))
    } else {
        match row {
            Err(e) => Err((ErrCode::DbError, "db error: "@ + e@)),
            Ok(None) => Err((ErrCode::NoSuchTask, "no task with id "@ + debug_form(trim(id)))),
            Ok(Some(t)) => Ok(t),
        }
    }
}

pub open spec fn error_view<T>(r: Result<T, (ErrCode, String)>) -> Result<T, (ErrCode, Seq<char>)> {
    match r {
        Ok(t) => Ok(t),
        Err((c, m)) => Err((c, m@)),
    }
}

/// The task `dispatch_status`, `dispatch_wait` and `dispatch_logs` act on.
pub fn task_lookup(id: &str, row: Result<Option<TaskRow>, String>) -> (r: Result<TaskRow, (ErrCode, String)>)
    ensures
        error_view(r) == task_lookup_spec(id@, row),
{
    let t = trim_str(id);
    if t.is_empty() {
        return Err((ErrCode::InvalidParams, String::from_str("id is required")));
    }
    match row {
        Err(e) => Err((ErrCode::DbError, db_error_message(e.as_str()))),
        Ok(None) => Err((ErrCode::NoSuchTask, no_such_task_message(t))),
        Ok(Some(row)) => Ok(row),
    }
}

/// What `dispatch_logs` answers for a task it found.
pub enum LogsOutcome {
    /// No rollout is associated with the task yet.
    Pending { id: String, status: String, note: String },
    /// The rollout's text, without a steered task's inherited lines.
    Log {
        id: String,
        status: String,
        session_id: Option<String>,
        rollout_path: String,
        log: String,
    },
}

pub open spec fn logs_pending_note() -> Seq<char> {
    "no codex log associated yet — the run may not have written its rollout, or its association is still pending; try again shortly"@
}

/// The logs step: the task lookup; then, without an associated rollout, a
/// pending answer with an empty log; with one (`rollout`: its path and the
/// text read from it, or the read error), the text less the task's inherited
/// lines, or `RolloutUnreadable` when it could not be read.
pub open spec fn logs_ok(
    id: Seq<char>,
    row: TaskRow,
    rollout: Option<(String, Result<String, String>)>,
    out: LogsOutcome,
) -> bool {
    match rollout {
        None => out matches LogsOutcome::Pending { id: i, status, note } && i@ == trim(id)
            && status@ == row.status@ && note@ == logs_pending_note(),
        Some((path, Ok(text))) => out matches LogsOutcome::Log { id: i, status, session_id, rollout_path, log }
            && i@ == trim(id) && status@ == row.status@ && session_id == row.session_id
            && rollout_path@ == path@ && log@ == trimmed_log(text@, row.rollout_start_line),
        Some((_, Err(_))) => false,
    }
}

pub open spec fn logs_error(
    id: Seq<char>,
    row: Result<Option<TaskRow>, String>,
    rollout: Option<(String, Result<String, String>)>,
) -> Option<(ErrCode, Seq<char>)> {
    match task_lookup_spec(id, row) {
        Err(e) => Some(e),
        Ok(_) => match rollout {
            Some((path, Err(e))) => Some(
                (ErrCode::RolloutUnreadable, "could not read rollout "@ + path@ + ": "@ + e@),
            ),
            _ => None,
        },
    }
}

/// Decides `dispatch_logs` from the store's answer for the task and, when a
/// rollout is associated with it, that rollout's path and read result.
pub fn logs_step(
    id: &str,
    row: Result<Option<TaskRow>, String>,
    rollout: Option<(String, Result<String, String>)>,
) -> (r: Result<LogsOutcome, (ErrCode, String)>)
    ensures
        match r {
            Err((c, m)) => logs_error(id@, row, rollout) == Some((c, m@)),
            Ok(out) => logs_error(id@, row, rollout) is None && match row {
                Ok(Some(t)) => logs_ok(id@, t, rollout, out),
                _ => false,
            },
        },
{
    let task = match task_lookup(id, row) {
        Ok(t) => t,
        Err(e) => return Err(e),
    };
    let tid = String::from_str(trim_str(id));
    match rollout {
        None => Ok(
            LogsOutcome::Pending {
                id: tid,
                status: task.status,
                note: String::from_str(
                    "no codex log associated yet — the run may not have written its rollout, or its association is still pending; try again shortly",
                ),
            },
        ),
        Some((path, Ok(text))) => {
            let log = trim_to_start_line(text, task.rollout_start_line);
            Ok(
                LogsOutcome::Log {
                    id: tid,
                    status: task.status,
                    session_id: task.session_id,
                    rollout_path: path,
                    log,
                },
            )
        },
        Some((path, Err(e))) => {
            let mut m = String::from_str("could not read rollout ");
            m.append(path.as_str());
            m.append(": ");
            m.append(e.as_str());
            Err((ErrCode::RolloutUnreadable, m))
        },
    }
}

/// The parameters of `dispatch_steer`.
pub struct SteerParams {
    pub id: String,
    pub instruction: String,
    pub model: Option<String>,
    pub reasoning_effort: Option<String>,
}

/// The steered task to create: it continues `parent_id`'s codex session in the
/// parent's directory, sandbox and plan.
pub struct SteerPlan {
    pub parent_id: String,
    /// The parent is still active and must be cancelled (and awaited) first.
    pub interrupt_parent: bool,
    pub title: String,
    pub prompt: String,
    /// The instruction, trimmed: the steered task's objective.
    pub objective: String,
    pub plan_id: Option<String>,
    /// The backend name stored on the parent, and the backend it runs under.
    pub backend_name: String,
    pub backend: Backend,
    pub working_dir: String,
    pub sandbox: String,
    pub model: Option<String>,
    pub reasoning_effort: Option<String>,
    pub resume_session: String,
}

pub open spec fn session_not_ready_text(id: Seq<char>) -> Seq<char> {
    "no codex session recorded for "@ + id
        + " yet — it may not have started; check dispatch_status / dispatch_logs first"@
}

/// The refusal of a steer request, if any, in the order the server checks:
/// the id and the instruction, the parent lookup, then the parent's session.
pub open spec fn steer_error(
    p: SteerParams,
    parent: Result<Option<TaskRow>, String>,
    session_id: Option<String>,
) -> Option<(ErrCode, Seq<char>)> {
    if blank(p.id@) {
        Some((ErrCode::InvalidParams, "id is required"@))
    } else if blank(p.instruction@) {
        Some((ErrCode::InvalidParams, "instruction is required"@))
    } else {
        match task_lookup_spec(p.id@, parent) {
            Err(e) => Some(e),
            Ok(_) => match session_id {
                None => Some((ErrCode::SessionNotReady, session_not_ready_text(trim(p.id@)))),
                Some(_) => None,
            },
        }
    }
}

/// The steered task planned for parent `t` with session `sid`.
pub open spec fn steer_plan_ok(p: SteerParams, t: TaskRow, sid: String, plan: SteerPlan) -> bool {
    let id = trim(p.id@);
    &&& plan.parent_id@ == id
    &&& plan.interrupt_parent == is_active_status(t.status@)
    &&& plan.title@ == "steer of "@ + id
    &&& plan.prompt@ == steer_prompt_text(p.instruction@)
    &&& plan.objective@ == trim(p.instruction@)
    &&& plan.plan_id == t.plan_id
    &&& plan.backend_name == t.backend
    &&& plan.backend == (match parse_backend(t.backend@) {
        Some(b) => b,
        None => Backend::Codex,
    })
    &&& plan.working_dir == t.working_dir
    &&& plan.sandbox == t.sandbox
    &&& plan.model == (match nonempty_spec(p.model) {
        Some(s) => Some(s),
        None => t.model,
    })
    &&& plan.reasoning_effort == (match nonempty_spec(p.reasoning_effort) {
        Some(s) => Some(s),
        None => t.reasoning_effort,
    })
    &&& plan.resume_session == sid
}

/// Decides `dispatch_steer` from the store's answer for the parent task and
/// the parent's resolved codex session id.
pub fn plan_steer(
    p: &SteerParams,
    parent: Result<Option<TaskRow>, String>,
    session_id: Option<String>,
) -> (r: Result<SteerPlan, (ErrCode, String)>)
    ensures
        match r {
            Err((c, m)) => steer_error(*p, parent, session_id) == Some((c, m@)),
            Ok(plan) => steer_error(*p, parent, session_id) is None && match (parent, session_id) {
                (Ok(Some(t)), Some(sid)) => steer_plan_ok(*p, t, sid, plan),
                _ => false,
            },
        },
{
    if let Err(e) = check_steer_params(p.id.as_str(), p.instruction.as_str()) {
        return Err((ErrCode::InvalidParams, e));
    }
    let t = match task_lookup(p.id.as_str(), parent) {
        Ok(t) => t,
        Err(e) => return Err(e),
    };
    let id = trim_str(p.id.as_str());
    let sid = match session_id {
        Some(s) => s,
        None => {
            let mut m = String::from_str("no codex session recorded for ");
            m.append(id);
            m.append(" yet — it may not have started; check dispatch_status / dispatch_logs first");
            return Err((ErrCode::SessionNotReady, m));
        },
    };
    let own_model = match &p.model {
        Some(m) => Some(m.clone()),
        None => None,
    };
    let own_effort = match &p.reasoning_effort {
        Some(m) => Some(m.clone()),
        None => None,
    };
    let interrupt_parent = is_active(t.status.as_str());
    let backend = backend_or_default(t.backend.as_str());
    let TaskRow { plan_id, backend: backend_name, working_dir, model, reasoning_effort, sandbox, .. } = t;
    Ok(
        SteerPlan {
            parent_id: String::from_str(id),
            interrupt_parent,
            title: steer_title(id),
            prompt: steer_prompt(p.instruction.as_str()),
            objective: String::from_str(trim_str(p.instruction.as_str())),
            plan_id,
            backend_name,
            backend,
            working_dir,
            sandbox,
            model: inherit(own_model, model),
            reasoning_effort: inherit(own_effort, reasoning_effort),
            resume_session: sid,
        },
    )
}

/// The answer to an accepted steer: the fields the tool reports.
pub struct SteerReply {
    pub id: String,
    pub parent_id: String,
    pub status: String,
    pub resumed_session: String,
    pub working_dir: String,
    pub sandbox: String,
    pub model: Option<String>,
    pub reasoning_effort: Option<String>,
    pub note: String,
}

pub open spec fn steer_note() -> Seq<char> {
    "steering: the codex session was resumed with your new instruction (it inherits the echoed sandbox/model/reasoning_effort unless you overrode them) — poll dispatch_status / dispatch_logs"@
}

/// The report of the steered task `new_id`, created queued from `plan`.
pub fn steer_reply(new_id: &str, plan: &SteerPlan) -> (r: SteerReply)
    ensures
        r.id@ == new_id@,
        r.parent_id == plan.parent_id,
        r.status@ == "queued"@,
        r.resumed_session == plan.resume_session,
        r.working_dir == plan.working_dir,
        r.sandbox == plan.sandbox,
        r.model == plan.model,
        r.reasoning_effort == plan.reasoning_effort,
        r.note@ == steer_note(),
{
    SteerReply {
        id: String::from_str(new_id),
        parent_id: plan.parent_id.clone(),
        status: String::from_str("queued"),
        resumed_session: plan.resume_session.clone(),
        working_dir: plan.working_dir.clone(),
        sandbox: plan.sandbox.clone(),
        model: clone_opt(&plan.model),
        reasoning_effort: clone_opt(&plan.reasoning_effort),
        note: String::from_str(
            "steering: the codex session was resumed with your new instruction (it inherits the echoed sandbox/model/reasoning_effort unless you overrode them) — poll dispatch_status / dispatch_logs",
        ),
    }
}

fn clone_opt(o: &Option<String>) -> (r: Option<String>)
    ensures
        r == *o,
{
    match o {
        Some(s) => Some(s.clone()),
        None => None,
    }
}

/// One entry of `dispatch_backends`.
pub struct BackendReport {
    pub backend: Backend,
    pub available: bool,
    pub path: Option<String>,
    pub version: Option<String>,
}

/// The entry of `backend`: found at `path` on PATH or not; a found backend
/// reports its version text, or `(unknown)` when it gave none.
pub fn backend_report(backend: Backend, path: Option<String>, version: Option<String>) -> (r: BackendReport)
    ensures
        r.backend == backend,
        r.available == path is Some,
        r.path == path,
        path is Some ==> opt_string_view(r.version) == Some(
            match version {
                Some(v) => v@,
                None => "(unknown)"@,
            },
        ),
        path is None ==> r.version is None,
{
    match path {
        Some(pth) => {
            let v = match version {
                Some(v) => v,
                None => String::from_str("(unknown)"),
            };
            BackendReport { backend, available: true, path: Some(pth), version: Some(v) }
        },
        None => BackendReport { backend, available: false, path: None, version: None },
    }
}

// ── laws ─────────────────────────────────────────────────

/// Nonces of one server instance never repeat: distinct counter values give
/// distinct nonces.
pub proof fn law_nonces_distinct(instance: Seq<char>, n: nat, m: nat)
    requires
        n != m,
    ensures
        nonce_text(instance, n) != nonce_text(instance, m),
{
    lemma_dec_digits(n);
    lemma_dec_digits(m);
    reveal_strlit("-");
    if nonce_text(instance, n) == nonce_text(instance, m) {
        let k: int = instance.len() as int + 1;
        assert(nonce_text(instance, n).skip(k) =~= dec(n));
        assert(nonce_text(instance, m).skip(k) =~= dec(m));
    }
}

/// The sandbox ceiling: a granted sandbox is `read-only` or
/// `workspace-write`, or `danger-full-access` on a server that enables it.
pub proof fn law_sandbox_ceiling(s: Option<Seq<char>>, allow_danger: bool)
    ensures
        match sandbox_verdict(s, allow_danger) {
            Ok(c) => c == "read-only"@ || c == "workspace-write"@ || (c == "danger-full-access"@
                && allow_danger),
            Err(_) => true,
        },
{
}

/// The containment guard: an accepted working directory was given as an
/// absolute path, resolved to a directory, and lies under the project root
/// or an allowlisted root.
pub proof fn law_working_dir_contained(
    raw: Seq<char>,
    absolute: bool,
    canonical: Result<Seq<char>, Seq<char>>,
    is_dir: bool,
    project_root: Seq<char>,
    extra_roots: Seq<Seq<char>>,
)
    ensures
        match working_dir_verdict(raw, absolute, canonical, is_dir, project_root, extra_roots) {
            Ok(c) => absolute && is_dir && canonical == Ok::<Seq<char>, Seq<char>>(c)
                && within_roots(c, project_root, extra_roots),
            Err(_) => true,
        },
{
}

/// An accepted submission was given an absolute path, runs inside the roots
/// and under the sandbox ceiling, with the directory it resolved to, and
/// joins another active run in that directory only when concurrent runs were
/// asked for.
pub proof fn law_accepted_submit_is_guarded(
    p: SubmitParams,
    absolute: bool,
    wd: Seq<char>,
    is_dir: bool,
    project_root: Seq<char>,
    extra_roots: Seq<Seq<char>>,
    allow_danger: bool,
    active_in_dir: Option<Seq<char>>,
)
    requires
        submit_error(p, absolute, Ok(wd), is_dir, project_root, extra_roots, allow_danger, active_in_dir) is None,
    ensures
        absolute,
        is_dir,
        within_roots(wd, project_root, extra_roots),
        sandbox_verdict(opt_string_view(p.sandbox), allow_danger) == Ok::<Seq<char>, Seq<char>>(
            sandbox_choice(opt_string_view(p.sandbox)),
        ),
        sandbox_choice(opt_string_view(p.sandbox)) == "danger-full-access"@ ==> allow_danger,
        active_in_dir is Some ==> p.allow_concurrent == Some(true),
{
    reveal_strlit("danger-full-access");
    reveal_strlit("read-only");
    reveal_strlit("workspace-write");
    assert("danger-full-access"@.len() != "read-only"@.len());
    assert("danger-full-access"@.len() != "workspace-write"@.len());
}


/// A steered run resumes the parent's codex session in the parent's
/// directory, sandbox and plan, with the parent's backend; a model or
/// reasoning effort given to the steer that is not blank overrides the
/// parent's, exactly as given, and a blank or missing one keeps the parent's.
pub proof fn law_steer_overrides_and_inherits(p: SteerParams, t: TaskRow, sid: String, plan: SteerPlan)
    requires
        steer_plan_ok(p, t, sid, plan),
    ensures
        (p.model is Some && !blank(p.model->0@)) ==> plan.model == p.model,
        (p.model is None || blank(p.model->0@)) ==> plan.model == t.model,
        (p.reasoning_effort is Some && !blank(p.reasoning_effort->0@)) ==> plan.reasoning_effort
            == p.reasoning_effort,
        (p.reasoning_effort is None || blank(p.reasoning_effort->0@)) ==> plan.reasoning_effort
            == t.reasoning_effort,
        plan.resume_session == sid,
        plan.working_dir == t.working_dir,
        plan.sandbox == t.sandbox,
        plan.plan_id == t.plan_id,
        plan.backend_name == t.backend,
        plan.objective@ == trim(p.instruction@),
        plan.parent_id@ == trim(p.id@),
        plan.interrupt_parent <==> (t.status@ == "queued"@ || t.status@ == "running"@),
{
}

/// A steer with a non-blank id and instruction, whose parent is found and has
/// a recorded session, is never refused. Otherwise the refusal names the
/// first thing missing: a blank id or instruction (invalid params), a failed
/// lookup (a database error), no such parent, or no session yet.
pub proof fn law_steer_refusals(p: SteerParams, parent: Result<Option<TaskRow>, String>, session_id: Option<String>)
    ensures
        steer_error(p, parent, session_id) is None <==> (!blank(p.id@) && !blank(p.instruction@)
            && (parent matches Ok(Some(_))) && session_id is Some),
        blank(p.id@) ==> steer_error(p, parent, session_id) matches Some((ErrCode::InvalidParams, _)),
        !blank(p.id@) && blank(p.instruction@) ==> steer_error(p, parent, session_id) matches Some(
            (ErrCode::InvalidParams, _),
        ),
        !blank(p.id@) && !blank(p.instruction@) && parent is Err ==> steer_error(p, parent, session_id) matches Some(
            (ErrCode::DbError, _),
        ),
        !blank(p.id@) && !blank(p.instruction@) && parent == Ok::<Option<TaskRow>, String>(None) ==> steer_error(
            p,
            parent,
            session_id,
        ) matches Some((ErrCode::NoSuchTask, _)),
        !blank(p.id@) && !blank(p.instruction@) && (parent matches Ok(Some(_))) && session_id is None ==> steer_error(
            p,
            parent,
            session_id,
        ) matches Some((ErrCode::SessionNotReady, _)),
{
}

} // verus!

//! Buffer editing: locating an edit target in a file's text (by a unique or
//! indexed occurrence of a search string, or by a 1-based line range) and
//! splicing new text in at it under one of several position modes.
//!
//! Text is modelled as its sequence of characters; the byte offsets that the
//! API exchanges are the UTF-8 byte lengths (`utf8_len`) of character prefixes.

use vstd::prelude::*;

use crate::text::{append_dec, after_last_index_of, char_index_at, char_index_of, lemma_char_index_of, find_char_from, is_boundary, lemma_after_last_index_of, rfind_char_before, byte_offset, chars_of, dec, lemma_next_index_of, lemma_next_index_of_prefix, lemma_utf8_len_concat, lemma_utf8_len_take_mono, next_index_of, utf8_len};

verus! {

// ── Buffer types ──────────────────────────────────────────

/// Where `apply_mode` places the new text relative to the target.
#[derive(Clone)]
pub enum EditMode {
    Replace,
    After,
    Before,
    AfterLine,
    BeforeLine,
    Append,
}

#[derive(Clone)]
pub struct BufferContent {
    pub content: String,
    pub file_path: Option<String>,
    pub depends_on: Vec<String>,
    /// SHA-256 of the disk file contents at the moment this buffer was
    /// loaded or written, used to detect stale buffers. None for pure-buffer
    /// writes with no target file.
    pub source_hash: Option<String>,
}

/// A byte range of a file's text.
pub struct ResolvedTarget {
    pub byte_start: usize,
    pub byte_end: usize,
}

// ── Tool parameters ──────────────────────────────────────

pub struct WriteParams {
    /// Name of the buffer
    pub name: String,
    /// Content to store in the buffer
    pub content: String,
    /// If provided, show unified diff against this file in the response
    pub file_path: Option<String>,
    /// Buffer names that must be applied before this buffer (dependency ordering).
    pub depends_on: Option<Vec<String>>,
}

pub struct EditBufferParams {
    /// Name of the buffer
    pub name: String,
    /// Path to file. With file_path: loads from disk and edits. Without: edits existing buffer content.
    pub file_path: Option<String>,
    /// The exact text to find (unless a line range is used). Ignored for append.
    pub old_string: Option<String>,
    /// The replacement or insertion text
    pub new_string: String,
    /// Position mode: "replace" (default), "after", "before", "after_line", "before_line", "append"
    pub position: Option<String>,
    /// Target the Nth occurrence of old_string (1-based).
    pub match_index: Option<u32>,
    /// Target a line range instead of old_string (1-based).
    pub line_start: Option<u32>,
    /// End of line range (1-based, inclusive). Defaults to line_start if omitted.
    pub line_end: Option<u32>,
}

pub struct ReadParams {
    /// Name of the buffer to read. Provide either name or file_path, not both.
    pub name: Option<String>,
    /// Path to a file to read from disk.
    pub file_path: Option<String>,
    /// Show line numbers in output.
    pub line_numbers: Option<bool>,
    /// Start reading from this line number (1-based, inclusive). Only used with file_path.
    pub start_line: Option<u32>,
    /// Stop reading at this line number (1-based, inclusive). Only used with file_path.
    pub end_line: Option<u32>,
}

pub struct SearchParams {
    /// Path to the file to search
    pub file_path: String,
    /// Search pattern (substring match by default, or regex if regex=true)
    pub pattern: String,
    /// Treat pattern as a regular expression (default: false).
    pub regex: Option<bool>,
    /// Number of context lines to show around each match (default: 2).
    pub context: Option<u32>,
}

pub struct DiffParams {
    /// Name of the buffer
    pub name: String,
    /// Path to the file to diff against. Falls back to stored file_path in the buffer.
    pub file_path: Option<String>,
    /// If provided, diff only this section of the file against the buffer.
    pub old_string: Option<String>,
    /// If true, return a one-line summary instead of the full diff.
    pub summary: Option<bool>,
}

pub struct ApplyParams {
    /// Name of the buffer to apply
    pub name: String,
    /// Path to the target file. Falls back to stored file_path in the buffer.
    pub file_path: Option<String>,
    /// If provided, replace only this section of the file with buffer content.
    pub old_string: Option<String>,
    /// If true, show final file content without actually writing to disk.
    pub dry_run: Option<bool>,
    /// Override stale buffer detection.
    pub force: Option<bool>,
}

pub struct ClearParams {
    /// Name of the buffer to clear. Required unless `all` is true.
    pub name: Option<String>,
    /// If true, clear ALL staged buffers.
    pub all: Option<bool>,
}

// ── Lines ────────────────────────────────────────────────

/// A line piece without its terminator: one trailing `'\n'`, then one trailing `'\r'`.
pub open spec fn strip_eol(p: Seq<char>) -> Seq<char> {
    let a = if p.len() > 0 && p.last() == '\n' { p.drop_last() } else { p };
    if a.len() > 0 && a.last() == '\r' { a.drop_last() } else { a }
}

/// The pieces of `s` as `str::split_inclusive('\n')` yields them, each given
/// as (start, content end): character indices offset by `base`, where the
/// content end excludes the piece's line terminator.
pub open spec fn line_spans(s: Seq<char>, base: int) -> Seq<(int, int)>
    decreases s.len(),
{
    if s.len() == 0 {
        seq![]
    } else {
        let j = next_index_of(s, '\n', 0);
        if j < s.len() {
            proof {
                lemma_next_index_of(s, '\n', 0);
            }
            seq![(base, base + strip_eol(s.take(j + 1)).len())] + line_spans(
                s.skip(j + 1),
                base + j + 1,
            )
        } else {
            seq![(base, base + strip_eol(s).len())]
        }
    }
}

/// The line table of `s`: its `line_spans`, or a single empty line `(0, 0)`
/// for empty text.
pub open spec fn line_offsets(s: Seq<char>) -> Seq<(int, int)> {
    if s.len() == 0 {
        seq![(0, 0)]
    } else {
        line_spans(s, 0)
    }
}


/// Splitting text after a newline splits its line spans.
proof fn lemma_line_spans_concat(a: Seq<char>, b: Seq<char>, base: int)
    requires
        a.len() == 0 || a.last() == '\n',
    ensures
        line_spans(a + b, base) == line_spans(a, base) + line_spans(b, base + a.len()),
    decreases a.len(),
{
    if a.len() == 0 {
        assert(a + b =~= b);
        assert(line_spans(a, base) =~= Seq::<(int, int)>::empty());
        assert(line_spans(a + b, base) =~= line_spans(a, base) + line_spans(b, base + a.len()));
    } else {
        lemma_next_index_of(a, '\n', 0);
        let j = next_index_of(a, '\n', 0);
        if j >= a.len() {
            assert(a[a.len() - 1] == '\n');
        }
        assert(j < a.len());
        lemma_next_index_of_prefix(a, b, '\n', 0);
        assert((a + b).take(j + 1) =~= a.take(j + 1));
        if j + 1 == a.len() {
            assert((a + b).skip(j + 1) =~= b);
            assert(a.skip(j + 1).len() == 0);
            assert(line_spans(a.skip(j + 1), base + j + 1) =~= Seq::<(int, int)>::empty());
        } else {
            assert((a + b).skip(j + 1) =~= a.skip(j + 1) + b);
            assert(a.skip(j + 1).last() == a.last());
            lemma_line_spans_concat(a.skip(j + 1), b, base + j + 1);
            assert(base + j + 1 + a.skip(j + 1).len() == base + a.len());
        }
        assert(line_spans(a + b, base) =~= line_spans(a, base) + line_spans(b, base + a.len()));
    }
}

/// A piece holding no newline before its last character is a single line.
proof fn lemma_line_spans_single(p: Seq<char>, base: int)
    requires
        p.len() > 0,
        forall|k: int| 0 <= k < p.len() - 1 ==> p[k] != '\n',
    ensures
        line_spans(p, base) == seq![(base, base + strip_eol(p).len())],
{
    lemma_next_index_of(p, '\n', 0);
    let j = next_index_of(p, '\n', 0);
    if j < p.len() {
        assert(j == p.len() - 1);
        assert(p.take(j + 1) =~= p);
        assert(p.skip(j + 1).len() == 0);
        assert(line_spans(p.skip(j + 1), base + j + 1) =~= Seq::<(int, int)>::empty());
        assert(line_spans(p, base) =~= seq![(base, base + strip_eol(p).len())]);
    }
}

/// The line table of the text `v`: per line, the character index where it
/// starts and where its content (without terminator) ends.
pub fn line_table(v: &Vec<char>) -> (r: Vec<(usize, usize)>)
    ensures
        r@.len() == line_offsets(v@).len(),
        forall|k: int|
            0 <= k < r@.len() ==> r@[k].0 == line_offsets(v@)[k].0 && r@[k].1 == line_offsets(
                v@,
            )[k].1,
{
    let n = v.len();
    let mut r: Vec<(usize, usize)> = Vec::new();
    let mut ls: usize = 0;
    let mut i: usize = 0;
    while i < n
        invariant
            n == v@.len(),
            ls <= i <= n,
            ls == 0 || v@[ls - 1] == '\n',
            forall|k: int| ls <= k < i ==> v@[k] != '\n',
            r@.len() == line_spans(v@.take(ls as int), 0).len(),
            forall|k: int|
                0 <= k < r@.len() ==> r@[k].0 == line_spans(v@.take(ls as int), 0)[k].0
                    && r@[k].1 == line_spans(v@.take(ls as int), 0)[k].1,
        decreases n - i,
    {
        if v[i] == '\n' {
            let ce = if i > ls && v[i - 1] == '\r' { i - 1 } else { i };
            proof {
                let a = v@.take(ls as int);
                let p = v@.subrange(ls as int, i + 1);
                assert(v@.take(i + 1) =~= a + p);
                if ls > 0 {
                    assert(a.last() == v@[ls - 1]);
                }
                lemma_line_spans_concat(a, p, 0);
                assert forall|k: int| 0 <= k < p.len() - 1 implies p[k] != '\n' by {
                    assert(p[k] == v@[ls + k]);
                }
                lemma_line_spans_single(p, ls as int);
                assert(p.last() == '\n');
                assert(p.drop_last() =~= v@.subrange(ls as int, i as int));
                if i > ls {
                    assert(p.drop_last().last() == v@[i - 1]);
                }
                assert(strip_eol(p).len() == ce - ls);
            }
            r.push((ls, ce));
            ls = i + 1;
        }
        i += 1;
    }
    if ls < n {
        let ce = if v[n - 1] == '\r' { n - 1 } else { n };
        proof {
            let a = v@.take(ls as int);
            let p = v@.subrange(ls as int, n as int);
            assert(v@ =~= a + p);
            if ls > 0 {
                assert(a.last() == v@[ls - 1]);
            }
            lemma_line_spans_concat(a, p, 0);
            assert forall|k: int| 0 <= k < p.len() - 1 implies p[k] != '\n' by {
                assert(p[k] == v@[ls + k]);
            }
            lemma_line_spans_single(p, ls as int);
            assert(p.last() == v@[n - 1]);
            assert(strip_eol(p).len() == ce - ls);
        }
        r.push((ls, ce));
    } else {
        assert(v@.take(ls as int) =~= v@);
    }
    if r.len() == 0 {
        proof {
            if n > 0 {
                // a non-empty text has at least one piece
                assert(line_spans(v@, 0).len() > 0);
            }
        }
        r.push((0, 0));
    }
    r
}


// ── Occurrences ──────────────────────────────────────────

/// The start indices of the occurrences of a non-empty `p` in `s` at or after
/// `from`, found left to right without overlap (`str::match_indices`).
pub open spec fn matches_from(s: Seq<char>, p: Seq<char>, from: int) -> Seq<int>
    decreases s.len() - from,
{
    if p.len() == 0 || from < 0 || from + p.len() > s.len() {
        seq![]
    } else if s.subrange(from, from + p.len()) == p {
        seq![from] + matches_from(s, p, from + p.len())
    } else {
        matches_from(s, p, from + 1)
    }
}

/// The start indices of `str::match_indices(p)` in `s`; the empty pattern
/// matches at every character boundary, the end included.
pub open spec fn match_positions(s: Seq<char>, p: Seq<char>) -> Seq<int> {
    if p.len() == 0 {
        Seq::new((s.len() + 1) as nat, |i: int| i)
    } else {
        matches_from(s, p, 0)
    }
}

pub open spec fn as_ints(v: Seq<usize>) -> Seq<int> {
    v.map_values(|x: usize| x as int)
}

/// The occurrences of a non-empty `p` in `s`, as `match_positions` gives them.
fn find_matches(s: &Vec<char>, p: &Vec<char>) -> (r: Vec<usize>)
    requires
        p@.len() > 0,
    ensures
        as_ints(r@) == match_positions(s@, p@),
        forall|k: int| 0 <= k < r@.len() ==> r@[k] + p@.len() <= s@.len(),
{
    let n = s.len();
    let m = p.len();
    let mut r: Vec<usize> = Vec::new();
    let mut i: usize = 0;
    while i <= n && m <= n - i
        invariant
            n == s@.len(),
            m == p@.len(),
            m > 0,
            i <= n + m,
            matches_from(s@, p@, 0) == as_ints(r@) + matches_from(s@, p@, i as int),
            forall|k: int| 0 <= k < r@.len() ==> r@[k] + m <= n,
        decreases n + m - i,
    {
        if crate::text::occurs_at_exec(s, p, i) {
            proof {
                assert(as_ints(r@.push(i)) =~= as_ints(r@).push(i as int));
                assert(seq![i as int] + matches_from(s@, p@, i + m) =~= matches_from(s@, p@, i as int));
                assert(as_ints(r@) + matches_from(s@, p@, i as int) =~= as_ints(r@.push(i)) + matches_from(s@, p@, i + m));
            }
            r.push(i);
            i = i + m;
        } else {
            i = i + 1;
        }
    }
    assert(matches_from(s@, p@, i as int) =~= Seq::<int>::empty());
    assert(as_ints(r@) + Seq::<int>::empty() =~= as_ints(r@));
    r
}


// ── Target resolution ────────────────────────────────────

pub open spec fn line_range_error(start: u32, end: u32, lines: nat) -> Seq<char> {
    "line range "@ + dec(start as nat) + "-"@ + dec(end as nat) + " out of bounds (file has "@
        + dec(lines) + " lines)"@
}

pub open spec fn not_found_error() -> Seq<char> {
    "old_string not found in file"@
}

pub open spec fn match_index_error(n: u32, found: nat) -> Seq<char> {
    "match_index "@ + dec(n as nat) + " out of range (found "@ + dec(found) + " occurrences)"@
}

pub open spec fn not_unique_error(found: nat) -> Seq<char> {
    "old_string appears "@ + dec(found) + " times (must be unique, or use match_index)"@
}

/// What `resolve_target` returns, as byte offsets `(start, end)` or an error message.
///
/// With a line range `(start, end)` (1-based, inclusive) the target runs from
/// the start of line `start` to the start of the line after `end`, or, when
/// `end` reaches the last line, to that line's content end (its terminator is
/// kept). Otherwise the target is the occurrence of `p` selected by the 1-based
/// `match_index`, or the only occurrence when no index is given.
pub open spec fn resolve_target_spec(
    s: Seq<char>,
    p: Seq<char>,
    match_index: Option<u32>,
    line_range: Option<(u32, u32)>,
) -> Result<(int, int), Seq<char>> {
    match line_range {
        Some((start, end)) => {
            let offs = line_offsets(s);
            let n = offs.len() as int;
            let si: int = if start >= 1 { start - 1 } else { 0 };
            let e: int = if end < n { end as int } else { n };
            if si >= n || si >= e {
                Err(line_range_error(start, end, n as nat))
            } else {
                let bs = utf8_len(s.take(offs[si].0)) as int;
                let be = if e < n {
                    utf8_len(s.take(offs[e].0)) as int
                } else {
                    utf8_len(s.take(offs[e - 1].1)) as int
                };
                Ok((bs, be))
            }
        },
        None => {
            let ms = match_positions(s, p);
            if ms.len() == 0 {
                Err(not_found_error())
            } else {
                let idx: Result<int, Seq<char>> = match match_index {
                    Some(k) => if k == 0 || k > ms.len() {
                        Err(match_index_error(k, ms.len()))
                    } else {
                        Ok(k - 1)
                    },
                    None => if ms.len() > 1 {
                        Err(not_unique_error(ms.len()))
                    } else {
                        Ok(0)
                    },
                };
                match idx {
                    Ok(i) => {
                        let bs = utf8_len(s.take(ms[i])) as int;
                        Ok((bs, bs + utf8_len(p)))
                    },
                    Err(m) => Err(m),
                }
            }
        },
    }
}

pub proof fn lemma_line_offsets_bounds(s: Seq<char>)
    ensures
        line_offsets(s).len() >= 1,
        forall|k: int|
            0 <= k < line_offsets(s).len() ==> 0 <= #[trigger] line_offsets(s)[k].0 <= line_offsets(
                s,
            )[k].1 <= s.len(),
{
    if s.len() > 0 {
        lemma_line_spans_bounds(s, 0);
    }
}

proof fn lemma_line_spans_bounds(s: Seq<char>, base: int)
    ensures
        s.len() > 0 ==> line_spans(s, base).len() >= 1,
        forall|k: int|
            0 <= k < line_spans(s, base).len() ==> base <= #[trigger] line_spans(s, base)[k].0
                <= line_spans(s, base)[k].1 <= base + s.len(),
    decreases s.len(),
{
    if s.len() > 0 {
        lemma_next_index_of(s, '\n', 0);
        let j = next_index_of(s, '\n', 0);
        if j < s.len() {
            let rest = line_spans(s.skip(j + 1), base + j + 1);
            lemma_line_spans_bounds(s.skip(j + 1), base + j + 1);
            let head = (base, base + strip_eol(s.take(j + 1)).len());
            assert(line_spans(s, base) == seq![head] + rest);
            assert forall|k: int| 0 <= k < line_spans(s, base).len() implies base
                <= #[trigger] line_spans(s, base)[k].0 <= line_spans(s, base)[k].1 <= base
                + s.len() by {
                if k > 0 {
                    assert(line_spans(s, base)[k] == rest[k - 1]);
                }
            }
        }
    }
}


fn line_range_message(start: u32, end: u32, lines: usize) -> (r: String)
    ensures
        r@ == line_range_error(start, end, lines as nat),
{
    let mut r = String::from_str("line range ");
    append_dec(&mut r, start as u64);
    r.append("-");
    append_dec(&mut r, end as u64);
    r.append(" out of bounds (file has ");
    append_dec(&mut r, lines as u64);
    r.append(" lines)");
    r
}

fn match_index_message(n: u32, found: usize) -> (r: String)
    ensures
        r@ == match_index_error(n, found as nat),
{
    let mut r = String::from_str("match_index ");
    append_dec(&mut r, n as u64);
    r.append(" out of range (found ");
    append_dec(&mut r, found as u64);
    r.append(" occurrences)");
    r
}

fn not_unique_message(found: usize) -> (r: String)
    ensures
        r@ == not_unique_error(found as nat),
{
    let mut r = String::from_str("old_string appears ");
    append_dec(&mut r, found as u64);
    r.append(" times (must be unique, or use match_index)");
    r
}

/// Locates the byte range an edit applies to: a 1-based inclusive line range
/// when `line_range` is given, otherwise an occurrence of `old_string`
/// (the `match_index`-th, 1-based, or the only one).
pub fn resolve_target(
    file_content: &str,
    old_string: &str,
    match_index: Option<u32>,
    line_range: Option<(u32, u32)>,
) -> (r: Result<ResolvedTarget, String>)
    requires
        utf8_len(file_content@) <= isize::MAX,
    ensures
        match r {
            Ok(t) => resolve_target_spec(file_content@, old_string@, match_index, line_range) == Ok::<(int, int), Seq<char>>((t.byte_start as int, t.byte_end as int)),
            Err(m) => resolve_target_spec(file_content@, old_string@, match_index, line_range) == Err::<(int, int), Seq<char>>(m@),
        },
{
    let v = chars_of(file_content);
    proof {
        lemma_utf8_len_take_mono(v@, v@.len() as int, v@.len() as int);
        lemma_utf8_len_take_mono(v@, 0, v@.len() as int);
    }
    if let Some((start, end)) = line_range {
        let offs = line_table(&v);
        proof {
            lemma_line_offsets_bounds(v@);
        }
        let n = offs.len();
        let si: usize = if start >= 1 { (start - 1) as usize } else { 0 };
        let e: usize = if (end as usize) < n { end as usize } else { n };
        if si >= n || si >= e {
            return Err(line_range_message(start, end, n));
        }
        let byte_start = byte_offset(&v, offs[si].0);
        let byte_end = if e < n {
            byte_offset(&v, offs[e].0)
        } else {
            byte_offset(&v, offs[e - 1].1)
        };
        let total = byte_offset(&v, v.len());
        proof {
            assert(v@.take(v@.len() as int) =~= v@);
            let k = if e < n { offs@[e as int].0 } else { offs@[e - 1].1 };
            lemma_utf8_len_take_mono(v@, k as int, v@.len() as int);
        }
        let byte_end = if byte_end < total { byte_end } else { total };
        Ok(ResolvedTarget { byte_start, byte_end })
    } else {
        let p = chars_of(old_string);
        let count: usize;
        let pos: usize;
        if p.len() == 0 {
            count = v.len() + 1;
            assert(match_positions(v@, p@).len() == count);
            let idx: usize = match match_index {
                Some(k) => {
                    if k == 0 || k as usize > count {
                        return Err(match_index_message(k, count));
                    }
                    (k - 1) as usize
                },
                None => {
                    if count > 1 {
                        return Err(not_unique_message(count));
                    }
                    0
                },
            };
            pos = idx;
            assert(match_positions(v@, p@)[idx as int] == idx);
            let byte_start = byte_offset(&v, pos);
            reveal_with_fuel(utf8_len, 1);
            assert(utf8_len(p@) == 0);
            return Ok(ResolvedTarget { byte_start, byte_end: byte_start });
        }
        let matches = find_matches(&v, &p);
        if matches.len() == 0 {
            return Err(String::from_str("old_string not found in file"));
        }
        count = matches.len();
        let idx: usize = match match_index {
            Some(k) => {
                if k == 0 || k as usize > count {
                    return Err(match_index_message(k, count));
                }
                (k - 1) as usize
            },
            None => {
                if count > 1 {
                    return Err(not_unique_message(count));
                }
                0
            },
        };
        pos = matches[idx];
        assert(as_ints(matches@)[idx as int] == pos as int);
        let byte_start = byte_offset(&v, pos);
        proof {
            let m = pos as int;
            assert(v@.subrange(m, m + p@.len()) == p@) by {
                lemma_matches_from_occur(v@, p@, 0, idx as int);
            }
            assert(v@.take(m + p@.len()) =~= v@.take(m) + p@);
            lemma_utf8_len_concat(v@.take(m), p@);
            lemma_utf8_len_take_mono(v@, m + p@.len(), m + p@.len());
            lemma_utf8_len_take_mono(p@, p@.len() as int, p@.len() as int);
            assert(p@.take(p@.len() as int) =~= p@);
        }
        let plen = byte_offset(&p, p.len());
        Ok(ResolvedTarget { byte_start, byte_end: byte_start + plen })
    }
}

/// Every position `matches_from` reports is an occurrence.
proof fn lemma_matches_from_occur(s: Seq<char>, p: Seq<char>, from: int, k: int)
    requires
        0 <= k < matches_from(s, p, from).len(),
    ensures
        0 <= matches_from(s, p, from)[k],
        matches_from(s, p, from)[k] + p.len() <= s.len(),
        s.subrange(matches_from(s, p, from)[k], matches_from(s, p, from)[k] + p.len()) == p,
    decreases s.len() - from,
{
    if p.len() == 0 || from < 0 || from + p.len() > s.len() {
    } else if s.subrange(from, from + p.len()) == p {
        if k > 0 {
            lemma_matches_from_occur(s, p, from + p.len(), k - 1);
        }
    } else {
        lemma_matches_from_occur(s, p, from + 1, k);
    }
}


// ── Applying an edit ─────────────────────────────────────

/// `b` followed by a newline unless it already ends with one.
pub open spec fn with_newline(b: Seq<char>) -> Seq<char> {
    if b.len() > 0 && b.last() == '\n' {
        b
    } else {
        b.push('\n')
    }
}

/// What a mode reads of the target: the offsets it uses must lie on character
/// boundaries of the text (the line modes read nothing when inserting nothing).
pub open spec fn target_fits(s: Seq<char>, t: ResolvedTarget, new: Seq<char>, mode: EditMode) -> bool {
    match mode {
        EditMode::Replace => is_boundary(s, t.byte_start as int) && is_boundary(s, t.byte_end as int),
        EditMode::After => is_boundary(s, t.byte_end as int),
        EditMode::Before => is_boundary(s, t.byte_start as int),
        EditMode::AfterLine => new.len() == 0 || is_boundary(s, t.byte_end as int),
        EditMode::BeforeLine => new.len() == 0 || is_boundary(s, t.byte_start as int),
        EditMode::Append => true,
    }
}

/// The text after applying `mode` at character indices `i0` (target start)
/// and `i1` (target end):
/// - `Replace`: the target replaced by `new`;
/// - `After` / `Before`: `new` inserted right after / before the target;
/// - `AfterLine`: `new` as whole line(s) after the line the target ends on
///   (right at the target end when that is already a line start);
/// - `BeforeLine`: `new` as whole line(s) before the line the target starts on
///   (a target starting on a newline counts as starting on the next line);
/// - `Append`: `new` after the text, on a new line unless the text ends with one.
/// The line modes add a trailing newline to the inserted block when it lacks
/// one, and leave the text unchanged when `new` is empty.
pub open spec fn apply_mode_chars(s: Seq<char>, i0: int, i1: int, new: Seq<char>, mode: EditMode) -> Seq<char> {
    match mode {
        EditMode::Replace => s.take(i0) + new + s.skip(i1),
        EditMode::After => s.take(i1) + new + s.skip(i1),
        EditMode::Before => s.take(i0) + new + s.skip(i0),
        EditMode::AfterLine => if new.len() == 0 {
            s
        } else {
            let at = if i1 > 0 && s[i1 - 1] == '\n' {
                i1
            } else {
                let j = next_index_of(s, '\n', i1);
                if j < s.len() { j + 1 } else { s.len() as int }
            };
            let lead = if at == s.len() && !(s.len() > 0 && s.last() == '\n') {
                seq!['\n']
            } else {
                Seq::<char>::empty()
            };
            s.take(at) + with_newline(lead + new) + s.skip(at)
        },
        EditMode::BeforeLine => if new.len() == 0 {
            s
        } else {
            let b0 = if i0 < s.len() && s[i0] == '\n' { i0 + 1 } else { i0 };
            let at = after_last_index_of(s, '\n', b0);
            s.take(at) + with_newline(new) + s.skip(at)
        },
        EditMode::Append => if s.len() > 0 && s.last() == '\n' {
            s + new
        } else {
            s + seq!['\n'] + new
        },
    }
}

/// `apply_mode` on the byte offsets of `t`.
pub open spec fn apply_mode_spec(s: Seq<char>, t: ResolvedTarget, new: Seq<char>, mode: EditMode) -> Seq<char> {
    apply_mode_chars(
        s,
        char_index_of(s, t.byte_start as int),
        char_index_of(s, t.byte_end as int),
        new,
        mode,
    )
}

fn concat3(a: &str, b: &str, c: &str) -> (r: String)
    ensures
        r@ == a@ + b@ + c@,
{
    let mut r = String::from_str(a);
    r.append(b);
    r.append(c);
    r
}

/// The text `s[..at] + block + s[at..]`.
fn insert_at(s: &str, n: usize, at: usize, block: &str) -> (r: String)
    requires
        n == s@.len(),
        at <= n,
    ensures
        r@ == s@.take(at as int) + block@ + s@.skip(at as int),
{
    let head = s.substring_char(0, at);
    let tail = s.substring_char(at, n);
    assert(head@ =~= s@.take(at as int));
    assert(tail@ =~= s@.skip(at as int));
    concat3(head, block, tail)
}

/// `b` with a newline appended unless it already ends with one.
fn push_newline_if_missing(b: &mut String, bv: &Vec<char>)
    requires
        bv@ == old(b)@,
    ensures
        final(b)@ == with_newline(old(b)@),
{
    if !(bv.len() > 0 && bv[bv.len() - 1] == '\n') {
        b.append("\n");
        proof {
            reveal_strlit("\n");
        }
        assert(final(b)@ =~= old(b)@.push('\n'));
    }
}

/// Applies an edit: splices `new_string` into `file_content` at `target`
/// according to `mode`.
pub fn apply_mode(file_content: &str, target: &ResolvedTarget, new_string: &str, mode: &EditMode) -> (r: String)
    requires
        target_fits(file_content@, *target, new_string@, *mode),
    ensures
        r@ == apply_mode_spec(file_content@, *target, new_string@, *mode),
{
    let v = chars_of(file_content);
    let n = v.len();
    match mode {
        EditMode::Replace => {
            let i0 = char_index_at(&v, target.byte_start);
            let i1 = char_index_at(&v, target.byte_end);
            let head = file_content.substring_char(0, i0);
            let tail = file_content.substring_char(i1, n);
            assert(head@ =~= v@.take(i0 as int));
            assert(tail@ =~= v@.skip(i1 as int));
            concat3(head, new_string, tail)
        },
        EditMode::After => {
            let i1 = char_index_at(&v, target.byte_end);
            insert_at(file_content, n, i1, new_string)
        },
        EditMode::Before => {
            let i0 = char_index_at(&v, target.byte_start);
            insert_at(file_content, n, i0, new_string)
        },
        EditMode::AfterLine => {
            if new_string.is_empty() {
                return String::from_str(file_content);
            }
            let i1 = char_index_at(&v, target.byte_end);
            let at_line_boundary = i1 > 0 && v[i1 - 1] == '\n';
            let at = if at_line_boundary {
                i1
            } else {
                let j = find_char_from(&v, '\n', i1);
                if j < n { j + 1 } else { n }
            };
            let mut block = String::new();
            if at == n && !(n > 0 && v[n - 1] == '\n') {
                block.append("\n");
            }
            block.append(new_string);
            let bv = chars_of(block.as_str());
            proof {
                reveal_strlit("\n");
                let lead = if at == n && !(n > 0 && v@[n - 1] == '\n') {
                    seq!['\n']
                } else {
                    Seq::<char>::empty()
                };
                assert(block@ =~= lead + new_string@);
            }
            push_newline_if_missing(&mut block, &bv);
            insert_at(file_content, n, at, block.as_str())
        },
        EditMode::BeforeLine => {
            if new_string.is_empty() {
                return String::from_str(file_content);
            }
            let i0 = char_index_at(&v, target.byte_start);
            let b0 = if i0 < n && v[i0] == '\n' { i0 + 1 } else { i0 };
            let at = rfind_char_before(&v, '\n', b0);
            proof {
                lemma_after_last_index_of(v@, '\n', b0 as int);
            }
            let mut block = String::from_str(new_string);
            let bv = chars_of(new_string);
            push_newline_if_missing(&mut block, &bv);
            insert_at(file_content, n, at, block.as_str())
        },
        EditMode::Append => {
            proof {
                reveal_strlit("\n");
            }
            if n > 0 && v[n - 1] == '\n' {
                let mut r = String::from_str(file_content);
                r.append(new_string);
                r
            } else {
                concat3(file_content, "\n", new_string)
            }
        },
    }
}


// ── Laws ─────────────────────────────────────────────────

proof fn lemma_line_spans_ordered(s: Seq<char>, base: int)
    ensures
        forall|k: int, l: int|
            0 <= k < l < line_spans(s, base).len() ==> #[trigger] line_spans(s, base)[k].1
                < #[trigger] line_spans(s, base)[l].0,
    decreases s.len(),
{
    lemma_line_spans_bounds(s, base);
    if s.len() > 0 {
        lemma_next_index_of(s, '\n', 0);
        let j = next_index_of(s, '\n', 0);
        if j < s.len() {
            let rest = line_spans(s.skip(j + 1), base + j + 1);
            lemma_line_spans_ordered(s.skip(j + 1), base + j + 1);
            lemma_line_spans_bounds(s.skip(j + 1), base + j + 1);
            let head = (base, base + strip_eol(s.take(j + 1)).len());
            assert(line_spans(s, base) == seq![head] + rest);
            assert forall|k: int, l: int|
                0 <= k < l < line_spans(s, base).len() implies #[trigger] line_spans(s, base)[k].1
                < #[trigger] line_spans(s, base)[l].0 by {
                assert(line_spans(s, base)[l] == rest[l - 1]);
                if k > 0 {
                    assert(line_spans(s, base)[k] == rest[k - 1]);
                } else {
                    assert(strip_eol(s.take(j + 1)).len() <= j);
                }
            }
        }
    }
}

/// A target that `resolve_target` returns lies on character boundaries of the
/// text and does not run backwards, so every edit mode can be applied at it;
/// a target found by search covers exactly the searched text.
pub proof fn law_resolved_target_fits(
    s: Seq<char>,
    p: Seq<char>,
    match_index: Option<u32>,
    line_range: Option<(u32, u32)>,
    new: Seq<char>,
    mode: EditMode,
)
    requires
        resolve_target_spec(s, p, match_index, line_range) is Ok,
    ensures
        ({
            let (bs, be) = resolve_target_spec(s, p, match_index, line_range)->Ok_0;
            &&& is_boundary(s, bs)
            &&& is_boundary(s, be)
            &&& bs <= be
            &&& (bs >= 0 && be >= 0 && be <= usize::MAX) ==> target_fits(
                s,
                ResolvedTarget { byte_start: bs as usize, byte_end: be as usize },
                new,
                mode,
            )
            &&& line_range is None ==> s.subrange(char_index_of(s, bs), char_index_of(s, be)) == p
        }),
{
    let (bs, be) = resolve_target_spec(s, p, match_index, line_range)->Ok_0;
    match line_range {
        Some((start, end)) => {
            let offs = line_offsets(s);
            lemma_line_offsets_bounds(s);
            let n = offs.len() as int;
            let si: int = if start >= 1 { start - 1 } else { 0 };
            let e: int = if end < n { end as int } else { n };
            assert(0 <= offs[si].0 <= s.len());
            let ke = if e < n { offs[e].0 } else { offs[e - 1].1 };
            assert(0 <= ke <= s.len()) by {
                if e < n {
                    assert(0 <= offs[e].0);
                } else {
                    assert(0 <= offs[e - 1].0);
                }
            }
            assert(offs[si].0 <= ke) by {
                if s.len() > 0 {
                    lemma_line_spans_ordered(s, 0);
                    if e < n {
                        assert(offs[si].1 < offs[e].0);
                    } else if si < e - 1 {
                        assert(offs[si].1 < offs[e - 1].0);
                    }
                }
            }
            lemma_utf8_len_take_mono(s, offs[si].0, ke);
        },
        None => {
            let ms = match_positions(s, p);
            let i: int = match match_index {
                Some(k) => k - 1,
                None => 0,
            };
            let m = ms[i];
            if p.len() == 0 {
                assert(m == i);
                reveal_with_fuel(utf8_len, 1);
                assert(s.subrange(m, m) =~= p);
            } else {
                lemma_matches_from_occur(s, p, 0, i);
                assert(s.take(m + p.len()) =~= s.take(m) + p);
                lemma_utf8_len_concat(s.take(m), p);
            }
            lemma_char_index_of(s, bs);
            lemma_char_index_of(s, be);
            lemma_utf8_len_take_mono(s, m, m + p.len());
        },
    }
}

/// Inserting nothing with a line mode leaves the text unchanged.
pub proof fn law_empty_line_insert_is_noop(s: Seq<char>, t: ResolvedTarget, mode: EditMode)
    requires
        mode is AfterLine || mode is BeforeLine,
    ensures
        apply_mode_spec(s, t, Seq::<char>::empty(), mode) == s,
{
}

/// `r` is `s` with `block` spliced in at `at`; the block ends with a newline,
/// starts on a fresh line, and holds `new` after `lead` leading characters.
pub open spec fn whole_line_splice(
    s: Seq<char>,
    r: Seq<char>,
    new: Seq<char>,
    at: int,
    block: Seq<char>,
    lead: int,
) -> bool {
    &&& 0 <= at <= s.len()
    &&& (lead == 0 || lead == 1)
    &&& r == s.take(at) + block + s.skip(at)
    &&& block.len() > 0 && block.last() == '\n'
    &&& (at == 0 || s[at - 1] == '\n' || (lead == 1 && block[0] == '\n'))
    &&& block.subrange(lead, lead + new.len()) == new
}

/// The line modes insert whole lines: the result is the given text with a
/// block spliced in at one point, the block ends with a newline, and it starts
/// on a fresh line (at the start of the text, after a newline, or with a
/// newline of its own); the block holds `new` right after that optional newline.
pub proof fn law_line_insert_whole_lines(s: Seq<char>, t: ResolvedTarget, new: Seq<char>, mode: EditMode)
    requires
        mode is AfterLine || mode is BeforeLine,
        new.len() > 0,
        target_fits(s, t, new, mode),
    ensures
        exists|at: int, block: Seq<char>, lead: int|
            #[trigger] whole_line_splice(s, apply_mode_spec(s, t, new, mode), new, at, block, lead),
{
    let i0 = char_index_of(s, t.byte_start as int);
    let i1 = char_index_of(s, t.byte_end as int);
    if mode is AfterLine {
        lemma_char_index_of(s, t.byte_end as int);
        let at = if i1 > 0 && s[i1 - 1] == '\n' {
            i1
        } else {
            let j = next_index_of(s, '\n', i1);
            if j < s.len() { j + 1 } else { s.len() as int }
        };
        lemma_next_index_of(s, '\n', i1);
        let lead_s = if at == s.len() && !(s.len() > 0 && s.last() == '\n') {
            seq!['\n']
        } else {
            Seq::<char>::empty()
        };
        let block = with_newline(lead_s + new);
        let lead = lead_s.len() as int;
        assert(block.subrange(lead, lead + new.len()) =~= new);
        if at > 0 && s[at - 1] != '\n' {
            assert(at == s.len());
            assert(s.last() == s[at - 1]);
            assert(block[0] == '\n');
        }
        assert(apply_mode_spec(s, t, new, mode) == s.take(at) + block + s.skip(at));
        assert(whole_line_splice(s, apply_mode_spec(s, t, new, mode), new, at, block, lead));
    } else {
        lemma_char_index_of(s, t.byte_start as int);
        let b0 = if i0 < s.len() && s[i0] == '\n' { i0 + 1 } else { i0 };
        let at = after_last_index_of(s, '\n', b0);
        lemma_after_last_index_of(s, '\n', b0);
        let block = with_newline(new);
        assert(block.subrange(0, new.len() as int) =~= new);
        assert(apply_mode_spec(s, t, new, mode) == s.take(at) + block + s.skip(at));
        assert(whole_line_splice(s, apply_mode_spec(s, t, new, mode), new, at, block, 0));
    }
}


proof fn lemma_target_chars(s: Seq<char>, t: ResolvedTarget)
    requires
        is_boundary(s, t.byte_start as int),
        is_boundary(s, t.byte_end as int),
        t.byte_start <= t.byte_end,
    ensures
        0 <= char_index_of(s, t.byte_start as int) <= char_index_of(s, t.byte_end as int) <= s.len(),
        utf8_len(s.take(char_index_of(s, t.byte_start as int))) == t.byte_start,
        utf8_len(s.take(char_index_of(s, t.byte_end as int))) == t.byte_end,
{
    lemma_char_index_of(s, t.byte_start as int);
    lemma_char_index_of(s, t.byte_end as int);
    let i0 = char_index_of(s, t.byte_start as int);
    let i1 = char_index_of(s, t.byte_end as int);
    if i1 < i0 {
        lemma_utf8_len_take_mono(s, i1, i0);
    }
}

/// A replace keeps the text outside the target: the characters before the
/// target (those whose UTF-8 bytes end at `byte_start`), then `new`, then the
/// characters after the target (from `byte_end` on), and nothing else.
/// Replacing the target with its own text gives the text back.
pub proof fn law_replace_keeps_the_rest(s: Seq<char>, t: ResolvedTarget, new: Seq<char>)
    requires
        target_fits(s, t, new, EditMode::Replace),
        t.byte_start <= t.byte_end,
    ensures
        ({
            let i0 = char_index_of(s, t.byte_start as int);
            let i1 = char_index_of(s, t.byte_end as int);
            let r = apply_mode_spec(s, t, new, EditMode::Replace);
            &&& 0 <= i0 <= i1 <= s.len()
            &&& utf8_len(s.take(i0)) == t.byte_start
            &&& utf8_len(s.take(i1)) == t.byte_end
            &&& r.len() == s.len() - (i1 - i0) + new.len()
            &&& r.take(i0) == s.take(i0)
            &&& r.subrange(i0, i0 + new.len()) == new
            &&& r.skip(i0 + new.len()) == s.skip(i1)
            &&& apply_mode_spec(s, t, s.subrange(i0, i1), EditMode::Replace) == s
        }),
{
    lemma_target_chars(s, t);
    let i0 = char_index_of(s, t.byte_start as int);
    let i1 = char_index_of(s, t.byte_end as int);
    let r = apply_mode_spec(s, t, new, EditMode::Replace);
    assert(r.take(i0) =~= s.take(i0));
    assert(r.subrange(i0, i0 + new.len()) =~= new);
    assert(r.skip(i0 + new.len()) =~= s.skip(i1));
    assert(s.take(i0) + s.subrange(i0, i1) + s.skip(i1) =~= s);
}

/// `After` and `Before` insert `new` at one point and keep every character of
/// the text: right after the target (at `byte_end`) or right before it (at
/// `byte_start`). `Append` keeps the text and puts `new` at its end, after a
/// newline of its own unless the text already ends with one.
pub proof fn law_insert_keeps_the_text(s: Seq<char>, t: ResolvedTarget, new: Seq<char>, mode: EditMode)
    requires
        mode is After || mode is Before || mode is Append,
        target_fits(s, t, new, mode),
    ensures
        ({
            let r = apply_mode_spec(s, t, new, mode);
            let at = if mode is After {
                char_index_of(s, t.byte_end as int)
            } else {
                char_index_of(s, t.byte_start as int)
            };
            &&& !(mode is Append) ==> {
                &&& 0 <= at <= s.len()
                &&& utf8_len(s.take(at)) == (if mode is After { t.byte_end } else { t.byte_start })
                &&& r.len() == s.len() + new.len()
                &&& r.take(at) == s.take(at)
                &&& r.subrange(at, at + new.len()) == new
                &&& r.skip(at + new.len()) == s.skip(at)
            }
            &&& mode is Append ==> {
                &&& r.take(s.len() as int) == s
                &&& r.skip(r.len() - new.len()) == new
                &&& if s.len() > 0 && s.last() == '\n' {
                    r.len() == s.len() + new.len()
                } else {
                    r.len() == s.len() + 1 + new.len() && r[s.len() as int] == '\n'
                }
            }
        }),
{
    let r = apply_mode_spec(s, t, new, mode);
    if mode is After {
        lemma_char_index_of(s, t.byte_end as int);
        let at = char_index_of(s, t.byte_end as int);
        assert(r.take(at) =~= s.take(at));
        assert(r.subrange(at, at + new.len()) =~= new);
        assert(r.skip(at + new.len()) =~= s.skip(at));
    } else if mode is Before {
        lemma_char_index_of(s, t.byte_start as int);
        let at = char_index_of(s, t.byte_start as int);
        assert(r.take(at) =~= s.take(at));
        assert(r.subrange(at, at + new.len()) =~= new);
        assert(r.skip(at + new.len()) =~= s.skip(at));
    } else {
        assert(r.take(s.len() as int) =~= s);
        assert(r.skip(r.len() - new.len()) =~= new);
    }
}


/// Where the line modes put their block. `AfterLine` puts it at the start of
/// the line after the one the target ends on: right at the target's end when
/// that already starts a line, else just past the first newline at or after
/// it, or at the end of the text when there is none. `BeforeLine` puts it at
/// the start of the line the target starts on (a target that starts on a
/// newline counts as starting on the next line).
pub proof fn law_line_insert_position(s: Seq<char>, t: ResolvedTarget, new: Seq<char>, mode: EditMode)
    requires
        mode is AfterLine || mode is BeforeLine,
        new.len() > 0,
        target_fits(s, t, new, mode),
    ensures
        exists|at: int, block: Seq<char>, lead: int|
            #[trigger] whole_line_splice(s, apply_mode_spec(s, t, new, mode), new, at, block, lead) && ({
                let i0 = char_index_of(s, t.byte_start as int);
                let i1 = char_index_of(s, t.byte_end as int);
                let b0 = if i0 < s.len() && s[i0] == '\n' { i0 + 1 } else { i0 };
                &&& block.len() == lead + new.len() + (if new.last() == '\n' { 0int } else { 1int })
                &&& (lead == 1 <==> (mode is AfterLine && at == s.len() && !(s.len() > 0 && s.last() == '\n')))
                &&& lead == 1 ==> block[0] == '\n'
                &&& if mode is AfterLine {
                    &&& i1 <= at
                    &&& (at == s.len() || (at > 0 && s[at - 1] == '\n'))
                    &&& forall|k: int| i1 <= k < at - 1 ==> s[k] != '\n'
                    &&& (i1 > 0 && s[i1 - 1] == '\n') ==> at == i1
                } else {
                    &&& at <= b0
                    &&& (at == 0 || s[at - 1] == '\n')
                    &&& forall|k: int| at <= k < b0 ==> s[k] != '\n'
                }
            }),
{
    let i0 = char_index_of(s, t.byte_start as int);
    let i1 = char_index_of(s, t.byte_end as int);
    let r = apply_mode_spec(s, t, new, mode);
    if mode is AfterLine {
        lemma_char_index_of(s, t.byte_end as int);
        lemma_next_index_of(s, '\n', i1);
        let at = if i1 > 0 && s[i1 - 1] == '\n' {
            i1
        } else {
            let j = next_index_of(s, '\n', i1);
            if j < s.len() { j + 1 } else { s.len() as int }
        };
        let lead_s = if at == s.len() && !(s.len() > 0 && s.last() == '\n') {
            seq!['\n']
        } else {
            Seq::<char>::empty()
        };
        let block = with_newline(lead_s + new);
        let lead = lead_s.len() as int;
        assert(block.subrange(lead, lead + new.len()) =~= new);
        assert((lead_s + new).last() == new.last());
        if lead == 1 {
            assert(block[0] == (lead_s + new)[0]);
        }
        if at > 0 && s[at - 1] != '\n' {
            assert(at == s.len());
            assert(s.last() == s[at - 1]);
            assert(block[0] == '\n');
        }
        assert(r == s.take(at) + block + s.skip(at));
        assert(whole_line_splice(s, r, new, at, block, lead));
    } else {
        lemma_char_index_of(s, t.byte_start as int);
        let b0 = if i0 < s.len() && s[i0] == '\n' { i0 + 1 } else { i0 };
        let at = after_last_index_of(s, '\n', b0);
        lemma_after_last_index_of(s, '\n', b0);
        let block = with_newline(new);
        assert(block.subrange(0, new.len() as int) =~= new);
        assert(r == s.take(at) + block + s.skip(at));
        assert(whole_line_splice(s, r, new, at, block, 0));
    }
}


proof fn lemma_matches_from_lower(s: Seq<char>, p: Seq<char>, from: int, k: int)
    requires
        0 <= k < matches_from(s, p, from).len(),
    ensures
        from <= matches_from(s, p, from)[k],
    decreases s.len() - from,
{
    if p.len() == 0 || from < 0 || from + p.len() > s.len() {
    } else if s.subrange(from, from + p.len()) == p {
        if k > 0 {
            lemma_matches_from_lower(s, p, from + p.len(), k - 1);
        }
    } else {
        lemma_matches_from_lower(s, p, from + 1, k);
    }
}

/// The occurrences `matches_from` reports do not overlap, in order.
proof fn lemma_matches_from_apart(s: Seq<char>, p: Seq<char>, from: int, k: int)
    requires
        0 <= k,
        k + 1 < matches_from(s, p, from).len(),
    ensures
        matches_from(s, p, from)[k] + p.len() <= matches_from(s, p, from)[k + 1],
    decreases s.len() - from,
{
    if p.len() == 0 || from < 0 || from + p.len() > s.len() {
    } else if s.subrange(from, from + p.len()) == p {
        if k > 0 {
            lemma_matches_from_apart(s, p, from + p.len(), k - 1);
        } else {
            lemma_matches_from_lower(s, p, from + p.len(), 0);
        }
    } else {
        lemma_matches_from_apart(s, p, from + 1, k);
    }
}

proof fn lemma_matches_from_apart_far(s: Seq<char>, p: Seq<char>, from: int, a: int, b: int)
    requires
        0 <= a < b < matches_from(s, p, from).len(),
    ensures
        matches_from(s, p, from)[a] + p.len() <= matches_from(s, p, from)[b],
    decreases b - a,
{
    lemma_matches_from_apart(s, p, from, b - 1);
    if a < b - 1 {
        lemma_matches_from_apart_far(s, p, from, a, b - 1);
    }
}

/// The first occurrence `matches_from` reports is the leftmost one from `from` on.
proof fn lemma_matches_from_leftmost(s: Seq<char>, p: Seq<char>, from: int, j: int)
    requires
        p.len() > 0,
        0 <= from <= j,
        j + p.len() <= s.len(),
        s.subrange(j, j + p.len()) == p,
    ensures
        matches_from(s, p, from).len() > 0,
        matches_from(s, p, from)[0] <= j,
    decreases j - from,
{
    if s.subrange(from, from + p.len()) != p {
        lemma_matches_from_leftmost(s, p, from + 1, j);
    }
}

/// After its first occurrence, `matches_from` goes on right past it.
proof fn lemma_matches_from_rest(s: Seq<char>, p: Seq<char>, from: int)
    requires
        matches_from(s, p, from).len() > 0,
    ensures
        matches_from(s, p, from).len() == 1 + matches_from(s, p, matches_from(s, p, from)[0] + p.len()).len(),
    decreases s.len() - from,
{
    if p.len() == 0 || from < 0 || from + p.len() > s.len() {
    } else if s.subrange(from, from + p.len()) == p {
    } else {
        lemma_matches_from_rest(s, p, from + 1);
    }
}

/// The byte offset of the start of the `k`-th (0-based) match of `p`.
proof fn lemma_match_start(s: Seq<char>, p: Seq<char>, k: int)
    requires
        0 <= k < match_positions(s, p).len(),
    ensures
        0 <= match_positions(s, p)[k],
        match_positions(s, p)[k] + p.len() <= s.len(),
        char_index_of(s, utf8_len(s.take(match_positions(s, p)[k])) as int) == match_positions(s, p)[k],
        utf8_len(s.take(match_positions(s, p)[k] + p.len())) == utf8_len(s.take(match_positions(s, p)[k]))
            + utf8_len(p),
{
    let m = match_positions(s, p)[k];
    if p.len() == 0 {
        assert(s.take(m + 0) =~= s.take(m));
        reveal_with_fuel(utf8_len, 1);
    } else {
        lemma_matches_from_occur(s, p, 0, k);
        assert(s.take(m + p.len()) =~= s.take(m) + p);
        lemma_utf8_len_concat(s.take(m), p);
    }
    let b = utf8_len(s.take(m)) as int;
    assert(is_boundary(s, b));
    lemma_char_index_of(s, b);
}

/// A searched target is the only occurrence of the search text when no index
/// is given: every other occurrence overlaps it. With no index, or index 1,
/// it is the leftmost occurrence.
pub proof fn law_search_target_is_the_only_or_first(s: Seq<char>, p: Seq<char>, match_index: Option<u32>, j: int)
    requires
        p.len() > 0,
        resolve_target_spec(s, p, match_index, None) is Ok,
        match_index is None || match_index == Some(1u32),
        0 <= j,
        j + p.len() <= s.len(),
        s.subrange(j, j + p.len()) == p,
    ensures
        ({
            let i0 = char_index_of(s, resolve_target_spec(s, p, match_index, None)->Ok_0.0);
            &&& i0 <= j
            &&& match_index is None ==> j < i0 + p.len()
        }),
{
    let ms = match_positions(s, p);
    lemma_match_start(s, p, 0);
    lemma_matches_from_leftmost(s, p, 0, j);
    if match_index is None && j >= ms[0] + p.len() {
        lemma_matches_from_occur(s, p, 0, 0);
        lemma_matches_from_leftmost(s, p, ms[0] + p.len(), j);
        lemma_matches_from_rest(s, p, 0);
    }
}

/// A later match index selects a later occurrence: the target of index `a`
/// ends no later than the target of a larger index `b` starts.
pub proof fn law_later_index_later_target(s: Seq<char>, p: Seq<char>, a: u32, b: u32)
    requires
        a < b,
        resolve_target_spec(s, p, Some(a), None) is Ok,
        resolve_target_spec(s, p, Some(b), None) is Ok,
    ensures
        resolve_target_spec(s, p, Some(a), None)->Ok_0.1 <= resolve_target_spec(s, p, Some(b), None)->Ok_0.0,
{
    let ms = match_positions(s, p);
    let ia = a - 1;
    let ib = b - 1;
    lemma_match_start(s, p, ia);
    lemma_match_start(s, p, ib);
    if p.len() > 0 {
        lemma_matches_from_apart_far(s, p, 0, ia, ib);
    }
    lemma_utf8_len_take_mono(s, ms[ia] + p.len(), ms[ib]);
}


/// The number of newlines in `s`.
pub open spec fn newline_count(s: Seq<char>) -> nat
    decreases s.len(),
{
    if s.len() == 0 {
        0
    } else {
        newline_count(s.drop_last()) + if s.last() == '\n' { 1nat } else { 0nat }
    }
}

proof fn lemma_newline_count_concat(a: Seq<char>, b: Seq<char>)
    ensures
        newline_count(a + b) == newline_count(a) + newline_count(b),
    decreases b.len(),
{
    if b.len() == 0 {
        assert(a + b =~= a);
    } else {
        assert((a + b).drop_last() =~= a + b.drop_last());
        lemma_newline_count_concat(a, b.drop_last());
    }
}

proof fn lemma_newline_count_none(a: Seq<char>)
    requires
        forall|k: int| 0 <= k < a.len() ==> a[k] != '\n',
    ensures
        newline_count(a) == 0,
    decreases a.len(),
{
    if a.len() > 0 {
        lemma_newline_count_none(a.drop_last());
    }
}

/// Line `k` of `line_spans` starts right after the `k`-th newline.
proof fn lemma_line_span_start(s: Seq<char>, base: int, k: int)
    requires
        0 <= k < line_spans(s, base).len(),
    ensures
        ({
            let st = line_spans(s, base)[k].0 - base;
            &&& 0 <= st <= s.len()
            &&& newline_count(s.take(st)) == k
            &&& (st == 0 || s[st - 1] == '\n')
        }),
    decreases s.len(),
{
    lemma_line_spans_bounds(s, base);
    lemma_next_index_of(s, '\n', 0);
    let j = next_index_of(s, '\n', 0);
    assert(s.len() > 0);
    if k == 0 {
        assert(line_spans(s, base)[0].0 == base);
        assert(s.take(0) =~= Seq::<char>::empty());
    } else {
        assert(j < s.len());
        let rest = line_spans(s.skip(j + 1), base + j + 1);
        assert(line_spans(s, base)[k] == rest[k - 1]);
        lemma_line_span_start(s.skip(j + 1), base + j + 1, k - 1);
        let st1 = rest[k - 1].0 - (base + j + 1);
        let st = st1 + j + 1;
        assert(s.take(st) =~= s.take(j) + seq!['\n'] + s.skip(j + 1).take(st1));
        lemma_newline_count_none(s.take(j));
        lemma_newline_count_concat(s.take(j) + seq!['\n'], s.skip(j + 1).take(st1));
        lemma_newline_count_concat(s.take(j), seq!['\n']);
        let nl = seq!['\n'];
        assert(nl.drop_last() =~= Seq::<char>::empty());
        assert(nl.last() == '\n');
        assert(newline_count(nl.drop_last()) == 0);
        assert(newline_count(nl) == 1);
        assert(newline_count(s.take(st)) == k);
        if st1 > 0 {
            assert(s[st - 1] == s.skip(j + 1)[st1 - 1]);
        }
    }
}

/// The last line's content ends where only its terminator is left.
proof fn lemma_last_span_end(s: Seq<char>, base: int)
    requires
        s.len() > 0,
    ensures
        ({
            let en = line_spans(s, base).last().1 - base;
            &&& 0 <= en <= s.len()
            &&& (s.skip(en) =~= Seq::<char>::empty() || s.skip(en) =~= seq!['\n'] || s.skip(en) =~= seq!['\r']
                || s.skip(en) =~= seq!['\r', '\n'])
        }),
    decreases s.len(),
{
    lemma_line_spans_bounds(s, base);
    lemma_next_index_of(s, '\n', 0);
    let j = next_index_of(s, '\n', 0);
    if j < s.len() {
        let rest = line_spans(s.skip(j + 1), base + j + 1);
        if j + 1 < s.len() {
            lemma_line_spans_bounds(s.skip(j + 1), base + j + 1);
            lemma_last_span_end(s.skip(j + 1), base + j + 1);
            assert(line_spans(s, base).last() == rest.last());
            let en1 = rest.last().1 - (base + j + 1);
            assert(s.skip(en1 + j + 1) =~= s.skip(j + 1).skip(en1));
        } else {
            assert(line_spans(s.skip(j + 1), base + j + 1) =~= Seq::<(int, int)>::empty());
            let p = s.take(j + 1);
            assert(p =~= s);
            let a = p.drop_last();
            let en = strip_eol(p).len() as int;
            if a.len() > 0 && a.last() == '\r' {
                assert(s.skip(en) =~= seq!['\r', '\n']);
            } else {
                assert(s.skip(en) =~= seq!['\n']);
            }
        }
    } else {
        let en = strip_eol(s).len() as int;
        if s.last() == '\r' {
            assert(s.skip(en) =~= seq!['\r']);
        } else {
            assert(s.skip(en) =~= Seq::<char>::empty());
        }
    }
}

/// A line-range target runs from the start of line `start` (1-based; the
/// text before it holds `start - 1` newlines and ends with one, or is empty)
/// to the start of the line after `end` (the text before that holds `end`
/// newlines and ends with one), or, when `end` reaches the last line, to that
/// line's content end, leaving only its terminator after the target.
pub proof fn law_line_range_target(
    s: Seq<char>,
    p: Seq<char>,
    match_index: Option<u32>,
    start: u32,
    end: u32,
)
    requires
        resolve_target_spec(s, p, match_index, Some((start, end))) is Ok,
    ensures
        ({
            let (bs, be) = resolve_target_spec(s, p, match_index, Some((start, end)))->Ok_0;
            let i0 = char_index_of(s, bs);
            let i1 = char_index_of(s, be);
            let first: int = if start >= 1 { start - 1 } else { 0 };
            &&& 0 <= i0 <= i1 <= s.len()
            &&& newline_count(s.take(i0)) == first
            &&& (i0 == 0 || s[i0 - 1] == '\n')
            &&& end < line_offsets(s).len() ==> newline_count(s.take(i1)) == end && s[i1 - 1] == '\n'
            &&& end >= line_offsets(s).len() ==> (s.skip(i1) =~= Seq::<char>::empty() || s.skip(i1) =~= seq!['\n']
                || s.skip(i1) =~= seq!['\r'] || s.skip(i1) =~= seq!['\r', '\n'])
        }),
{
    law_resolved_target_fits(s, p, match_index, Some((start, end)), Seq::empty(), EditMode::Append);
    let offs = line_offsets(s);
    lemma_line_offsets_bounds(s);
    let n = offs.len() as int;
    let si: int = if start >= 1 { start - 1 } else { 0 };
    let e: int = if end < n { end as int } else { n };
    let (bs, be) = resolve_target_spec(s, p, match_index, Some((start, end)))->Ok_0;
    let k0 = offs[si].0;
    let k1 = if e < n { offs[e].0 } else { offs[e - 1].1 };
    assert(0 <= k1 <= s.len()) by {
        if e >= n {
            assert(0 <= offs[e - 1].0);
        }
    }
    assert(is_boundary(s, bs));
    lemma_char_index_of(s, bs);
    lemma_char_index_of(s, be);
    assert(char_index_of(s, bs) == k0);
    assert(char_index_of(s, be) == k1);
    if s.len() == 0 {
        assert(s.take(0) =~= Seq::<char>::empty());
        assert(s.skip(0) =~= Seq::<char>::empty());
    } else {
        lemma_line_span_start(s, 0, si);
        if e < n {
            lemma_line_span_start(s, 0, e);
        } else {
            lemma_last_span_end(s, 0);
        }
    }
    let first: int = if start >= 1 { start - 1 } else { 0 };
    assert(si == first);
    if k1 < k0 {
        lemma_utf8_len_take_mono(s, k1, k0);
    }
    assert(0 <= k0 <= k1);
    assert(newline_count(s.take(k0)) == first);
    assert(k0 == 0 || s[k0 - 1] == '\n');
    if end < n {
        assert(e == end);
        assert(newline_count(s.take(k1)) == end);
        assert(s[k1 - 1] == '\n');
    }
}

} // verus!

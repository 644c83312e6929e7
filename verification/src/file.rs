//! File helpers: confining paths to the project root, binary detection, and
//! numbered-line rendering.

use vstd::prelude::*;

use crate::text::{result_view, chars_of, dec, dec_string, string_from_chars};

verus! {

/// Largest file the buffer tools load.
pub const MAX_FILE_SIZE: u64 = 1048576;

/// Whether `bytes` looks binary: a NUL byte within its first 8192 bytes.
pub fn is_binary(bytes: &[u8]) -> (r: bool)
    ensures
        r == exists|i: int| 0 <= i < bytes@.len() && i < 8192 && bytes@[i] == 0u8,
{
    if bytes.len() == 0 {
        return false;
    }
    let n = if bytes.len() < 8192 { bytes.len() } else { 8192 };
    let mut i: usize = 0;
    while i < n
        invariant
            i <= n,
            n <= bytes@.len(),
            n == if bytes@.len() < 8192 { bytes@.len() } else { 8192 },
            forall|j: int| 0 <= j < i ==> bytes@[j] != 0u8,
        decreases n - i,
    {
        if bytes[i] == 0 {
            return true;
        }
        i += 1;
    }
    false
}

/// `s` right-aligned in a field of `width` characters, padded with spaces.
pub open spec fn pad_left(s: Seq<char>, width: nat) -> Seq<char> {
    if s.len() < width {
        Seq::new((width - s.len()) as nat, |i: int| ' ') + s
    } else {
        s
    }
}

/// A line of a numbered listing: a `>` marker or two spaces, the line number
/// right-aligned to `width`, ` | `, and the line's content.
pub open spec fn numbered_line(line_num: nat, width: nat, content: Seq<char>, marker: bool) -> Seq<char> {
    (if marker { "> "@ } else { "  "@ }) + pad_left(dec(line_num), width) + " | "@ + content
}

pub fn format_numbered_line(line_num: usize, width: usize, content: &str, marker: bool) -> (r: String)
    ensures
        r@ == numbered_line(line_num as nat, width as nat, content@, marker),
{
    let num = dec_string(line_num as u64);
    let nv = chars_of(num.as_str());
    let mut padded: Vec<char> = Vec::new();
    if nv.len() < width {
        let pad = width - nv.len();
        let mut i: usize = 0;
        while i < pad
            invariant
                i <= pad,
                padded@ == Seq::new(i as nat, |k: int| ' '),
            decreases pad - i,
        {
            padded.push(' ');
            assert(padded@ =~= Seq::new((i + 1) as nat, |k: int| ' '));
            i += 1;
        }
    }
    let mut r = String::from_str(if marker { "> " } else { "  " });
    r.append(string_from_chars(&padded).as_str());
    r.append(num.as_str());
    r.append(" | ");
    r.append(content);
    r
}

/// `Path::starts_with`.
pub uninterp spec fn path_starts_with_spec(path: Seq<char>, base: Seq<char>) -> bool;

/// `Path::new(path).starts_with(base)`: whether the components of `base` are
/// a prefix of the components of `path` (whole components only); it depends on
/// the two paths alone.
#[verifier::external_body]
pub(crate) fn path_starts_with(path: &str, base: &str) -> (r: bool)
    ensures
        r == path_starts_with_spec(path@, base@),
{
    std::path::Path::new(path).starts_with(base)
}

/// `Path::parent`.
pub uninterp spec fn path_parent_spec(path: Seq<char>) -> Option<Seq<char>>;

/// `Path::file_name`.
pub uninterp spec fn path_file_name_spec(path: Seq<char>) -> Option<Seq<char>>;

/// `Path::join`.
pub uninterp spec fn path_join_spec(base: Seq<char>, name: Seq<char>) -> Seq<char>;

pub open spec fn opt_string_view(o: Option<String>) -> Option<Seq<char>> {
    match o {
        Some(s) => Some(s@),
        None => None,
    }
}

/// `Path::new(path).parent()`: the path without its final component, or
/// nothing for a root or empty path; it depends on the path alone.
#[verifier::external_body]
fn path_parent(path: &str) -> (r: Option<String>)
    ensures
        opt_string_view(r) == path_parent_spec(path@),
{
    std::path::Path::new(path).parent().map(|q| q.to_string_lossy().into_owned())
}

/// `Path::new(path).file_name()`: the final component, or nothing when the
/// path ends in `..` or has none; it depends on the path alone.
#[verifier::external_body]
fn path_file_name(path: &str) -> (r: Option<String>)
    ensures
        opt_string_view(r) == path_file_name_spec(path@),
{
    std::path::Path::new(path).file_name().map(|n| n.to_string_lossy().into_owned())
}

/// `Path::new(base).join(name)`: `name` appended to `base` as a further
/// component; it depends on the two paths alone.
#[verifier::external_body]
fn path_join(base: &str, name: &str) -> (r: String)
    ensures
        r@ == path_join_spec(base@, name@),
{
    std::path::Path::new(base).join(name).to_string_lossy().into_owned()
}

/// The directory to resolve on disk when `file_path` itself does not
/// resolve (a file not created yet): its parent, if it has one.
pub fn parent_to_resolve(file_path: &str) -> (r: Option<String>)
    ensures
        opt_string_view(r) == path_parent_spec(file_path@),
{
    path_parent(file_path)
}

pub open spec fn not_accessible_error(file_path: Seq<char>) -> Seq<char> {
    "Path not accessible: "@ + file_path
}

/// Where `file_path` resolves: the path canonicalized on disk (`canonical`,
/// or the error text of that attempt); failing that, its parent
/// canonicalized (`parent_canonical`, when looked up: the result or its
/// error text) joined with its file name (none reads as empty); failing that,
/// a "Path not accessible" error, with the parent's error when there was one.
pub open spec fn resolved_path(
    file_path: Seq<char>,
    canonical: Result<Seq<char>, Seq<char>>,
    parent_canonical: Option<Result<Seq<char>, Seq<char>>>,
) -> Result<Seq<char>, Seq<char>> {
    match canonical {
        Ok(c) => Ok(c),
        Err(_) => match path_parent_spec(file_path) {
            None => Err(not_accessible_error(file_path)),
            Some(_) => match parent_canonical {
                Some(Ok(cp)) => Ok(
                    path_join_spec(
                        cp,
                        match path_file_name_spec(file_path) {
                            Some(n) => n,
                            None => ""@,
                        },
                    ),
                ),
                Some(Err(e)) => Err(not_accessible_error(file_path) + ": "@ + e),
                None => Err(not_accessible_error(file_path)),
            },
        },
    }
}

pub open spec fn outside_root_error(file_path: Seq<char>, project_root: Seq<char>) -> Seq<char> {
    "Access denied: '"@ + file_path + "' is outside project root '"@ + project_root + "'"@
}

/// The outcome of `validate_path`: the resolved path when it lies under the
/// project root (whole components), else the error.
pub open spec fn validated_path(
    file_path: Seq<char>,
    project_root: Seq<char>,
    canonical: Result<Seq<char>, Seq<char>>,
    parent_canonical: Option<Result<Seq<char>, Seq<char>>>,
) -> Result<Seq<char>, Seq<char>> {
    match resolved_path(file_path, canonical, parent_canonical) {
        Ok(c) => if path_starts_with_spec(c, project_root) {
            Ok(c)
        } else {
            Err(outside_root_error(file_path, project_root))
        },
        Err(e) => Err(e),
    }
}

pub open spec fn opt_result_view(o: Option<Result<String, String>>) -> Option<Result<Seq<char>, Seq<char>>> {
    match o {
        Some(r) => Some(result_view(r)),
        None => None,
    }
}

/// Confines a path to the project root. `canonical` is `file_path`
/// canonicalized on disk (or the error text); `parent_canonical` is the
/// canonicalized `parent_to_resolve(file_path)` (or its error text), looked up
/// only when `canonical` failed.
pub fn validate_path(
    file_path: &str,
    project_root: &str,
    canonical: Result<String, String>,
    parent_canonical: Option<Result<String, String>>,
) -> (r: Result<String, String>)
    ensures
        result_view(r) == validated_path(
            file_path@,
            project_root@,
            result_view(canonical),
            opt_result_view(parent_canonical),
        ),
{
    let ghost cv = result_view(canonical);
    let ghost pv = opt_result_view(parent_canonical);
    let resolved = match canonical {
        Ok(c) => {
            assert(cv == Ok::<Seq<char>, Seq<char>>(c@));
            c
        },
        Err(_) => {
            let has_parent = path_parent(file_path).is_some();
            let mut m = String::from_str("Path not accessible: ");
            m.append(file_path);
            if !has_parent {
                return Err(m);
            }
            match parent_canonical {
                Some(Ok(cp)) => {
                    let name = match path_file_name(file_path) {
                        Some(n) => n,
                        None => String::new(),
                    };
                    proof {
                        reveal_strlit("");
                    }
                    assert(pv == Some(Ok::<Seq<char>, Seq<char>>(cp@)));
                    assert(path_parent_spec(file_path@) is Some);
                    assert(name@ == match path_file_name_spec(file_path@) {
                        Some(n) => n,
                        None => ""@,
                    });
                    path_join(cp.as_str(), name.as_str())
                },
                Some(Err(e)) => {
                    m.append(": ");
                    m.append(e.as_str());
                    return Err(m);
                },
                None => return Err(m),
            }
        },
    };
    assert(resolved_path(file_path@, cv, pv) == Ok::<Seq<char>, Seq<char>>(resolved@));
    if !path_starts_with(resolved.as_str(), project_root) {
        let mut m = String::from_str("Access denied: '");
        m.append(file_path);
        m.append("' is outside project root '");
        m.append(project_root);
        m.append("'");
        return Err(m);
    }
    Ok(resolved)
}

} // verus!

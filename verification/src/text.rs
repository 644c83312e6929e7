//! Character-level text primitives shared by the library: views of strings
//! as character sequences, building strings, Unicode whitespace, trimming,
//! ASCII case folding, substring search and UTF-8 byte widths.

use vstd::prelude::*;
use vstd::std_specs::iter::IteratorSpec;
use vstd::utf8::*;

verus! {

/// The characters of `s`, in order.
pub fn chars_of(s: &str) -> (v: Vec<char>)
    ensures
        v@ == s@,
{
    let mut v: Vec<char> = Vec::new();
    let chars_it = s.chars();
    for c in it: chars_it
        invariant
            it.seq() == s@,
            v@ == it.seq().take(it.index()),
    {
        v.push(c);
        assert(v@ =~= it.seq().take(it.index() + 1));
    }
    assert(v@ =~= s@);
    v
}

/// Builds a `String` holding exactly the characters of `v`
/// (`FromIterator<&char>` for `String`, which appends each character in turn).
#[verifier::external_body]
pub(crate) fn string_from_chars(v: &Vec<char>) -> (s: String)
    ensures
        s@ == v@,
{
    v.iter().collect()
}


/// What `format!("{:?}", s)` writes for a string: its `Debug` form.
pub uninterp spec fn debug_form(s: Seq<char>) -> Seq<char>;

/// `format!("{:?}", s)` (`<str as Debug>::fmt`): `s` in double quotes, with
/// quotes, backslashes and non-printable characters escaped. The escaping rules
/// themselves are not stated here; the result is named `debug_form(s)`.
#[verifier::external_body]
pub(crate) fn debug_str(s: &str) -> (r: String)
    ensures
        r@ == debug_form(s@),
{
    format!("{:?}", s)
}

// ── Unicode whitespace and trimming ──────────────────────

/// Unicode `White_Space`: the characters `char::is_whitespace` accepts.
pub open spec fn is_ws(c: char) -> bool {
    let u = c as u32;
    ||| 0x09 <= u <= 0x0d
    ||| u == 0x20
    ||| u == 0x85
    ||| u == 0xa0
    ||| u == 0x1680
    ||| 0x2000 <= u <= 0x200a
    ||| u == 0x2028
    ||| u == 0x2029
    ||| u == 0x202f
    ||| u == 0x205f
    ||| u == 0x3000
}

pub fn is_ws_char(c: char) -> (r: bool)
    ensures
        r == is_ws(c),
{
    let u = c as u32;
    (0x09 <= u && u <= 0x0d) || u == 0x20 || u == 0x85 || u == 0xa0 || u == 0x1680 || (0x2000
        <= u && u <= 0x200a) || u == 0x2028 || u == 0x2029 || u == 0x202f || u == 0x205f || u
        == 0x3000
}

/// `s` without its leading whitespace.
pub open spec fn trim_start(s: Seq<char>) -> Seq<char>
    decreases s.len(),
{
    if s.len() > 0 && is_ws(s[0]) {
        trim_start(s.drop_first())
    } else {
        s
    }
}

/// `s` without its trailing whitespace.
pub open spec fn trim_end(s: Seq<char>) -> Seq<char>
    decreases s.len(),
{
    if s.len() > 0 && is_ws(s.last()) {
        trim_end(s.drop_last())
    } else {
        s
    }
}

/// `s` without leading and trailing whitespace (`str::trim`).
pub open spec fn trim(s: Seq<char>) -> Seq<char> {
    trim_end(trim_start(s))
}

proof fn lemma_trim_start_skip(s: Seq<char>, i: int)
    requires
        0 <= i <= s.len(),
        forall|j: int| 0 <= j < i ==> is_ws(#[trigger] s[j]),
        i == s.len() || !is_ws(s[i]),
    ensures
        trim_start(s) == s.skip(i),
    decreases i,
{
    if i > 0 {
        assert(s.drop_first().skip(i - 1) =~= s.skip(i));
        assert forall|j: int| 0 <= j < i - 1 implies is_ws(#[trigger] s.drop_first()[j]) by {
            assert(s.drop_first()[j] == s[j + 1]);
        }
        lemma_trim_start_skip(s.drop_first(), i - 1);
    } else {
        assert(s.skip(0) =~= s);
    }
}

proof fn lemma_trim_end_take(s: Seq<char>, k: int)
    requires
        0 <= k <= s.len(),
        forall|j: int| k <= j < s.len() ==> is_ws(#[trigger] s[j]),
        k == 0 || !is_ws(s[k - 1]),
    ensures
        trim_end(s) == s.take(k),
    decreases s.len() - k,
{
    if k < s.len() {
        assert(s.drop_last().take(k) =~= s.take(k));
        assert forall|j: int| k <= j < s.drop_last().len() implies is_ws(
            #[trigger] s.drop_last()[j],
        ) by {
            assert(s.drop_last()[j] == s[j]);
        }
        lemma_trim_end_take(s.drop_last(), k);
    } else {
        assert(s.take(k) =~= s);
    }
}

/// The bounds `(a, b)` with `trim(v) == v[a..b]`.
pub fn trim_bounds(v: &Vec<char>) -> (r: (usize, usize))
    ensures
        r.0 <= r.1 <= v@.len(),
        trim(v@) == v@.subrange(r.0 as int, r.1 as int),
        trim_start(v@) == v@.skip(r.0 as int),
{
    let n = v.len();
    let mut a: usize = 0;
    while a < n && is_ws_char(v[a])
        invariant
            a <= n,
            n == v@.len(),
            forall|j: int| 0 <= j < a ==> is_ws(#[trigger] v@[j]),
        decreases n - a,
    {
        a += 1;
    }
    proof {
        lemma_trim_start_skip(v@, a as int);
    }
    let mut b: usize = n;
    while b > a && is_ws_char(v[b - 1])
        invariant
            a <= b <= n,
            n == v@.len(),
            forall|j: int| b <= j < n ==> is_ws(#[trigger] v@[j]),
        decreases b,
    {
        b -= 1;
    }
    proof {
        let t = v@.skip(a as int);
        let k = b - a;
        assert forall|j: int| k <= j < t.len() implies is_ws(#[trigger] t[j]) by {
            assert(t[j] == v@[j + a]);
        }
        if k > 0 {
            assert(t[k - 1] == v@[b - 1]);
        }
        lemma_trim_end_take(t, k);
        assert(t.take(k) =~= v@.subrange(a as int, b as int));
    }
    (a, b)
}

/// `str::trim`.
pub fn trim_str(s: &str) -> (r: &str)
    ensures
        r@ == trim(s@),
{
    let v = chars_of(s);
    let (a, b) = trim_bounds(&v);
    s.substring_char(a, b)
}

// ── ASCII case folding ───────────────────────────────────

pub open spec fn ascii_lower(c: char) -> char {
    if 'A' <= c <= 'Z' {
        ((c as u32) + 32) as char
    } else {
        c
    }
}

/// `str::to_ascii_lowercase`: ASCII upper-case letters mapped to lower case.
pub open spec fn to_ascii_lowercase(s: Seq<char>) -> Seq<char> {
    s.map_values(|c: char| ascii_lower(c))
}

pub fn ascii_lower_char(c: char) -> (r: char)
    ensures
        r == ascii_lower(c),
{
    if 'A' <= c && c <= 'Z' {
        let u = (c as u32) + 32;
        // `u` is an ASCII lower-case letter
        char_from_ascii(u)
    } else {
        c
    }
}

fn char_from_ascii(u: u32) -> (c: char)
    requires
        u < 128,
    ensures
        c == u as char,
{
    let b = u as u8;
    b as char
}

// ── decimal numerals ─────────────────────────────────────

pub open spec fn digit_char(d: nat) -> char
    recommends
        d < 10,
{
    (d + 48) as char
}

/// The decimal numeral of `n`, without sign or leading zeros.
pub open spec fn dec(n: nat) -> Seq<char>
    decreases n,
{
    if n < 10 {
        seq![digit_char(n)]
    } else {
        dec(n / 10).push(digit_char(n % 10))
    }
}


/// Appends the decimal numeral of `n` to `out`.
pub fn push_dec(out: &mut Vec<char>, n: u64)
    ensures
        final(out)@ == old(out)@ + dec(n as nat),
    decreases n,
{
    if n < 10 {
        out.push(char_from_ascii((n + 48) as u32));
        assert(dec(n as nat) =~= seq![digit_char(n as nat)]);
    } else {
        push_dec(out, n / 10);
        out.push(char_from_ascii((n % 10 + 48) as u32));
        assert(dec(n as nat) =~= dec((n / 10) as nat).push(digit_char((n % 10) as nat)));
    }
}

/// The decimal numeral of `n` (`n.to_string()`).
pub fn dec_string(n: u64) -> (s: String)
    ensures
        s@ == dec(n as nat),
{
    let mut v: Vec<char> = Vec::new();
    push_dec(&mut v, n);
    assert(v@ =~= dec(n as nat));
    string_from_chars(&v)
}

// ── parsing decimal integers (`str::parse`) ──────────────

pub open spec fn is_digit(c: char) -> bool {
    '0' <= c <= '9'
}

pub open spec fn all_digits(s: Seq<char>) -> bool {
    forall|i: int| 0 <= i < s.len() ==> is_digit(#[trigger] s[i])
}

/// The value of a run of decimal digits.
pub open spec fn digits_value(s: Seq<char>) -> nat
    decreases s.len(),
{
    if s.len() == 0 {
        0
    } else {
        digits_value(s.drop_last()) * 10 + ((s.last() as u32) - 48) as nat
    }
}

/// What `str::parse` for an unsigned integer type accepts: an optional `+`,
/// then one or more decimal digits; the value is unbounded here.
pub open spec fn unsigned_magnitude(s: Seq<char>) -> Option<nat> {
    let d = if s.len() > 0 && s[0] == '+' { s.drop_first() } else { s };
    if d.len() > 0 && all_digits(d) {
        Some(digits_value(d))
    } else {
        None
    }
}

/// `str::parse::<u32>`.
pub open spec fn parse_u32_spec(s: Seq<char>) -> Option<u32> {
    match unsigned_magnitude(s) {
        Some(v) => if v <= u32::MAX { Some(v as u32) } else { None },
        None => None,
    }
}

/// `str::parse::<i64>`: an optional `+` or `-`, then one or more decimal digits,
/// with the value in range.
pub open spec fn parse_i64_spec(s: Seq<char>) -> Option<i64> {
    if s.len() > 0 && s[0] == '-' {
        let d = s.drop_first();
        if d.len() > 0 && all_digits(d) && digits_value(d) <= 0x8000_0000_0000_0000 {
            Some((0 - digits_value(d)) as i64)
        } else {
            None
        }
    } else {
        match unsigned_magnitude(s) {
            Some(v) => if v <= i64::MAX { Some(v as i64) } else { None },
            None => None,
        }
    }
}

proof fn lemma_digits_value_prefix_le(s: Seq<char>, k: int)
    requires
        0 <= k <= s.len(),
    ensures
        digits_value(s.take(k)) <= digits_value(s),
    decreases s.len() - k,
{
    if k < s.len() {
        lemma_digits_value_prefix_le(s, k + 1);
        assert(s.take(k + 1).drop_last() =~= s.take(k));
    } else {
        assert(s.take(k) =~= s);
    }
}

/// The value of the all-digit run `v[from..to]` if it is at most `bound`.
fn digits_upto(v: &Vec<char>, from: usize, to: usize, bound: u64) -> (r: Option<u64>)
    requires
        from <= to <= v@.len(),
        all_digits(v@.subrange(from as int, to as int)),
        bound >= 9,
    ensures
        match r {
            Some(x) => x == digits_value(v@.subrange(from as int, to as int)) && x <= bound,
            None => digits_value(v@.subrange(from as int, to as int)) > bound,
        },
{
    let ghost d = v@.subrange(from as int, to as int);
    let mut acc: u64 = 0;
    let mut i = from;
    while i < to
        invariant
            from <= i <= to <= v@.len(),
            d == v@.subrange(from as int, to as int),
            all_digits(d),
            acc == digits_value(d.take(i - from)),
            acc <= bound,
            bound >= 9,
        decreases to - i,
    {
        let ghost k = i - from;
        assert(d[k] == v@[i as int]);
        assert(is_digit(d[k]));
        let dg = (v[i] as u32 - 48) as u64;
        assert(d.take(k + 1).drop_last() =~= d.take(k));
        if acc > (bound - dg) / 10 {
            proof {
                assert(acc * 10 + dg > bound) by (nonlinear_arith)
                    requires
                        acc > (bound - dg) / 10,
                        dg <= 9,
                        bound >= 9,
                ;
                lemma_digits_value_prefix_le(d, k + 1);
            }
            return None;
        }
        assert(acc * 10 + dg <= bound) by (nonlinear_arith)
            requires
                acc <= (bound - dg) / 10,
                dg <= bound,
        ;
        acc = acc * 10 + dg;
        i += 1;
    }
    assert(d.take(i - from) =~= d);
    Some(acc)
}

/// Whether `v[from..to]` consists of decimal digits only.
fn all_digits_range(v: &Vec<char>, from: usize, to: usize) -> (r: bool)
    requires
        from <= to <= v@.len(),
    ensures
        r == all_digits(v@.subrange(from as int, to as int)),
{
    let mut i = from;
    while i < to
        invariant
            from <= i <= to <= v@.len(),
            forall|j: int| from <= j < i ==> is_digit(#[trigger] v@[j]),
        decreases to - i,
    {
        if !('0' <= v[i] && v[i] <= '9') {
            assert(v@.subrange(from as int, to as int)[i - from] == v@[i as int]);
            return false;
        }
        i += 1;
    }
    assert forall|j: int| 0 <= j < to - from implies is_digit(
        #[trigger] v@.subrange(from as int, to as int)[j],
    ) by {
        assert(v@.subrange(from as int, to as int)[j] == v@[j + from]);
    }
    true
}

/// `str::parse::<u32>` of the characters `v[from..to]`.
pub fn parse_u32_range(v: &Vec<char>, from: usize, to: usize) -> (r: Option<u32>)
    requires
        from <= to <= v@.len(),
    ensures
        r == parse_u32_spec(v@.subrange(from as int, to as int)),
{
    let ghost s = v@.subrange(from as int, to as int);
    let start = if from < to && v[from] == '+' { from + 1 } else { from };
    proof {
        if from < to && v@[from as int] == '+' {
            assert(s[0] == v@[from as int]);
            assert(s.drop_first() =~= v@.subrange(start as int, to as int));
        } else {
            if from < to {
                assert(s[0] == v@[from as int]);
            }
            assert(s =~= v@.subrange(start as int, to as int));
        }
    }
    if start < to && all_digits_range(v, start, to) {
        match digits_upto(v, start, to, 0xffff_ffff) {
            Some(x) => Some(x as u32),
            None => None,
        }
    } else {
        None
    }
}

/// `str::parse::<i64>` of the characters `v[from..to]`.
pub fn parse_i64_range(v: &Vec<char>, from: usize, to: usize) -> (r: Option<i64>)
    requires
        from <= to <= v@.len(),
    ensures
        r == parse_i64_spec(v@.subrange(from as int, to as int)),
{
    let ghost s = v@.subrange(from as int, to as int);
    if from < to && v[from] == '-' {
        assert(s[0] == v@[from as int]);
        assert(s.drop_first() =~= v@.subrange(from + 1, to as int));
        if from + 1 < to && all_digits_range(v, from + 1, to) {
            match digits_upto(v, from + 1, to, 0x8000_0000_0000_0000) {
                Some(x) => {
                    if x == 0x8000_0000_0000_0000 {
                        Some(i64::MIN)
                    } else {
                        Some(0 - (x as i64))
                    }
                },
                None => None,
            }
        } else {
            None
        }
    } else {
        if from < to {
            assert(s[0] == v@[from as int]);
        }
        let start = if from < to && v[from] == '+' { from + 1 } else { from };
        proof {
            if from < to && v@[from as int] == '+' {
                assert(s.drop_first() =~= v@.subrange(start as int, to as int));
            } else {
                assert(s =~= v@.subrange(start as int, to as int));
            }
        }
        if start < to && all_digits_range(v, start, to) {
            match digits_upto(v, start, to, 0x7fff_ffff_ffff_ffff) {
                Some(x) => Some(x as i64),
                None => None,
            }
        } else {
            None
        }
    }
}


// ── substring search ─────────────────────────────────────

/// `p` occurs in `s` starting at character index `i`.
pub open spec fn occurs_at(s: Seq<char>, p: Seq<char>, i: int) -> bool {
    0 <= i && i + p.len() <= s.len() && s.subrange(i, i + p.len()) == p
}

/// `str::contains` with a string pattern.
pub open spec fn contains(s: Seq<char>, p: Seq<char>) -> bool {
    exists|i: int| occurs_at(s, p, i)
}

/// Whether `p` occurs in `s` at index `i`.
pub fn occurs_at_exec(s: &Vec<char>, p: &Vec<char>, i: usize) -> (r: bool)
    ensures
        r == occurs_at(s@, p@, i as int),
{
    if i > s.len() || p.len() > s.len() - i {
        return false;
    }
    let n = s.len();
    let mut k: usize = 0;
    while k < p.len()
        invariant
            k <= p@.len(),
            n == s@.len(),
            i + p@.len() <= s@.len(),
            forall|j: int| 0 <= j < k ==> s@[i + j] == p@[j],
        decreases p@.len() - k,
    {
        if s[i + k] != p[k] {
            assert(s@.subrange(i as int, i + p@.len())[k as int] == s@[i + k]);
            return false;
        }
        k += 1;
    }
    assert(s@.subrange(i as int, i + p@.len()) =~= p@);
    true
}

/// `str::contains` on character vectors.
pub fn contains_exec(s: &Vec<char>, p: &Vec<char>) -> (r: bool)
    ensures
        r == contains(s@, p@),
{
    if p.len() > s.len() {
        return false;
    }
    let last = s.len() - p.len();
    let mut i: usize = 0;
    loop
        invariant
            p@.len() <= s@.len(),
            last == s@.len() - p@.len(),
            i <= last,
            forall|j: int| 0 <= j < i ==> !occurs_at(s@, p@, j),
        decreases last - i,
    {
        if occurs_at_exec(s, p, i) {
            return true;
        }
        if i == last {
            return false;
        }
        i += 1;
    }
}

/// `str::contains` with a string pattern.
pub fn contains_str(s: &str, p: &str) -> (r: bool)
    ensures
        r == contains(s@, p@),
{
    let sv = chars_of(s);
    let pv = chars_of(p);
    contains_exec(&sv, &pv)
}

/// The first index at or after `from` holding `c`, or `s.len()` if there is none.
pub open spec fn next_index_of(s: Seq<char>, c: char, from: int) -> int
    decreases s.len() - from,
{
    if from >= s.len() {
        s.len() as int
    } else if s[from] == c {
        from
    } else {
        next_index_of(s, c, from + 1)
    }
}

pub proof fn lemma_next_index_of(s: Seq<char>, c: char, from: int)
    requires
        0 <= from <= s.len(),
    ensures
        from <= next_index_of(s, c, from) <= s.len(),
        next_index_of(s, c, from) < s.len() ==> s[next_index_of(s, c, from)] == c,
        forall|j: int| from <= j < next_index_of(s, c, from) ==> s[j] != c,
    decreases s.len() - from,
{
    if from < s.len() && s[from] != c {
        lemma_next_index_of(s, c, from + 1);
    }
}

/// Text after a prefix that already holds `c` does not move its first `c`.
pub proof fn lemma_next_index_of_prefix(a: Seq<char>, b: Seq<char>, c: char, from: int)
    requires
        0 <= from <= a.len(),
        next_index_of(a, c, from) < a.len(),
    ensures
        next_index_of(a + b, c, from) == next_index_of(a, c, from),
    decreases a.len() - from,
{
    assert((a + b)[from] == a[from]);
    if a[from] != c {
        lemma_next_index_of_prefix(a, b, c, from + 1);
    }
}

/// The first index at or after `from` holding `c`, or `v.len()`.
pub fn find_char_from(v: &Vec<char>, c: char, from: usize) -> (r: usize)
    requires
        from <= v@.len(),
    ensures
        r == next_index_of(v@, c, from as int),
{
    let mut i = from;
    while i < v.len() && v[i] != c
        invariant
            from <= i <= v@.len(),
            next_index_of(v@, c, from as int) == next_index_of(v@, c, i as int),
        decreases v@.len() - i,
    {
        i += 1;
    }
    i
}

/// One past the last index before `to` holding `c`, or 0 if there is none.
pub open spec fn after_last_index_of(s: Seq<char>, c: char, to: int) -> int
    decreases to,
{
    if to <= 0 {
        0
    } else if s[to - 1] == c {
        to
    } else {
        after_last_index_of(s, c, to - 1)
    }
}

pub proof fn lemma_after_last_index_of(s: Seq<char>, c: char, to: int)
    requires
        0 <= to <= s.len(),
    ensures
        0 <= after_last_index_of(s, c, to) <= to,
        after_last_index_of(s, c, to) > 0 ==> s[after_last_index_of(s, c, to) - 1] == c,
        forall|j: int| after_last_index_of(s, c, to) <= j < to ==> s[j] != c,
    decreases to,
{
    if to > 0 && s[to - 1] != c {
        lemma_after_last_index_of(s, c, to - 1);
    }
}

/// One past the last index before `to` holding `c`, or 0.
pub fn rfind_char_before(v: &Vec<char>, c: char, to: usize) -> (r: usize)
    requires
        to <= v@.len(),
    ensures
        r == after_last_index_of(v@, c, to as int),
{
    let mut i = to;
    while i > 0 && v[i - 1] != c
        invariant
            i <= to <= v@.len(),
            after_last_index_of(v@, c, to as int) == after_last_index_of(v@, c, i as int),
        decreases i,
    {
        i -= 1;
    }
    i
}

// ── UTF-8 byte lengths ───────────────────────────────────

/// The number of bytes of the UTF-8 encoding of `c`.
pub open spec fn char_width(c: char) -> nat {
    let u = c as u32;
    if u < 0x80 {
        1
    } else if u < 0x800 {
        2
    } else if u < 0x10000 {
        3
    } else {
        4
    }
}

/// The number of bytes of the UTF-8 encoding of `s` (`str::len`).
pub open spec fn utf8_len(s: Seq<char>) -> nat
    decreases s.len(),
{
    if s.len() == 0 {
        0
    } else {
        char_width(s[0]) + utf8_len(s.drop_first())
    }
}

/// `utf8_len` is the length of vstd's UTF-8 encoding.
pub proof fn lemma_utf8_len_encode(s: Seq<char>)
    ensures
        utf8_len(s) == encode_utf8(s).len(),
    decreases s.len(),
{
    if s.len() > 0 {
        lemma_utf8_len_encode(s.drop_first());
        char_is_scalar(s[0]);
    }
}

pub proof fn lemma_utf8_len_concat(a: Seq<char>, b: Seq<char>)
    ensures
        utf8_len(a + b) == utf8_len(a) + utf8_len(b),
    decreases a.len(),
{
    if a.len() > 0 {
        assert((a + b).drop_first() =~= a.drop_first() + b);
        lemma_utf8_len_concat(a.drop_first(), b);
    } else {
        assert(a + b =~= b);
    }
}

pub proof fn lemma_utf8_len_push(a: Seq<char>, c: char)
    ensures
        utf8_len(a.push(c)) == utf8_len(a) + char_width(c),
{
    lemma_utf8_len_concat(a, seq![c]);
    assert(a + seq![c] =~= a.push(c));
    assert(seq![c].drop_first() =~= Seq::<char>::empty());
    reveal_with_fuel(utf8_len, 2);
}

/// Byte offsets of character indices grow strictly and stay within the string.
pub proof fn lemma_utf8_len_take_mono(s: Seq<char>, i: int, j: int)
    requires
        0 <= i <= j <= s.len(),
    ensures
        utf8_len(s.take(i)) + (j - i) <= utf8_len(s.take(j)),
        utf8_len(s.take(j)) <= utf8_len(s),
    decreases j - i,
{
    lemma_utf8_len_concat(s.take(j), s.skip(j));
    assert(s.take(j) + s.skip(j) =~= s);
    if i < j {
        lemma_utf8_len_take_mono(s, i, j - 1);
        assert(s.take(j) =~= s.take(j - 1).push(s[j - 1]));
        lemma_utf8_len_push(s.take(j - 1), s[j - 1]);
    }
}

pub fn char_width_exec(c: char) -> (r: usize)
    ensures
        r == char_width(c),
{
    let u = c as u32;
    if u < 0x80 {
        1
    } else if u < 0x800 {
        2
    } else if u < 0x10000 {
        3
    } else {
        4
    }
}

/// A byte offset that falls on a character boundary of `s`.
pub open spec fn is_boundary(s: Seq<char>, b: int) -> bool {
    exists|i: int| 0 <= i <= s.len() && utf8_len(s.take(i)) == b
}


/// The byte offset of character index `k` of `v`: `utf8_len(v[..k])`.
pub fn byte_offset(v: &Vec<char>, k: usize) -> (r: usize)
    requires
        k <= v@.len(),
        utf8_len(v@) <= usize::MAX,
    ensures
        r == utf8_len(v@.take(k as int)),
{
    let mut acc: usize = 0;
    let mut i: usize = 0;
    while i < k
        invariant
            i <= k <= v@.len(),
            utf8_len(v@) <= usize::MAX,
            acc == utf8_len(v@.take(i as int)),
        decreases k - i,
    {
        proof {
            assert(v@.take(i + 1) =~= v@.take(i as int).push(v@[i as int]));
            lemma_utf8_len_push(v@.take(i as int), v@[i as int]);
            lemma_utf8_len_take_mono(v@, i + 1, i + 1);
        }
        acc = acc + char_width_exec(v[i]);
        i += 1;
    }
    acc
}

/// The character index whose prefix has `b` bytes, given that `b` is a boundary.
pub open spec fn char_index_of(s: Seq<char>, b: int) -> int {
    choose|i: int| 0 <= i <= s.len() && utf8_len(s.take(i)) == b
}

pub proof fn lemma_char_index_of(s: Seq<char>, b: int)
    requires
        is_boundary(s, b),
    ensures
        0 <= char_index_of(s, b) <= s.len(),
        utf8_len(s.take(char_index_of(s, b))) == b,
        forall|j: int| 0 <= j <= s.len() && utf8_len(#[trigger] s.take(j)) == b ==> j == char_index_of(s, b),
{
    let i = char_index_of(s, b);
    assert forall|j: int| 0 <= j <= s.len() && utf8_len(#[trigger] s.take(j)) == b implies j == i by {
        if j < i {
            lemma_utf8_len_take_mono(s, j, i);
        } else if i < j {
            lemma_utf8_len_take_mono(s, i, j);
        }
    }
}

/// The character index at byte offset `b`, which must be a boundary of `v`.
pub fn char_index_at(v: &Vec<char>, b: usize) -> (r: usize)
    requires
        is_boundary(v@, b as int),
    ensures
        r == char_index_of(v@, b as int),
        r <= v@.len(),
        utf8_len(v@.take(r as int)) == b,
{
    proof {
        lemma_char_index_of(v@, b as int);
    }
    let ghost w = char_index_of(v@, b as int);
    let n = v.len();
    let mut acc: usize = 0;
    let mut i: usize = 0;
    while acc < b
        invariant
            n == v@.len(),
            i <= w <= v@.len(),
            utf8_len(v@.take(w)) == b,
            acc == utf8_len(v@.take(i as int)),
        decreases w - i,
    {
        proof {
            if i == w {
                assert(false);
            }
            assert(v@.take(i + 1) =~= v@.take(i as int).push(v@[i as int]));
            lemma_utf8_len_push(v@.take(i as int), v@[i as int]);
            lemma_utf8_len_take_mono(v@, i + 1, w);
        }
        acc = acc + char_width_exec(v[i]);
        i += 1;
    }
    proof {
        if i < w {
            lemma_utf8_len_take_mono(v@, i as int, w);
        }
    }
    i
}


/// Whether two strings hold the same characters (`==` on `str`).
pub fn str_eq(a: &str, b: &str) -> (r: bool)
    ensures
        r == (a@ == b@),
{
    let av = chars_of(a);
    let bv = chars_of(b);
    chars_eq(&av, &bv)
}

pub fn chars_eq(a: &Vec<char>, b: &Vec<char>) -> (r: bool)
    ensures
        r == (a@ == b@),
{
    if a.len() != b.len() {
        return false;
    }
    let mut i: usize = 0;
    while i < a.len()
        invariant
            i <= a@.len(),
            a@.len() == b@.len(),
            forall|j: int| 0 <= j < i ==> a@[j] == b@[j],
        decreases a@.len() - i,
    {
        if a[i] != b[i] {
            return false;
        }
        i += 1;
    }
    assert(a@ =~= b@);
    true
}

/// Appends the decimal numeral of `n` to `r`.
pub fn append_dec(r: &mut String, n: u64)
    ensures
        final(r)@ == old(r)@ + dec(n as nat),
{
    let d = dec_string(n);
    r.append(d.as_str());
}


/// A string result, viewed as characters.
pub open spec fn result_view(r: Result<String, String>) -> Result<Seq<char>, Seq<char>> {
    match r {
        Ok(s) => Ok(s@),
        Err(e) => Err(e@),
    }
}

// ── joining ──────────────────────────────────────────────

/// The views of a sequence of strings.
pub open spec fn views(v: Seq<String>) -> Seq<Seq<char>> {
    v.map_values(|x: String| x@)
}

/// `parts` joined with `sep` between consecutive parts (`[S]::join`).
pub open spec fn join(parts: Seq<Seq<char>>, sep: Seq<char>) -> Seq<char>
    decreases parts.len(),
{
    if parts.len() == 0 {
        Seq::empty()
    } else if parts.len() == 1 {
        parts[0]
    } else {
        join(parts.drop_last(), sep) + sep + parts.last()
    }
}

/// `v.join(sep)`.
pub fn join_strings(v: &Vec<String>, sep: &str) -> (r: String)
    ensures
        r@ == join(views(v@), sep@),
{
    let mut r = String::new();
    let mut i: usize = 0;
    while i < v.len()
        invariant
            i <= v@.len(),
            r@ == join(views(v@.take(i as int)), sep@),
        decreases v@.len() - i,
    {
        proof {
            assert(views(v@.take(i + 1)).drop_last() =~= views(v@.take(i as int)));
            assert(views(v@.take(i + 1)).last() == v@[i as int]@);
        }
        if i > 0 {
            r.append(sep);
        } else {
            assert(views(v@.take(1)).len() == 1);
        }
        r.append(v[i].as_str());
        i += 1;
    }
    assert(v@.take(i as int) =~= v@);
    r
}

// ── ordering strings ─────────────────────────────────────

/// `a < b` in the order of `str` (lexicographic by character, which is
/// the order of their UTF-8 bytes).
pub open spec fn lex_lt(a: Seq<char>, b: Seq<char>) -> bool
    decreases a.len(),
{
    if a.len() == 0 {
        b.len() > 0
    } else if b.len() == 0 {
        false
    } else if a[0] != b[0] {
        a[0] < b[0]
    } else {
        lex_lt(a.drop_first(), b.drop_first())
    }
}

pub fn lex_lt_exec(a: &Vec<char>, b: &Vec<char>) -> (r: bool)
    ensures
        r == lex_lt(a@, b@),
{
    let mut i: usize = 0;
    assert(a@.skip(0) =~= a@);
    assert(b@.skip(0) =~= b@);
    while i < a.len() && i < b.len() && a[i] == b[i]
        invariant
            i <= a@.len(),
            i <= b@.len(),
            lex_lt(a@, b@) == lex_lt(a@.skip(i as int), b@.skip(i as int)),
        decreases a@.len() - i,
    {
        proof {
            assert(a@.skip(i as int).drop_first() =~= a@.skip(i + 1));
            assert(b@.skip(i as int).drop_first() =~= b@.skip(i + 1));
        }
        i += 1;
    }
    if i < a.len() {
        assert(a@.skip(i as int)[0] == a@[i as int]);
    }
    if i < b.len() {
        assert(b@.skip(i as int)[0] == b@[i as int]);
    }
    if i == a.len() {
        i < b.len()
    } else if i == b.len() {
        false
    } else {
        a[i] < b[i]
    }
}

/// `x` inserted into `s` before the first element not less than it.
pub open spec fn insert_sorted(s: Seq<Seq<char>>, x: Seq<char>) -> Seq<Seq<char>>
    decreases s.len(),
{
    if s.len() == 0 {
        seq![x]
    } else if !lex_lt(s[0], x) {
        seq![x] + s
    } else {
        seq![s[0]] + insert_sorted(s.drop_first(), x)
    }
}

/// `s` in ascending order: each element inserted in turn into the sorted rest.
pub open spec fn sort_strs(s: Seq<Seq<char>>) -> Seq<Seq<char>>
    decreases s.len(),
{
    if s.len() == 0 {
        s
    } else {
        insert_sorted(sort_strs(s.drop_last()), s.last())
    }
}

proof fn lemma_insert_sorted_at(s: Seq<Seq<char>>, x: Seq<char>, k: int)
    requires
        0 <= k <= s.len(),
        forall|j: int| 0 <= j < k ==> lex_lt(#[trigger] s[j], x),
        k == s.len() || !lex_lt(s[k], x),
    ensures
        insert_sorted(s, x) == s.take(k) + seq![x] + s.skip(k),
    decreases s.len(),
{
    if s.len() == 0 {
        assert(s.take(k) + seq![x] + s.skip(k) =~= seq![x]);
    } else if k == 0 {
        assert(s.take(0) + seq![x] + s.skip(0) =~= seq![x] + s);
    } else {
        assert forall|j: int| 0 <= j < k - 1 implies lex_lt(#[trigger] s.drop_first()[j], x) by {
            assert(s.drop_first()[j] == s[j + 1]);
        }
        if k < s.len() {
            assert(s.drop_first()[k - 1] == s[k]);
        }
        lemma_insert_sorted_at(s.drop_first(), x, k - 1);
        assert(seq![s[0]] + (s.drop_first().take(k - 1) + seq![x] + s.drop_first().skip(k - 1))
            =~= s.take(k) + seq![x] + s.skip(k));
    }
}

proof fn lemma_insert_sorted_len(s: Seq<Seq<char>>, x: Seq<char>)
    ensures
        insert_sorted(s, x).len() == s.len() + 1,
    decreases s.len(),
{
    if s.len() > 0 && lex_lt(s[0], x) {
        lemma_insert_sorted_len(s.drop_first(), x);
    }
}

pub proof fn lemma_sort_strs_len(s: Seq<Seq<char>>)
    ensures
        sort_strs(s).len() == s.len(),
    decreases s.len(),
{
    if s.len() > 0 {
        lemma_sort_strs_len(s.drop_last());
        lemma_insert_sorted_len(sort_strs(s.drop_last()), s.last());
    }
}

// ── sorting is determined by the contents ────────────────

proof fn lemma_lex_irrefl(a: Seq<char>)
    ensures
        !lex_lt(a, a),
    decreases a.len(),
{
    if a.len() > 0 {
        lemma_lex_irrefl(a.drop_first());
    }
}

proof fn lemma_lex_total(a: Seq<char>, b: Seq<char>)
    ensures
        a == b || lex_lt(a, b) || lex_lt(b, a),
    decreases a.len(),
{
    if a.len() > 0 && b.len() > 0 && a[0] == b[0] {
        lemma_lex_total(a.drop_first(), b.drop_first());
        if a.drop_first() == b.drop_first() {
            assert(a =~= seq![a[0]] + a.drop_first());
            assert(b =~= seq![b[0]] + b.drop_first());
        }
    } else if a.len() == 0 && b.len() == 0 {
        assert(a =~= b);
    }
}

proof fn lemma_lex_trans(a: Seq<char>, b: Seq<char>, c: Seq<char>)
    requires
        lex_lt(a, b),
        lex_lt(b, c),
    ensures
        lex_lt(a, c),
    decreases a.len(),
{
    if a.len() > 0 && b.len() > 0 && c.len() > 0 && a[0] == b[0] && b[0] == c[0] {
        lemma_lex_trans(a.drop_first(), b.drop_first(), c.drop_first());
    }
}

proof fn lemma_lex_asym(a: Seq<char>, b: Seq<char>)
    requires
        lex_lt(a, b),
    ensures
        !lex_lt(b, a),
{
    if lex_lt(b, a) {
        lemma_lex_trans(a, b, a);
        lemma_lex_irrefl(a);
    }
}

/// `s` is in ascending order.
pub open spec fn strs_sorted(s: Seq<Seq<char>>) -> bool {
    forall|i: int, j: int| 0 <= i < j < s.len() ==> !lex_lt(#[trigger] s[j], #[trigger] s[i])
}

proof fn lemma_singleton_multiset(x: Seq<char>)
    ensures
        seq![x].to_multiset() =~= vstd::multiset::Multiset::<Seq<char>>::empty().insert(x),
{
    broadcast use vstd::seq_lib::group_to_multiset_ensures;
    assert(seq![x] =~= Seq::<Seq<char>>::empty().push(x));
    assert(Seq::<Seq<char>>::empty().to_multiset().len() == 0);
    assert(Seq::<Seq<char>>::empty().to_multiset() =~= vstd::multiset::Multiset::<Seq<char>>::empty());
}

proof fn lemma_insert_sorted_props(s: Seq<Seq<char>>, x: Seq<char>)
    requires
        strs_sorted(s),
    ensures
        strs_sorted(insert_sorted(s, x)),
        insert_sorted(s, x).to_multiset() =~= s.to_multiset().insert(x),
    decreases s.len(),
{
    broadcast use vstd::seq_lib::group_to_multiset_ensures;
    broadcast use vstd::multiset::group_multiset_axioms;
    lemma_singleton_multiset(x);
    if s.len() == 0 {
        assert(s.to_multiset() =~= vstd::multiset::Multiset::<Seq<char>>::empty());
    } else if !lex_lt(s[0], x) {
        let r = seq![x] + s;
        vstd::seq_lib::lemma_multiset_commutative(seq![x], s);
        assert forall|i: int, j: int| 0 <= i < j < r.len() implies !lex_lt(#[trigger] r[j], #[trigger] r[i]) by {
            if i == 0 {
                assert(r[j] == s[j - 1]);
                if lex_lt(s[j - 1], x) {
                    lemma_lex_total(s[0], x);
                    if j - 1 > 0 {
                        assert(!lex_lt(s[j - 1], s[0]));
                    } else {
                        lemma_lex_irrefl(s[0]);
                    }
                    if s[0] != x {
                        lemma_lex_trans(s[j - 1], x, s[0]);
                    }
                }
            } else {
                assert(r[i] == s[i - 1] && r[j] == s[j - 1]);
            }
        }
    } else {
        let rest = s.drop_first();
        assert forall|i: int, j: int| 0 <= i < j < rest.len() implies !lex_lt(#[trigger] rest[j], #[trigger] rest[i]) by {
            assert(rest[i] == s[i + 1] && rest[j] == s[j + 1]);
        }
        lemma_insert_sorted_props(rest, x);
        let ins = insert_sorted(rest, x);
        let r = seq![s[0]] + ins;
        vstd::seq_lib::lemma_multiset_commutative(seq![s[0]], ins);
        vstd::seq_lib::lemma_multiset_commutative(seq![s[0]], rest);
        lemma_singleton_multiset(s[0]);
        assert(s =~= seq![s[0]] + rest);
        assert forall|i: int, j: int| 0 <= i < j < r.len() implies !lex_lt(#[trigger] r[j], #[trigger] r[i]) by {
            if i == 0 {
                let e = r[j];
                assert(e == ins[j - 1]);
                assert(ins.contains(e));
                assert(ins.to_multiset().count(e) > 0);
                if e == x {
                    lemma_lex_asym(s[0], x);
                } else {
                    assert(rest.to_multiset().count(e) > 0);
                    assert(rest.contains(e));
                    let k = choose|k: int| 0 <= k < rest.len() && rest[k] == e;
                    assert(s[k + 1] == e);
                }
            } else {
                assert(r[i] == ins[i - 1] && r[j] == ins[j - 1]);
            }
        }
    }
}

proof fn lemma_sort_strs_props(s: Seq<Seq<char>>)
    ensures
        strs_sorted(sort_strs(s)),
        sort_strs(s).to_multiset() =~= s.to_multiset(),
    decreases s.len(),
{
    broadcast use vstd::seq_lib::group_to_multiset_ensures;
    if s.len() == 0 {
    } else {
        lemma_sort_strs_props(s.drop_last());
        lemma_insert_sorted_props(sort_strs(s.drop_last()), s.last());
        assert(s.drop_last().push(s.last()) =~= s);
    }
}

proof fn lemma_sorted_unique(a: Seq<Seq<char>>, b: Seq<Seq<char>>)
    requires
        strs_sorted(a),
        strs_sorted(b),
        a.to_multiset() == b.to_multiset(),
    ensures
        a == b,
    decreases a.len(),
{
    broadcast use vstd::seq_lib::group_to_multiset_ensures;
    vstd::seq_lib::to_multiset_len(a);
    vstd::seq_lib::to_multiset_len(b);
    assert(a.len() == b.len());
    if a.len() == 0 {
        assert(a =~= b);
    } else {
        assert(a.to_multiset().count(a[0]) > 0);
        assert(b.contains(a[0]));
        let j = choose|j: int| 0 <= j < b.len() && b[j] == a[0];
        assert(b.to_multiset().count(b[0]) > 0);
        assert(a.contains(b[0]));
        let i = choose|i: int| 0 <= i < a.len() && a[i] == b[0];
        if j > 0 {
            assert(!lex_lt(b[j], b[0]));
        } else {
            lemma_lex_irrefl(a[0]);
        }
        if i > 0 {
            assert(!lex_lt(a[i], a[0]));
        } else {
            lemma_lex_irrefl(b[0]);
        }
        lemma_lex_total(a[0], b[0]);
        assert(a[0] == b[0]);
        assert(a.remove(0) =~= a.drop_first());
        assert(b.remove(0) =~= b.drop_first());
        let a1 = a.drop_first();
        let b1 = b.drop_first();
        assert forall|x: int, y: int| 0 <= x < y < a1.len() implies !lex_lt(#[trigger] a1[y], #[trigger] a1[x]) by {
            assert(a1[x] == a[x + 1] && a1[y] == a[y + 1]);
        }
        assert forall|x: int, y: int| 0 <= x < y < b1.len() implies !lex_lt(#[trigger] b1[y], #[trigger] b1[x]) by {
            assert(b1[x] == b[x + 1] && b1[y] == b[y + 1]);
        }
        lemma_sorted_unique(a1, b1);
        assert forall|k: int| 0 <= k < a.len() implies a[k] == b[k] by {
            if k > 0 {
                assert(a[k] == a1[k - 1] && b[k] == b1[k - 1]);
            }
        }
        assert(a =~= b);
    }
}

/// Sorting depends on the strings alone, not on their order: two sequences
/// holding the same strings (with the same multiplicities) sort alike.
pub proof fn lemma_sort_strs_permutation(a: Seq<Seq<char>>, b: Seq<Seq<char>>)
    requires
        a.to_multiset() == b.to_multiset(),
    ensures
        sort_strs(a) == sort_strs(b),
        a.len() == b.len(),
{
    broadcast use vstd::seq_lib::group_to_multiset_ensures;
    lemma_sort_strs_props(a);
    lemma_sort_strs_props(b);
    lemma_sorted_unique(sort_strs(a), sort_strs(b));
    vstd::seq_lib::to_multiset_len(a);
    vstd::seq_lib::to_multiset_len(b);
}

/// The strings of `v` in ascending order.
pub fn sorted_strings(v: &[String]) -> (r: Vec<String>)
    ensures
        views(r@) == sort_strs(views(v@)),
{
    let mut r: Vec<String> = Vec::new();
    let mut i: usize = 0;
    while i < v.len()
        invariant
            i <= v@.len(),
            views(r@) == sort_strs(views(v@.take(i as int))),
        decreases v@.len() - i,
    {
        let x = v[i].clone();
        let xv = chars_of(x.as_str());
        let mut k: usize = 0;
        while k < r.len() && lex_lt_exec(&chars_of(r[k].as_str()), &xv)
            invariant
                k <= r@.len(),
                xv@ == x@,
                forall|j: int| 0 <= j < k ==> lex_lt(#[trigger] views(r@)[j], x@),
            decreases r@.len() - k,
        {
            k += 1;
        }
        proof {
            let s = views(r@);
            assert forall|j: int| 0 <= j < k implies lex_lt(#[trigger] s[j], x@) by {}
            lemma_insert_sorted_at(s, x@, k as int);
            assert(views(v@.take(i + 1)).drop_last() =~= views(v@.take(i as int)));
            assert(views(v@.take(i + 1)).last() == x@);
        }
        let ghost before = r@;
        let ghost xs = x@;
        r.insert(k, x);
        proof {
            assert(views(r@) =~= views(before).take(k as int) + seq![xs] + views(before).skip(
                k as int,
            ));
        }
        i += 1;
    }
    assert(v@.take(i as int) =~= v@);
    r
}


/// `str::to_ascii_lowercase`.
pub fn to_ascii_lowercase_string(s: &str) -> (r: String)
    ensures
        r@ == to_ascii_lowercase(s@),
{
    let v = chars_of(s);
    let mut out: Vec<char> = Vec::new();
    let mut i: usize = 0;
    while i < v.len()
        invariant
            i <= v@.len(),
            out@ == to_ascii_lowercase(v@.take(i as int)),
        decreases v@.len() - i,
    {
        out.push(ascii_lower_char(v[i]));
        assert(to_ascii_lowercase(v@.take(i + 1)) =~= to_ascii_lowercase(v@.take(i as int)).push(
            ascii_lower(v@[i as int]),
        ));
        i += 1;
    }
    assert(v@.take(i as int) =~= v@);
    string_from_chars(&out)
}


// ── whitespace-separated words ───────────────────────────

/// The words of `s` (`str::split_whitespace`): its maximal runs of
/// non-whitespace characters, in order. Given for `s` by how its last
/// character extends or ends the words of the text before it.
pub open spec fn words(s: Seq<char>) -> Seq<Seq<char>>
    decreases s.len(),
{
    if s.len() == 0 {
        Seq::empty()
    } else {
        let c = s.last();
        let w = words(s.drop_last());
        if is_ws(c) {
            w
        } else if s.len() > 1 && !is_ws(s[s.len() - 2]) && w.len() > 0 {
            w.drop_last().push(w.last().push(c))
        } else {
            w.push(seq![c])
        }
    }
}

/// The words of `s` joined by single spaces.
pub open spec fn squash_ws(s: Seq<char>) -> Seq<char> {
    join(words(s), " "@)
}

proof fn lemma_words_nonempty_after_word(s: Seq<char>)
    requires
        s.len() > 0,
        !is_ws(s.last()),
    ensures
        words(s).len() > 0,
{
}

/// `s.split_whitespace().collect::<Vec<_>>().join(" ")`, as characters.
pub fn squash_ws_chars(v: &Vec<char>) -> (r: Vec<char>)
    ensures
        r@ == squash_ws(v@),
{
    let mut out: Vec<char> = Vec::new();
    let mut i: usize = 0;
    proof {
        reveal_strlit(" ");
    }
    while i < v.len()
        invariant
            i <= v@.len(),
            out@ == squash_ws(v@.take(i as int)),
            out@.len() == 0 <==> words(v@.take(i as int)).len() == 0,
        decreases v@.len() - i,
    {
        let c = v[i];
        let ghost p = v@.take(i as int);
        let ghost q = v@.take(i + 1);
        assert(q.drop_last() =~= p);
        assert(q.last() == c);
        if is_ws_char(c) {
            assert(words(q) == words(p));
        } else {
            let continues = i > 0 && !is_ws_char(v[i - 1]);
            proof {
                if i > 0 {
                    assert(q[q.len() - 2] == v@[i - 1]);
                }
            }
            if continues {
                proof {
                    assert(p.last() == v@[i - 1]);
                    lemma_words_nonempty_after_word(p);
                    let w = words(p);
                    assert(words(q) == w.drop_last().push(w.last().push(c)));
                    let x = w.last().push(c);
                    let w2 = w.drop_last().push(x);
                    if w.len() > 1 {
                        assert(w2.drop_last() =~= w.drop_last());
                        assert(w2.last() == x);
                        assert(join(w2, " "@) == join(w.drop_last(), " "@) + " "@ + x);
                        assert(join(w, " "@) == join(w.drop_last(), " "@) + " "@ + w.last());
                        assert(join(w2, " "@) =~= join(w, " "@).push(c));
                    } else {
                        assert(w2.len() == 1);
                        assert(w2[0] == x);
                        assert(join(w, " "@) == w[0]);
                        assert(join(w2, " "@) =~= join(w, " "@).push(c));
                    }
                    assert(squash_ws(q) =~= squash_ws(p).push(c));
                }
                out.push(c);
            } else {
                let ghost w = words(p);
                if out.len() > 0 {
                    out.push(' ');
                }
                out.push(c);
                proof {
                    assert(words(q) == w.push(seq![c]));
                    assert(w.push(seq![c]).drop_last() =~= w);
                    let w2 = w.push(seq![c]);
                    reveal_strlit(" ");
                    if w.len() > 0 {
                        assert(w2.drop_last() =~= w);
                        assert(join(w2, " "@) == join(w, " "@) + " "@ + seq![c]);
                        assert(out@ =~= squash_ws(q));
                    } else {
                        assert(w2.len() == 1);
                        assert(join(w2, " "@) == seq![c]);
                        assert(out@ =~= squash_ws(q));
                    }
                }
            }
        }
        i += 1;
    }
    assert(v@.take(i as int) =~= v@);
    out
}


/// A decimal numeral reads back as its value.
pub proof fn lemma_dec_digits(n: nat)
    ensures
        dec(n).len() > 0,
        all_digits(dec(n)),
        digits_value(dec(n)) == n,
        dec(n)[0] != '+',
        dec(n)[0] != '-',
    decreases n,
{
    if n < 10 {
        assert(dec(n) == seq![digit_char(n)]);
        reveal_with_fuel(digits_value, 2);
        assert(seq![digit_char(n)].drop_last() =~= Seq::<char>::empty());
    } else {
        lemma_dec_digits(n / 10);
        let d = dec(n / 10);
        let c = digit_char(n % 10);
        assert(dec(n) == d.push(c));
        assert(d.push(c).drop_last() =~= d);
        assert forall|i: int| 0 <= i < d.push(c).len() implies is_digit(#[trigger] d.push(c)[i]) by {
            if i < d.len() {
                assert(d.push(c)[i] == d[i]);
            }
        }
        assert((n / 10) * 10 + n % 10 == n) by (nonlinear_arith);
        assert(d.push(c)[0] == d[0]);
    }
}

} // verus!

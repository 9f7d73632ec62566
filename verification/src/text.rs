//! Character- and string-level helpers shared by the whole library.
use vstd::prelude::*;

verus! {

/// Rust's `char::is_whitespace`: the Unicode `White_Space` property.
pub open spec fn is_ws(c: char) -> bool {
    let u = c as u32;
    ||| 0x09 <= u <= 0x0d
    ||| u == 0x20
    ||| u == 0x85
    ||| u == 0xa0
    ||| u == 0x1680
    ||| 0x2000 <= u <= 0x200a
    ||| u == 0x2028
    ||| u == 0x2029
    ||| u == 0x202f
    ||| u == 0x205f
    ||| u == 0x3000
}

/// Exec form of [`is_ws`].
pub fn is_whitespace(c: char) -> (r: bool)
    ensures
        r == is_ws(c),
{
    let u = c as u32;
    (0x09 <= u && u <= 0x0d) || u == 0x20 || u == 0x85 || u == 0xa0 || u == 0x1680 || (0x2000
        <= u && u <= 0x200a) || u == 0x2028 || u == 0x2029 || u == 0x202f || u == 0x205f || u
        == 0x3000
}

/// An ASCII hexadecimal digit (`0-9a-fA-F`).
pub open spec fn is_hex(c: char) -> bool {
    ('0' <= c && c <= '9') || ('a' <= c && c <= 'f') || ('A' <= c && c <= 'F')
}

pub fn is_hex_digit(c: char) -> (r: bool)
    ensures
        r == is_hex(c),
{
    ('0' <= c && c <= '9') || ('a' <= c && c <= 'f') || ('A' <= c && c <= 'F')
}

/// The characters of a string, in order (`str::chars`).
#[verifier::external_body]
pub(crate) fn chars_of(s: &str) -> (r: Vec<char>)
    ensures
        r@ == s@,
{
    s.chars().collect()
}

/// The string made of the given characters, in order (`String: FromIterator<char>`).
#[verifier::external_body]
pub(crate) fn string_of(v: &[char]) -> (r: String)
    ensures
        r@ == v@,
{
    v.iter().collect()
}

/// A fresh copy of a `&str` as a `String`.
pub fn to_string(s: &str) -> (r: String)
    ensures
        r@ == s@,
{
    String::from_str(s)
}

/// `a` followed by `b`.
pub fn cat(a: &str, b: &str) -> (r: String)
    ensures
        r@ == a@ + b@,
{
    let mut s = String::from_str(a);
    s.append(b);
    s
}

/// `a`, `b`, `c` in turn.
pub fn cat3(a: &str, b: &str, c: &str) -> (r: String)
    ensures
        r@ == a@ + b@ + c@,
{
    let mut s = String::from_str(a);
    s.append(b);
    s.append(c);
    s
}

/// Equality of two strings by content.
pub fn str_eq(a: &str, b: &str) -> (r: bool)
    ensures
        r == (a@ == b@),
{
    let x = chars_of(a);
    let y = chars_of(b);
    if x.len() != y.len() {
        return false;
    }
    let mut i: usize = 0;
    while i < x.len()
        invariant
            x@ == a@,
            y@ == b@,
            x.len() == y.len(),
            0 <= i <= x.len(),
            forall|j: int| 0 <= j < i ==> x@[j] == y@[j],
        decreases x.len() - i,
    {
        if x[i] != y[i] {
            return false;
        }
        i = i + 1;
    }
    assert(x@ =~= y@);
    true
}

/// Lexicographic order on code points, which is also the byte order of
/// their UTF-8 encodings, i.e. Rust's `<` on `str`.
pub open spec fn lex_lt(a: Seq<char>, b: Seq<char>) -> bool
    decreases a.len(),
{
    if a.len() == 0 {
        b.len() > 0
    } else if b.len() == 0 {
        false
    } else if a[0] != b[0] {
        a[0] < b[0]
    } else {
        lex_lt(a.drop_first(), b.drop_first())
    }
}

/// `lex_lt` is irreflexive and asymmetric.
pub proof fn lemma_lex_asym(a: Seq<char>, b: Seq<char>)
    ensures
        !(lex_lt(a, b) && lex_lt(b, a)),
        !lex_lt(a, a),
    decreases a.len(),
{
    if a.len() > 0 && b.len() > 0 && a[0] == b[0] {
        lemma_lex_asym(a.drop_first(), b.drop_first());
    }
    if a.len() > 0 {
        lemma_lex_asym(a.drop_first(), a.drop_first());
    }
}

/// `lex_lt` is total: two different sequences are ordered one way or the other.
pub proof fn lemma_lex_total(a: Seq<char>, b: Seq<char>)
    ensures
        a != b ==> (lex_lt(a, b) || lex_lt(b, a)),
    decreases a.len(),
{
    if a.len() > 0 && b.len() > 0 && a[0] == b[0] {
        lemma_lex_total(a.drop_first(), b.drop_first());
        if a.drop_first() == b.drop_first() {
            assert(a =~= seq![a[0]] + a.drop_first());
            assert(b =~= seq![b[0]] + b.drop_first());
        }
    } else if a.len() == 0 && b.len() == 0 {
        assert(a =~= b);
    } else if a.len() > 0 && b.len() > 0 {
    }
}

/// `lex_lt` is transitive.
pub proof fn lemma_lex_trans(a: Seq<char>, b: Seq<char>, c: Seq<char>)
    requires
        lex_lt(a, b),
        lex_lt(b, c),
    ensures
        lex_lt(a, c),
    decreases a.len(),
{
    if a.len() > 0 && b.len() > 0 && c.len() > 0 && a[0] == b[0] && b[0] == c[0] {
        lemma_lex_trans(a.drop_first(), b.drop_first(), c.drop_first());
    }
}

/// Rust's `a < b` on strings.
pub fn str_lt(a: &str, b: &str) -> (r: bool)
    ensures
        r == lex_lt(a@, b@),
{
    let x = chars_of(a);
    let y = chars_of(b);
    let mut i: usize = 0;
    assert(a@.skip(0) =~= a@);
    assert(b@.skip(0) =~= b@);
    while i < x.len() && i < y.len()
        invariant
            x@ == a@,
            y@ == b@,
            0 <= i <= x.len(),
            i <= y.len(),
            forall|j: int| 0 <= j < i ==> x@[j] == y@[j],
            lex_lt(a@, b@) == lex_lt(a@.skip(i as int), b@.skip(i as int)),
        decreases x.len() - i,
    {
        if x[i] != y[i] {
            assert(a@.skip(i as int)[0] == x@[i as int]);
            assert(b@.skip(i as int)[0] == y@[i as int]);
            return x[i] < y[i];
        }
        assert(a@.skip(i as int).drop_first() =~= a@.skip(i + 1));
        assert(b@.skip(i as int).drop_first() =~= b@.skip(i + 1));
        i = i + 1;
    }
    assert(a@.skip(i as int).len() == x.len() - i);
    assert(b@.skip(i as int).len() == y.len() - i);
    i == x.len() && i < y.len()
}

// ---------------------------------------------------------------------------
// trim
// ---------------------------------------------------------------------------

/// Number of leading whitespace characters.
pub open spec fn lead_ws(s: Seq<char>, i: int) -> int
    decreases s.len() - i,
{
    if i < s.len() && is_ws(s[i]) {
        lead_ws(s, i + 1)
    } else {
        i
    }
}

/// Index just past the last non-whitespace character at or before `j`.
pub open spec fn trail_ws(s: Seq<char>, lo: int, j: int) -> int
    decreases j - lo,
{
    if j > lo && is_ws(s[j - 1]) {
        trail_ws(s, lo, j - 1)
    } else {
        j
    }
}

/// `str::trim`: the string without leading and trailing whitespace.
pub open spec fn trim_spec(s: Seq<char>) -> Seq<char> {
    let lo = lead_ws(s, 0);
    s.subrange(lo, trail_ws(s, lo, s.len() as int))
}

pub(crate) proof fn lemma_lead_ws_bounds(s: Seq<char>, i: int)
    requires
        0 <= i <= s.len(),
    ensures
        i <= lead_ws(s, i) <= s.len(),
    decreases s.len() - i,
{
    if i < s.len() && is_ws(s[i]) {
        lemma_lead_ws_bounds(s, i + 1);
    }
}

pub(crate) proof fn lemma_trail_ws_bounds(s: Seq<char>, lo: int, j: int)
    requires
        0 <= lo <= j <= s.len(),
    ensures
        lo <= trail_ws(s, lo, j) <= j,
    decreases j - lo,
{
    if j > lo && is_ws(s[j - 1]) {
        lemma_trail_ws_bounds(s, lo, j - 1);
    }
}

proof fn lemma_lead_ws_stops(s: Seq<char>, i: int)
    requires
        0 <= i <= s.len(),
    ensures
        lead_ws(s, i) < s.len() ==> !is_ws(s[lead_ws(s, i)]),
    decreases s.len() - i,
{
    if i < s.len() && is_ws(s[i]) {
        lemma_lead_ws_stops(s, i + 1);
    }
}

proof fn lemma_trail_ws_stops(s: Seq<char>, lo: int, j: int)
    requires
        0 <= lo <= j <= s.len(),
    ensures
        trail_ws(s, lo, j) > lo ==> !is_ws(s[trail_ws(s, lo, j) - 1]),
    decreases j - lo,
{
    if j > lo && is_ws(s[j - 1]) {
        lemma_trail_ws_stops(s, lo, j - 1);
    }
}

/// Trimming is idempotent: a trimmed text trims to itself.
pub proof fn law_trim_idempotent(s: Seq<char>)
    ensures
        trim_spec(trim_spec(s)) == trim_spec(s),
{
    let lo = lead_ws(s, 0);
    lemma_lead_ws_bounds(s, 0);
    lemma_lead_ws_stops(s, 0);
    let hi = trail_ws(s, lo, s.len() as int);
    lemma_trail_ws_bounds(s, lo, s.len() as int);
    lemma_trail_ws_stops(s, lo, s.len() as int);
    let t = trim_spec(s);
    assert(t == s.subrange(lo, hi));
    if t.len() > 0 {
        assert(t[0] == s[lo]);
        assert(t[t.len() - 1] == s[hi - 1]);
    }
    assert(lead_ws(t, 0) == 0);
    assert(trail_ws(t, 0, t.len() as int) == t.len());
    assert(t.subrange(0, t.len() as int) =~= t);
}

/// `str::trim` as a new `String`.
pub fn trim(s: &str) -> (r: String)
    ensures
        r@ == trim_spec(s@),
{
    let v = chars_of(s);
    let n = v.len();
    let mut lo: usize = 0;
    while lo < n && is_whitespace(v[lo])
        invariant
            v@ == s@,
            n == v.len(),
            0 <= lo <= n,
            lead_ws(s@, 0) == lead_ws(s@, lo as int),
        decreases n - lo,
    {
        lo = lo + 1;
    }
    let mut hi: usize = n;
    while hi > lo && is_whitespace(v[hi - 1])
        invariant
            v@ == s@,
            n == v.len(),
            lo == lead_ws(s@, 0),
            lo <= hi <= n,
            trail_ws(s@, lo as int, n as int) == trail_ws(s@, lo as int, hi as int),
        decreases hi - lo,
    {
        hi = hi - 1;
    }
    proof {
        lemma_lead_ws_bounds(s@, 0);
    }
    let w = sub_chars(&v, lo, hi);
    string_of(w.as_slice())
}

/// The characters `v[lo..hi]` as a new vector.
pub fn sub_chars(v: &Vec<char>, lo: usize, hi: usize) -> (r: Vec<char>)
    requires
        lo <= hi <= v.len(),
    ensures
        r@ == v@.subrange(lo as int, hi as int),
{
    let mut r: Vec<char> = Vec::new();
    let mut i = lo;
    while i < hi
        invariant
            lo <= i <= hi <= v.len(),
            r@ == v@.subrange(lo as int, i as int),
        decreases hi - i,
    {
        r.push(v[i]);
        i = i + 1;
        assert(r@ =~= v@.subrange(lo as int, i as int));
    }
    r
}

// ---------------------------------------------------------------------------
// whitespace collapsing
// ---------------------------------------------------------------------------

/// Each run of whitespace from index `i` on becomes one space; `prev` says
/// whether the character before `i` was whitespace.
pub open spec fn collapse_at(s: Seq<char>, i: int, prev: bool) -> Seq<char>
    decreases s.len() - i,
{
    if i >= s.len() {
        Seq::empty()
    } else if is_ws(s[i]) {
        (if prev {
            Seq::empty()
        } else {
            seq![' ']
        }) + collapse_at(s, i + 1, true)
    } else {
        seq![s[i]] + collapse_at(s, i + 1, false)
    }
}

/// Every run of whitespace replaced by a single space.
pub open spec fn collapse_spec(s: Seq<char>) -> Seq<char> {
    collapse_at(s, 0, false)
}

/// The only whitespace left after collapsing is the plain space.
pub proof fn lemma_collapse_only_spaces(s: Seq<char>, i: int, prev: bool)
    requires
        0 <= i,
    ensures
        forall|k: int|
            0 <= k < collapse_at(s, i, prev).len() && is_ws(#[trigger] collapse_at(s, i, prev)[k])
                ==> collapse_at(s, i, prev)[k] == ' ',
    decreases s.len() - i,
{
    if i < s.len() {
        lemma_collapse_only_spaces(s, i + 1, is_ws(s[i]));
        let rest = collapse_at(s, i + 1, is_ws(s[i]));
        let head: Seq<char> = if is_ws(s[i]) {
            if prev {
                Seq::empty()
            } else {
                seq![' ']
            }
        } else {
            seq![s[i]]
        };
        assert(collapse_at(s, i, prev) == head + rest);
        assert forall|k: int|
            0 <= k < collapse_at(s, i, prev).len() && is_ws(
                #[trigger] collapse_at(s, i, prev)[k],
            ) implies collapse_at(s, i, prev)[k] == ' ' by {
            if k >= head.len() {
                assert(collapse_at(s, i, prev)[k] == rest[k - head.len()]);
            }
        }
    }
}

/// No two whitespace characters are adjacent after collapsing, and none
/// starts what follows a whitespace character.
pub proof fn lemma_collapse_no_runs(s: Seq<char>, i: int, prev: bool)
    requires
        0 <= i,
    ensures
        forall|k: int|
            0 <= k < collapse_at(s, i, prev).len() - 1 ==> !(is_ws(#[trigger] collapse_at(s, i, prev)[k])
                && is_ws(collapse_at(s, i, prev)[k + 1])),
        prev && collapse_at(s, i, prev).len() > 0 ==> !is_ws(collapse_at(s, i, prev)[0]),
    decreases s.len() - i,
{
    if i < s.len() {
        lemma_collapse_no_runs(s, i + 1, is_ws(s[i]));
        let r = collapse_at(s, i, prev);
        let rest = collapse_at(s, i + 1, is_ws(s[i]));
        let head: Seq<char> = if is_ws(s[i]) {
            if prev {
                Seq::empty()
            } else {
                seq![' ']
            }
        } else {
            seq![s[i]]
        };
        assert(r == head + rest);
        assert forall|k: int| 0 <= k < r.len() - 1 implies !(is_ws(#[trigger] r[k]) && is_ws(r[k + 1])) by {
            if k >= head.len() {
                assert(r[k] == rest[k - head.len()]);
                assert(r[k + 1] == rest[k + 1 - head.len()]);
            } else {
                assert(r[k + 1] == rest[0]);
            }
        }
        if prev && r.len() > 0 {
            if head.len() == 0 {
                assert(r[0] == rest[0]);
            }
        }
    }
}

/// A text whose only whitespace is single spaces is left as it is.
proof fn lemma_collapse_fixed(t: Seq<char>, i: int)
    requires
        0 <= i <= t.len(),
        forall|k: int| 0 <= k < t.len() && is_ws(#[trigger] t[k]) ==> t[k] == ' ',
        forall|k: int| 0 <= k < t.len() - 1 ==> !(is_ws(#[trigger] t[k]) && is_ws(t[k + 1])),
    ensures
        collapse_at(t, i, i > 0 && is_ws(t[i - 1])) == t.subrange(i, t.len() as int),
    decreases t.len() - i,
{
    if i < t.len() {
        lemma_collapse_fixed(t, i + 1);
        if i > 0 && is_ws(t[i - 1]) {
            assert(!(is_ws(t[i - 1]) && is_ws(t[(i - 1) + 1])));
        }
        assert(t.subrange(i, t.len() as int) =~= seq![t[i]] + t.subrange(i + 1, t.len() as int));
    } else {
        assert(t.subrange(i, t.len() as int) =~= Seq::<char>::empty());
    }
}

/// Collapsing whitespace is idempotent: a collapsed text collapses to itself.
pub proof fn law_collapse_idempotent(s: Seq<char>)
    ensures
        collapse_spec(collapse_spec(s)) == collapse_spec(s),
{
    let t = collapse_spec(s);
    lemma_collapse_only_spaces(s, 0, false);
    lemma_collapse_no_runs(s, 0, false);
    lemma_collapse_fixed(t, 0);
    assert(t.subrange(0, t.len() as int) =~= t);
}

/// Collapses every run of whitespace into one space (nothing is trimmed).
pub fn collapse_whitespace(s: &str) -> (r: String)
    ensures
        r@ == collapse_spec(s@),
        forall|k: int| 0 <= k < r@.len() && is_ws(#[trigger] r@[k]) ==> r@[k] == ' ',
        forall|k: int| 0 <= k < r@.len() - 1 ==> !(is_ws(#[trigger] r@[k]) && is_ws(r@[k + 1])),
{
    let v = chars_of(s);
    let mut out: Vec<char> = Vec::new();
    let mut prev = false;
    let mut i: usize = 0;
    while i < v.len()
        invariant
            v@ == s@,
            0 <= i <= v.len(),
            collapse_spec(s@) == out@ + collapse_at(s@, i as int, prev),
        decreases v.len() - i,
    {
        let c = v[i];
        if is_whitespace(c) {
            if !prev {
                out.push(' ');
            }
            prev = true;
        } else {
            out.push(c);
            prev = false;
        }
        i = i + 1;
        assert(collapse_spec(s@) =~= out@ + collapse_at(s@, i as int, prev));
    }
    assert(out@ =~= collapse_spec(s@));
    proof {
        lemma_collapse_only_spaces(s@, 0, false);
        lemma_collapse_no_runs(s@, 0, false);
    }
    string_of(out.as_slice())
}

// ---------------------------------------------------------------------------
// decimal numerals
// ---------------------------------------------------------------------------

pub open spec fn digit(d: nat) -> char {
    if d == 0 {
        '0'
    } else if d == 1 {
        '1'
    } else if d == 2 {
        '2'
    } else if d == 3 {
        '3'
    } else if d == 4 {
        '4'
    } else if d == 5 {
        '5'
    } else if d == 6 {
        '6'
    } else if d == 7 {
        '7'
    } else if d == 8 {
        '8'
    } else {
        '9'
    }
}

/// The decimal numeral of `n`, without leading zeros.
pub open spec fn decimal(n: nat) -> Seq<char>
    decreases n,
{
    if n < 10 {
        seq![digit(n)]
    } else {
        decimal(n / 10).push(digit(n % 10))
    }
}

fn digit_exec(d: u64) -> (c: char)
    requires
        d < 10,
    ensures
        c == digit(d as nat),
{
    if d == 0 {
        '0'
    } else if d == 1 {
        '1'
    } else if d == 2 {
        '2'
    } else if d == 3 {
        '3'
    } else if d == 4 {
        '4'
    } else if d == 5 {
        '5'
    } else if d == 6 {
        '6'
    } else if d == 7 {
        '7'
    } else if d == 8 {
        '8'
    } else {
        '9'
    }
}

fn decimal_chars(n: u64) -> (r: Vec<char>)
    ensures
        r@ == decimal(n as nat),
    decreases n,
{
    if n < 10 {
        let mut v = Vec::new();
        v.push(digit_exec(n));
        v
    } else {
        let mut v = decimal_chars(n / 10);
        v.push(digit_exec(n % 10));
        v
    }
}

/// `n.to_string()` for an unsigned integer.
pub fn decimal_string(n: u64) -> (r: String)
    ensures
        r@ == decimal(n as nat),
{
    let v = decimal_chars(n);
    string_of(v.as_slice())
}

fn decimal_chars_wide(n: u128) -> (r: Vec<char>)
    ensures
        r@ == decimal(n as nat),
    decreases n,
{
    if n < 10 {
        let mut v = Vec::new();
        v.push(digit_exec(n as u64));
        v
    } else {
        let mut v = decimal_chars_wide(n / 10);
        v.push(digit_exec((n % 10) as u64));
        v
    }
}

/// `n.to_string()` for a `u128`.
pub fn decimal_string_wide(n: u128) -> (r: String)
    ensures
        r@ == decimal(n as nat),
{
    let v = decimal_chars_wide(n);
    string_of(v.as_slice())
}

/// The text of an error: what its `Display` prints.
pub fn to_str<E: std::fmt::Display>(e: E) -> (r: String) {
    e.to_string()
}

/// Whether the trimmed string is empty.
pub open spec fn blank(s: Seq<char>) -> bool {
    trim_spec(s).len() == 0
}

/// `s.trim().is_empty()`.
pub fn is_blank(s: &str) -> (r: bool)
    ensures
        r == blank(s@),
{
    let t = trim(s);
    t.as_str().unicode_len() == 0
}

} // verus!

//! Content-addressed image assets: `asset:<sha256 hex>` references inside
//! question documents, and the display URLs they are shown under.
use vstd::prelude::*;
use crate::json::{Json, JsonV, lemma_array_view, lemma_object_view};
use crate::text::{is_hex, is_hex_digit, chars_of, string_of, is_ws, is_whitespace, trim_spec, trim, str_eq};

verus! {

/// Largest accepted image, in bytes.
pub const ASSET_MAX_BYTES: usize = 20971520;

/// File extension of an accepted image type (svg and the rest are refused).
pub open spec fn mime_ext_spec(m: Seq<char>) -> Option<Seq<char>> {
    let t = trim_spec(m);
    if t == "image/webp"@ {
        Some("webp"@)
    } else if t == "image/png"@ {
        Some("png"@)
    } else if t == "image/jpeg"@ {
        Some("jpg"@)
    } else if t == "image/gif"@ {
        Some("gif"@)
    } else {
        None
    }
}

/// Extension for an image MIME type (surrounding whitespace ignored).
pub fn asset_mime_ext(mime: &str) -> (r: Option<&'static str>)
    ensures
        match r {
            Some(e) => mime_ext_spec(mime@) == Some(e@),
            None => mime_ext_spec(mime@) is None,
        },
{
    let t = trim(mime);
    if str_eq(t.as_str(), "image/webp") {
        Some("webp")
    } else if str_eq(t.as_str(), "image/png") {
        Some("png")
    } else if str_eq(t.as_str(), "image/jpeg") {
        Some("jpg")
    } else if str_eq(t.as_str(), "image/gif") {
        Some("gif")
    } else {
        None
    }
}

/// Exactly 64 hexadecimal digits.
pub open spec fn is_sha_spec(s: Seq<char>) -> bool {
    s.len() == 64 && forall|k: int| 0 <= k < 64 ==> is_hex(#[trigger] s[k])
}

fn all_hex(v: &Vec<char>, lo: usize, hi: usize) -> (r: bool)
    requires
        lo <= hi <= v.len(),
    ensures
        r == forall|k: int| lo <= k < hi ==> is_hex(#[trigger] v@[k]),
{
    let mut i = lo;
    while i < hi
        invariant
            lo <= i <= hi <= v.len(),
            forall|k: int| lo <= k < i ==> is_hex(#[trigger] v@[k]),
        decreases hi - i,
    {
        if !is_hex_digit(v[i]) {
            return false;
        }
        i = i + 1;
    }
    true
}

/// Whether a string is a sha256 in hex.
pub fn is_asset_sha(s: &str) -> (r: bool)
    ensures
        r == is_sha_spec(s@),
{
    let v = chars_of(s);
    if v.len() != 64 {
        return false;
    }
    all_hex(&v, 0, 64)
}

/// The shard directory and file name of an asset: `<2 hex>` and `<62 hex>.<ext>`.
pub fn asset_path_for(sha: &str, ext: &str) -> (r: Result<(String, String), String>)
    ensures
        match r {
            Ok((dir, file)) => is_sha_spec(sha@) && dir@ == sha@.subrange(0, 2) && file@
                == sha@.subrange(2, 64) + "."@ + ext@,
            Err(e) => !is_sha_spec(sha@) && e@ == "bad asset sha"@,
        },
{
    if !is_asset_sha(sha) {
        return Err(crate::text::to_string("bad asset sha"));
    }
    let v = chars_of(sha);
    let d = crate::text::sub_chars(&v, 0, 2);
    let f = crate::text::sub_chars(&v, 2, 64);
    let dir = string_of(d.as_slice());
    let rest = string_of(f.as_slice());
    Ok((dir, crate::text::cat3(rest.as_str(), ".", ext)))
}

// ---------------------------------------------------------------------------
// pattern search on characters
// ---------------------------------------------------------------------------

/// `pat` occurs in `s` at position `p`.
pub open spec fn occurs_at(s: Seq<char>, pat: Seq<char>, p: int) -> bool {
    0 <= p && p + pat.len() <= s.len() && s.subrange(p, p + pat.len()) == pat
}

/// The last occurrence of `pat` starting at or before `p`.
pub open spec fn rfind_from(s: Seq<char>, pat: Seq<char>, p: int) -> Option<int>
    decreases p + 1,
{
    if p < 0 {
        None
    } else if occurs_at(s, pat, p) {
        Some(p)
    } else {
        rfind_from(s, pat, p - 1)
    }
}

/// `str::rfind`.
pub open spec fn rfind(s: Seq<char>, pat: Seq<char>) -> Option<int> {
    rfind_from(s, pat, s.len() - pat.len())
}

/// The first occurrence of `pat` starting at or after `p`.
pub open spec fn find_from(s: Seq<char>, pat: Seq<char>, p: int) -> Option<int>
    decreases s.len() + 1 - p,
{
    if p < 0 || p + pat.len() > s.len() {
        None
    } else if occurs_at(s, pat, p) {
        Some(p)
    } else {
        find_from(s, pat, p + 1)
    }
}

fn occurs_at_exec(v: &Vec<char>, pat: &Vec<char>, p: usize) -> (r: bool)
    ensures
        r == occurs_at(v@, pat@, p as int),
{
    if p > v.len() || pat.len() > v.len() - p {
        return false;
    }
    let mut k: usize = 0;
    while k < pat.len()
        invariant
            p + pat.len() <= v.len(),
            0 <= k <= pat.len(),
            forall|j: int| 0 <= j < k ==> v@[p + j] == pat@[j],
        decreases pat.len() - k,
    {
        if v[p + k] != pat[k] {
            assert(v@.subrange(p as int, p + pat.len())[k as int] != pat@[k as int]);
            return false;
        }
        k = k + 1;
    }
    assert(v@.subrange(p as int, p + pat.len()) =~= pat@);
    true
}

fn rfind_exec(v: &Vec<char>, pat: &Vec<char>) -> (r: Option<usize>)
    ensures
        match r {
            Some(p) => rfind(v@, pat@) == Some(p as int),
            None => rfind(v@, pat@) is None,
        },
{
    if pat.len() > v.len() {
        return None;
    }
    let mut p: usize = v.len() - pat.len();
    loop
        invariant
            p + pat.len() <= v.len(),
            rfind(v@, pat@) == rfind_from(v@, pat@, p as int),
        decreases p,
    {
        if occurs_at_exec(v, pat, p) {
            return Some(p);
        }
        if p == 0 {
            assert(rfind_from(v@, pat@, -1) is None);
            return None;
        }
        p = p - 1;
    }
}

fn find_from_exec(v: &Vec<char>, pat: &Vec<char>, start: usize) -> (r: Option<usize>)
    ensures
        match r {
            Some(p) => find_from(v@, pat@, start as int) == Some(p as int),
            None => find_from(v@, pat@, start as int) is None,
        },
{
    let mut p = start;
    while p <= v.len() && pat.len() <= v.len() - p
        invariant
            start <= p,
            find_from(v@, pat@, start as int) == find_from(v@, pat@, p as int),
        decreases v.len() + 1 - p,
    {
        if occurs_at_exec(v, pat, p) {
            return Some(p);
        }
        assert(pat.len() > 0) by {
            if pat.len() == 0 {
                assert(v@.subrange(p as int, p as int) =~= pat@);
            }
        }
        p = p + 1;
    }
    None
}

// ---------------------------------------------------------------------------
// sha inside a display URL
// ---------------------------------------------------------------------------

/// `s` ends with `pat`.
pub open spec fn ends_with(s: Seq<char>, pat: Seq<char>) -> bool {
    s.len() >= pat.len() && s.subrange(s.len() - pat.len(), s.len() as int) == pat
}

/// The sharded form `<2 hex><sep><62 hex>` right after an anchor, with the
/// separator found at `p`.
pub open spec fn sharded_at(s: Seq<char>, sep: Seq<char>, p: int) -> bool {
    let tail = s.subrange(p + sep.len(), s.len() as int);
    &&& tail.len() == 62
    &&& forall|k: int| 0 <= k < 62 ==> is_hex(#[trigger] tail[k])
    &&& p >= 2
    &&& is_hex(s[p - 2]) && is_hex(s[p - 1])
    &&& {
        let pre = s.take(p - 2);
        pre.len() == 0 || ends_with(pre, "%5C"@) || ends_with(pre, "%5c"@) || ends_with(pre, "/"@)
    }
}

/// The unsharded fallback: the last 64 characters are hex and not preceded by hex.
pub open spec fn plain_tail(s: Seq<char>) -> Option<Seq<char>> {
    let n = s.len() as int;
    if n >= 64 && (forall|k: int| n - 64 <= k < n ==> is_hex(#[trigger] s[k])) && (n == 64
        || !is_hex(s[n - 65])) {
        Some(s.subrange(n - 64, n))
    } else {
        None
    }
}

/// A separator found at a position, if any.
pub open spec fn sep_at(sep: Seq<char>, p: Option<int>) -> Option<(Seq<char>, int)> {
    match p {
        Some(q) => Some((sep, q)),
        None => None,
    }
}

/// Of two found separators, the one further right.
pub open spec fn later_sep(x: Option<(Seq<char>, int)>, y: Option<(Seq<char>, int)>) -> Option<(Seq<char>, int)> {
    match (x, y) {
        (None, _) => y,
        (_, None) => x,
        (Some(a), Some(b)) => if b.1 > a.1 { y } else { x },
    }
}

/// The last separator of any kind (`%5C`, `%5c` or `/`), with its position.
pub open spec fn last_sep(s: Seq<char>) -> Option<(Seq<char>, int)> {
    later_sep(
        later_sep(sep_at("%5C"@, rfind(s, "%5C"@)), sep_at("%5c"@, rfind(s, "%5c"@))),
        sep_at("/"@, rfind(s, "/"@)),
    )
}

/// The sha that the text before an image extension ends with: the sharded
/// form at the last separator, else 64 trailing hex digits.
pub open spec fn tail_sha_spec(s: Seq<char>) -> Option<Seq<char>> {
    match last_sep(s) {
        Some((sep, p)) => if sharded_at(s, sep, p) {
            Some(s.subrange(p - 2, p) + s.subrange(p + sep.len(), s.len() as int))
        } else {
            plain_tail(s)
        },
        None => plain_tail(s),
    }
}

pub proof fn lemma_rfind_occurs(s: Seq<char>, pat: Seq<char>, p: int)
    ensures
        rfind_from(s, pat, p) matches Some(q) ==> occurs_at(s, pat, q),
    decreases p + 1,
{
    if p >= 0 && !occurs_at(s, pat, p) {
        lemma_rfind_occurs(s, pat, p - 1);
    }
}

pub proof fn lemma_find_occurs(s: Seq<char>, pat: Seq<char>, p: int)
    ensures
        find_from(s, pat, p) matches Some(q) ==> occurs_at(s, pat, q) && q >= p,
    decreases s.len() + 1 - p,
{
    if p >= 0 && p + pat.len() <= s.len() && !occurs_at(s, pat, p) {
        lemma_find_occurs(s, pat, p + 1);
    }
}

fn lit(s: &str) -> (r: Vec<char>)
    ensures
        r@ == s@,
{
    chars_of(s)
}

fn ends_with_exec(v: &Vec<char>, n: usize, pat: &Vec<char>) -> (r: bool)
    requires
        n <= v.len(),
    ensures
        r == ends_with(v@.take(n as int), pat@),
{
    if pat.len() > n {
        return false;
    }
    let r = occurs_at_exec(v, pat, n - pat.len());
    assert(v@.take(n as int).subrange(n - pat.len(), n as int) =~= v@.subrange(
        n - pat.len(),
        n as int,
    ));
    r
}

fn plain_tail_exec(v: &Vec<char>) -> (r: Option<String>)
    ensures
        match r {
            Some(t) => plain_tail(v@) == Some(t@),
            None => plain_tail(v@) is None,
        },
{
    let n = v.len();
    if n >= 64 && all_hex(v, n - 64, n) && (n == 64 || !is_hex_digit(v[n - 65])) {
        let t = crate::text::sub_chars(v, n - 64, n);
        Some(string_of(t.as_slice()))
    } else {
        None
    }
}

/// The sha that the text before an image extension ends with (see [`tail_sha_spec`]).
pub fn tail_sha(before: &str) -> (r: Option<String>)
    ensures
        match r {
            Some(t) => tail_sha_spec(before@) == Some(t@),
            None => tail_sha_spec(before@) is None,
        },
{
    let v = chars_of(before);
    let s1 = lit("%5C");
    let s2 = lit("%5c");
    let s3 = lit("/");
    let f1: Option<(Vec<char>, usize)> = match rfind_exec(&v, &s1) {
        Some(p) => Some((s1, p)),
        None => None,
    };
    let f2: Option<(Vec<char>, usize)> = match rfind_exec(&v, &s2) {
        Some(p) => Some((s2, p)),
        None => None,
    };
    let f3: Option<(Vec<char>, usize)> = match rfind_exec(&v, &s3) {
        Some(p) => Some((s3, p)),
        None => None,
    };
    let f12 = match (f1, f2) {
        (None, y) => y,
        (x, None) => x,
        (Some(a), Some(b)) => if b.1 > a.1 { Some(b) } else { Some(a) },
    };
    let found = match (f12, f3) {
        (None, y) => y,
        (x, None) => x,
        (Some(a), Some(b)) => if b.1 > a.1 { Some(b) } else { Some(a) },
    };
    match found {
        Some((sep, p)) => {
            assert(last_sep(v@) == Some((sep@, p as int)));
            proof {
                assert(occurs_at(v@, sep@, p as int)) by {
                    lemma_rfind_occurs(v@, sep@, v@.len() - sep@.len());
                }
            }
            assert(rfind(v@, sep@) == Some(p as int));
            assert(p + sep.len() <= v.len());
            let tv = crate::text::sub_chars(&v, p + sep.len(), v.len());
            let ok = tv.len() == 62 && all_hex(&tv, 0, 62) && p >= 2 && is_hex_digit(v[p - 2])
                && is_hex_digit(v[p - 1]) && (p - 2 == 0 || ends_with_exec(&v, p - 2, &lit("%5C"))
                || ends_with_exec(&v, p - 2, &lit("%5c")) || ends_with_exec(&v, p - 2, &lit("/")));
            assert(ok == sharded_at(v@, sep@, p as int));
            if ok {
                let h = crate::text::sub_chars(&v, p - 2, p);
                let t = crate::text::sub_chars(&v, p + sep.len(), v.len());
                let hs = string_of(h.as_slice());
                let ts = string_of(t.as_slice());
                Some(crate::text::cat(hs.as_str(), ts.as_str()))
            } else {
                plain_tail_exec(&v)
            }
        },
        None => plain_tail_exec(&v),
    }
}


/// What may follow an image extension in a URL: the end, `?`, `#`, a quote,
/// `)` or whitespace.
pub open spec fn boundary_ok(s: Seq<char>, i: int) -> bool {
    i >= s.len() || {
        let c = s[i];
        c == '?' || c == '#' || c == '"' || c == '\'' || c == ')' || is_ws(c)
    }
}

/// The first occurrence of `needle` at or after `i` that ends at a boundary
/// and is preceded by a sha, giving that sha.
pub open spec fn scan_ext(s: Seq<char>, needle: Seq<char>, i: int) -> Option<Seq<char>>
    decreases s.len() + 1 - i,
{
    if needle.len() == 0 || i < 0 {
        None
    } else {
        match find_from(s, needle, i) {
            None => None,
            Some(p) => if p < i {
                None
            } else if boundary_ok(s, p + needle.len()) && tail_sha_spec(s.take(p)) is Some {
                tail_sha_spec(s.take(p))
            } else {
                proof {
                    lemma_find_occurs(s, needle, i);
                }
                scan_ext(s, needle, p + needle.len())
            },
        }
    }
}

/// The sha of an asset display URL, trying `.webp`, `.png`, `.jpg`, `.jpeg`
/// and `.gif` in that order.
pub open spec fn extract_sha_spec(s: Seq<char>) -> Option<Seq<char>> {
    match scan_ext(s, ".webp"@, 0) {
        Some(x) => Some(x),
        None => match scan_ext(s, ".png"@, 0) {
            Some(x) => Some(x),
            None => match scan_ext(s, ".jpg"@, 0) {
                Some(x) => Some(x),
                None => match scan_ext(s, ".jpeg"@, 0) {
                    Some(x) => Some(x),
                    None => scan_ext(s, ".gif"@, 0),
                },
            },
        },
    }
}

fn boundary_exec(v: &Vec<char>, i: usize) -> (r: bool)
    ensures
        r == boundary_ok(v@, i as int),
{
    if i >= v.len() {
        return true;
    }
    let c = v[i];
    c == '?' || c == '#' || c == '"' || c == '\'' || c == ')' || is_whitespace(c)
}

fn scan_ext_exec(v: &Vec<char>, needle: &str) -> (r: Option<String>)
    ensures
        match r {
            Some(x) => scan_ext(v@, needle@, 0) == Some(x@),
            None => scan_ext(v@, needle@, 0) is None,
        },
{
    let nv = chars_of(needle);
    if nv.len() == 0 {
        return None;
    }
    let mut i: usize = 0;
    loop
        invariant
            nv@ == needle@,
            nv.len() > 0,
            i <= v.len() + 1,
            scan_ext(v@, needle@, 0) == scan_ext(v@, needle@, i as int),
        decreases v.len() + 1 - i,
    {
        if i > v.len() {
            assert(find_from(v@, needle@, i as int) is None);
            return None;
        }
        match find_from_exec(v, &nv, i) {
            None => {
                return None;
            },
            Some(p) => {
                proof {
                    lemma_find_occurs(v@, needle@, i as int);
                }
                let before = crate::text::sub_chars(v, 0, p);
                assert(before@ =~= v@.take(p as int));
                let bs = string_of(before.as_slice());
                if boundary_exec(v, p + nv.len()) {
                    match tail_sha(bs.as_str()) {
                        Some(t) => {
                            return Some(t);
                        },
                        None => {},
                    }
                }
                i = p + nv.len();
            },
        }
    }
}

/// The sha of an asset display URL (see [`extract_sha_spec`]).
pub fn extract_asset_sha(s: &str) -> (r: Option<String>)
    ensures
        match r {
            Some(x) => extract_sha_spec(s@) == Some(x@),
            None => extract_sha_spec(s@) is None,
        },
{
    let v = chars_of(s);
    match scan_ext_exec(&v, ".webp") {
        Some(x) => {
            return Some(x);
        },
        None => {},
    }
    match scan_ext_exec(&v, ".png") {
        Some(x) => {
            return Some(x);
        },
        None => {},
    }
    match scan_ext_exec(&v, ".jpg") {
        Some(x) => {
            return Some(x);
        },
        None => {},
    }
    match scan_ext_exec(&v, ".jpeg") {
        Some(x) => {
            return Some(x);
        },
        None => {},
    }
    scan_ext_exec(&v, ".gif")
}

// ---------------------------------------------------------------------------
// references and display URLs inside documents
// ---------------------------------------------------------------------------

/// The sha of an `asset:<sha>` reference string.
pub open spec fn asset_ref(s: Seq<char>) -> Option<Seq<char>> {
    if s.len() >= 6 && s.take(6) == "asset:"@ && is_sha_spec(s.skip(6)) {
        Some(s.skip(6))
    } else {
        None
    }
}

/// Shas referenced anywhere in a value (strings equal to `asset:<sha>`).
pub open spec fn refs_of(v: JsonV) -> Set<Seq<char>>
    decreases v, 0int,
{
    match v {
        JsonV::Str(s) => match asset_ref(s) {
            Some(h) => set![h],
            None => Set::empty(),
        },
        JsonV::Array(a) => refs_items(a, 0),
        JsonV::Object(es) => refs_entries(es, 0),
        _ => Set::empty(),
    }
}

pub open spec fn refs_items(a: Seq<JsonV>, i: int) -> Set<Seq<char>>
    decreases a, a.len() - i,
{
    if i < 0 || i >= a.len() {
        Set::empty()
    } else {
        refs_of(a[i]).union(refs_items(a, i + 1))
    }
}

pub open spec fn refs_entries(es: Seq<(Seq<char>, JsonV)>, i: int) -> Set<Seq<char>>
    decreases es, es.len() - i,
{
    if i < 0 || i >= es.len() {
        Set::empty()
    } else {
        proof {
            assert(decreases_to!(es => es[i]));
        }
        refs_of(es[i].1).union(refs_entries(es, i + 1))
    }
}

proof fn lemma_refs_items_has(a: Seq<JsonV>, j: int, i: int)
    requires
        0 <= j <= i < a.len(),
    ensures
        refs_of(a[i]).subset_of(refs_items(a, j)),
    decreases i - j,
{
    if j < i {
        lemma_refs_items_has(a, j + 1, i);
    }
}

proof fn lemma_refs_entries_has(es: Seq<(Seq<char>, JsonV)>, j: int, i: int)
    requires
        0 <= j <= i < es.len(),
    ensures
        refs_of(es[i].1).subset_of(refs_entries(es, j)),
    decreases i - j,
{
    if j < i {
        lemma_refs_entries_has(es, j + 1, i);
    }
}

/// Law: a document refers to every asset named anywhere in it: a string
/// that is an asset reference names its asset, and an array or object
/// refers to every asset its items or member values refer to, at any
/// depth.
pub proof fn law_refs_reach_everywhere(v: JsonV)
    ensures
        (v matches JsonV::Str(s) && asset_ref(s) is Some) ==> refs_of(v).contains(asset_ref(v->Str_0)->Some_0),
        v matches JsonV::Array(a) ==> forall|i: int| 0 <= i < a.len() ==> refs_of(#[trigger] a[i]).subset_of(refs_of(v)),
        v matches JsonV::Object(es) ==> forall|i: int| 0 <= i < es.len() ==> refs_of((#[trigger] es[i]).1).subset_of(refs_of(v)),
{
    match v {
        JsonV::Array(a) => {
            assert forall|i: int| 0 <= i < a.len() implies refs_of(#[trigger] a[i]).subset_of(refs_of(v)) by {
                lemma_refs_items_has(a, 0, i);
            }
        },
        JsonV::Object(es) => {
            assert forall|i: int| 0 <= i < es.len() implies refs_of((#[trigger] es[i]).1).subset_of(refs_of(v)) by {
                lemma_refs_entries_has(es, 0, i);
            }
        },
        _ => {},
    }
}

/// Some string of the list has the content `h`.
pub open spec fn listed(reg: Seq<String>, h: Seq<char>) -> bool {
    exists|k: int| 0 <= k < reg.len() && reg[k]@ == h
}

/// The strings of a vector as a set of character sequences.
pub open spec fn str_set(v: Seq<String>) -> Set<Seq<char>> {
    Set::new(|t: Seq<char>| exists|k: int| 0 <= k < v.len() && v[k]@ == t)
}

pub(crate) fn contains_str(out: &Vec<String>, s: &str) -> (r: bool)
    ensures
        r == str_set(out@).contains(s@),
        r == listed(out@, s@),
{
    let mut i: usize = 0;
    while i < out.len()
        invariant
            0 <= i <= out.len(),
            forall|k: int| 0 <= k < i ==> out@[k]@ != s@,
        decreases out.len() - i,
    {
        if str_eq(out[i].as_str(), s) {
            return true;
        }
        i = i + 1;
    }
    false
}

pub(crate) fn add_str(out: &mut Vec<String>, s: String)
    ensures
        str_set(final(out)@) == str_set(old(out)@).insert(s@),
{
    if !contains_str(out, s.as_str()) {
        let ghost before = out@;
        out.push(s);
        assert(str_set(out@) =~= str_set(before).insert(out@[before.len() as int]@)) by {
            assert forall|t: Seq<char>| str_set(out@).contains(t) implies str_set(before).insert(
                out@[before.len() as int]@,
            ).contains(t) by {
                let k = choose|k: int| 0 <= k < out@.len() && out@[k]@ == t;
                if k < before.len() {
                    assert(before[k]@ == t);
                }
            }
            assert forall|t: Seq<char>| str_set(before).insert(out@[before.len() as int]@).contains(
                t,
            ) implies str_set(out@).contains(t) by {
                if t != out@[before.len() as int]@ {
                    let k = choose|k: int| 0 <= k < before.len() && before[k]@ == t;
                    assert(out@[k] == before[k]);
                } else {
                    assert(out@[before.len() as int]@ == t);
                }
            }
        }
    } else {
        assert(str_set(out@).insert(s@) =~= str_set(out@));
    }
}

/// The sha of a string that is exactly `asset:<sha>`.
pub fn asset_ref_of(s: &str) -> (r: Option<String>)
    ensures
        match r {
            Some(h) => asset_ref(s@) == Some(h@),
            None => asset_ref(s@) is None,
        },
{
    let v = chars_of(s);
    let p = lit("asset:");
    proof {
        reveal_strlit("asset:");
    }
    if v.len() < 6 || !occurs_at_exec(&v, &p, 0) {
        proof {
            if v.len() >= 6 {
                assert(v@.subrange(0, 6) =~= v@.take(6));
            }
        }
        return None;
    }
    assert(v@.subrange(0, 6) =~= v@.take(6));
    let h = crate::text::sub_chars(&v, 6, v.len());
    assert(h@ =~= v@.skip(6));
    let hs = string_of(h.as_slice());
    if is_asset_sha(hs.as_str()) {
        Some(hs)
    } else {
        None
    }
}

/// Adds to `out` every sha that the value references as `asset:<sha>`.
pub fn collect_asset_refs(v: &Json, out: &mut Vec<String>)
    ensures
        str_set(final(out)@) == str_set(old(out)@).union(refs_of(v@)),
    decreases v,
{
    match v {
        Json::Str(s) => {
            match asset_ref_of(s.as_str()) {
                Some(h) => {
                    add_str(out, h);
                },
                None => {
                    assert(str_set(out@).union(Set::empty()) =~= str_set(out@));
                },
            }
        },
        Json::Array(a) => {
            proof {
                lemma_array_view(*a);
            }
            let ghost av = v@->Array_0;
            let ghost start = str_set(out@);
            let mut i: usize = a.len();
            assert(refs_items(av, a.len() as int) =~= Set::empty());
            while i > 0
                invariant
                    *v == Json::Array(*a),
                    i <= a.len(),
                    av.len() == a.len(),
                    forall|j: int| 0 <= j < a.len() ==> #[trigger] av[j] == a@[j]@,
                    av == v@->Array_0,
                    str_set(out@) == start.union(refs_items(av, i as int)),
                decreases i,
            {
                i = i - 1;
                proof {
                    vstd::std_specs::vec::axiom_vec_index_decreases(*a, i as int);
                    assert(decreases_to!(*v => (*v)->Array_0));
                    assert(decreases_to!(*v => a[i as int]));
                }
                let ghost before = str_set(out@);
                collect_asset_refs(&a[i], out);
                assert(str_set(out@) =~= start.union(refs_items(av, i as int)));
            }
        },
        Json::Object(es) => {
            proof {
                lemma_object_view(*es);
            }
            let ghost ev = v@->Object_0;
            let ghost start = str_set(out@);
            let mut i: usize = es.len();
            assert(refs_entries(ev, es.len() as int) =~= Set::empty());
            while i > 0
                invariant
                    *v == Json::Object(*es),
                    i <= es.len(),
                    ev.len() == es.len(),
                    forall|j: int|
                        0 <= j < es.len() ==> #[trigger] ev[j] == (es@[j].0@, es@[j].1@),
                    ev == v@->Object_0,
                    str_set(out@) == start.union(refs_entries(ev, i as int)),
                decreases i,
            {
                i = i - 1;
                proof {
                    vstd::std_specs::vec::axiom_vec_index_decreases(*es, i as int);
                    assert(decreases_to!(*v => (*v)->Object_0));
                    assert(decreases_to!(*v => es[i as int]));
                    assert(decreases_to!(*v => es[i as int].1));
                }
                collect_asset_refs(&es[i].1, out);
                assert(str_set(out@) =~= start.union(refs_entries(ev, i as int)));
            }
        },
        _ => {
            assert(str_set(out@).union(Set::empty()) =~= str_set(out@));
        },
    }
}

/// A display URL of the asset protocol (`asset.localhost` or `asset://localhost`).
pub open spec fn url_like(s: Seq<char>) -> bool {
    find_from(s, "asset.localhost"@, 0) is Some || find_from(s, "asset://localhost"@, 0) is Some
}

/// A string as it is stored: a display URL of a registered asset becomes
/// `asset:<sha>`; any other display URL is refused; other strings stay.
pub open spec fn norm_str(s: Seq<char>, reg: Seq<String>) -> Option<Seq<char>> {
    if !url_like(s) {
        Some(s)
    } else {
        match extract_sha_spec(s) {
            Some(h) => if listed(reg, h) {
                Some("asset:"@ + h)
            } else {
                None
            },
            None => None,
        }
    }
}

/// No string of the value is refused.
pub open spec fn norm_ok(v: JsonV, reg: Seq<String>) -> bool
    decreases v, 0int,
{
    match v {
        JsonV::Str(s) => norm_str(s, reg) is Some,
        JsonV::Array(a) => items_ok(a, 0, reg),
        JsonV::Object(es) => entries_ok(es, 0, reg),
        _ => true,
    }
}

pub open spec fn items_ok(a: Seq<JsonV>, i: int, reg: Seq<String>) -> bool
    decreases a, a.len() - i,
{
    if i < 0 || i >= a.len() {
        true
    } else {
        norm_ok(a[i], reg) && items_ok(a, i + 1, reg)
    }
}

pub open spec fn entries_ok(es: Seq<(Seq<char>, JsonV)>, i: int, reg: Seq<String>) -> bool
    decreases es, es.len() - i,
{
    if i < 0 || i >= es.len() {
        true
    } else {
        proof {
            assert(decreases_to!(es => es[i]));
        }
        norm_ok(es[i].1, reg) && entries_ok(es, i + 1, reg)
    }
}

/// The value with every string as it is stored (keys are left alone).
pub open spec fn norm_val(v: JsonV, reg: Seq<String>) -> JsonV
    decreases v,
{
    match v {
        JsonV::Str(s) => match norm_str(s, reg) {
            Some(t) => JsonV::Str(t),
            None => JsonV::Str(s),
        },
        JsonV::Array(a) => JsonV::Array(
            Seq::new(
                a.len(),
                |i: int|
                    if 0 <= i < a.len() {
                        norm_val(a[i], reg)
                    } else {
                        JsonV::Null
                    },
            ),
        ),
        JsonV::Object(es) => JsonV::Object(
            Seq::new(
                es.len(),
                |i: int|
                    if 0 <= i < es.len() {
                        proof {
                            assert(decreases_to!(es => es[i]));
                        }
                        (es[i].0, norm_val(es[i].1, reg))
                    } else {
                        (Seq::empty(), JsonV::Null)
                    },
            ),
        ),
        _ => v,
    }
}

fn has_pat(v: &Vec<char>, pat: &str) -> (r: bool)
    ensures
        r == (find_from(v@, pat@, 0) is Some),
{
    let p = lit(pat);
    find_from_exec(v, &p, 0).is_some()
}

fn norm_string(s: &str, reg: &Vec<String>) -> (r: Option<String>)
    ensures
        match r {
            Some(t) => norm_str(s@, reg@) == Some(t@),
            None => norm_str(s@, reg@) is None,
        },
{
    let v = chars_of(s);
    if !has_pat(&v, "asset.localhost") && !has_pat(&v, "asset://localhost") {
        return Some(crate::text::to_string(s));
    }
    match extract_asset_sha(s) {
        Some(h) => {
            if contains_str(reg, h.as_str()) {
                Some(crate::text::cat("asset:", h.as_str()))
            } else {
                None
            }
        },
        None => None,
    }
}

/// The value with the display URLs of registered assets turned into
/// `asset:<sha>` references; fails when a display URL names no registered
/// asset. `registered` lists the shas in the asset registry.
pub fn normalized_asset_srcs(v: &Json, registered: &Vec<String>) -> (r: Result<Json, String>)
    ensures
        r is Ok <==> norm_ok(v@, registered@),
        r matches Ok(n) ==> n@ == norm_val(v@, registered@),
        r matches Err(e) ==> e@ == "有配图尚未入库，请重新上传该图片"@,
    decreases v,
{
    let ghost reg = registered@;
    match v {
        Json::Str(s) => match norm_string(s.as_str(), registered) {
            Some(t) => Ok(Json::Str(t)),
            None => Err(crate::text::to_string("有配图尚未入库，请重新上传该图片")),
        },
        Json::Array(a) => {
            proof {
                lemma_array_view(*a);
            }
            let ghost av = v@->Array_0;
            let mut out: Vec<Json> = Vec::new();
            let mut i: usize = 0;
            while i < a.len()
                invariant
                    0 <= i <= a.len(),
                    *v == Json::Array(*a),
                    reg == registered@,
                    av == v@->Array_0,
                    av.len() == a.len(),
                    forall|j: int| 0 <= j < a.len() ==> #[trigger] av[j] == a@[j]@,
                    out.len() == i,
                    items_ok(av, 0, reg) == items_ok(av, i as int, reg),
                    forall|j: int| 0 <= j < i ==> (#[trigger] out@[j])@ == norm_val(av[j], reg),
                decreases a.len() - i,
            {
                proof {
                    vstd::std_specs::vec::axiom_vec_index_decreases(*a, i as int);
                    assert(decreases_to!(*v => (*v)->Array_0));
                    assert(decreases_to!(*v => a[i as int]));
                }
                let res = normalized_asset_srcs(&a[i], registered);
                match res {
                    Ok(c) => {
                        out.push(c);
                    },
                    Err(e) => {
                        return Err(e);
                    },
                }
                i = i + 1;
            }
            proof {
                lemma_array_view(out);
                assert(Json::Array(out)@->Array_0 =~= norm_val(v@, reg)->Array_0);
            }
            Ok(Json::Array(out))
        },
        Json::Object(es) => {
            proof {
                lemma_object_view(*es);
            }
            let ghost ev = v@->Object_0;
            let mut out: Vec<(String, Json)> = Vec::new();
            let mut i: usize = 0;
            while i < es.len()
                invariant
                    0 <= i <= es.len(),
                    *v == Json::Object(*es),
                    reg == registered@,
                    ev == v@->Object_0,
                    ev.len() == es.len(),
                    forall|j: int| 0 <= j < es.len() ==> #[trigger] ev[j] == (es@[j].0@, es@[j].1@),
                    out.len() == i,
                    entries_ok(ev, 0, reg) == entries_ok(ev, i as int, reg),
                    forall|j: int|
                        0 <= j < i ==> (#[trigger] out@[j]).0@ == ev[j].0 && out@[j].1@ == norm_val(
                            ev[j].1,
                            reg,
                        ),
                decreases es.len() - i,
            {
                proof {
                    vstd::std_specs::vec::axiom_vec_index_decreases(*es, i as int);
                    assert(decreases_to!(*v => (*v)->Object_0));
                    assert(decreases_to!(*v => es[i as int]));
                    assert(decreases_to!(*v => es[i as int].1));
                }
                match normalized_asset_srcs(&es[i].1, registered) {
                    Ok(c) => {
                        out.push((es[i].0.clone(), c));
                    },
                    Err(e) => {
                        return Err(e);
                    },
                }
                i = i + 1;
            }
            proof {
                lemma_object_view(out);
                assert(Json::Object(out)@->Object_0 =~= norm_val(v@, reg)->Object_0);
            }
            Ok(Json::Object(out))
        },
        _ => Ok(v.clone_json()),
    }
}

// ---------------------------------------------------------------------------
// display URLs of stored assets
// ---------------------------------------------------------------------------

/// The display form of a stored asset: a prefix, the two-character shard,
/// the encoded separator `%5C`, the rest of the sha, a dot and the extension.
pub open spec fn display_url(prefix: Seq<char>, sha: Seq<char>, ext: Seq<char>) -> Seq<char> {
    prefix + sha.subrange(0, 2) + "%5C"@ + sha.subrange(2, 64) + "."@ + ext
}

/// A character that starts one of the image extensions.
pub open spec fn ext_start(c: char) -> bool {
    c == 'w' || c == 'p' || c == 'j' || c == 'g'
}

/// A prefix under which a display URL can be read back: it ends where a
/// path segment ends, and none of its dots starts an image extension.
pub open spec fn prefix_ok(prefix: Seq<char>) -> bool {
    &&& forall|k: int|
        0 <= k < prefix.len() && #[trigger] prefix[k] == '.' ==> k + 1 < prefix.len() && !ext_start(prefix[k + 1])
    &&& prefix.len() == 0 || ends_with(prefix, "/"@) || ends_with(prefix, "%5C"@) || ends_with(prefix, "%5c"@)
}

proof fn lemma_find_first(s: Seq<char>, pat: Seq<char>, i: int, q: int)
    requires
        0 <= i <= q,
        occurs_at(s, pat, q),
        forall|k: int| i <= k < q ==> !occurs_at(s, pat, k),
    ensures
        find_from(s, pat, i) == Some(q),
    decreases q - i,
{
    if i < q {
        lemma_find_first(s, pat, i + 1, q);
    }
}

proof fn lemma_find_none(s: Seq<char>, pat: Seq<char>, i: int)
    requires
        0 <= i,
        forall|k: int| i <= k ==> !occurs_at(s, pat, k),
    ensures
        find_from(s, pat, i) is None,
    decreases s.len() + 1 - i,
{
    if i + pat.len() <= s.len() {
        assert(!occurs_at(s, pat, i));
        lemma_find_none(s, pat, i + 1);
    }
}

proof fn lemma_rfind_last(s: Seq<char>, pat: Seq<char>, p: int, q: int)
    requires
        0 <= q <= p,
        occurs_at(s, pat, q),
        forall|k: int| q < k <= p ==> !occurs_at(s, pat, k),
    ensures
        rfind_from(s, pat, p) == Some(q),
    decreases p - q,
{
    if p > q {
        lemma_rfind_last(s, pat, p - 1, q);
    }
}

/// The characters of a display URL, position by position.
proof fn lemma_url_chars(prefix: Seq<char>, sha: Seq<char>, ext: Seq<char>)
    requires
        sha.len() == 64,
    ensures
        ({
            let u = display_url(prefix, sha, ext);
            let n = prefix.len() as int;
            &&& u.len() == n + 68 + ext.len()
            &&& forall|k: int| 0 <= k < n ==> #[trigger] u[k] == prefix[k]
            &&& u[n] == sha[0] && u[n + 1] == sha[1]
            &&& u[n + 2] == '%' && u[n + 3] == '5' && u[n + 4] == 'C'
            &&& forall|k: int| n + 5 <= k < n + 67 ==> #[trigger] u[k] == sha[k - n - 3]
            &&& u[n + 67] == '.'
            &&& forall|k: int| n + 68 <= k < n + 68 + ext.len() ==> #[trigger] u[k] == ext[k - n - 68]
        }),
{
    reveal_strlit("%5C");
    reveal_strlit(".");
    let n = prefix.len() as int;
    let a = prefix + sha.subrange(0, 2);
    let b = a + "%5C"@;
    let c = b + sha.subrange(2, 64);
    let d = c + "."@;
    let u = d + ext;
    assert(u == display_url(prefix, sha, ext));
    assert(forall|k: int| 0 <= k < n ==> #[trigger] u[k] == prefix[k]) by {
        assert forall|k: int| 0 <= k < n implies #[trigger] u[k] == prefix[k] by {
            assert(u[k] == d[k] && d[k] == c[k] && c[k] == b[k] && b[k] == a[k]);
        }
    }
    assert(u[n] == a[n] && u[n + 1] == a[n + 1]);
    assert(u[n + 2] == b[n + 2] && u[n + 3] == b[n + 3] && u[n + 4] == b[n + 4]);
    assert forall|k: int| n + 5 <= k < n + 67 implies #[trigger] u[k] == sha[k - n - 3] by {
        assert(u[k] == d[k] && d[k] == c[k]);
        assert(c[k] == sha.subrange(2, 64)[k - n - 5]);
    }
    assert(u[n + 67] == d[n + 67]);
}

/// No image extension occurs in a display URL before its final dot.
proof fn lemma_no_needle_before(prefix: Seq<char>, sha: Seq<char>, ext: Seq<char>, needle: Seq<char>, k: int)
    requires
        is_sha_spec(sha),
        prefix_ok(prefix),
        needle.len() >= 2,
        needle[0] == '.',
        ext_start(needle[1]),
        0 <= k < prefix.len() + 67,
    ensures
        !occurs_at(display_url(prefix, sha, ext), needle, k),
{
    let u = display_url(prefix, sha, ext);
    let n = prefix.len() as int;
    lemma_url_chars(prefix, sha, ext);
    if occurs_at(u, needle, k) {
        assert(u.subrange(k, k + needle.len())[0] == u[k]);
        assert(u.subrange(k, k + needle.len())[1] == u[k + 1]);
        assert(u[k] == '.');
        if k < n {
            assert(prefix[k] == '.');
            assert(u[k + 1] == prefix[k + 1]);
        } else if k == n || k == n + 1 {
            assert(is_hex(sha[k - n]));
        } else if n + 5 <= k {
            assert(is_hex(sha[k - n - 3]));
        }
    }
}

/// No occurrence of a dotted needle after the final dot.
proof fn lemma_no_needle_after(prefix: Seq<char>, sha: Seq<char>, ext: Seq<char>, needle: Seq<char>, k: int)
    requires
        sha.len() == 64,
        needle.len() >= 1,
        needle[0] == '.',
        forall|i: int| 0 <= i < ext.len() ==> ext[i] != '.',
        k > prefix.len() + 67,
    ensures
        !occurs_at(display_url(prefix, sha, ext), needle, k),
{
    let u = display_url(prefix, sha, ext);
    lemma_url_chars(prefix, sha, ext);
    if occurs_at(u, needle, k) {
        assert(u.subrange(k, k + needle.len())[0] == u[k]);
        assert(u[k] == ext[k - prefix.len() - 68]);
    }
}

/// The display URL of an asset gives back its sha.
proof fn lemma_tail_of_url(prefix: Seq<char>, sha: Seq<char>, ext: Seq<char>)
    requires
        is_sha_spec(sha),
        prefix_ok(prefix),
    ensures
        tail_sha_spec(display_url(prefix, sha, ext).take(prefix.len() as int + 67)) == Some(sha),
{
    let u = display_url(prefix, sha, ext);
    let n = prefix.len() as int;
    let t = u.take(n + 67);
    lemma_url_chars(prefix, sha, ext);
    reveal_strlit("%5C");
    reveal_strlit("%5c");
    reveal_strlit("/");
    let q = n + 2;
    assert(t.subrange(q, q + 3) =~= "%5C"@);
    assert(occurs_at(t, "%5C"@, q));
    assert forall|k: int| q < k <= t.len() - 3 implies !occurs_at(t, "%5C"@, k) by {
        if occurs_at(t, "%5C"@, k) {
            assert(t.subrange(k, k + 3)[0] == t[k]);
            if k >= n + 5 {
                assert(t[k] == sha[k - n - 3]);
                assert(is_hex(sha[k - n - 3]));
            }
        }
    }
    lemma_rfind_last(t, "%5C"@, t.len() - 3, q);
    lemma_rfind_occurs(t, "%5c"@, t.len() - 3);
    lemma_rfind_occurs(t, "/"@, t.len() - 1);
    if let Some(p2) = rfind(t, "%5c"@) {
        assert(t.subrange(p2, p2 + 3)[0] == t[p2]);
        assert(t.subrange(p2, p2 + 3)[2] == t[p2 + 2]);
        if p2 >= q {
            if p2 >= n + 5 {
                assert(t[p2] == sha[p2 - n - 3]);
            }
        }
        assert(p2 < q);
    }
    if let Some(p3) = rfind(t, "/"@) {
        assert(t.subrange(p3, p3 + 1)[0] == t[p3]);
        if p3 >= q {
            if p3 >= n + 5 {
                assert(t[p3] == sha[p3 - n - 3]);
            }
        }
        assert(p3 < q);
    }
    assert(last_sep(t) == Some(("%5C"@, q)));
    let tail = t.subrange(q + 3, t.len() as int);
    assert(tail =~= sha.subrange(2, 64));
    assert forall|k: int| 0 <= k < 62 implies is_hex(#[trigger] tail[k]) by {
        assert(tail[k] == sha[k + 2]);
    }
    assert(is_hex(t[q - 2]) && is_hex(t[q - 1]));
    assert(t.take(q - 2) =~= prefix);
    assert(sharded_at(t, "%5C"@, q));
    assert(t.subrange(q - 2, q) + tail =~= sha);
}

/// An image extension other than the URL's own occurs nowhere in it.
proof fn lemma_needle_absent(prefix: Seq<char>, sha: Seq<char>, ext: Seq<char>, nd: Seq<char>)
    requires
        is_sha_spec(sha),
        prefix_ok(prefix),
        nd.len() >= 2,
        nd[0] == '.',
        ext_start(nd[1]),
        forall|i: int| 0 <= i < ext.len() ==> ext[i] != '.',
        !(nd.len() <= ext.len() + 1 && (seq!['.'] + ext).take(nd.len() as int) == nd),
    ensures
        scan_ext(display_url(prefix, sha, ext), nd, 0) is None,
{
    let u = display_url(prefix, sha, ext);
    let d = prefix.len() as int + 67;
    lemma_url_chars(prefix, sha, ext);
    assert forall|k: int| 0 <= k implies !#[trigger] occurs_at(u, nd, k) by {
        if k < d {
            lemma_no_needle_before(prefix, sha, ext, nd, k);
        } else if k > d {
            lemma_no_needle_after(prefix, sha, ext, nd, k);
        } else if occurs_at(u, nd, k) {
            assert(u.subrange(d, u.len() as int) =~= seq!['.'] + ext) by {
                reveal_strlit(".");
            }
            assert((seq!['.'] + ext).take(nd.len() as int) =~= u.subrange(d, d + nd.len()));
        }
    }
    lemma_find_none(u, nd, 0);
}

/// The URL's own extension is found at its final dot, and gives the sha.
proof fn lemma_needle_found(prefix: Seq<char>, sha: Seq<char>, ext: Seq<char>)
    requires
        is_sha_spec(sha),
        prefix_ok(prefix),
        ext.len() >= 1,
        ext_start(ext[0]),
    ensures
        scan_ext(display_url(prefix, sha, ext), seq!['.'] + ext, 0) == Some(sha),
{
    let u = display_url(prefix, sha, ext);
    let d = prefix.len() as int + 67;
    let mine = seq!['.'] + ext;
    lemma_url_chars(prefix, sha, ext);
    lemma_tail_of_url(prefix, sha, ext);
    assert(u.subrange(d, d + mine.len()) =~= mine) by {
        reveal_strlit(".");
    }
    assert(occurs_at(u, mine, d));
    assert forall|k: int| 0 <= k < d implies !occurs_at(u, mine, k) by {
        lemma_no_needle_before(prefix, sha, ext, mine, k);
    }
    lemma_find_first(u, mine, 0, d);
    assert(boundary_ok(u, d + mine.len()));
}

/// Reading back the display URL of a stored asset: whatever its accepted
/// type, the URL made of a well-formed prefix, the shard, `%5C`, the rest of
/// the sha and the extension gives back the sha.
pub proof fn law_display_url_gives_sha(prefix: Seq<char>, sha: Seq<char>, mime: Seq<char>)
    requires
        is_sha_spec(sha),
        prefix_ok(prefix),
        mime_ext_spec(mime) is Some,
    ensures
        extract_sha_spec(display_url(prefix, sha, mime_ext_spec(mime).unwrap())) == Some(sha),
{
    let ext = mime_ext_spec(mime).unwrap();
    reveal_strlit("webp");
    reveal_strlit("png");
    reveal_strlit("jpg");
    reveal_strlit("gif");
    reveal_strlit(".webp");
    reveal_strlit(".png");
    reveal_strlit(".jpg");
    reveal_strlit(".jpeg");
    reveal_strlit(".gif");
    let mine = seq!['.'] + ext;
    if ext == "webp"@ {
        assert(mine =~= ".webp"@);
        lemma_needle_found(prefix, sha, ext);
    } else if ext == "png"@ {
        assert(mine =~= ".png"@);
        lemma_needle_absent(prefix, sha, ext, ".webp"@);
        lemma_needle_found(prefix, sha, ext);
    } else if ext == "jpg"@ {
        assert(mine =~= ".jpg"@);
        assert(mine.take(4)[1] != ".webp"@[1]);
        lemma_needle_absent(prefix, sha, ext, ".webp"@);
        assert(mine.take(4)[1] != ".png"@[1]);
        lemma_needle_absent(prefix, sha, ext, ".png"@);
        lemma_needle_found(prefix, sha, ext);
    } else {
        assert(ext == "gif"@);
        assert(mine =~= ".gif"@);
        lemma_needle_absent(prefix, sha, ext, ".webp"@);
        assert(mine.take(4)[1] != ".png"@[1]);
        lemma_needle_absent(prefix, sha, ext, ".png"@);
        assert(mine.take(4)[1] != ".jpg"@[1]);
        lemma_needle_absent(prefix, sha, ext, ".jpg"@);
        lemma_needle_absent(prefix, sha, ext, ".jpeg"@);
        lemma_needle_found(prefix, sha, ext);
    }
}

} // verus!

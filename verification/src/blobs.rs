//! The asset registry: preparing an upload (decode, check, hash, place),
//! registering it, resolving shas to files, and collecting unused images.
//! The files themselves are written, tested and removed by the caller.
use vstd::prelude::*;
use crate::db::{Db, grew, Call, SqlV, ran, is_run, args_view, lemma_ran_grew};
use base64::Engine;
use sha2::Digest;
use crate::db::{SqlValue, db_execute, db_query, col_text, col_int, text};
use crate::json::{Json, JsonV, entry, lookup, int_numeral, lemma_object_view, lemma_array_view, json_parsed};
use crate::text::{trim, trim_spec, is_hex, str_eq, decimal};
use crate::clock::now_iso;
use crate::assets::{asset_mime_ext, mime_ext_spec, asset_path_for, is_sha_spec, collect_asset_refs, contains_str, listed, refs_of, str_set, ASSET_MAX_BYTES};
use crate::questions::parse_json_opt;

verus! {

/// What `base64::engine::general_purpose::STANDARD.decode` makes of a text.
pub uninterp spec fn b64_decoded(s: Seq<char>) -> Option<Seq<u8>>;

/// The SHA-256 digest of some bytes.
pub uninterp spec fn sha256_of(b: Seq<u8>) -> Seq<u8>;

/// `base64::engine::general_purpose::STANDARD.decode`: the bytes, `None`
/// where the text is not standard base64.
#[verifier::external_body]
fn b64_decode(s: &str) -> (r: Option<Vec<u8>>)
    ensures
        match r {
            Some(b) => b64_decoded(s@) == Some(b@),
            None => b64_decoded(s@) is None,
        },
{
    base64::engine::general_purpose::STANDARD.decode(s).ok()
}

/// `sha2::Sha256::digest`: the 32 bytes of the digest.
#[verifier::external_body]
fn sha256(b: &Vec<u8>) -> (r: Vec<u8>)
    ensures
        r@ == sha256_of(b@),
        r@.len() == 32,
{
    sha2::Sha256::digest(b.as_slice()).to_vec()
}

pub open spec fn hex_digit(n: int) -> char {
    if n < 10 { ((n + 48) as u8) as char } else { ((n + 87) as u8) as char }
}

/// Lower-case hexadecimal, two digits a byte.
pub open spec fn hex_of(b: Seq<u8>) -> Seq<char>
    decreases b.len(),
{
    if b.len() == 0 {
        Seq::empty()
    } else {
        hex_of(b.drop_last()) + seq![hex_digit(b.last() as int / 16), hex_digit(b.last() as int % 16)]
    }
}

fn hex_digit_exec(n: u8) -> (c: char)
    requires
        n < 16,
    ensures
        c == hex_digit(n as int),
{
    if n < 10 {
        ((n + 48) as u8) as char
    } else {
        ((n + 87) as u8) as char
    }
}

/// Lower-case hexadecimal of some bytes.
pub fn hex_string(b: &Vec<u8>) -> (r: String)
    ensures
        r@ == hex_of(b@),
{
    let mut v: Vec<char> = Vec::new();
    let mut i: usize = 0;
    while i < b.len()
        invariant
            0 <= i <= b.len(),
            v@ == hex_of(b@.take(i as int)),
        decreases b.len() - i,
    {
        assert(b@.take(i + 1).drop_last() =~= b@.take(i as int));
        v.push(hex_digit_exec(b[i] / 16));
        v.push(hex_digit_exec(b[i] % 16));
        i = i + 1;
    }
    assert(b@.take(b.len() as int) =~= b@);
    crate::text::string_of(v.as_slice())
}

/// The sha256 of some bytes in lower-case hex.
pub fn sha256_hex(b: &Vec<u8>) -> (r: String)
    ensures
        r@ == hex_of(sha256_of(b@)),
        sha256_of(b@).len() == 32,
{
    hex_string(&sha256(b))
}

/// An upload ready to be written: its bytes, sha, and where it goes under
/// the assets root (`dir/file`).
pub struct PreparedAsset {
    pub sha: String,
    pub bytes: Vec<u8>,
    pub dir: String,
    pub file: String,
}

/// Where an upload goes under the assets root: `(dir, file)` from the sha
/// of its decoded bytes and the extension of its type; `None` where the data
/// is not base64 or the type is not an accepted image.
pub open spec fn upload_place(data_b64: Seq<char>, mime: Seq<char>) -> Option<(Seq<char>, Seq<char>)> {
    match (b64_decoded(trim_spec(data_b64)), mime_ext_spec(mime)) {
        (Some(bytes), Some(ext)) => {
            let sha = hex_of(sha256_of(bytes));
            Some((sha.subrange(0, 2), sha.subrange(2, 64) + "."@ + ext))
        },
        _ => None,
    }
}

/// Duplicate images are stored once: two uploads whose data decode to the
/// same bytes, with the same type, go to the same file.
pub proof fn law_same_image_same_file(d1: Seq<char>, d2: Seq<char>, mime: Seq<char>)
    requires
        b64_decoded(trim_spec(d1)) == b64_decoded(trim_spec(d2)),
    ensures
        upload_place(d1, mime) == upload_place(d2, mime),
{
}

/// Checks and places an upload: the type must be an accepted image, the
/// data (trimmed) standard base64 of 1 byte to 20 MiB; the sha is the
/// hex sha256 of the bytes, the file `<sha[..2]>/<sha[2..]>.<ext>`.
pub fn prepare_asset(data_b64: &str, mime: &str) -> (r: Result<PreparedAsset, String>)
    ensures
        mime_ext_spec(mime@) is None ==> r is Err,
        mime_ext_spec(mime@) is Some ==> match b64_decoded(trim_spec(data_b64@)) {
            None => r is Err,
            Some(bytes) => if bytes.len() == 0 || bytes.len() > ASSET_MAX_BYTES {
                r is Err
            } else {
                r matches Ok(a) && a.bytes@ == bytes && a.sha@ == hex_of(sha256_of(bytes)) && a.dir@
                    == a.sha@.subrange(0, 2) && a.file@ == a.sha@.subrange(2, 64) + "."@
                    + mime_ext_spec(mime@).unwrap()
            },
        },
        r matches Ok(a) ==> upload_place(data_b64@, mime@) == Some((a.dir@, a.file@)),
{
    let ext = match asset_mime_ext(mime) {
        Some(e) => e,
        None => {
            return Err("不支持的图片格式（仅 webp/png/jpeg/gif）".to_owned());
        },
    };
    let t = trim(data_b64);
    let bytes = match b64_decode(t.as_str()) {
        Some(b) => b,
        None => {
            return Err("图片数据损坏（base64 非法）".to_owned());
        },
    };
    if bytes.len() == 0 || bytes.len() > ASSET_MAX_BYTES {
        return Err("图片大小非法（空或超过 20MB）".to_owned());
    }
    let sha = sha256_hex(&bytes);
    proof {
        lemma_hex_is_sha(sha256_of(bytes@));
    }
    let (dir, file) = asset_path_for(sha.as_str(), ext)?;
    Ok(PreparedAsset { sha, bytes, dir, file })
}

proof fn lemma_hex_len(b: Seq<u8>)
    ensures
        hex_of(b).len() == 2 * b.len(),
        forall|k: int| 0 <= k < hex_of(b).len() ==> is_hex(#[trigger] hex_of(b)[k]),
    decreases b.len(),
{
    if b.len() > 0 {
        lemma_hex_len(b.drop_last());
        let l = b.last() as int;
        assert(0 <= l / 16 < 16);
        assert(0 <= l % 16 < 16);
        let p = hex_of(b.drop_last());
        let h = hex_of(b);
        assert forall|k: int| 0 <= k < h.len() implies is_hex(#[trigger] h[k]) by {
            if k < p.len() {
                assert(h[k] == p[k]);
            } else {
                let n = if k == p.len() { l / 16 } else { l % 16 };
                assert(h[k] == hex_digit(n));
                assert(0 <= n < 16);
                if n < 10 {
                    assert(((n + 48) as u8) as char == hex_digit(n));
                }
            }
        }
    }
}

proof fn lemma_hex_is_sha(b: Seq<u8>)
    requires
        b.len() == 32,
    ensures
        is_sha_spec(hex_of(b)),
{
    lemma_hex_len(b);
}

/// Registers an asset (kept when the sha is registered already).
pub fn register_asset(db: &mut Db, sha: &str, mime: &str, size: usize, width: Option<i64>, height: Option<i64>) -> (r: Result<(), String>)
    ensures
        grew(old(db).log@, final(db).log@),
        size > i64::MAX ==> r is Err,
{
    let now = now_iso()?;
    let sz: i64 = if (size as u64) <= 0x7fff_ffff_ffff_ffffu64 {
        size as i64
    } else {
        return Err("asset too large".to_owned());
    };
    let w = match width {
        Some(x) => SqlValue::Int(x),
        None => SqlValue::Null,
    };
    let h = match height {
        Some(x) => SqlValue::Int(x),
        None => SqlValue::Null,
    };
    db_execute(
        db,
        "INSERT OR IGNORE INTO assets (sha, mime, size, width, height, created_at) VALUES (?1, ?2, ?3, ?4, ?5, ?6)",
        &vec![text(sha), SqlValue::Text(trim(mime)), SqlValue::Int(sz), w, h, SqlValue::Text(now)],
    )?;
    Ok(())
}

/// The registered type and size of an asset.
pub fn asset_registry_get(db: &mut Db, sha: &str) -> (r: Result<Option<(String, i64)>, String>)
    ensures
        grew(old(db).log@, final(db).log@),
{
    let rows = db_query(db, "SELECT mime, size FROM assets WHERE sha = ?1", &vec![text(sha)], 2)?;
    if rows.len() == 0 {
        return Ok(None);
    }
    match (col_text(&rows[0], 0), col_int(&rows[0], 1)) {
        (Some(m), Some(s)) => Ok(Some((m, s))),
        _ => Err("bad asset registry row".to_owned()),
    }
}

/// Where the file of an asset lies (`<2 hex>/<62 hex>.<ext>`), when its sha
/// is well formed and its type accepted.
pub open spec fn place_spec(sha: Seq<char>, mime: Seq<char>) -> Option<(Seq<char>, Seq<char>)> {
    match mime_ext_spec(mime) {
        Some(e) => if is_sha_spec(sha) {
            Some((sha.subrange(0, 2), sha.subrange(2, 64) + "."@ + e))
        } else {
            None
        },
        None => None,
    }
}

pub open spec fn place_view(p: Option<(String, String)>) -> Option<(Seq<char>, Seq<char>)> {
    match p {
        Some((d, f)) => Some((d@, f@)),
        None => None,
    }
}

/// The place of an asset's file, as `place_spec` says.
pub fn place_for(sha: &str, mime: &str) -> (r: Option<(String, String)>)
    ensures
        place_view(r) == place_spec(sha@, mime@),
{
    match asset_mime_ext(mime) {
        Some(ext) => match asset_path_for(sha, ext) {
            Ok(p) => Some(p),
            Err(_) => None,
        },
        None => None,
    }
}

/// A sha to resolve, with the place of its file when it is registered under
/// an accepted type.
pub struct AssetLookup {
    pub sha: String,
    pub place: Option<(String, String)>,
}

/// The distinct strings among the first `n`, in order of first occurrence.
pub open spec fn firsts(s: Seq<String>, n: int) -> Seq<Seq<char>>
    decreases n,
{
    if n <= 0 {
        seq![]
    } else {
        let prev = firsts(s, n - 1);
        if prev.contains(s[n - 1]@) {
            prev
        } else {
            prev.push(s[n - 1]@)
        }
    }
}

/// The distinct shas asked for (at most 200), in order of first occurrence,
/// each with where its file would be; the caller keeps a place only when the
/// file exists.
pub fn assets_resolve_plan(db: &mut Db, shas: &Vec<String>) -> (r: Result<Vec<AssetLookup>, String>)
    ensures
        grew(old(db).log@, final(db).log@),
        shas.len() > 200 ==> r is Err,
        r matches Ok(v) ==> v.len() == firsts(shas@, shas.len() as int).len()
            && forall|k: int| 0 <= k < v.len() ==> (#[trigger] v@[k]).sha@ == firsts(shas@, shas.len() as int)[k],
{
    if shas.len() > 200 {
        return Err("一次最多解析 200 个".to_owned());
    }
    let mut seen: Vec<String> = Vec::new();
    let mut out: Vec<AssetLookup> = Vec::new();
    let mut i: usize = 0;
    while i < shas.len()
        invariant
            grew(old(db).log@, db.log@),
            0 <= i <= shas.len(),
            seen.len() == out.len(),
            out.len() == firsts(shas@, i as int).len(),
            forall|k: int| 0 <= k < out.len() ==> (#[trigger] out@[k]).sha@ == firsts(shas@, i as int)[k],
            forall|k: int| 0 <= k < seen.len() ==> (#[trigger] seen@[k])@ == firsts(shas@, i as int)[k],
        decreases shas.len() - i,
    {
        proof {
            let f = firsts(shas@, i as int);
            assert(listed(seen@, shas@[i as int]@) == f.contains(shas@[i as int]@)) by {
                if f.contains(shas@[i as int]@) {
                    let k = choose|k: int| 0 <= k < f.len() && f[k] == shas@[i as int]@;
                    assert(seen@[k]@ == f[k]);
                }
            }
        }
        let sha = &shas[i];
        i = i + 1;
        if contains_str(&seen, sha.as_str()) {
            continue;
        }
        seen.push(sha.clone());
        let place = match asset_registry_get(db, sha.as_str())? {
            Some((mime, _)) => place_for(sha.as_str(), mime.as_str()),
            None => None,
        };
        out.push(AssetLookup { sha: sha.clone(), place });
    }
    Ok(out)
}

/// `{sha, path}`: the path as a string, or `null`.
pub open spec fn resolved_item(sha: Seq<char>, path: Option<String>) -> JsonV {
    JsonV::Object(
        seq![
            ("sha"@, JsonV::Str(sha)),
            (
                "path"@,
                match path {
                    Some(p) => JsonV::Str(p@),
                    None => JsonV::Null,
                },
            ),
        ],
    )
}

/// `{items: [{sha, path}]}`: `path` is the text the caller made of a place
/// whose file exists, else `null`.
pub fn assets_resolve_result(shas: &Vec<String>, paths: &Vec<Option<String>>) -> (r: Json)
    requires
        shas.len() == paths.len(),
    ensures
        r@ == JsonV::Object(
            seq![
                (
                    "items"@,
                    JsonV::Array(Seq::new(shas.len() as nat, |i: int| resolved_item(shas@[i]@, paths@[i]))),
                ),
            ],
        ),
{
    let mut items: Vec<Json> = Vec::new();
    let mut i: usize = 0;
    while i < shas.len()
        invariant
            0 <= i <= shas.len(),
            shas.len() == paths.len(),
            items.len() == i,
            forall|k: int| 0 <= k < i ==> (#[trigger] items@[k])@ == resolved_item(shas@[k]@, paths@[k]),
        decreases shas.len() - i,
    {
        let es = vec![entry("sha", Json::Str(shas[i].clone())), entry("path", Json::from_opt_str(&paths[i]))];
        proof {
            lemma_object_view(es);
            assert(Json::Object(es)@->Object_0 =~= resolved_item(shas@[i as int]@, paths@[i as int])->Object_0);
        }
        items.push(Json::Object(es));
        i = i + 1;
    }
    let ghost want = Seq::new(shas.len() as nat, |i: int| resolved_item(shas@[i]@, paths@[i]));
    proof {
        lemma_array_view(items);
        assert(Json::Array(items)@->Array_0 =~= want);
    }
    let es = vec![entry("items", Json::Array(items))];
    proof {
        lemma_object_view(es);
        assert(Json::Object(es)@->Object_0 =~= seq![("items"@, JsonV::Array(want))]);
    }
    Json::Object(es)
}

/// A registered asset.
pub struct Registered {
    pub sha: String,
    pub mime: String,
    pub size: i64,
}

/// What a collection of unused assets found: the registry, the references
/// of every question (question id and sha, each pair once), and how many
/// questions were read.
pub struct GcScan {
    pub registered: Vec<Registered>,
    pub used: Vec<(String, String)>,
    pub scanned: u64,
}

/// A registry row as read: sha and mime as texts, size as an integer.
pub open spec fn reg_row_ok(row: Seq<SqlValue>) -> bool {
    &&& row[0] is Text
    &&& row[1] is Text
    &&& row[2] is Int
}

/// The registered asset is the registry row, field by field.
pub open spec fn reg_of_row(r: Registered, row: Seq<SqlValue>) -> bool {
    &&& row[0] matches SqlValue::Text(t) && t@ == r.sha@
    &&& row[1] matches SqlValue::Text(t) && t@ == r.mime@
    &&& row[2] == SqlValue::Int(r.size)
}

/// The registry as read, in the order read; an error where a row is not a
/// text sha, a text mime and an integer size.
pub fn registry_of(rows: &Vec<Vec<SqlValue>>) -> (r: Result<Vec<Registered>, String>)
    requires
        forall|j: int| 0 <= j < rows.len() ==> (#[trigger] rows@[j]).len() == 3,
    ensures
        r is Ok <==> forall|j: int| 0 <= j < rows.len() ==> reg_row_ok(#[trigger] rows@[j]@),
        r matches Ok(v) ==> v.len() == rows.len()
            && forall|j: int| 0 <= j < rows.len() ==> reg_of_row(#[trigger] v@[j], rows@[j]@),
{
    let mut registered: Vec<Registered> = Vec::new();
    let mut i: usize = 0;
    while i < rows.len()
        invariant
            0 <= i <= rows.len(),
            forall|j: int| 0 <= j < rows.len() ==> (#[trigger] rows@[j]).len() == 3,
            registered.len() == i,
            forall|j: int| 0 <= j < i ==> reg_row_ok(#[trigger] rows@[j]@),
            forall|j: int| 0 <= j < i ==> reg_of_row(#[trigger] registered@[j], rows@[j]@),
        decreases rows.len() - i,
    {
        match (col_text(&rows[i], 0), col_text(&rows[i], 1), col_int(&rows[i], 2)) {
            (Some(sha), Some(mime), Some(size)) => registered.push(Registered { sha, mime, size }),
            _ => {
                assert(!reg_row_ok(rows@[i as int]@));
                return Err("bad asset registry row".to_owned());
            },
        }
        i = i + 1;
    }
    Ok(registered)
}

/// The document held by a column: its text parsed as JSON, `null` where it
/// is not text or does not parse.
pub open spec fn cell_doc(v: SqlValue) -> JsonV {
    match v {
        SqlValue::Text(t) => match json_parsed(t@) {
            Some(d) => d,
            None => JsonV::Null,
        },
        _ => JsonV::Null,
    }
}

/// The assets that the documents of columns `1 .. c` of a question row refer to.
pub open spec fn row_refs_upto(row: Seq<SqlValue>, c: int) -> Set<Seq<char>>
    decreases c,
{
    if c <= 1 {
        Set::empty()
    } else {
        row_refs_upto(row, c - 1).union(refs_of(cell_doc(row[c - 1])))
    }
}

/// The assets that a question row (id, stem, options, answer, analysis,
/// children) refers to.
pub open spec fn row_refs(row: Seq<SqlValue>) -> Set<Seq<char>> {
    row_refs_upto(row, 6)
}

/// Law: the assets a question row (id, stem, options, answer, analysis,
/// children) uses are exactly those its five document columns refer to, the
/// children's documents included: no column is left out of the scan.
pub proof fn law_row_refs_cover_documents(row: Seq<SqlValue>)
    requires
        row.len() == 6,
    ensures
        forall|c: int| 1 <= c < 6 ==> refs_of(cell_doc(#[trigger] row[c])).subset_of(row_refs(row)),
        row_refs(row) == refs_of(cell_doc(row[1])).union(refs_of(cell_doc(row[2]))).union(refs_of(cell_doc(row[3])))
            .union(refs_of(cell_doc(row[4]))).union(refs_of(cell_doc(row[5]))),
{
    reveal_with_fuel(row_refs_upto, 6);
    assert(row_refs_upto(row, 1) =~= Set::<Seq<char>>::empty());
    assert(row_refs(row) =~= refs_of(cell_doc(row[1])).union(refs_of(cell_doc(row[2]))).union(refs_of(cell_doc(row[3])))
        .union(refs_of(cell_doc(row[4]))).union(refs_of(cell_doc(row[5]))));
}

/// The id of a question row: its text, or the empty text.
pub open spec fn qid_of(row: Seq<SqlValue>) -> Seq<char> {
    match row[0] {
        SqlValue::Text(t) => t@,
        _ => Seq::empty(),
    }
}

/// The assets that one question row refers to, each once.
pub fn doc_refs(row: &Vec<SqlValue>) -> (r: Vec<String>)
    requires
        row.len() == 6,
    ensures
        str_set(r@) == row_refs(row@),
{
    let mut set: Vec<String> = Vec::new();
    let mut c: usize = 1;
    while c < 6
        invariant
            1 <= c <= 6,
            row.len() == 6,
            str_set(set@) == row_refs_upto(row@, c as int),
        decreases 6 - c,
    {
        let v = parse_json_opt(col_text(row, c));
        assert(v@ == cell_doc(row@[c as int]));
        collect_asset_refs(&v, &mut set);
        c = c + 1;
    }
    proof {
        assert(str_set(Seq::<String>::empty()) =~= Set::<Seq<char>>::empty());
    }
    set
}

/// Every pair names a question row and an asset that row refers to.
pub open spec fn pairs_sound(used: Seq<(String, String)>, qrows: Seq<Vec<SqlValue>>, n: int) -> bool {
    forall|k: int| 0 <= k < used.len() ==> exists|j: int|
        0 <= j < n && (#[trigger] used[k]).0@ == qid_of(qrows[j]@) && row_refs(qrows[j]@).contains(used[k].1@)
}

/// Every asset that one of the first `n` question rows refers to is paired
/// with that row's id.
pub open spec fn pairs_complete(used: Seq<(String, String)>, qrows: Seq<Vec<SqlValue>>, n: int) -> bool {
    forall|j: int, h: Seq<char>| 0 <= j < n && #[trigger] row_refs(qrows[j]@).contains(h) ==> exists|k: int|
        0 <= k < used.len() && (#[trigger] used[k]).0@ == qid_of(qrows[j]@) && used[k].1@ == h
}

/// The (question id, sha) pairs of the question rows: exactly the assets each
/// row's five documents refer to.
pub fn used_pairs(qrows: &Vec<Vec<SqlValue>>) -> (r: Vec<(String, String)>)
    requires
        forall|j: int| 0 <= j < qrows.len() ==> (#[trigger] qrows@[j]).len() == 6,
    ensures
        pairs_sound(r@, qrows@, qrows.len() as int),
        pairs_complete(r@, qrows@, qrows.len() as int),
{
    let mut used: Vec<(String, String)> = Vec::new();
    let mut i: usize = 0;
    while i < qrows.len()
        invariant
            0 <= i <= qrows.len(),
            forall|j: int| 0 <= j < qrows.len() ==> (#[trigger] qrows@[j]).len() == 6,
            pairs_sound(used@, qrows@, i as int),
            pairs_complete(used@, qrows@, i as int),
        decreases qrows.len() - i,
    {
        let qid = match col_text(&qrows[i], 0) {
            Some(q) => q,
            None => String::new(),
        };
        assert(qid@ == qid_of(qrows@[i as int]@));
        let set = doc_refs(&qrows[i]);
        let ghost before = used@;
        let mut k: usize = 0;
        while k < set.len()
            invariant
                0 <= k <= set.len(),
                i < qrows.len(),
                qid@ == qid_of(qrows@[i as int]@),
                str_set(set@) == row_refs(qrows@[i as int]@),
                used@.len() == before.len() + k,
                forall|m: int| 0 <= m < before.len() ==> used@[m] == before[m],
                forall|m: int| 0 <= m < k ==> (#[trigger] used@[before.len() + m]).0@ == qid@
                    && used@[before.len() + m].1@ == set@[m]@,
            decreases set.len() - k,
        {
            used.push((qid.clone(), set[k].clone()));
            k = k + 1;
        }
        proof {
            assert forall|k2: int| 0 <= k2 < used@.len() implies exists|j: int|
                0 <= j < i + 1 && (#[trigger] used@[k2]).0@ == qid_of(qrows@[j]@) && row_refs(qrows@[j]@).contains(used@[k2].1@) by {
                if k2 < before.len() {
                    assert(used@[k2] == before[k2]);
                } else {
                    let m = k2 - before.len();
                    assert(used@[before.len() + m].1@ == set@[m]@);
                    assert(str_set(set@).contains(set@[m]@));
                }
            }
            assert forall|j: int, h: Seq<char>| 0 <= j < i + 1 && #[trigger] row_refs(qrows@[j]@).contains(h) implies exists|k2: int|
                0 <= k2 < used@.len() && (#[trigger] used@[k2]).0@ == qid_of(qrows@[j]@) && used@[k2].1@ == h by {
                if j < i {
                    let k2 = choose|k2: int| 0 <= k2 < before.len() && (#[trigger] before[k2]).0@ == qid_of(qrows@[j]@) && before[k2].1@ == h;
                    assert(used@[k2] == before[k2]);
                } else {
                    assert(str_set(set@).contains(h));
                    let m = choose|m: int| 0 <= m < set@.len() && set@[m]@ == h;
                    assert(used@[before.len() + m].1@ == set@[m]@);
                }
            }
        }
        i = i + 1;
    }
    used
}

/// The scan made of the registry rows and the question rows read; an error
/// where a registry row is malformed.
pub fn scan_from(rows: &Vec<Vec<SqlValue>>, qrows: &Vec<Vec<SqlValue>>) -> (r: Result<GcScan, String>)
    requires
        forall|j: int| 0 <= j < rows.len() ==> (#[trigger] rows@[j]).len() == 3,
        forall|j: int| 0 <= j < qrows.len() ==> (#[trigger] qrows@[j]).len() == 6,
    ensures
        r is Ok <==> forall|j: int| 0 <= j < rows.len() ==> reg_row_ok(#[trigger] rows@[j]@),
        r matches Ok(scan) ==> scan_of(scan, rows@, qrows@),
{
    let registered = match registry_of(rows) {
        Ok(v) => v,
        Err(e) => {
            return Err(e);
        },
    };
    let used = used_pairs(qrows);
    let scanned = qrows.len() as u64;
    Ok(GcScan { registered, used, scanned })
}

/// Reads the registry and the asset references of every question document.
pub fn assets_gc_scan(db: &mut Db) -> (r: Result<GcScan, String>)
    ensures
        grew(old(db).log@, final(db).log@),
        r matches Ok(scan) ==> exists|rows: Seq<Vec<SqlValue>>, qrows: Seq<Vec<SqlValue>>|
            #[trigger] scan_of(scan, rows, qrows),
{
    let rows = db_query(db, "SELECT sha, mime, size FROM assets", &vec![], 3)?;
    let qrows = db_query(
        db,
        "SELECT id, stem_json, options_json, answer_json, analysis_json, children_json FROM questions",
        &vec![],
        6,
    )?;
    let r = scan_from(&rows, &qrows);
    proof {
        if r is Ok {
            let rv = rows@;
            let qv = qrows@;
            assert(scan_of(r->Ok_0, rv, qv));
        }
    }
    r
}

/// A scan made of the registry rows and the question rows read: the
/// registry as read, the pairs of each question with the assets its documents
/// refer to, and the number of questions.
pub open spec fn scan_of(scan: GcScan, rows: Seq<Vec<SqlValue>>, qrows: Seq<Vec<SqlValue>>) -> bool {
    &&& scan.registered.len() == rows.len()
    &&& forall|j: int| 0 <= j < rows.len() ==> reg_of_row(#[trigger] scan.registered@[j], rows[j]@)
    &&& pairs_sound(scan.used@, qrows, qrows.len() as int)
    &&& pairs_complete(scan.used@, qrows, qrows.len() as int)
    &&& scan.scanned == qrows.len()
}

/// Some question refers to the sha.
pub open spec fn sha_used(scan: &GcScan, sha: Seq<char>) -> bool {
    exists|j: int| 0 <= j < scan.used.len() && (#[trigger] scan.used@[j]).1@ == sha
}

/// The registered assets among the first `n` that no question refers to,
/// in registry order, each with the place of its file.
pub open spec fn gc_unused_spec(scan: &GcScan, n: int) -> Seq<(Seq<char>, Option<(Seq<char>, Seq<char>)>)>
    decreases n,
{
    if n <= 0 {
        seq![]
    } else {
        let prev = gc_unused_spec(scan, n - 1);
        let r = scan.registered@[n - 1];
        if sha_used(scan, r.sha@) {
            prev
        } else {
            prev.push((r.sha@, place_spec(r.sha@, r.mime@)))
        }
    }
}

/// The collection removes exactly the registered assets that no question
/// refers to: a sha is among those removed if and only if it is registered
/// and unused.
pub proof fn law_gc_removes_exactly_unused(scan: &GcScan, n: int, sha: Seq<char>)
    requires
        0 <= n <= scan.registered.len(),
    ensures
        (exists|j: int| 0 <= j < gc_unused_spec(scan, n).len() && (#[trigger] gc_unused_spec(scan, n)[j]).0 == sha) <==> (
        exists|i: int| 0 <= i < n && (#[trigger] scan.registered@[i]).sha@ == sha && !sha_used(scan, sha)),
    decreases n,
{
    if n > 0 {
        law_gc_removes_exactly_unused(scan, n - 1, sha);
        let prev = gc_unused_spec(scan, n - 1);
        let cur = gc_unused_spec(scan, n);
        let r = scan.registered@[n - 1];
        if exists|j: int| 0 <= j < cur.len() && (#[trigger] cur[j]).0 == sha {
            let j = choose|j: int| 0 <= j < cur.len() && (#[trigger] cur[j]).0 == sha;
            if j < prev.len() {
                assert(cur[j] == prev[j]);
            } else {
                assert(scan.registered@[n - 1].sha@ == sha);
            }
        }
        if exists|i: int| 0 <= i < n && (#[trigger] scan.registered@[i]).sha@ == sha && !sha_used(scan, sha) {
            let i = choose|i: int| 0 <= i < n && (#[trigger] scan.registered@[i]).sha@ == sha && !sha_used(scan, sha);
            if i < n - 1 {
                let j = choose|j: int| 0 <= j < prev.len() && (#[trigger] prev[j]).0 == sha;
                assert(cur[j] == prev[j]);
            } else {
                assert(cur[prev.len() as int].0 == sha);
            }
        }
    }
}

/// The place of the file of a sha: that of the last of the first `k`
/// registered entries with this sha.
pub open spec fn used_place_spec(scan: &GcScan, sha: Seq<char>, k: int) -> Option<(Seq<char>, Seq<char>)>
    decreases k,
{
    if k <= 0 {
        None
    } else if scan.registered@[k - 1].sha@ == sha {
        place_spec(sha, scan.registered@[k - 1].mime@)
    } else {
        used_place_spec(scan, sha, k - 1)
    }
}

fn is_used(scan: &GcScan, sha: &String) -> (r: bool)
    ensures
        r == sha_used(scan, sha@),
{
    let mut i: usize = 0;
    while i < scan.used.len()
        invariant
            0 <= i <= scan.used.len(),
            forall|j: int| 0 <= j < i ==> (#[trigger] scan.used@[j]).1@ != sha@,
        decreases scan.used.len() - i,
    {
        if str_eq(scan.used[i].1.as_str(), sha.as_str()) {
            return true;
        }
        i = i + 1;
    }
    false
}

/// The registered assets no question refers to, each with the place of its
/// file when its type is accepted: what the caller removes.
pub fn assets_gc_unused(scan: &GcScan) -> (r: Vec<(String, Option<(String, String)>)>)
    ensures
        r.len() == gc_unused_spec(scan, scan.registered.len() as int).len(),
        forall|j: int| 0 <= j < r.len() ==> (#[trigger] r@[j]).0@ == gc_unused_spec(scan, scan.registered.len() as int)[j].0
            && place_view(r@[j].1) == gc_unused_spec(scan, scan.registered.len() as int)[j].1,
{
    let mut out: Vec<(String, Option<(String, String)>)> = Vec::new();
    let mut i: usize = 0;
    while i < scan.registered.len()
        invariant
            0 <= i <= scan.registered.len(),
            out.len() == gc_unused_spec(scan, i as int).len(),
            forall|j: int| 0 <= j < out.len() ==> (#[trigger] out@[j]).0@ == gc_unused_spec(scan, i as int)[j].0
                && place_view(out@[j].1) == gc_unused_spec(scan, i as int)[j].1,
        decreases scan.registered.len() - i,
    {
        let r = &scan.registered[i];
        if !is_used(scan, &r.sha) {
            let place = place_for(r.sha.as_str(), r.mime.as_str());
            out.push((r.sha.clone(), place));
        }
        i = i + 1;
    }
    out
}

/// The place of the file of each reference, when its sha is registered
/// under an accepted type: what the caller tests for existence.
pub fn assets_gc_used_places(scan: &GcScan) -> (r: Vec<Option<(String, String)>>)
    ensures
        r.len() == scan.used.len(),
        forall|j: int| 0 <= j < r.len() ==> place_view(#[trigger] r@[j]) == used_place_spec(
            scan,
            scan.used@[j].1@,
            scan.registered.len() as int,
        ),
{
    let mut out: Vec<Option<(String, String)>> = Vec::new();
    let mut i: usize = 0;
    while i < scan.used.len()
        invariant
            0 <= i <= scan.used.len(),
            out.len() == i,
            forall|j: int| 0 <= j < i ==> place_view(#[trigger] out@[j]) == used_place_spec(
                scan,
                scan.used@[j].1@,
                scan.registered.len() as int,
            ),
        decreases scan.used.len() - i,
    {
        let sha = &scan.used[i].1;
        let mut place: Option<(String, String)> = None;
        let mut k: usize = 0;
        while k < scan.registered.len()
            invariant
                0 <= k <= scan.registered.len(),
                place_view(place) == used_place_spec(scan, sha@, k as int),
            decreases scan.registered.len() - k,
        {
            if str_eq(scan.registered[k].sha.as_str(), sha.as_str()) {
                place = place_for(sha.as_str(), scan.registered[k].mime.as_str());
            }
            k = k + 1;
        }
        out.push(place);
        i = i + 1;
    }
    out
}

/// The first reference to its question and sha.
pub open spec fn first_ref(scan: &GcScan, i: int) -> bool {
    forall|j: int| 0 <= j < i ==> !((#[trigger] scan.used@[j]).0@ == scan.used@[i].0@ && scan.used@[j].1@ == scan.used@[i].1@)
}

/// `{question_id, sha}`.
pub open spec fn ref_item(q: Seq<char>, sha: Seq<char>) -> JsonV {
    JsonV::Object(seq![("question_id"@, JsonV::Str(q)), ("sha"@, JsonV::Str(sha))])
}

/// The dangling references among the first `n`, each pair once: no
/// registered file for its sha, or (`exists[i]` false) no file on disk.
pub open spec fn dangling_spec(scan: &GcScan, exists: Seq<bool>, n: int) -> Seq<JsonV>
    decreases n,
{
    if n <= 0 {
        seq![]
    } else {
        let prev = dangling_spec(scan, exists, n - 1);
        let u = scan.used@[n - 1];
        let missing = used_place_spec(scan, u.1@, scan.registered.len() as int) is None || !exists[n - 1];
        if first_ref(scan, n - 1) && missing {
            prev.push(ref_item(u.0@, u.1@))
        } else {
            prev
        }
    }
}

/// The bytes of the unused among the first `n` registered assets; a size
/// that would take the sum out of `i64` is left out.
pub open spec fn freed_spec(scan: &GcScan, n: int) -> int
    decreases n,
{
    if n <= 0 {
        0
    } else {
        let prev = freed_spec(scan, n - 1);
        let r = scan.registered@[n - 1];
        if sha_used(scan, r.sha@) || !(i64::MIN <= prev + r.size <= i64::MAX) {
            prev
        } else {
            prev + r.size
        }
    }
}

/// What a collection reports.
pub open spec fn gc_report(scan: &GcScan, exists: Seq<bool>, j: JsonV) -> bool {
    let n = scan.registered.len() as int;
    &&& j.field("removed"@) == Some(JsonV::Num(decimal(gc_unused_spec(scan, n).len())))
    &&& j.field("freed_bytes"@) == Some(JsonV::Num(int_numeral(freed_spec(scan, n))))
    &&& n <= i64::MAX ==> j.field("total"@) == Some(JsonV::Num(int_numeral(n)))
    &&& j.field("scanned"@) == Some(JsonV::Num(decimal(scan.scanned as nat)))
    &&& j.field("dangling"@) == Some(JsonV::Array(dangling_spec(scan, exists, scan.used.len() as int)))
}

fn is_first_ref(scan: &GcScan, i: usize) -> (r: bool)
    requires
        i < scan.used.len(),
    ensures
        r == first_ref(scan, i as int),
{
    let mut j: usize = 0;
    while j < i
        invariant
            0 <= j <= i < scan.used.len(),
            forall|k: int| 0 <= k < j ==> !((#[trigger] scan.used@[k]).0@ == scan.used@[i as int].0@
                && scan.used@[k].1@ == scan.used@[i as int].1@),
        decreases i - j,
    {
        if str_eq(scan.used[j].0.as_str(), scan.used[i].0.as_str()) && str_eq(scan.used[j].1.as_str(), scan.used[i].1.as_str()) {
            return false;
        }
        j = j + 1;
    }
    true
}

/// Drops the unused assets from the registry and reports: how many were
/// removed and their bytes, how many are registered, how many questions
/// were read, and the references left dangling (no registered file:
/// `exists[i]` says whether the file of reference `i` exists).
/// Removes a registered asset.
pub const ASSET_DELETE: &'static str = "DELETE FROM assets WHERE sha = ?1";

/// The journal removed every registered asset that no question refers to.
pub open spec fn unused_deleted(log: Seq<Call>, scan: &GcScan) -> bool {
    forall|j: int| 0 <= j < scan.registered.len() && !sha_used(scan, scan.registered@[j].sha@) ==>
        ran(log, ASSET_DELETE@, seq![SqlV::Text(#[trigger] scan.registered@[j].sha@)])
}

/// `{removed, freed_bytes, total, scanned, dangling: [{question_id, sha}]}`.
pub fn assets_gc_finish(db: &mut Db, scan: &GcScan, exists: &Vec<bool>) -> (r: Result<Json, String>)
    requires
        exists.len() == scan.used.len(),
    ensures
        grew(old(db).log@, final(db).log@),
        r matches Ok(j) ==> gc_report(scan, exists@, j@),
        r is Ok ==> unused_deleted(final(db).log@, scan),
{
    let mut removed: u64 = 0;
    let mut freed: i64 = 0;
    let mut i: usize = 0;
    while i < scan.registered.len()
        invariant
            grew(old(db).log@, db.log@),
            forall|j: int| 0 <= j < i && !sha_used(scan, scan.registered@[j].sha@) ==>
                ran(db.log@, ASSET_DELETE@, seq![SqlV::Text(#[trigger] scan.registered@[j].sha@)]),
            0 <= i <= scan.registered.len(),
            removed == gc_unused_spec(scan, i as int).len(),
            removed <= i,
            freed == freed_spec(scan, i as int),
        decreases scan.registered.len() - i,
    {
        let r = &scan.registered[i];
        let ghost ls = db.log@;
        if !is_used(scan, &r.sha) {
            let args = vec![SqlValue::Text(r.sha.clone())];
            assert(args_view(args@) =~= seq![SqlV::Text(r.sha@)]);
            db_execute(db, ASSET_DELETE, &args)?;
            assert(is_run(db.log@[db.log@.len() - 1], ASSET_DELETE@, seq![SqlV::Text(r.sha@)]));
            removed = removed + 1;
            freed = if r.size > 0 && freed <= i64::MAX - r.size {
                freed + r.size
            } else if r.size < 0 && freed >= i64::MIN - r.size {
                freed + r.size
            } else {
                freed
            };
        }
        proof {
            assert forall|j: int| 0 <= j < i + 1 && !sha_used(scan, scan.registered@[j].sha@) implies
                ran(db.log@, ASSET_DELETE@, seq![SqlV::Text(#[trigger] scan.registered@[j].sha@)]) by {
                if j < i {
                    lemma_ran_grew(ls, db.log@, ASSET_DELETE@, seq![SqlV::Text(scan.registered@[j].sha@)]);
                }
            }
        }
        i = i + 1;
    }
    let ghost lg = db.log@;
    let places = assets_gc_used_places(scan);
    let mut dangling: Vec<Json> = Vec::new();
    let mut i: usize = 0;
    while i < scan.used.len()
        invariant
            grew(old(db).log@, db.log@),
            0 <= i <= scan.used.len(),
            exists.len() == scan.used.len(),
            places.len() == scan.used.len(),
            forall|j: int| 0 <= j < places.len() ==> place_view(#[trigger] places@[j]) == used_place_spec(
                scan,
                scan.used@[j].1@,
                scan.registered.len() as int,
            ),
            dangling@.map_values(|x: Json| x@) == dangling_spec(scan, exists@, i as int),
        decreases scan.used.len() - i,
    {
        if is_first_ref(scan, i) {
            let missing = places[i].is_none() || !exists[i];
            if missing {
                let es = vec![entry("question_id", Json::Str(scan.used[i].0.clone())), entry("sha", Json::Str(scan.used[i].1.clone()))];
                proof {
                    lemma_object_view(es);
                    assert(Json::Object(es)@->Object_0 =~= ref_item(scan.used@[i as int].0@, scan.used@[i as int].1@)->Object_0);
                }
                let ghost before = dangling@;
                dangling.push(Json::Object(es));
                assert(dangling@.map_values(|x: Json| x@) =~= before.map_values(|x: Json| x@).push(
                    ref_item(scan.used@[i as int].0@, scan.used@[i as int].1@),
                ));
            }
        }
        i = i + 1;
    }
    let total = if (scan.registered.len() as u64) <= 0x7fff_ffff_ffff_ffffu64 {
        scan.registered.len() as i64
    } else {
        0
    };
    proof {
        lemma_array_view(dangling);
        let want = dangling_spec(scan, exists@, scan.used.len() as int);
        assert forall|k: int| 0 <= k < want.len() implies Json::Array(dangling)@->Array_0[k] == want[k] by {
            assert(dangling@.map_values(|x: Json| x@)[k] == dangling@[k]@);
        }
        assert(Json::Array(dangling)@->Array_0 =~= want);
    }
    let es = vec![
        entry("removed", Json::from_u64(removed)),
        entry("freed_bytes", Json::from_i64(freed)),
        entry("total", Json::from_i64(total)),
        entry("scanned", Json::from_u64(scan.scanned)),
        entry("dangling", Json::Array(dangling)),
    ];
    proof {
        lemma_object_view(es);
        reveal_strlit("removed");
        reveal_strlit("freed_bytes");
        reveal_strlit("total");
        reveal_strlit("scanned");
        reveal_strlit("dangling");
        let o = Json::Object(es)@->Object_0;
        assert(o[0] == (es@[0].0@, es@[0].1@));
        assert(o[1] == (es@[1].0@, es@[1].1@));
        assert(o[2] == (es@[2].0@, es@[2].1@));
        assert(o[3] == (es@[3].0@, es@[3].1@));
        assert(o[4] == (es@[4].0@, es@[4].1@));
        assert(o[0].0[0] != o[3].0[0]);
        assert(o[0].0.len() == 7 && o[1].0.len() == 11 && o[2].0.len() == 5 && o[3].0.len() == 7 && o[4].0.len() == 8);
        reveal_with_fuel(lookup, 6);
    }
    proof {
        assert forall|j: int| 0 <= j < scan.registered.len() && !sha_used(scan, scan.registered@[j].sha@) implies
            ran(db.log@, ASSET_DELETE@, seq![SqlV::Text(#[trigger] scan.registered@[j].sha@)]) by {
            lemma_ran_grew(lg, db.log@, ASSET_DELETE@, seq![SqlV::Text(scan.registered@[j].sha@)]);
        }
    }
    Ok(Json::Object(es))
}

} // verus!

//! Application settings that sync (FSRS parameters, the wrong-book
//! threshold): stored as JSON text under a key, last writer wins.
use vstd::prelude::*;
use crate::db::{Db, grew, Call, SqlV, args_view, committed, no_writes, rolled_back, read_of, rows_read, objects_of, rows_as_objects, Col};
use crate::db::{SqlValue, db_execute, begin, finish, text};
use crate::json::{Json, JsonV, entry, json_text_valid, lemma_object_view, lemma_array_view};
use crate::text::{blank, trim, trim_spec, is_blank, cat};
use crate::clock::{now_iso, iso_of};

verus! {

/// One setting to write: its key and its value as JSON text.
pub struct SettingItem {
    pub key: String,
    pub value_json: String,
}

/// Every setting, by key.
pub const SETTINGS_ALL: &'static str = "SELECT key, value_json, updated_at FROM app_settings ORDER BY key ASC";

/// All settings as `{key, value_json, updated_at}`, by key: one query, each
/// row it returned as its object.
pub fn settings_get_impl(db: &mut Db) -> (r: Result<Vec<Json>, String>)
    ensures
        grew(old(db).log@, final(db).log@),
        final(db).log@.len() == old(db).log@.len() + 1,
        read_of(final(db).log@.last(), SETTINGS_ALL@, seq![]),
        r matches Ok(v) ==> forall|i: int| 0 <= i < v.len() ==> (#[trigger] v@[i])@.is_object(),
        r matches Ok(v) ==> Json::Array(v)@ == objects_of(seq!["key", "value_json", "updated_at"],
            seq![Col::Plain, Col::Plain, Col::Plain], rows_read(final(db).log@.last())),
{
    let names = vec!["key", "value_json", "updated_at"];
    let kinds = vec![Col::Plain, Col::Plain, Col::Plain];
    let args: Vec<SqlValue> = vec![];
    assert(names@ =~= seq!["key", "value_json", "updated_at"] && kinds@ =~= seq![Col::Plain, Col::Plain, Col::Plain]);
    assert(args_view(args@) =~= Seq::<SqlV>::empty());
    let out = rows_as_objects(db, SETTINGS_ALL, &args, &names, &kinds)?;
    proof {
        assert forall|i: int| 0 <= i < out.len() implies (#[trigger] out@[i])@.is_object() by {
            assert(crate::db::keyed_as(out@[i]@, names@));
        }
    }
    Ok(out)
}

/// The keys of the items, trimmed.
pub open spec fn trimmed_keys(items: Seq<SettingItem>) -> Seq<JsonV> {
    Seq::new(items.len(), |i: int| JsonV::Str(trim_spec(items[i].key@)))
}

/// The answer's `updated_at` is the ISO text of an instant: the time the
/// settings were written at.
pub open spec fn stamped_now(v: JsonV) -> bool {
    exists|t: Seq<char>| v.field("updated_at"@) == Some(JsonV::Str(t)) && exists|a: int, b: int| #[trigger] iso_of(a, b) == Some(t)
}

/// Writes the settings in one transaction, each under its trimmed key and
/// the current time. No items, a blank key or a value that is not JSON is an
/// error and nothing is written.
pub fn settings_set_impl(db: &mut Db, items: &Vec<SettingItem>) -> (r: Result<Json, String>)
    ensures
        grew(old(db).log@, final(db).log@),
        items.len() == 0 ==> r is Err,
        r is Ok ==> forall|i: int| 0 <= i < items.len() ==> !blank((#[trigger] items@[i]).key@) && json_text_valid(items@[i].value_json@),
        r matches Ok(v) ==> v@.field("updated"@) == Some(JsonV::Array(trimmed_keys(items@))),
        r matches Ok(v) ==> stamped_now(v@),
        r is Ok ==> committed(final(db).log@),
        r is Ok ==> forall|i: int| 0 <= i < items.len() ==> setting_ran(final(db).log@, #[trigger] items@[i]),
        r is Err ==> no_writes(old(db).log@, final(db).log@) || rolled_back(final(db).log@),
{
    if items.len() == 0 {
        return Err("items 不能为空".to_string());
    }
    begin(db)?;
    let body = settings_write(db, items);
    let ghost lb = db.log@;
    let r = finish(db, body);
    proof {
        if r is Ok {
            let l = db.log@;
            assert forall|i: int| 0 <= i < items.len() implies setting_ran(l, #[trigger] items@[i]) by {
                let k = choose|k: int| 0 <= k < lb.len() && setting_call(#[trigger] lb[k], items@[i]);
                assert(l[k] == lb[k]);
            }
        }
    }
    r
}

/// Writes a setting under its key.
pub const SETTING_UPSERT: &'static str = "INSERT INTO app_settings (key, value_json, updated_at) VALUES (?1, ?2, ?3)
             ON CONFLICT(key) DO UPDATE SET value_json = excluded.value_json, updated_at = excluded.updated_at";

/// The call wrote the item's value under its trimmed key.
pub open spec fn setting_call(c: Call, it: SettingItem) -> bool {
    c matches Call::Run { sql: s, args: a, .. } && s == SETTING_UPSERT@ && a.len() == 3
        && a[0] == SqlV::Text(trim_spec(it.key@)) && a[1] == SqlV::Text(it.value_json@)
}

/// The journal wrote the item's value under its trimmed key.
pub open spec fn setting_ran(log: Seq<Call>, it: SettingItem) -> bool {
    exists|k: int| 0 <= k < log.len() && setting_call(#[trigger] log[k], it)
}

fn settings_write(db: &mut Db, items: &Vec<SettingItem>) -> (r: Result<Json, String>)
    ensures
        grew(old(db).log@, final(db).log@),
        r is Ok ==> forall|i: int| 0 <= i < items.len() ==> !blank((#[trigger] items@[i]).key@) && json_text_valid(items@[i].value_json@),
        r matches Ok(v) ==> v@.field("updated"@) == Some(JsonV::Array(trimmed_keys(items@))),
        r matches Ok(v) ==> stamped_now(v@),
        r is Ok ==> forall|i: int| 0 <= i < items.len() ==> setting_ran(final(db).log@, #[trigger] items@[i]),
{
    let now = now_iso()?;
    let mut updated: Vec<Json> = Vec::new();
    let mut i: usize = 0;
    while i < items.len()
        invariant
            grew(old(db).log@, db.log@),
            0 <= i <= items.len(),
            updated.len() == i,
            forall|j: int| 0 <= j < i ==> !blank((#[trigger] items@[j]).key@) && json_text_valid(items@[j].value_json@),
            forall|j: int| 0 <= j < i ==> (#[trigger] updated@[j])@ == JsonV::Str(trim_spec(items@[j].key@)),
            forall|j: int| 0 <= j < i ==> setting_ran(db.log@, #[trigger] items@[j]),
        decreases items.len() - i,
    {
        let it = &items[i];
        let key = trim(it.key.as_str());
        if is_blank(it.key.as_str()) {
            return Err("setting key 不能为空".to_string());
        }
        if Json::parse(it.value_json.as_str()).is_none() {
            return Err(cat("invalid setting json for key: ", key.as_str()));
        }
        let args = vec![SqlValue::Text(key.clone()), SqlValue::Text(it.value_json.clone()), SqlValue::Text(now.clone())];
        assert(args_view(args@).len() == 3 && args_view(args@)[0] == SqlV::Text(key@) && args_view(args@)[1] == SqlV::Text(it.value_json@));
        let ghost l0 = db.log@;
        db_execute(db, SETTING_UPSERT, &args)?;
        proof {
            let l = db.log@;
            assert(setting_call(l[l.len() - 1], items@[i as int]));
            assert forall|j: int| 0 <= j < i + 1 implies setting_ran(l, #[trigger] items@[j]) by {
                if j < i {
                    let k = choose|k: int| 0 <= k < l0.len() && setting_call(#[trigger] l0[k], items@[j]);
                    assert(l[k] == l0[k]);
                }
            }
        }
        updated.push(Json::Str(key));
        i = i + 1;
    }
    let arr = Json::Array(updated);
    proof {
        lemma_array_view(updated);
        assert(arr@->Array_0 =~= trimmed_keys(items@));
    }
    let es = vec![entry("updated", arr), entry("updated_at", Json::Str(now))];
    proof {
        lemma_object_view(es);
    }
    let o = Json::Object(es);
    assert(o@->Object_0[0] == ("updated"@, arr@));
    proof {
        reveal_strlit("updated");
        reveal_strlit("updated_at");
        assert(o@->Object_0[1] == ("updated_at"@, JsonV::Str(now@)));
        assert("updated"@.len() != "updated_at"@.len());
        reveal_with_fuel(crate::json::lookup, 3);
        assert(o@.field("updated_at"@) == Some(JsonV::Str(now@)));
    }
    Ok(o)
}

} // verus!

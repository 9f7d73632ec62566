//! JSON documents as the library holds them.
use vstd::prelude::*;

verus! {

/// A JSON value. Numbers keep the text that `serde_json` prints for them.
#[derive(Debug)]
pub enum Json {
    Null,
    Bool(bool),
    Num(String),
    Str(String),
    Array(Vec<Json>),
    Object(Vec<(String, Json)>),
}

/// The mathematical content of a [`Json`] value.
pub enum JsonV {
    Null,
    Bool(bool),
    Num(Seq<char>),
    Str(Seq<char>),
    Array(Seq<JsonV>),
    Object(Seq<(Seq<char>, JsonV)>),
}

impl View for Json {
    type V = JsonV;

    open spec fn view(&self) -> JsonV
        decreases self,
    {
        match self {
            Json::Null => JsonV::Null,
            Json::Bool(b) => JsonV::Bool(*b),
            Json::Num(t) => JsonV::Num(t@),
            Json::Str(s) => JsonV::Str(s@),
            Json::Array(v) => JsonV::Array(
                Seq::new(
                    v@.len(),
                    |i: int|
                        if 0 <= i < v@.len() {
                            proof {
                                vstd::std_specs::vec::axiom_vec_index_decreases(*v, i);
                            }
                            v@[i].view()
                        } else {
                            JsonV::Null
                        },
                ),
            ),
            Json::Object(es) => JsonV::Object(
                Seq::new(
                    es@.len(),
                    |i: int|
                        if 0 <= i < es@.len() {
                            proof {
                                vstd::std_specs::vec::axiom_vec_index_decreases(*es, i);
                            }
                            (es@[i].0@, es@[i].1.view())
                        } else {
                            (Seq::empty(), JsonV::Null)
                        },
                ),
            ),
        }
    }
}

} // verus!

verus! {

/// The first entry with `key` at or after position `i`.
pub open spec fn lookup(es: Seq<(Seq<char>, JsonV)>, key: Seq<char>, i: int) -> Option<JsonV>
    decreases es.len() - i,
{
    if i < 0 || i >= es.len() {
        None
    } else if es[i].0 == key {
        Some(es[i].1)
    } else {
        lookup(es, key, i + 1)
    }
}

/// The decimal numeral of an integer, with a leading `-` when negative.
pub open spec fn int_numeral(n: int) -> Seq<char> {
    if n < 0 {
        seq!['-'] + crate::text::decimal((-n) as nat)
    } else {
        crate::text::decimal(n as nat)
    }
}

/// Non-empty and made of ASCII digits only.
pub open spec fn all_digits(t: Seq<char>) -> bool {
    t.len() > 0 && forall|k: int| 0 <= k < t.len() ==> '0' <= #[trigger] t[k] <= '9'
}

/// The value of a string of decimal digits.
pub open spec fn digits_val(t: Seq<char>) -> nat
    decreases t.len(),
{
    if t.len() == 0 {
        0
    } else {
        digits_val(t.drop_last()) * 10 + ((t.last() as int) - ('0' as int)) as nat
    }
}

/// The integer that a number's text denotes, when it is an integer numeral.
pub open spec fn int_text(t: Seq<char>) -> Option<int> {
    if all_digits(t) {
        Some(digits_val(t) as int)
    } else if t.len() > 1 && t[0] == '-' && all_digits(t.drop_first()) {
        Some(-(digits_val(t.drop_first()) as int))
    } else {
        None
    }
}

impl JsonV {
    /// `value.get(key)`: the member named `key` of an object.
    pub open spec fn field(self, key: Seq<char>) -> Option<JsonV> {
        match self {
            JsonV::Object(es) => lookup(es, key, 0),
            _ => None,
        }
    }

    /// `value.as_str()`.
    pub open spec fn text(self) -> Option<Seq<char>> {
        match self {
            JsonV::Str(s) => Some(s),
            _ => None,
        }
    }

    /// `value.get(key).and_then(Value::as_str)`.
    pub open spec fn field_text(self, key: Seq<char>) -> Option<Seq<char>> {
        match self.field(key) {
            Some(v) => v.text(),
            None => None,
        }
    }

    /// `value.as_array()`.
    pub open spec fn items(self) -> Option<Seq<JsonV>> {
        match self {
            JsonV::Array(a) => Some(a),
            _ => None,
        }
    }

    /// `value.as_i64()`: an integer numeral within the range of `i64`.
    pub open spec fn int_val(self) -> Option<int> {
        match self {
            JsonV::Num(t) => match int_text(t) {
                Some(x) => if i64::MIN <= x <= i64::MAX {
                    Some(x)
                } else {
                    None
                },
                None => None,
            },
            _ => None,
        }
    }

    pub open spec fn is_object(self) -> bool {
        self is Object
    }
}

proof fn lemma_digits_step(t: Seq<char>, s: int, i: int)
    requires
        0 <= s <= i < t.len(),
    ensures
        digits_val(t.subrange(s, i + 1)) == digits_val(t.subrange(s, i)) * 10 + ((t[i] as int) - (
        '0' as int)) as nat,
{
    assert(t.subrange(s, i + 1).drop_last() =~= t.subrange(s, i));
}

proof fn lemma_digits_mono(t: Seq<char>, s: int, i: int, j: int)
    requires
        0 <= s <= i <= j <= t.len(),
        forall|k: int| s <= k < t.len() ==> '0' <= #[trigger] t[k] <= '9',
    ensures
        digits_val(t.subrange(s, i)) <= digits_val(t.subrange(s, j)),
    decreases j - i,
{
    if i < j {
        lemma_digits_mono(t, s, i, j - 1);
        lemma_digits_step(t, s, j - 1);
    }
}

/// The view of an object lists the views of its entries, in order.
pub proof fn lemma_object_view(es: Vec<(String, Json)>)
    ensures
        Json::Object(es)@ is Object,
        Json::Object(es)@->Object_0.len() == es@.len(),
        forall|i: int|
            0 <= i < es@.len() ==> #[trigger] Json::Object(es)@->Object_0[i] == (
            es@[i].0@,
            es@[i].1@,
        ),
{
    reveal_with_fuel(<Json as View>::view, 2);
}

/// The members of a two-member object with distinct names.
pub proof fn lemma_two_fields(es: Vec<(String, Json)>)
    requires
        es@.len() == 2,
        es@[0].0@ != es@[1].0@,
    ensures
        Json::Object(es)@.field(es@[0].0@) == Some(es@[0].1@),
        Json::Object(es)@.field(es@[1].0@) == Some(es@[1].1@),
{
    lemma_object_view(es);
    reveal_with_fuel(lookup, 3);
}

/// The view of an array lists the views of its items, in order.
pub proof fn lemma_array_view(v: Vec<Json>)
    ensures
        Json::Array(v)@ is Array,
        Json::Array(v)@->Array_0.len() == v@.len(),
        forall|i: int| 0 <= i < v@.len() ==> #[trigger] Json::Array(v)@->Array_0[i] == v@[i]@,
{
    reveal_with_fuel(<Json as View>::view, 2);
}

impl Json {
    /// `value.get(key)`.
    pub fn get(&self, key: &str) -> (r: Option<&Json>)
        ensures
            match r {
                Some(x) => self@.field(key@) == Some(x@),
                None => self@.field(key@) is None,
            },
    {
        match self {
            Json::Object(es) => {
                proof {
                    lemma_object_view(*es);
                }
                let mut i: usize = 0;
                while i < es.len()
                    invariant
                        0 <= i <= es.len(),
                        self@ == Json::Object(*es)@,
                        self@.field(key@) == lookup(self@->Object_0, key@, i as int),
                        self@->Object_0.len() == es@.len(),
                        forall|j: int|
                            0 <= j < es@.len() ==> #[trigger] self@->Object_0[j] == (
                            es@[j].0@,
                            es@[j].1@,
                        ),
                    decreases es.len() - i,
                {
                    if crate::text::str_eq(es[i].0.as_str(), key) {
                        return Some(&es[i].1);
                    }
                    i = i + 1;
                }
                None
            },
            _ => None,
        }
    }

    /// `value.as_str()`.
    pub fn as_str(&self) -> (r: Option<&str>)
        ensures
            match r {
                Some(s) => self@.text() == Some(s@),
                None => self@.text() is None,
            },
    {
        match self {
            Json::Str(s) => Some(s.as_str()),
            _ => None,
        }
    }

    /// `value.get(key).and_then(Value::as_str)`, copied.
    pub fn get_str(&self, key: &str) -> (r: Option<String>)
        ensures
            match r {
                Some(s) => self@.field_text(key@) == Some(s@),
                None => self@.field_text(key@) is None,
            },
    {
        match self.get(key) {
            Some(v) => match v.as_str() {
                Some(s) => Some(crate::text::to_string(s)),
                None => None,
            },
            None => None,
        }
    }

    /// `value.as_array()`.
    pub fn as_array(&self) -> (r: Option<&Vec<Json>>)
        ensures
            match r {
                Some(v) => self@.items() == Some(v@.map_values(|x: Json| x@)),
                None => self@.items() is None,
            },
    {
        match self {
            Json::Array(v) => {
                assert(self@.items().unwrap() =~= v@.map_values(|x: Json| x@));
                Some(v)
            },
            _ => None,
        }
    }

    pub fn is_object(&self) -> (r: bool)
        ensures
            r == self@.is_object(),
    {
        match self {
            Json::Object(_) => true,
            _ => false,
        }
    }

    pub fn is_null(&self) -> (r: bool)
        ensures
            r == (self@ is Null),
    {
        match self {
            Json::Null => true,
            _ => false,
        }
    }

    /// `value.as_i64()`.
    pub fn as_i64(&self) -> (r: Option<i64>)
        ensures
            match r {
                Some(x) => self@.int_val() == Some(x as int),
                None => self@.int_val() is None,
            },
    {
        let t = match self {
            Json::Num(t) => t,
            _ => {
                return None;
            },
        };
        let v = crate::text::chars_of(t.as_str());
        let n = v.len();
        let neg = n > 1 && v[0] == '-';
        let start: usize = if neg {
            1
        } else {
            0
        };
        if start >= n {
            return None;
        }
        let ghost tv = t@;
        assert(self@ == JsonV::Num(tv));
        proof {
            if start == 1 {
                assert(tv.drop_first() =~= tv.subrange(1, n as int));
                assert(!all_digits(tv)) by {
                    assert(!('0' <= tv[0] <= '9'));
                }
            } else {
                assert(tv =~= tv.subrange(0, n as int));
            }
        }
        let mut acc: u64 = 0;
        let mut i = start;
        while i < n
            invariant
                v@ == tv,
                self@ == JsonV::Num(tv),
                start <= 1,
                neg == (start == 1),
                n == v.len(),
                start <= i <= n,
                start < n,
                start == 1 ==> tv.drop_first() == tv.subrange(1, n as int) && !all_digits(tv)
                    && tv.len() > 1 && tv[0] == '-',
                start == 0 ==> tv == tv.subrange(0, n as int) && !(tv.len() > 1 && tv[0] == '-'),
                forall|k: int| start <= k < i ==> '0' <= #[trigger] tv[k] <= '9',
                acc == digits_val(tv.subrange(start as int, i as int)),
                acc <= 0x8000_0000_0000_0000u64,
            decreases n - i,
        {
            let c = v[i];
            if c < '0' || c > '9' {
                proof {
                    let sub = tv.subrange(start as int, n as int);
                    assert(sub[i - start] == c);
                    assert(!all_digits(sub));
                    if start == 0 {
                        assert(!all_digits(tv));
                    } else {
                        assert(tv.drop_first() =~= sub);
                    }
                    assert(int_text(tv) is None);
                }
                return None;
            }
            let d = (c as u32 - '0' as u32) as u64;
            proof {
                lemma_digits_step(tv, start as int, i as int);
            }
            if acc > 0x0CCC_CCCC_CCCC_CCCCu64 {
                proof {
                    let sub = tv.subrange(start as int, n as int);
                    if start == 1 {
                        assert(tv.drop_first() =~= sub);
                    }
                    if all_digits(sub) {
                        assert forall|k: int| start <= k < n implies '0' <= #[trigger] tv[k] <= '9' by {
                            assert(sub[k - start] == tv[k]);
                        }
                        lemma_digits_mono(tv, start as int, i as int + 1, n as int);
                    }
                }
                return None;
            }
            acc = acc * 10 + d;
            if acc > 0x8000_0000_0000_0000u64 {
                proof {
                    let sub = tv.subrange(start as int, n as int);
                    if start == 1 {
                        assert(tv.drop_first() =~= sub);
                    }
                    if all_digits(sub) {
                        assert forall|k: int| start <= k < n implies '0' <= #[trigger] tv[k] <= '9' by {
                            assert(sub[k - start] == tv[k]);
                        }
                        lemma_digits_mono(tv, start as int, i as int + 1, n as int);
                    }
                }
                return None;
            }
            i = i + 1;
        }
        proof {
            let sub = tv.subrange(start as int, n as int);
            assert(all_digits(sub)) by {
                assert forall|k: int| 0 <= k < sub.len() implies '0' <= #[trigger] sub[k] <= '9' by {
                    assert(sub[k] == tv[k + start]);
                }
            }
        }
        if neg {
            if acc == 0x8000_0000_0000_0000u64 {
                Some(i64::MIN)
            } else {
                Some(-(acc as i64))
            }
        } else if acc > 0x7FFF_FFFF_FFFF_FFFFu64 {
            None
        } else {
            Some(acc as i64)
        }
    }
}


/// Appending an entry leaves earlier hits in place and adds a hit for its key.
proof fn lemma_lookup_push(es: Seq<(Seq<char>, JsonV)>, e: (Seq<char>, JsonV), key: Seq<char>, i: int)
    requires
        0 <= i <= es.len(),
    ensures
        lookup(es.push(e), key, i) == (match lookup(es, key, i) {
            Some(v) => Some(v),
            None => if e.0 == key {
                Some(e.1)
            } else {
                None
            },
        }),
    decreases es.len() - i,
{
    assert(es.push(e)[es.len() as int] == e);
    if i < es.len() {
        assert(es.push(e)[i] == es[i]);
        lemma_lookup_push(es, e, key, i + 1);
    }
}

/// Entries that differ only at a position whose keys are not `key` give the
/// same lookups for `key`.
proof fn lemma_lookup_same_except(
    a: Seq<(Seq<char>, JsonV)>,
    b: Seq<(Seq<char>, JsonV)>,
    p: int,
    key: Seq<char>,
    i: int,
)
    requires
        a.len() == b.len(),
        0 <= p < a.len(),
        0 <= i,
        forall|j: int| 0 <= j < a.len() && j != p ==> a[j] == b[j],
        a[p].0 != key,
        b[p].0 != key,
    ensures
        lookup(a, key, i) == lookup(b, key, i),
    decreases a.len() - i,
{
    if i < a.len() {
        lemma_lookup_same_except(a, b, p, key, i + 1);
    }
}

/// A lookup from `i` finds the key exactly where some entry from `i` on has it.
pub proof fn lemma_lookup_some(es: Seq<(Seq<char>, JsonV)>, key: Seq<char>, i: int)
    requires
        0 <= i,
    ensures
        lookup(es, key, i) is Some <==> exists|j: int| i <= j < es.len() && (#[trigger] es[j]).0 == key,
    decreases es.len() - i,
{
    if i < es.len() {
        lemma_lookup_some(es, key, i + 1);
        if es[i].0 != key {
            if exists|j: int| i <= j < es.len() && (#[trigger] es[j]).0 == key {
                let j = choose|j: int| i <= j < es.len() && (#[trigger] es[j]).0 == key;
                assert(j != i);
                assert(i + 1 <= j);
            }
        }
    }
}

/// Skipping a stretch of entries whose keys all differ from `key`.
proof fn lemma_lookup_skip_to(es: Seq<(Seq<char>, JsonV)>, key: Seq<char>, i: int, j: int)
    requires
        0 <= i <= j <= es.len(),
        forall|k: int| i <= k < j ==> es[k].0 != key,
    ensures
        lookup(es, key, i) == lookup(es, key, j),
    decreases j - i,
{
    if i < j {
        lemma_lookup_skip_to(es, key, i + 1, j);
    }
}

impl Json {
    /// A text value, or `null` for none.
    pub fn from_opt_str(o: &Option<String>) -> (r: Json)
        ensures
            match o {
                Some(t) => r@ == JsonV::Str(t@),
                None => r@ == JsonV::Null,
            },
    {
        match o {
            Some(t) => Json::Str(t.clone()),
            None => Json::Null,
        }
    }
}

/// An object member.
pub fn entry(key: &str, v: Json) -> (r: (String, Json))
    ensures
        r.0@ == key@,
        r.1 == v,
{
    (key.to_string(), v)
}

/// The `{success: true, data}` envelope of a command's result.
pub fn ok(data: Json) -> (r: Result<Json, String>)
    ensures
        r matches Ok(v) && v@.field("success"@) == Some(JsonV::Bool(true)) && v@.field("data"@) == Some(data@),
{
    let ghost d = data@;
    let es = vec![entry("success", Json::Bool(true)), entry("data", data)];
    proof {
        lemma_object_view(es);
    }
    let o = Json::Object(es);
    assert(o@->Object_0[0].0 == "success"@);
    assert(o@->Object_0[1].0 == "data"@);
    assert(o@->Object_0[1].1 == d);
    proof {
        reveal_strlit("success");
        reveal_strlit("data");
    }
    assert("success"@ != "data"@);
    assert(o@.field("data"@) == Some(d)) by {
        reveal_with_fuel(lookup, 3);
    }
    Ok(o)
}

impl Json {
    /// An empty object.
    pub fn new_object() -> (r: Json)
        ensures
            r@ == JsonV::Object(Seq::empty()),
    {
        let es: Vec<(String, Json)> = Vec::new();
        proof {
            lemma_object_view(es);
        }
        let r = Json::Object(es);
        assert(r@->Object_0 =~= Seq::empty());
        r
    }

    /// A string value.
    pub fn from_str(s: &str) -> (r: Json)
        ensures
            r@ == JsonV::Str(s@),
    {
        Json::Str(crate::text::to_string(s))
    }

    /// A non-negative integer value.
    pub fn from_u64(n: u64) -> (r: Json)
        ensures
            r@ == JsonV::Num(crate::text::decimal(n as nat)),
    {
        Json::Num(crate::text::decimal_string(n))
    }

    /// An integer value, as `serde_json` prints it.
    pub fn from_i64(n: i64) -> (r: Json)
        ensures
            r@ == JsonV::Num(int_numeral(n as int)),
    {
        if n < 0 {
            let m: u64 = if n == i64::MIN {
                0x8000_0000_0000_0000u64
            } else {
                (-n) as u64
            };
            let d = crate::text::decimal_string(m);
            proof {
                reveal_strlit("-");
            }
            assert("-"@ =~= seq!['-']);
            Json::Num(crate::text::cat("-", d.as_str()))
        } else {
            Json::Num(crate::text::decimal_string(n as u64))
        }
    }

    /// `value[key] = v` on an object: the member `key` now holds `v`, all
    /// others are unchanged.
    pub fn set(&mut self, key: &str, v: Json)
        requires
            old(self)@.is_object(),
        ensures
            final(self)@.is_object(),
            final(self)@.field(key@) == Some(v@),
            forall|k: Seq<char>| k != key@ ==> final(self)@.field(k) == old(self)@.field(k),
    {
        let mut tmp = Json::Null;
        std::mem::swap(&mut tmp, self);
        match tmp {
            Json::Object(mut es) => {
                proof {
                    lemma_object_view(es);
                }
                let ghost old_es = Json::Object(es)@->Object_0;
                let ghost vv = v@;
                let mut i: usize = 0;
                let mut found = false;
                while i < es.len() && !found
                    invariant
                        0 <= i <= es.len(),
                        old_es.len() == es@.len(),
                        forall|j: int|
                            0 <= j < es@.len() ==> #[trigger] old_es[j] == (es@[j].0@, es@[j].1@),
                        forall|j: int| 0 <= j < i ==> old_es[j].0 != key@,
                        found ==> i < es.len() && old_es[i as int].0 == key@,
                    decreases es.len() - i + (if found {
                        0int
                    } else {
                        1int
                    }),
                {
                    if crate::text::str_eq(es[i].0.as_str(), key) {
                        found = true;
                    } else {
                        i = i + 1;
                    }
                }
                let n = es.len();
                proof {
                    lemma_lookup_skip_to(old_es, key@, 0, i as int);
                }
                if found {
                    es.set(i, (crate::text::to_string(key), v));
                    proof {
                        lemma_object_view(es);
                        let new_es = Json::Object(es)@->Object_0;
                        assert(new_es =~= old_es.update(i as int, (key@, vv)));
                        assert forall|k: Seq<char>| k != key@ implies lookup(new_es, k, 0) == lookup(
                            old_es,
                            k,
                            0,
                        ) by {
                            lemma_lookup_same_except(new_es, old_es, i as int, k, 0);
                        }
                        lemma_lookup_skip_to(new_es, key@, 0, i as int);
                    }
                } else {
                    es.push((crate::text::to_string(key), v));
                    proof {
                        lemma_object_view(es);
                        let new_es = Json::Object(es)@->Object_0;
                        assert(new_es =~= old_es.push((key@, vv)));
                        assert forall|k: Seq<char>| k != key@ implies lookup(new_es, k, 0) == lookup(
                            old_es,
                            k,
                            0,
                        ) by {
                            lemma_lookup_push(old_es, (key@, vv), k, 0);
                        }
                        lemma_lookup_push(old_es, (key@, vv), key@, 0);
                    }
                }
                *self = Json::Object(es);
            },
            other => {
                *self = other;
            },
        }
    }
}

impl Json {
    /// A deep copy.
    pub fn clone_json(&self) -> (r: Json)
        ensures
            r@ == self@,
        decreases self,
    {
        match self {
            Json::Null => Json::Null,
            Json::Bool(b) => Json::Bool(*b),
            Json::Num(t) => Json::Num(t.clone()),
            Json::Str(t) => Json::Str(t.clone()),
            Json::Array(v) => {
                let mut out: Vec<Json> = Vec::new();
                let mut i: usize = 0;
                while i < v.len()
                    invariant
                        *self == Json::Array(*v),
                        0 <= i <= v.len(),
                        out.len() == i,
                        forall|j: int| 0 <= j < i ==> (#[trigger] out@[j])@ == v@[j]@,
                    decreases v.len() - i,
                {
                    proof {
                        vstd::std_specs::vec::axiom_vec_index_decreases(*v, i as int);
                        assert(decreases_to!(*self => (*self)->Array_0));
                        assert(decreases_to!(*self => v[i as int]));
                    }
                    let c = v[i].clone_json();
                    out.push(c);
                    i = i + 1;
                }
                proof {
                    lemma_array_view(*v);
                    lemma_array_view(out);
                    assert(Json::Array(out)@->Array_0 =~= self@->Array_0);
                }
                Json::Array(out)
            },
            Json::Object(es) => {
                let mut out: Vec<(String, Json)> = Vec::new();
                let mut i: usize = 0;
                while i < es.len()
                    invariant
                        *self == Json::Object(*es),
                        0 <= i <= es.len(),
                        out.len() == i,
                        forall|j: int|
                            0 <= j < i ==> (#[trigger] out@[j]).0@ == es@[j].0@ && out@[j].1@
                                == es@[j].1@,
                    decreases es.len() - i,
                {
                    proof {
                        vstd::std_specs::vec::axiom_vec_index_decreases(*es, i as int);
                        assert(decreases_to!(*self => (*self)->Object_0));
                        assert(decreases_to!(*self => es[i as int]));
                        assert(decreases_to!(*self => es[i as int].1));
                    }
                    let c = es[i].1.clone_json();
                    out.push((es[i].0.clone(), c));
                    i = i + 1;
                }
                proof {
                    lemma_object_view(*es);
                    lemma_object_view(out);
                    assert(Json::Object(out)@->Object_0 =~= self@->Object_0);
                }
                Json::Object(out)
            },
        }
    }
}

#[verifier::external_type_specification]
#[verifier::external_body]
pub struct ExSerdeValue(serde_json::Value);

/// What `serde_json::from_str::<serde_json::Value>` makes of a text, node for
/// node (`None` when it refuses the text).
pub uninterp spec fn json_parsed(text: Seq<char>) -> Option<JsonV>;

/// Whether `serde_json::from_str::<serde_json::Value>` accepts the text.
pub open spec fn json_text_valid(text: Seq<char>) -> bool {
    json_parsed(text) is Some
}

/// One `serde_json::Value` node for one `Json` node; numbers keep their printed text.
#[verifier::external_body]
fn from_serde(v: serde_json::Value) -> Json {
    match v {
        serde_json::Value::Null => Json::Null,
        serde_json::Value::Bool(b) => Json::Bool(b),
        serde_json::Value::Number(n) => Json::Num(n.to_string()),
        serde_json::Value::String(s) => Json::Str(s),
        serde_json::Value::Array(a) => Json::Array(a.into_iter().map(from_serde).collect()),
        serde_json::Value::Object(m) => Json::Object(m.into_iter().map(|(k, x)| (k, from_serde(x))).collect()),
    }
}

/// One `Json` node for one `serde_json::Value` node; a number is read back from its text.
#[verifier::external_body]
fn to_serde(j: &Json) -> serde_json::Value {
    match j {
        Json::Null => serde_json::Value::Null,
        Json::Bool(b) => serde_json::Value::Bool(*b),
        Json::Num(t) => t.parse().map(serde_json::Value::Number).unwrap_or(serde_json::Value::Null),
        Json::Str(s) => serde_json::Value::String(s.clone()),
        Json::Array(a) => serde_json::Value::Array(a.iter().map(to_serde).collect()),
        Json::Object(es) => serde_json::Value::Object(es.iter().map(|(k, x)| (k.clone(), to_serde(x))).collect()),
    }
}

/// What `serde_json::to_string` prints for a value: compact JSON text.
pub uninterp spec fn json_text_of(v: JsonV) -> Seq<char>;

/// `serde_json::to_string` of the value.
#[verifier::external_body]
fn serde_print(j: &Json) -> (r: String)
    ensures
        r@ == json_text_of(j@),
{
    serde_json::to_string(&to_serde(j)).unwrap_or_default()
}

/// `serde_json::from_str::<serde_json::Value>`, the value converted node for
/// node; the error's text when the text is refused.
#[verifier::external_body]
fn serde_parse(text: &str) -> (r: Result<Json, String>)
    ensures
        match r {
            Ok(j) => json_parsed(text@) == Some(j@),
            Err(_) => json_parsed(text@) is None,
        },
{
    serde_json::from_str::<serde_json::Value>(text).map(from_serde).map_err(|e| e.to_string())
}

impl Json {
    /// Parses JSON text; the parser's message when the text is not JSON.
    pub fn parse_text(text: &str) -> (r: Result<Json, String>)
        ensures
            match r {
                Ok(j) => json_parsed(text@) == Some(j@),
                Err(_) => json_parsed(text@) is None,
            },
    {
        serde_parse(text)
    }

    /// Parses JSON text; `None` when the text is not JSON.
    pub fn parse(text: &str) -> (r: Option<Json>)
        ensures
            match r {
                Some(j) => json_parsed(text@) == Some(j@),
                None => json_parsed(text@) is None,
            },
    {
        match serde_parse(text) {
            Ok(v) => Some(v),
            Err(_) => None,
        }
    }

    /// Compact JSON text of the value.
    pub fn to_text(&self) -> (r: String)
        ensures
            r@ == json_text_of(self@),
    {
        serde_print(self)
    }
}
} // verus!

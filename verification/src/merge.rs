//! The sync merge, decided on plain values before anything is written:
//! last-writer-wins between rows, tombstones against edits, the horizon
//! guard against zombies, the zero-bank guard, and the rebanking of
//! questions whose bank is deleted.
use vstd::prelude::*;
use crate::text::{lex_lt, str_lt, lemma_lex_asym};

verus! {

/// Which side of a sync is applying a bundle.
#[derive(Clone, Copy, Debug)]
pub enum SyncRole {
    /// The hub: an incoming row wins only when strictly newer (ties keep what is there).
    Center,
    /// A leaf taking the hub's snapshot: ties go to the incoming row.
    Leaf,
}

/// Whether an incoming row with business time `incoming` replaces the local
/// one (`None`: there is none).
pub open spec fn lww_take_spec(incoming: Seq<char>, local: Option<Seq<char>>, role: SyncRole) -> bool {
    match local {
        None => true,
        Some(cur) => match role {
            SyncRole::Center => lex_lt(cur, incoming),
            SyncRole::Leaf => !lex_lt(incoming, cur),
        },
    }
}

/// Last-writer-wins: an absent local row always loses; otherwise the hub
/// takes strictly newer rows and a leaf takes rows at least as new.
pub fn lww_take(incoming: &str, local: Option<&str>, role: SyncRole) -> (r: bool)
    ensures
        r == lww_take_spec(
            incoming@,
            match local {
                Some(s) => Some(s@),
                None => None,
            },
            role,
        ),
{
    match local {
        None => true,
        Some(cur) => match role {
            SyncRole::Center => str_lt(cur, incoming),
            SyncRole::Leaf => !str_lt(incoming, cur),
        },
    }
}

/// Whatever the hub takes, a leaf takes too; and between two rows at most one
/// side is strictly newer, so the hub never takes an older row.
pub proof fn law_lww_center_implies_leaf(incoming: Seq<char>, local: Option<Seq<char>>)
    ensures
        lww_take_spec(incoming, local, SyncRole::Center) ==> lww_take_spec(incoming, local, SyncRole::Leaf),
        local matches Some(cur) ==> (lww_take_spec(incoming, local, SyncRole::Center) ==> !lex_lt(incoming, cur)),
{
    if let Some(cur) = local {
        lemma_lex_asym(cur, incoming);
    }
}

// ---------------------------------------------------------------------------
// keyed lists
// ---------------------------------------------------------------------------

/// The map a list of keyed entries denotes: a later entry for a key wins.
pub open spec fn vmap<V>(es: Seq<(String, V)>) -> Map<Seq<char>, V>
    decreases es.len(),
{
    if es.len() == 0 {
        Map::empty()
    } else {
        vmap(es.drop_last()).insert(es.last().0@, es.last().1)
    }
}

/// A key is mapped exactly when some entry has it.
pub proof fn lemma_vmap_dom<V>(es: Seq<(String, V)>, k: Seq<char>)
    ensures
        vmap(es).contains_key(k) <==> exists|i: int| 0 <= i < es.len() && es[i].0@ == k,
    decreases es.len(),
{
    if es.len() > 0 {
        lemma_vmap_dom(es.drop_last(), k);
        if vmap(es.drop_last()).contains_key(k) {
            let i = choose|i: int| 0 <= i < es.drop_last().len() && es.drop_last()[i].0@ == k;
            assert(es[i] == es.drop_last()[i]);
        }
        if exists|i: int| 0 <= i < es.len() && es[i].0@ == k {
            let i = choose|i: int| 0 <= i < es.len() && es[i].0@ == k;
            if i < es.len() - 1 {
                assert(es.drop_last()[i] == es[i]);
            }
        }
    }
}

/// The value of a key: the last entry with that key.
pub fn vget<'a, V>(es: &'a Vec<(String, V)>, k: &String) -> (r: Option<&'a V>)
    ensures
        match r {
            Some(v) => vmap(es@).contains_key(k@) && vmap(es@)[k@] == *v,
            None => !vmap(es@).contains_key(k@),
        },
{
    let mut i = es.len();
    assert(es@.take(es.len() as int) =~= es@);
    while i > 0
        invariant
            i <= es.len(),
            vmap(es@).contains_key(k@) == vmap(es@.take(i as int)).contains_key(k@),
            vmap(es@).contains_key(k@) ==> vmap(es@)[k@] == vmap(es@.take(i as int))[k@],
        decreases i,
    {
        let ghost t = es@.take(i as int);
        assert(t.drop_last() =~= es@.take(i - 1));
        if es[i - 1].0 == *k {
            return Some(&es[i - 1].1);
        }
        i = i - 1;
    }
    assert(es@.take(0) =~= Seq::<(String, V)>::empty());
    None
}

/// A tombstone as the merge sees it.
pub struct Tomb {
    pub bank_id: Option<String>,
    pub deleted_at: String,
    pub actor: Option<String>,
    pub synced_at: String,
}

/// Incoming tombstones for one entity: the one with the largest `deleted_at`
/// wins, a later one winning a tie.
pub open spec fn tmap(es: Seq<(String, Tomb)>) -> Map<Seq<char>, Tomb>
    decreases es.len(),
{
    if es.len() == 0 {
        Map::empty()
    } else {
        let m = tmap(es.drop_last());
        let (k, t) = es.last();
        if m.contains_key(k@) && lex_lt(t.deleted_at@, m[k@].deleted_at@) {
            m
        } else {
            m.insert(k@, t)
        }
    }
}

pub proof fn lemma_tmap_dom(es: Seq<(String, Tomb)>, k: Seq<char>)
    ensures
        tmap(es).contains_key(k) <==> exists|i: int| 0 <= i < es.len() && es[i].0@ == k,
    decreases es.len(),
{
    if es.len() > 0 {
        lemma_tmap_dom(es.drop_last(), k);
        if tmap(es.drop_last()).contains_key(k) {
            let i = choose|i: int| 0 <= i < es.drop_last().len() && es.drop_last()[i].0@ == k;
            assert(es[i] == es.drop_last()[i]);
        }
        if exists|i: int| 0 <= i < es.len() && es[i].0@ == k {
            let i = choose|i: int| 0 <= i < es.len() && es[i].0@ == k;
            if i < es.len() - 1 {
                assert(es.drop_last()[i] == es[i]);
            }
        }
    }
}

/// The winning incoming tombstone of a key.
pub fn tget<'a>(es: &'a Vec<(String, Tomb)>, k: &String) -> (r: Option<&'a Tomb>)
    ensures
        match r {
            Some(t) => tmap(es@).contains_key(k@) && tmap(es@)[k@] == *t,
            None => !tmap(es@).contains_key(k@),
        },
{
    let mut cur: Option<&Tomb> = None;
    let mut i: usize = 0;
    while i < es.len()
        invariant
            0 <= i <= es.len(),
            match cur {
                Some(t) => tmap(es@.take(i as int)).contains_key(k@) && tmap(es@.take(i as int))[k@]
                    == *t,
                None => !tmap(es@.take(i as int)).contains_key(k@),
            },
        decreases es.len() - i,
    {
        assert(es@.take(i + 1).drop_last() =~= es@.take(i as int));
        if es[i].0 == *k {
            let t = &es[i].1;
            match cur {
                Some(c) => {
                    if !str_lt(t.deleted_at.as_str(), c.deleted_at.as_str()) {
                        cur = Some(t);
                    }
                },
                None => {
                    cur = Some(t);
                },
            }
        }
        i = i + 1;
    }
    assert(es@.take(es.len() as int) =~= es@);
    cur
}

} // verus!

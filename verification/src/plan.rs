//! Phase A of a sync apply: every decision about banks, questions and their
//! tombstones, taken on plain values before anything is written.
use vstd::prelude::*;
use crate::text::{lex_lt, str_lt, lemma_lex_asym, lemma_lex_total, lemma_lex_trans};
use crate::merge::{SyncRole, Tomb, lww_take_spec, lww_take, vmap, vget, tmap, tget, lemma_vmap_dom, lemma_tmap_dom};
use crate::assets::{str_set, add_str};

verus! {

/// The two kinds of entity that carry tombstones.
#[derive(Clone, Copy, PartialEq, Eq, Structural)]
pub enum Kind {
    Bank,
    Question,
}

/// What the merge reads of a question row: its business time and its bank.
pub struct QRow {
    pub updated_at: String,
    pub bank_id: Option<String>,
}

/// Everything Phase A decides on. Times are already normalised; a list holds
/// one entry per key (a later entry for a key wins, as an insert into a map).
pub struct MergeInput {
    pub role: SyncRole,
    /// The tombstone horizon: anything older was never seen and is a zombie.
    pub floor: Option<String>,
    pub local_banks: Vec<(String, String)>,
    pub local_questions: Vec<(String, QRow)>,
    pub local_bank_tombs: Vec<(String, Tomb)>,
    pub local_question_tombs: Vec<(String, Tomb)>,
    pub in_banks: Vec<(String, String)>,
    pub in_questions: Vec<(String, QRow)>,
    pub in_bank_tombs: Vec<(String, Tomb)>,
    pub in_question_tombs: Vec<(String, Tomb)>,
}

pub open spec fn oview(o: Option<String>) -> Option<Seq<char>> {
    match o {
        Some(s) => Some(s@),
        None => None,
    }
}

/// The id of the bank every install starts with.
pub open spec fn default_bank_id() -> Seq<char> {
    seq!['b', 'a', 'n', 'k', '_', 'd', 'e', 'f', 'a', 'u', 'l', 't']
}

impl MergeInput {
    pub open spec fn local_time(&self, k: Kind, id: Seq<char>) -> Option<Seq<char>> {
        match k {
            Kind::Bank => {
                let m = vmap(self.local_banks@);
                if m.contains_key(id) { Some(m[id]@) } else { None }
            },
            Kind::Question => {
                let m = vmap(self.local_questions@);
                if m.contains_key(id) { Some(m[id].updated_at@) } else { None }
            },
        }
    }

    pub open spec fn in_time(&self, k: Kind, id: Seq<char>) -> Option<Seq<char>> {
        match k {
            Kind::Bank => {
                let m = vmap(self.in_banks@);
                if m.contains_key(id) { Some(m[id]@) } else { None }
            },
            Kind::Question => {
                let m = vmap(self.in_questions@);
                if m.contains_key(id) { Some(m[id].updated_at@) } else { None }
            },
        }
    }

    pub open spec fn local_tomb(&self, k: Kind, id: Seq<char>) -> Option<Tomb> {
        let m = match k {
            Kind::Bank => vmap(self.local_bank_tombs@),
            Kind::Question => vmap(self.local_question_tombs@),
        };
        if m.contains_key(id) { Some(m[id]) } else { None }
    }

    pub open spec fn in_tomb(&self, k: Kind, id: Seq<char>) -> Option<Tomb> {
        let m = match k {
            Kind::Bank => tmap(self.in_bank_tombs@),
            Kind::Question => tmap(self.in_question_tombs@),
        };
        if m.contains_key(id) { Some(m[id]) } else { None }
    }

    /// The tombstone that counts: of the local and the incoming one, the later
    /// `deleted_at`; the incoming one wins a tie.
    pub open spec fn eff_tomb(&self, k: Kind, id: Seq<char>) -> Option<Tomb> {
        match (self.local_tomb(k, id), self.in_tomb(k, id)) {
            (l, None) => l,
            (None, Some(t)) => Some(t),
            (Some(l), Some(t)) => if lex_lt(t.deleted_at@, l.deleted_at@) { Some(l) } else { Some(t) },
        }
    }

    pub open spec fn zombie(&self, t: Seq<char>) -> bool {
        match self.floor {
            Some(f) => lex_lt(t, f@),
            None => false,
        }
    }

    /// A tombstone that takes part: one older than the horizon for an entity
    /// seen on neither side is ignored.
    pub open spec fn live(&self, k: Kind, id: Seq<char>) -> bool {
        match self.eff_tomb(k, id) {
            Some(t) => !(self.local_time(k, id) is None && self.in_time(k, id) is None && self.zombie(t.deleted_at@)),
            None => false,
        }
    }

    /// An incoming row older than the horizon, for an entity never seen here
    /// and with no live tombstone, is dropped.
    pub open spec fn zombie_row(&self, k: Kind, id: Seq<char>) -> bool {
        match self.in_time(k, id) {
            Some(u) => self.local_time(k, id) is None && !self.live(k, id) && self.zombie(u),
            None => false,
        }
    }

    /// The incoming row replaces the local one.
    pub open spec fn taken(&self, k: Kind, id: Seq<char>) -> bool {
        match self.in_time(k, id) {
            Some(u) => !self.zombie_row(k, id) && lww_take_spec(u, self.local_time(k, id), self.role),
            None => false,
        }
    }

    /// The business time of the row that wins between the two sides, if any.
    pub open spec fn row_time(&self, k: Kind, id: Seq<char>) -> Option<Seq<char>> {
        if self.taken(k, id) { self.in_time(k, id) } else { self.local_time(k, id) }
    }

    /// A live tombstone at least as new as the winning row deletes it.
    pub open spec fn kill(&self, k: Kind, id: Seq<char>) -> bool {
        self.live(k, id) && match self.row_time(k, id) {
            Some(rt) => !lex_lt(self.eff_tomb(k, id).unwrap().deleted_at@, rt),
            None => false,
        }
    }

    /// The entity is to be deleted (before the zero-bank guard).
    pub open spec fn dead0(&self, k: Kind, id: Seq<char>) -> bool {
        self.live(k, id) && (self.row_time(k, id) is None || self.kill(k, id))
    }

    /// An edit newer than a live tombstone keeps the row and drops the tombstone.
    pub open spec fn drop_tomb(&self, k: Kind, id: Seq<char>) -> bool {
        self.live(k, id) && match self.row_time(k, id) {
            Some(rt) => lex_lt(self.eff_tomb(k, id).unwrap().deleted_at@, rt),
            None => false,
        }
    }

    /// A deletion that won against a row takes the id out of both kinds.
    pub open spec fn killed(&self, id: Seq<char>) -> bool {
        self.kill(Kind::Bank, id) || self.kill(Kind::Question, id)
    }

    pub open spec fn surv1(&self, k: Kind, id: Seq<char>) -> bool {
        self.row_time(k, id) is Some && !self.killed(id)
    }

    pub open spec fn write1(&self, k: Kind, id: Seq<char>) -> bool {
        self.taken(k, id) && !self.killed(id)
    }

    /// The zero-bank guard: the tombstones would leave no bank at all, so no
    /// bank is deleted.
    pub open spec fn guard(&self) -> bool {
        &&& !exists|id: Seq<char>| #[trigger] self.surv1(Kind::Bank, id)
        &&& exists|id: Seq<char>| #[trigger] self.dead0(Kind::Bank, id)
    }

    /// A bank brought back by the guard.
    pub open spec fn restored(&self, id: Seq<char>) -> bool {
        self.guard() && self.dead0(Kind::Bank, id) && self.row_time(Kind::Bank, id) is Some
    }

    pub open spec fn surv_bank(&self, id: Seq<char>) -> bool {
        self.surv1(Kind::Bank, id) || self.restored(id)
    }

    /// The incoming bank row is written.
    pub open spec fn write_bank(&self, id: Seq<char>) -> bool {
        self.write1(Kind::Bank, id) || (self.restored(id) && self.local_time(Kind::Bank, id) is None)
    }

    pub open spec fn dead_bank(&self, id: Seq<char>) -> bool {
        !self.guard() && self.dead0(Kind::Bank, id)
    }

    /// A question tombstone skipped with the bank cascade the guard skipped.
    pub open spec fn guard_skipped_q(&self, id: Seq<char>) -> bool {
        &&& self.guard()
        &&& self.dead0(Kind::Question, id)
        &&& match self.eff_tomb(Kind::Question, id) {
            Some(t) => match t.bank_id {
                Some(b) => self.dead0(Kind::Bank, b@),
                None => false,
            },
            None => false,
        }
    }

    /// The first surviving bank in id order.
    pub open spec fn is_min_surv(&self, m: Seq<char>) -> bool {
        self.surv_bank(m) && forall|x: Seq<char>| #[trigger] self.surv_bank(x) ==> !lex_lt(x, m)
    }

    /// Where the questions of a deleted bank go: the default bank if it
    /// survives, else the surviving bank with the least id.
    pub open spec fn fallback(&self) -> Option<Seq<char>> {
        if self.surv_bank(default_bank_id()) {
            Some(default_bank_id())
        } else if exists|m: Seq<char>| self.is_min_surv(m) {
            Some(choose|m: Seq<char>| self.is_min_surv(m))
        } else {
            None
        }
    }

    /// The bank of the winning version of a question.
    pub open spec fn qbank(&self, id: Seq<char>) -> Option<Seq<char>> {
        if self.taken(Kind::Question, id) {
            oview(vmap(self.in_questions@)[id].bank_id)
        } else if vmap(self.local_questions@).contains_key(id) {
            oview(vmap(self.local_questions@)[id].bank_id)
        } else {
            None
        }
    }

    /// A surviving question whose bank is deleted.
    pub open spec fn orphaned(&self, id: Seq<char>) -> bool {
        &&& self.surv1(Kind::Question, id)
        &&& match self.qbank(id) {
            Some(b) => self.dead_bank(b),
            None => false,
        }
    }

    pub open spec fn rebanked(&self, id: Seq<char>) -> bool {
        self.orphaned(id) && self.fallback() is Some
    }

    pub open spec fn dead_question(&self, id: Seq<char>) -> bool {
        (self.dead0(Kind::Question, id) && !self.guard_skipped_q(id)) || (self.orphaned(id)
            && self.fallback() is None)
    }

    pub open spec fn surv_question(&self, id: Seq<char>) -> bool {
        self.surv1(Kind::Question, id) && !self.dead_question(id)
    }

    pub open spec fn write_question(&self, id: Seq<char>) -> bool {
        self.write1(Kind::Question, id) && !self.dead_question(id)
    }

    /// The bank a surviving question ends up in.
    pub open spec fn final_qbank(&self, id: Seq<char>) -> Option<Seq<char>> {
        if self.rebanked(id) { self.fallback() } else { self.qbank(id) }
    }

    /// An ignored tombstone older than the horizon.
    pub open spec fn zombie_tomb(&self, k: Kind, id: Seq<char>) -> bool {
        self.eff_tomb(k, id) is Some && !self.live(k, id)
    }

    /// Every key that any list of the input holds.
    pub open spec fn mentioned(&self, id: Seq<char>) -> bool {
        ||| exists|i: int| 0 <= i < self.local_banks@.len() && self.local_banks@[i].0@ == id
        ||| exists|i: int| 0 <= i < self.local_questions@.len() && self.local_questions@[i].0@ == id
        ||| exists|i: int| 0 <= i < self.local_bank_tombs@.len() && self.local_bank_tombs@[i].0@ == id
        ||| exists|i: int| 0 <= i < self.local_question_tombs@.len() && self.local_question_tombs@[i].0@
            == id
        ||| exists|i: int| 0 <= i < self.in_banks@.len() && self.in_banks@[i].0@ == id
        ||| exists|i: int| 0 <= i < self.in_questions@.len() && self.in_questions@[i].0@ == id
        ||| exists|i: int| 0 <= i < self.in_bank_tombs@.len() && self.in_bank_tombs@[i].0@ == id
        ||| exists|i: int| 0 <= i < self.in_question_tombs@.len() && self.in_question_tombs@[i].0@ == id
    }
}

impl MergeInput {
    fn local_time_of(&self, k: Kind, id: &String) -> (r: Option<&String>)
        ensures
            match r {
                Some(s) => self.local_time(k, id@) == Some(s@),
                None => self.local_time(k, id@) is None,
            },
    {
        match k {
            Kind::Bank => vget(&self.local_banks, id),
            Kind::Question => match vget(&self.local_questions, id) {
                Some(q) => Some(&q.updated_at),
                None => None,
            },
        }
    }

    pub(crate) fn in_time_of(&self, k: Kind, id: &String) -> (r: Option<&String>)
        ensures
            match r {
                Some(s) => self.in_time(k, id@) == Some(s@),
                None => self.in_time(k, id@) is None,
            },
    {
        match k {
            Kind::Bank => vget(&self.in_banks, id),
            Kind::Question => match vget(&self.in_questions, id) {
                Some(q) => Some(&q.updated_at),
                None => None,
            },
        }
    }

    pub(crate) fn eff_tomb_of(&self, k: Kind, id: &String) -> (r: Option<&Tomb>)
        ensures
            match r {
                Some(t) => self.eff_tomb(k, id@) == Some(*t),
                None => self.eff_tomb(k, id@) is None,
            },
    {
        let (l, t) = match k {
            Kind::Bank => (vget(&self.local_bank_tombs, id), tget(&self.in_bank_tombs, id)),
            Kind::Question => (vget(&self.local_question_tombs, id), tget(&self.in_question_tombs, id)),
        };
        match (l, t) {
            (l, None) => l,
            (None, Some(t)) => Some(t),
            (Some(l), Some(t)) => {
                if str_lt(t.deleted_at.as_str(), l.deleted_at.as_str()) {
                    Some(l)
                } else {
                    Some(t)
                }
            },
        }
    }

    fn is_zombie(&self, t: &str) -> (r: bool)
        ensures
            r == self.zombie(t@),
    {
        match &self.floor {
            Some(f) => str_lt(t, f.as_str()),
            None => false,
        }
    }

    fn is_live(&self, k: Kind, id: &String) -> (r: bool)
        ensures
            r == self.live(k, id@),
    {
        match self.eff_tomb_of(k, id) {
            Some(t) => !(self.local_time_of(k, id).is_none() && self.in_time_of(k, id).is_none()
                && self.is_zombie(t.deleted_at.as_str())),
            None => false,
        }
    }

    fn is_zombie_row(&self, k: Kind, id: &String) -> (r: bool)
        ensures
            r == self.zombie_row(k, id@),
    {
        match self.in_time_of(k, id) {
            Some(u) => self.local_time_of(k, id).is_none() && !self.is_live(k, id) && self.is_zombie(
                u.as_str(),
            ),
            None => false,
        }
    }

    fn is_taken(&self, k: Kind, id: &String) -> (r: bool)
        ensures
            r == self.taken(k, id@),
    {
        match self.in_time_of(k, id) {
            Some(u) => {
                let loc = match self.local_time_of(k, id) {
                    Some(c) => Some(c.as_str()),
                    None => None,
                };
                !self.is_zombie_row(k, id) && lww_take(u.as_str(), loc, self.role)
            },
            None => false,
        }
    }

    pub(crate) fn row_time_of(&self, k: Kind, id: &String) -> (r: Option<&String>)
        ensures
            match r {
                Some(s) => self.row_time(k, id@) == Some(s@),
                None => self.row_time(k, id@) is None,
            },
    {
        if self.is_taken(k, id) {
            self.in_time_of(k, id)
        } else {
            self.local_time_of(k, id)
        }
    }

    fn is_kill(&self, k: Kind, id: &String) -> (r: bool)
        ensures
            r == self.kill(k, id@),
    {
        if !self.is_live(k, id) {
            return false;
        }
        match (self.row_time_of(k, id), self.eff_tomb_of(k, id)) {
            (Some(rt), Some(t)) => !str_lt(t.deleted_at.as_str(), rt.as_str()),
            _ => false,
        }
    }

    fn is_dead0(&self, k: Kind, id: &String) -> (r: bool)
        ensures
            r == self.dead0(k, id@),
    {
        self.is_live(k, id) && (self.row_time_of(k, id).is_none() || self.is_kill(k, id))
    }

    fn is_drop_tomb(&self, k: Kind, id: &String) -> (r: bool)
        ensures
            r == self.drop_tomb(k, id@),
    {
        if !self.is_live(k, id) {
            return false;
        }
        match (self.row_time_of(k, id), self.eff_tomb_of(k, id)) {
            (Some(rt), Some(t)) => str_lt(t.deleted_at.as_str(), rt.as_str()),
            _ => false,
        }
    }

    fn is_killed(&self, id: &String) -> (r: bool)
        ensures
            r == self.killed(id@),
    {
        self.is_kill(Kind::Bank, id) || self.is_kill(Kind::Question, id)
    }

    fn is_surv1(&self, k: Kind, id: &String) -> (r: bool)
        ensures
            r == self.surv1(k, id@),
    {
        self.row_time_of(k, id).is_some() && !self.is_killed(id)
    }

    fn is_write1(&self, k: Kind, id: &String) -> (r: bool)
        ensures
            r == self.write1(k, id@),
    {
        self.is_taken(k, id) && !self.is_killed(id)
    }
}

/// The lists a plan hands to the writer, one per decision.
#[derive(Clone, Copy, PartialEq, Eq, Structural)]
pub enum Cat {
    /// Incoming bank rows to upsert.
    WriteBank,
    /// Incoming question rows to upsert.
    WriteQuestion,
    /// Surviving questions moved to the fallback bank.
    Rebanked,
    /// Of those, the ones whose row comes from the local store.
    RebankOnly,
    DeadBank,
    DeadQuestion,
    /// Bank tombstones an edit beat: removed from the log.
    DropBankTomb,
    DropQuestionTomb,
    /// Questions that survive the merge: what records may refer to.
    SurvQuestion,
    ZombieBankTomb,
    ZombieQuestionTomb,
    ZombieBankRow,
    ZombieQuestionRow,
    /// Bank deletions the zero-bank guard skipped.
    GuardBank,
    /// Question deletions skipped with them.
    GuardQuestion,
}

impl MergeInput {
    pub open spec fn in_cat(&self, c: Cat, id: Seq<char>) -> bool {
        match c {
            Cat::WriteBank => self.write_bank(id),
            Cat::WriteQuestion => self.write_question(id),
            Cat::Rebanked => self.rebanked(id),
            Cat::RebankOnly => self.rebanked(id) && !self.write1(Kind::Question, id),
            Cat::DeadBank => self.dead_bank(id),
            Cat::DeadQuestion => self.dead_question(id),
            Cat::DropBankTomb => self.drop_tomb(Kind::Bank, id),
            Cat::DropQuestionTomb => self.drop_tomb(Kind::Question, id),
            Cat::SurvQuestion => self.surv_question(id),
            Cat::ZombieBankTomb => self.zombie_tomb(Kind::Bank, id),
            Cat::ZombieQuestionTomb => self.zombie_tomb(Kind::Question, id),
            Cat::ZombieBankRow => self.zombie_row(Kind::Bank, id),
            Cat::ZombieQuestionRow => self.zombie_row(Kind::Question, id),
            Cat::GuardBank => self.guard() && self.dead0(Kind::Bank, id),
            Cat::GuardQuestion => self.guard_skipped_q(id),
        }
    }

    /// Anything the input says of a key comes from a list that holds it.
    pub proof fn lemma_mentioned(&self, k: Kind, id: Seq<char>)
        ensures
            (self.local_time(k, id) is Some || self.in_time(k, id) is Some || self.eff_tomb(k, id) is Some)
                ==> self.mentioned(id),
    {
        lemma_vmap_dom(self.local_banks@, id);
        lemma_vmap_dom(self.local_questions@, id);
        lemma_vmap_dom(self.local_bank_tombs@, id);
        lemma_vmap_dom(self.local_question_tombs@, id);
        lemma_vmap_dom(self.in_banks@, id);
        lemma_vmap_dom(self.in_questions@, id);
        lemma_tmap_dom(self.in_bank_tombs@, id);
        lemma_tmap_dom(self.in_question_tombs@, id);
    }

    /// Every decision is about a key of the input.
    pub proof fn lemma_cat_mentioned(&self, c: Cat, id: Seq<char>)
        ensures
            self.in_cat(c, id) ==> self.mentioned(id),
    {
        self.lemma_mentioned(Kind::Bank, id);
        self.lemma_mentioned(Kind::Question, id);
    }
}

/// The keys of a keyed list.
pub open spec fn keys_of<V>(es: Seq<(String, V)>) -> Set<Seq<char>> {
    Set::new(|t: Seq<char>| exists|k: int| 0 <= k < es.len() && es[k].0@ == t)
}

fn add_keys<V>(out: &mut Vec<String>, es: &Vec<(String, V)>)
    ensures
        str_set(final(out)@) == str_set(old(out)@).union(keys_of(es@)),
{
    let mut i: usize = 0;
    while i < es.len()
        invariant
            0 <= i <= es.len(),
            str_set(out@) == str_set(old(out)@).union(keys_of(es@.take(i as int))),
        decreases es.len() - i,
    {
        let ghost before = out@;
        add_str(out, es[i].0.clone());
        proof {
            let pre = es@.take(i as int);
            let nxt = es@.take(i + 1);
            let e = es@[i as int].0@;
            assert forall|t: Seq<char>| keys_of(nxt).contains(t) implies keys_of(pre).insert(e).contains(t)
                by {
                let k = choose|k: int| 0 <= k < nxt.len() && nxt[k].0@ == t;
                if k < i {
                    assert(pre[k] == nxt[k]);
                }
            }
            assert forall|t: Seq<char>| keys_of(pre).insert(e).contains(t) implies keys_of(nxt).contains(t)
                by {
                if t == e {
                    assert(nxt[i as int] == es@[i as int]);
                } else {
                    let k = choose|k: int| 0 <= k < pre.len() && pre[k].0@ == t;
                    assert(nxt[k] == pre[k]);
                }
            }
            assert(keys_of(nxt) =~= keys_of(pre).insert(e));
            assert(str_set(out@) =~= str_set(old(out)@).union(keys_of(nxt)));
        }
        i = i + 1;
    }
    assert(es@.take(es.len() as int) =~= es@);
}

impl MergeInput {
    /// Every key the input holds, each once.
    fn keys(&self) -> (u: Vec<String>)
        ensures
            forall|id: Seq<char>| #[trigger] str_set(u@).contains(id) <==> self.mentioned(id),
    {
        let mut u: Vec<String> = Vec::new();
        assert(str_set(u@) =~= Set::empty());
        add_keys(&mut u, &self.local_banks);
        add_keys(&mut u, &self.local_questions);
        add_keys(&mut u, &self.local_bank_tombs);
        add_keys(&mut u, &self.local_question_tombs);
        add_keys(&mut u, &self.in_banks);
        add_keys(&mut u, &self.in_questions);
        add_keys(&mut u, &self.in_bank_tombs);
        add_keys(&mut u, &self.in_question_tombs);
        u
    }

    fn compute_guard(&self, u: &Vec<String>) -> (g: bool)
        requires
            forall|id: Seq<char>| #[trigger] str_set(u@).contains(id) <==> self.mentioned(id),
        ensures
            g == self.guard(),
    {
        let mut any_surv = false;
        let mut any_dead = false;
        let mut i: usize = 0;
        while i < u.len()
            invariant
                0 <= i <= u.len(),
                any_surv <==> exists|j: int| 0 <= j < i && self.surv1(Kind::Bank, #[trigger] u@[j]@),
                any_dead <==> exists|j: int| 0 <= j < i && self.dead0(Kind::Bank, #[trigger] u@[j]@),
            decreases u.len() - i,
        {
            if self.is_surv1(Kind::Bank, &u[i]) {
                any_surv = true;
            }
            if self.is_dead0(Kind::Bank, &u[i]) {
                any_dead = true;
            }
            i = i + 1;
        }
        proof {
            if exists|id: Seq<char>| #[trigger] self.surv1(Kind::Bank, id) {
                let id = choose|id: Seq<char>| #[trigger] self.surv1(Kind::Bank, id);
                self.lemma_cat_mentioned(Cat::WriteBank, id);
                self.lemma_mentioned(Kind::Bank, id);
                assert(str_set(u@).contains(id));
                let j = choose|j: int| 0 <= j < u@.len() && u@[j]@ == id;
                assert(self.surv1(Kind::Bank, u@[j]@));
            }
            if exists|id: Seq<char>| #[trigger] self.dead0(Kind::Bank, id) {
                let id = choose|id: Seq<char>| #[trigger] self.dead0(Kind::Bank, id);
                self.lemma_mentioned(Kind::Bank, id);
                assert(str_set(u@).contains(id));
                let j = choose|j: int| 0 <= j < u@.len() && u@[j]@ == id;
                assert(self.dead0(Kind::Bank, u@[j]@));
            }
        }
        !any_surv && any_dead
    }

    fn is_restored(&self, id: &String, guard: bool) -> (r: bool)
        requires
            guard == self.guard(),
        ensures
            r == self.restored(id@),
    {
        guard && self.is_dead0(Kind::Bank, id) && self.row_time_of(Kind::Bank, id).is_some()
    }

    fn is_surv_bank(&self, id: &String, guard: bool) -> (r: bool)
        requires
            guard == self.guard(),
        ensures
            r == self.surv_bank(id@),
    {
        self.is_surv1(Kind::Bank, id) || self.is_restored(id, guard)
    }

    /// The bank that takes over the questions of a deleted one.
    fn compute_fallback(&self, u: &Vec<String>, guard: bool) -> (r: Option<String>)
        requires
            forall|id: Seq<char>| #[trigger] str_set(u@).contains(id) <==> self.mentioned(id),
            guard == self.guard(),
        ensures
            oview(r) == self.fallback(),
    {
        let dflt = String::from_str("bank_default");
        proof {
            reveal_strlit("bank_default");
            assert(dflt@ =~= default_bank_id());
        }
        if self.is_surv_bank(&dflt, guard) {
            return Some(dflt);
        }
        let mut best: Option<usize> = None;
        let mut i: usize = 0;
        while i < u.len()
            invariant
                0 <= i <= u.len(),
                guard == self.guard(),
                match best {
                    Some(b) => b < i && self.surv_bank(u@[b as int]@) && forall|j: int|
                        0 <= j < i && #[trigger] self.surv_bank(u@[j]@) ==> !lex_lt(u@[j]@, u@[b as int]@),
                    None => forall|j: int| 0 <= j < i ==> !#[trigger] self.surv_bank(u@[j]@),
                },
            decreases u.len() - i,
        {
            if self.is_surv_bank(&u[i], guard) {
                match best {
                    Some(b) => {
                        if str_lt(u[i].as_str(), u[b].as_str()) {
                            proof {
                                assert forall|j: int|
                                    0 <= j < i + 1 && #[trigger] self.surv_bank(u@[j]@) implies !lex_lt(
                                    u@[j]@,
                                    u@[i as int]@,
                                ) by {
                                    if j < i {
                                        if lex_lt(u@[j]@, u@[i as int]@) {
                                            lemma_lex_trans(u@[j]@, u@[i as int]@, u@[b as int]@);
                                        }
                                    } else {
                                        lemma_lex_asym(u@[j]@, u@[j]@);
                                    }
                                }
                            }
                            best = Some(i);
                        } else {
                        }
                    },
                    None => {
                        proof {
                            lemma_lex_asym(u@[i as int]@, u@[i as int]@);
                        }
                        best = Some(i);
                    },
                }
            }
            i = i + 1;
        }
        match best {
            Some(b) => {
                proof {
                    let m = u@[b as int]@;
                    assert forall|x: Seq<char>| #[trigger] self.surv_bank(x) implies !lex_lt(x, m) by {
                        self.lemma_mentioned(Kind::Bank, x);
                        assert(str_set(u@).contains(x));
                        let j = choose|j: int| 0 <= j < u@.len() && u@[j]@ == x;
                        assert(self.surv_bank(u@[j]@));
                    }
                    assert(self.is_min_surv(m));
                    let c = choose|m: Seq<char>| self.is_min_surv(m);
                    assert(self.is_min_surv(c));
                    assert(!lex_lt(c, m));
                    assert(!lex_lt(m, c));
                    lemma_lex_total(c, m);
                }
                Some(u[b].clone())
            },
            None => {
                proof {
                    if exists|m: Seq<char>| self.is_min_surv(m) {
                        let m = choose|m: Seq<char>| self.is_min_surv(m);
                        self.lemma_mentioned(Kind::Bank, m);
                        assert(str_set(u@).contains(m));
                        let j = choose|j: int| 0 <= j < u@.len() && u@[j]@ == m;
                        assert(self.surv_bank(u@[j]@));
                    }
                }
                None
            },
        }
    }
}

impl MergeInput {
    fn is_write_bank(&self, id: &String, guard: bool) -> (r: bool)
        requires
            guard == self.guard(),
        ensures
            r == self.write_bank(id@),
    {
        self.is_write1(Kind::Bank, id) || (self.is_restored(id, guard) && self.local_time_of(
            Kind::Bank,
            id,
        ).is_none())
    }

    fn is_guard_skipped_q(&self, id: &String, guard: bool) -> (r: bool)
        requires
            guard == self.guard(),
        ensures
            r == self.guard_skipped_q(id@),
    {
        if !guard || !self.is_dead0(Kind::Question, id) {
            return false;
        }
        match self.eff_tomb_of(Kind::Question, id) {
            Some(t) => match &t.bank_id {
                Some(b) => self.is_dead0(Kind::Bank, b),
                None => false,
            },
            None => false,
        }
    }

    pub(crate) fn qbank_of(&self, id: &String) -> (r: Option<&String>)
        ensures
            match r {
                Some(b) => self.qbank(id@) == Some(b@),
                None => self.qbank(id@) is None,
            },
    {
        if self.is_taken(Kind::Question, id) {
            match vget(&self.in_questions, id) {
                Some(q) => match &q.bank_id {
                    Some(b) => Some(b),
                    None => None,
                },
                None => None,
            }
        } else {
            match vget(&self.local_questions, id) {
                Some(q) => match &q.bank_id {
                    Some(b) => Some(b),
                    None => None,
                },
                None => None,
            }
        }
    }

    fn is_orphaned(&self, id: &String, guard: bool) -> (r: bool)
        requires
            guard == self.guard(),
        ensures
            r == self.orphaned(id@),
    {
        if !self.is_surv1(Kind::Question, id) {
            return false;
        }
        match self.qbank_of(id) {
            Some(b) => !guard && self.is_dead0(Kind::Bank, b),
            None => false,
        }
    }

    fn is_dead_question(&self, id: &String, guard: bool, fb: &Option<String>) -> (r: bool)
        requires
            guard == self.guard(),
            oview(*fb) == self.fallback(),
        ensures
            r == self.dead_question(id@),
    {
        (self.is_dead0(Kind::Question, id) && !self.is_guard_skipped_q(id, guard)) || (
        self.is_orphaned(id, guard) && fb.is_none())
    }

    fn test_cat(&self, c: Cat, id: &String, guard: bool, fb: &Option<String>) -> (r: bool)
        requires
            guard == self.guard(),
            oview(*fb) == self.fallback(),
        ensures
            r == self.in_cat(c, id@),
    {
        match c {
            Cat::WriteBank => self.is_write_bank(id, guard),
            Cat::WriteQuestion => self.is_write1(Kind::Question, id) && !self.is_dead_question(
                id,
                guard,
                fb,
            ),
            Cat::Rebanked => self.is_orphaned(id, guard) && fb.is_some(),
            Cat::RebankOnly => self.is_orphaned(id, guard) && fb.is_some() && !self.is_write1(
                Kind::Question,
                id,
            ),
            Cat::DeadBank => !guard && self.is_dead0(Kind::Bank, id),
            Cat::DeadQuestion => self.is_dead_question(id, guard, fb),
            Cat::DropBankTomb => self.is_drop_tomb(Kind::Bank, id),
            Cat::DropQuestionTomb => self.is_drop_tomb(Kind::Question, id),
            Cat::SurvQuestion => self.is_surv1(Kind::Question, id) && !self.is_dead_question(
                id,
                guard,
                fb,
            ),
            Cat::ZombieBankTomb => self.eff_tomb_of(Kind::Bank, id).is_some() && !self.is_live(
                Kind::Bank,
                id,
            ),
            Cat::ZombieQuestionTomb => self.eff_tomb_of(Kind::Question, id).is_some() && !self.is_live(
                Kind::Question,
                id,
            ),
            Cat::ZombieBankRow => self.is_zombie_row(Kind::Bank, id),
            Cat::ZombieQuestionRow => self.is_zombie_row(Kind::Question, id),
            Cat::GuardBank => guard && self.is_dead0(Kind::Bank, id),
            Cat::GuardQuestion => self.is_guard_skipped_q(id, guard),
        }
    }

    fn collect(&self, u: &Vec<String>, c: Cat, guard: bool, fb: &Option<String>) -> (out: Vec<String>)
        requires
            forall|id: Seq<char>| #[trigger] str_set(u@).contains(id) <==> self.mentioned(id),
            guard == self.guard(),
            oview(*fb) == self.fallback(),
        ensures
            forall|id: Seq<char>| #[trigger] str_set(out@).contains(id) <==> self.in_cat(c, id),
    {
        let mut out: Vec<String> = Vec::new();
        let mut i: usize = 0;
        assert(str_set(out@) =~= Set::empty());
        while i < u.len()
            invariant
                0 <= i <= u.len(),
                guard == self.guard(),
                oview(*fb) == self.fallback(),
                forall|id: Seq<char>| #[trigger] str_set(out@).contains(id) <==> (self.in_cat(c, id)
                    && exists|j: int| 0 <= j < i && u@[j]@ == id),
            decreases u.len() - i,
        {
            if self.test_cat(c, &u[i], guard, fb) {
                add_str(&mut out, u[i].clone());
            }
            proof {
                assert forall|id: Seq<char>| #[trigger] str_set(out@).contains(id) <==> (self.in_cat(c, id)
                    && exists|j: int| 0 <= j < i + 1 && u@[j]@ == id) by {
                    if exists|j: int| 0 <= j < i + 1 && u@[j]@ == id {
                        let j = choose|j: int| 0 <= j < i + 1 && u@[j]@ == id;
                        if j < i {
                            assert(exists|j: int| 0 <= j < i && u@[j]@ == id);
                        }
                    }
                    if exists|j: int| 0 <= j < i && u@[j]@ == id {
                        let j = choose|j: int| 0 <= j < i && u@[j]@ == id;
                        assert(0 <= j < i + 1 && u@[j]@ == id);
                    }
                }
            }
            i = i + 1;
        }
        proof {
            assert forall|id: Seq<char>| #[trigger] str_set(out@).contains(id) <==> self.in_cat(c, id) by {
                self.lemma_cat_mentioned(c, id);
                if self.in_cat(c, id) {
                    assert(str_set(u@).contains(id));
                }
            }
        }
        out
    }
}

/// What Phase A decided: the fallback bank and one id list per decision.
pub struct MergePlan {
    pub fallback: Option<String>,
    pub write_banks: Vec<String>,
    pub write_questions: Vec<String>,
    pub rebanked: Vec<String>,
    pub rebank_only: Vec<String>,
    pub dead_banks: Vec<String>,
    pub dead_questions: Vec<String>,
    pub drop_bank_tombs: Vec<String>,
    pub drop_question_tombs: Vec<String>,
    pub surv_questions: Vec<String>,
    pub zombie_bank_tombs: Vec<String>,
    pub zombie_question_tombs: Vec<String>,
    pub zombie_bank_rows: Vec<String>,
    pub zombie_question_rows: Vec<String>,
    pub guard_banks: Vec<String>,
    pub guard_questions: Vec<String>,
}

impl MergePlan {
    pub open spec fn list(&self, c: Cat) -> Seq<String> {
        match c {
            Cat::WriteBank => self.write_banks@,
            Cat::WriteQuestion => self.write_questions@,
            Cat::Rebanked => self.rebanked@,
            Cat::RebankOnly => self.rebank_only@,
            Cat::DeadBank => self.dead_banks@,
            Cat::DeadQuestion => self.dead_questions@,
            Cat::DropBankTomb => self.drop_bank_tombs@,
            Cat::DropQuestionTomb => self.drop_question_tombs@,
            Cat::SurvQuestion => self.surv_questions@,
            Cat::ZombieBankTomb => self.zombie_bank_tombs@,
            Cat::ZombieQuestionTomb => self.zombie_question_tombs@,
            Cat::ZombieBankRow => self.zombie_bank_rows@,
            Cat::ZombieQuestionRow => self.zombie_question_rows@,
            Cat::GuardBank => self.guard_banks@,
            Cat::GuardQuestion => self.guard_questions@,
        }
    }
}

/// Phase A: decides, for every bank and question the two sides mention, whether
/// it is written, kept, deleted or moved, and which tombstones are dropped,
/// as `MergeInput`'s spec functions say.
/// A plan that decides exactly as the merge input's spec functions say.
pub open spec fn plan_ok(inp: MergeInput, p: MergePlan) -> bool {
    &&& oview(p.fallback) == inp.fallback()
    &&& forall|c: Cat, id: Seq<char>| #[trigger] str_set(p.list(c)).contains(id) <==> inp.in_cat(c, id)
}

pub fn plan_merge(inp: &MergeInput) -> (p: MergePlan)
    ensures
        oview(p.fallback) == inp.fallback(),
        forall|c: Cat, id: Seq<char>| #[trigger] str_set(p.list(c)).contains(id) <==> inp.in_cat(c, id),
        plan_ok(*inp, p),
{
    let u = inp.keys();
    let guard = inp.compute_guard(&u);
    let fb = inp.compute_fallback(&u, guard);
    let p = MergePlan {
        write_banks: inp.collect(&u, Cat::WriteBank, guard, &fb),
        write_questions: inp.collect(&u, Cat::WriteQuestion, guard, &fb),
        rebanked: inp.collect(&u, Cat::Rebanked, guard, &fb),
        rebank_only: inp.collect(&u, Cat::RebankOnly, guard, &fb),
        dead_banks: inp.collect(&u, Cat::DeadBank, guard, &fb),
        dead_questions: inp.collect(&u, Cat::DeadQuestion, guard, &fb),
        drop_bank_tombs: inp.collect(&u, Cat::DropBankTomb, guard, &fb),
        drop_question_tombs: inp.collect(&u, Cat::DropQuestionTomb, guard, &fb),
        surv_questions: inp.collect(&u, Cat::SurvQuestion, guard, &fb),
        zombie_bank_tombs: inp.collect(&u, Cat::ZombieBankTomb, guard, &fb),
        zombie_question_tombs: inp.collect(&u, Cat::ZombieQuestionTomb, guard, &fb),
        zombie_bank_rows: inp.collect(&u, Cat::ZombieBankRow, guard, &fb),
        zombie_question_rows: inp.collect(&u, Cat::ZombieQuestionRow, guard, &fb),
        guard_banks: inp.collect(&u, Cat::GuardBank, guard, &fb),
        guard_questions: inp.collect(&u, Cat::GuardQuestion, guard, &fb),
        fallback: fb,
    };
    assert forall|c: Cat, id: Seq<char>| #[trigger] str_set(p.list(c)).contains(id) <==> inp.in_cat(c, id) by {
        match c {
            Cat::WriteBank => {},
            Cat::WriteQuestion => {},
            Cat::Rebanked => {},
            Cat::RebankOnly => {},
            Cat::DeadBank => {},
            Cat::DeadQuestion => {},
            Cat::DropBankTomb => {},
            Cat::DropQuestionTomb => {},
            Cat::SurvQuestion => {},
            Cat::ZombieBankTomb => {},
            Cat::ZombieQuestionTomb => {},
            Cat::ZombieBankRow => {},
            Cat::ZombieQuestionRow => {},
            Cat::GuardBank => {},
            Cat::GuardQuestion => {},
        }
    }
    p
}

impl MergeInput {
    /// The key appears as a bank on some side.
    pub open spec fn bank_key(&self, id: Seq<char>) -> bool {
        self.local_time(Kind::Bank, id) is Some || self.in_time(Kind::Bank, id) is Some || self.eff_tomb(
            Kind::Bank,
            id,
        ) is Some
    }

    /// The key appears as a question on some side.
    pub open spec fn question_key(&self, id: Seq<char>) -> bool {
        self.local_time(Kind::Question, id) is Some || self.in_time(Kind::Question, id) is Some
            || self.eff_tomb(Kind::Question, id) is Some
    }

    /// No key names both a bank and a question.
    pub open spec fn kinds_disjoint(&self) -> bool {
        forall|id: Seq<char>| !(#[trigger] self.bank_key(id) && self.question_key(id))
    }

    proof fn lemma_kill_has_key(&self, k: Kind, id: Seq<char>)
        ensures
            self.kill(k, id) ==> match k {
                Kind::Bank => self.bank_key(id),
                Kind::Question => self.question_key(id),
            },
            self.row_time(k, id) is Some ==> match k {
                Kind::Bank => self.bank_key(id),
                Kind::Question => self.question_key(id),
            },
    {
    }

    /// A bank that is deleted does not survive, and neither does a deleted question.
    pub proof fn law_dead_never_survives(&self, id: Seq<char>)
        ensures
            self.dead_bank(id) ==> !self.surv_bank(id),
            self.dead_question(id) ==> !self.surv_question(id),
    {
    }

    /// The least surviving bank exists whenever some bank survives.
    proof fn lemma_min_surv_in(&self, s: Seq<Seq<char>>)
        ensures
            (exists|i: int| 0 <= i < s.len() && self.surv_bank(s[i])) ==> exists|i: int|
                0 <= i < s.len() && self.surv_bank(s[i]) && forall|j: int|
                    0 <= j < s.len() && #[trigger] self.surv_bank(s[j]) ==> !lex_lt(s[j], s[i]),
        decreases s.len(),
    {
        if s.len() > 0 {
            let pre = s.drop_last();
            self.lemma_min_surv_in(pre);
            let n = s.len() - 1;
            if exists|i: int| 0 <= i < s.len() && self.surv_bank(s[i]) {
                if exists|i: int| 0 <= i < pre.len() && self.surv_bank(pre[i]) {
                    let i = choose|i: int|
                        0 <= i < pre.len() && self.surv_bank(pre[i]) && forall|j: int|
                            0 <= j < pre.len() && #[trigger] self.surv_bank(pre[j]) ==> !lex_lt(
                                pre[j],
                                pre[i],
                            );
                    if self.surv_bank(s[n]) && lex_lt(s[n], s[i]) {
                        assert forall|j: int| 0 <= j < s.len() && #[trigger] self.surv_bank(s[j]) implies !lex_lt(
                            s[j],
                            s[n],
                        ) by {
                            if j < n {
                                assert(pre[j] == s[j]);
                                if lex_lt(s[j], s[n]) {
                                    lemma_lex_trans(s[j], s[n], s[i]);
                                }
                            } else {
                                lemma_lex_asym(s[n], s[n]);
                            }
                        }
                    } else {
                        assert forall|j: int| 0 <= j < s.len() && #[trigger] self.surv_bank(s[j]) implies !lex_lt(
                            s[j],
                            s[i],
                        ) by {
                            if j < n {
                                assert(pre[j] == s[j]);
                            }
                        }
                        assert(pre[i] == s[i]);
                    }
                } else {
                    assert(self.surv_bank(s[n])) by {
                        let i = choose|i: int| 0 <= i < s.len() && self.surv_bank(s[i]);
                        if i < n {
                            assert(pre[i] == s[i]);
                        }
                    }
                    assert forall|j: int| 0 <= j < s.len() && #[trigger] self.surv_bank(s[j]) implies !lex_lt(
                        s[j],
                        s[n],
                    ) by {
                        if j < n {
                            assert(pre[j] == s[j]);
                        } else {
                            lemma_lex_asym(s[n], s[n]);
                        }
                    }
                }
            }
        }
    }

    /// The keys of the input as one sequence.
    pub open spec fn all_keys(&self) -> Seq<Seq<char>> {
        self.local_banks@.map_values(|e: (String, String)| e.0@) + self.in_banks@.map_values(
            |e: (String, String)| e.0@,
        ) + self.local_bank_tombs@.map_values(|e: (String, Tomb)| e.0@) + self.in_bank_tombs@.map_values(
            |e: (String, Tomb)| e.0@,
        )
    }

    proof fn lemma_all_keys(&self, id: Seq<char>)
        requires
            self.bank_key(id),
        ensures
            self.all_keys().contains(id),
    {
        let a = self.local_banks@.map_values(|e: (String, String)| e.0@);
        let b = self.in_banks@.map_values(|e: (String, String)| e.0@);
        let c = self.local_bank_tombs@.map_values(|e: (String, Tomb)| e.0@);
        let d = self.in_bank_tombs@.map_values(|e: (String, Tomb)| e.0@);
        lemma_vmap_dom(self.local_banks@, id);
        lemma_vmap_dom(self.in_banks@, id);
        lemma_vmap_dom(self.local_bank_tombs@, id);
        lemma_tmap_dom(self.in_bank_tombs@, id);
        let all = self.all_keys();
        assert(all == a + b + c + d);
        if vmap(self.local_banks@).contains_key(id) {
            let i = choose|i: int| 0 <= i < self.local_banks@.len() && self.local_banks@[i].0@ == id;
            assert(all[i] == a[i]);
        } else if vmap(self.in_banks@).contains_key(id) {
            let i = choose|i: int| 0 <= i < self.in_banks@.len() && self.in_banks@[i].0@ == id;
            assert(all[a.len() + i] == b[i]);
        } else if vmap(self.local_bank_tombs@).contains_key(id) {
            let i = choose|i: int| 0 <= i < self.local_bank_tombs@.len() && self.local_bank_tombs@[i].0@ == id;
            assert(all[a.len() + b.len() + i] == c[i]);
        } else {
            let i = choose|i: int| 0 <= i < self.in_bank_tombs@.len() && self.in_bank_tombs@[i].0@ == id;
            assert(all[a.len() + b.len() + c.len() + i] == d[i]);
        }
    }

    /// If some bank survives, so does a fallback bank.
    pub proof fn law_fallback_when_a_bank_survives(&self, id: Seq<char>)
        requires
            self.surv_bank(id),
        ensures
            self.fallback() matches Some(f) && self.surv_bank(f),
    {
        if !self.surv_bank(default_bank_id()) {
            let s = self.all_keys();
            assert(self.bank_key(id)) by {
                if self.restored(id) {
                    self.lemma_kill_has_key(Kind::Bank, id);
                } else {
                    self.lemma_kill_has_key(Kind::Bank, id);
                }
            }
            self.lemma_all_keys(id);
            let i0 = choose|i: int| 0 <= i < s.len() && s[i] == id;
            assert(self.surv_bank(s[i0]));
            self.lemma_min_surv_in(s);
            let i = choose|i: int|
                0 <= i < s.len() && self.surv_bank(s[i]) && forall|j: int|
                    0 <= j < s.len() && #[trigger] self.surv_bank(s[j]) ==> !lex_lt(s[j], s[i]);
            assert forall|x: Seq<char>| #[trigger] self.surv_bank(x) implies !lex_lt(x, s[i]) by {
                self.lemma_kill_has_key(Kind::Bank, x);
                self.lemma_all_keys(x);
                let j = choose|j: int| 0 <= j < s.len() && s[j] == x;
                assert(self.surv_bank(s[j]));
            }
            assert(self.is_min_surv(s[i]));
            let m = choose|m: Seq<char>| self.is_min_surv(m);
            assert(self.is_min_surv(m));
        }
    }

    /// Whenever a bank is deleted, a fallback bank survives to take its
    /// questions: no question is ever deleted for want of one.
    pub proof fn law_deleted_bank_has_fallback(&self, id: Seq<char>)
        requires
            self.dead_bank(id),
        ensures
            self.fallback() matches Some(f) && self.surv_bank(f) && !self.dead_bank(f),
            forall|q: Seq<char>| !(#[trigger] self.orphaned(q) && self.fallback() is None),
    {
        assert(exists|x: Seq<char>| #[trigger] self.surv1(Kind::Bank, x));
        let x = choose|x: Seq<char>| #[trigger] self.surv1(Kind::Bank, x);
        assert(self.surv_bank(x));
        self.law_fallback_when_a_bank_survives(x);
        let f = self.fallback().unwrap();
        self.law_dead_never_survives(f);
    }

    /// No surviving question is left in a deleted bank.
    pub proof fn law_no_question_in_a_deleted_bank(&self, q: Seq<char>)
        requires
            self.surv_question(q),
        ensures
            self.final_qbank(q) matches Some(b) ==> !self.dead_bank(b),
    {
        if self.rebanked(q) {
            let b = self.qbank(q).unwrap();
            self.law_deleted_bank_has_fallback(b);
        }
    }

    /// The zero-bank guard: if any bank row exists on either side, some bank
    /// survives the merge (given that no key names both a bank and a question).
    pub proof fn law_some_bank_survives(&self, id: Seq<char>)
        requires
            self.kinds_disjoint(),
            self.row_time(Kind::Bank, id) is Some,
        ensures
            exists|b: Seq<char>| #[trigger] self.surv_bank(b),
    {
        self.lemma_kill_has_key(Kind::Question, id);
        self.lemma_kill_has_key(Kind::Bank, id);
        assert(self.bank_key(id));
        if self.killed(id) {
            assert(!self.question_key(id));
            assert(self.kill(Kind::Bank, id));
            assert(self.dead0(Kind::Bank, id));
            if self.guard() {
                assert(self.restored(id));
                assert(self.surv_bank(id));
            } else {
                let x = choose|x: Seq<char>| #[trigger] self.surv1(Kind::Bank, x);
                assert(self.surv_bank(x));
            }
        } else {
            assert(self.surv_bank(id));
        }
    }

    /// A tombstone against a question: at least as new as the winning row,
    /// the question is deleted; older, the edit wins, the question survives
    /// and the tombstone is dropped (given that no key names both kinds).
    pub proof fn law_tombstone_against_edit(&self, id: Seq<char>)
        requires
            self.kinds_disjoint(),
            self.live(Kind::Question, id),
            self.row_time(Kind::Question, id) is Some,
        ensures
            !lex_lt(self.eff_tomb(Kind::Question, id).unwrap().deleted_at@, self.row_time(Kind::Question, id).unwrap())
                ==> !self.surv_question(id) && !self.write_question(id),
            lex_lt(self.eff_tomb(Kind::Question, id).unwrap().deleted_at@, self.row_time(Kind::Question, id).unwrap())
                ==> self.drop_tomb(Kind::Question, id) && !self.dead0(Kind::Question, id) && self.surv1(Kind::Question, id),
    {
        self.lemma_kill_has_key(Kind::Bank, id);
        self.lemma_kill_has_key(Kind::Question, id);
        assert(self.question_key(id));
        assert(!self.bank_key(id));
    }

    /// The hub keeps a row when the incoming one has the same business time:
    /// pushing again what the hub already holds writes none of those rows.
    pub proof fn law_hub_keeps_equal_rows(&self, k: Kind, id: Seq<char>)
        requires
            self.role is Center,
            self.in_time(k, id) == self.local_time(k, id),
        ensures
            !self.taken(k, id),
            self.row_time(k, id) == self.local_time(k, id),
            k == Kind::Bank ==> !self.write_bank(id),
            k == Kind::Question ==> !self.write_question(id),
    {
        if let Some(t) = self.local_time(k, id) {
            lemma_lex_asym(t, t);
        }
    }
}

} // verus!

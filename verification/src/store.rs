//! The per-provider store of model statistics: an association vector from
//! model identifier to [`ModelStats`], with unique keys and insertion order
//! preserved (the order is part of the persisted form).

use vstd::prelude::*;
use crate::stats::ModelStats;
use crate::stats::default_stats;
use crate::stats::now_ok;
use crate::stats::spec_unjail;
use crate::text::str_eq;

verus! {

/// First index whose key is `k`, or `s.len()` when `k` is absent.
pub open spec fn key_index(s: Seq<(Seq<char>, ModelStats)>, k: Seq<char>) -> int
    decreases s.len(),
{
    if s.len() == 0 {
        0
    } else if s[0].0 == k {
        0
    } else {
        1 + key_index(s.drop_first(), k)
    }
}

pub proof fn lemma_key_index(s: Seq<(Seq<char>, ModelStats)>, k: Seq<char>)
    ensures
        0 <= key_index(s, k) <= s.len(),
        key_index(s, k) < s.len() ==> s[key_index(s, k)].0 == k,
        forall|j: int| 0 <= j < key_index(s, k) ==> (#[trigger] s[j]).0 != k,
    decreases s.len(),
{
    if s.len() > 0 && s[0].0 != k {
        lemma_key_index(s.drop_first(), k);
        assert forall|j: int| 0 <= j < key_index(s, k) implies (#[trigger] s[j]).0 != k by {
            if j > 0 {
                assert(s.drop_first()[j - 1] == s[j]);
            }
        }
    }
}

/// The health store of one provider.
#[derive(Clone, Debug, PartialEq, Eq)]
pub struct StatsStore {
    entries: Vec<(String, ModelStats)>,
}

/// The (identifier, stats) pairs of an entry vector.
pub open spec fn entries_view(v: Seq<(String, ModelStats)>) -> Seq<(Seq<char>, ModelStats)> {
    v.map_values(|p: (String, ModelStats)| (p.0@, p.1))
}

impl StatsStore {
    /// The entries as a sequence of (identifier, stats) pairs.
    pub closed spec fn entries_seq(self) -> Seq<(Seq<char>, ModelStats)> {
        self.entries@.map_values(|p: (String, ModelStats)| (p.0@, p.1))
    }

    /// Keys are pairwise distinct and every entry is internally consistent.
    pub open spec fn wf(self) -> bool {
        &&& forall|i: int, j: int|
            0 <= i < j < self.entries_seq().len() ==> (#[trigger] self.entries_seq()[i]).0 != (
            #[trigger] self.entries_seq()[j]).0
        &&& forall|i: int|
            0 <= i < self.entries_seq().len() ==> (#[trigger] self.entries_seq()[i]).1.wf()
    }

    /// The stats recorded for `k`, if any.
    pub open spec fn spec_get(self, k: Seq<char>) -> Option<ModelStats> {
        let s = self.entries_seq();
        if key_index(s, k) < s.len() {
            Some(s[key_index(s, k)].1)
        } else {
            None
        }
    }

    pub open spec fn spec_has(self, k: Seq<char>) -> bool {
        key_index(self.entries_seq(), k) < self.entries_seq().len()
    }

    /// Wraps a vector of entries whose keys are distinct and whose stats
    /// are well-formed.
    pub fn from_entries(entries: Vec<(String, ModelStats)>) -> (r: StatsStore)
        requires
            forall|i: int, j: int|
                0 <= i < j < entries_view(entries@).len() ==> (#[trigger] entries_view(entries@)[i]).0
                    != (#[trigger] entries_view(entries@)[j]).0,
            forall|i: int|
                0 <= i < entries_view(entries@).len() ==> (#[trigger] entries_view(
                    entries@,
                )[i]).1.wf(),
        ensures
            r.entries_seq() == entries_view(entries@),
            r.wf(),
    {
        let r = StatsStore { entries };
        proof {
            assert(r.entries_seq() =~= entries_view(r.entries@));
        }
        r
    }

    /// An empty store.
    pub fn new() -> (r: StatsStore)
        ensures
            r.entries_seq() == Seq::<(Seq<char>, ModelStats)>::empty(),
            r.wf(),
    {
        let r = StatsStore { entries: Vec::new() };
        proof {
            assert(r.entries_seq() =~= Seq::<(Seq<char>, ModelStats)>::empty());
        }
        r
    }

    /// How many models are tracked.
    pub fn len(&self) -> (n: usize)
        ensures
            n == self.entries_seq().len(),
    {
        self.entries.len()
    }

    /// The identifier of the entry at `i`.
    pub fn key_at(&self, i: usize) -> (k: &String)
        requires
            i < self.entries_seq().len(),
        ensures
            k@ == self.entries_seq()[i as int].0,
    {
        &self.entries[i].0
    }

    /// The stats of the entry at `i`.
    pub fn stats_at(&self, i: usize) -> (st: ModelStats)
        requires
            i < self.entries_seq().len(),
        ensures
            st == self.entries_seq()[i as int].1,
    {
        self.entries[i].1
    }

    fn find(&self, model: &str) -> (r: Option<usize>)
        ensures
            match r {
                Some(i) => i == key_index(self.entries_seq(), model@) && i
                    < self.entries_seq().len(),
                None => !self.spec_has(model@),
            },
    {
        let ghost s = self.entries_seq();
        let n = self.entries.len();
        let mut i: usize = 0;
        while i < n
            invariant
                0 <= i <= n,
                n == s.len(),
                s == self.entries_seq(),
                forall|j: int| 0 <= j < i ==> (#[trigger] s[j]).0 != model@,
            decreases n - i,
        {
            if str_eq(self.entries[i].0.as_str(), model) {
                proof {
                    assert(s[i as int] == (self.entries@[i as int].0@, self.entries@[i as int].1));
                    lemma_key_index(s, model@);
                    let ki = key_index(s, model@);
                    if ki < i {
                        assert(s[ki].0 != model@);
                    }
                }
                return Some(i);
            }
            i = i + 1;
        }
        proof {
            lemma_key_index(s, model@);
        }
        None
    }

    /// The stats recorded for `model`, if any.
    pub fn get(&self, model: &str) -> (r: Option<ModelStats>)
        ensures
            r == self.spec_get(model@),
    {
        match self.find(model) {
            Some(i) => Some(self.entries[i].1),
            None => None,
        }
    }

    /// Stores `st` under `model`: an existing entry is replaced in place,
    /// a new key is appended at the end.
    pub fn set_stats(&mut self, model: &String, st: ModelStats)
        requires
            old(self).wf(),
            st.wf(),
        ensures
            final(self).wf(),
            old(self).spec_has(model@) ==> final(self).entries_seq() == old(
                self,
            ).entries_seq().update(key_index(old(self).entries_seq(), model@), (model@, st)),
            !old(self).spec_has(model@) ==> final(self).entries_seq() == old(
                self,
            ).entries_seq().push((model@, st)),
            final(self).spec_get(model@) == Some(st),
            forall|k: Seq<char>|
                k != model@ ==> #[trigger] final(self).spec_get(k) == old(self).spec_get(k),
    {
        let ghost s0 = self.entries_seq();
        proof {
            lemma_key_index(s0, model@);
        }
        match self.find(model) {
            Some(i) => {
                self.entries[i] = (model.clone(), st);
                proof {
                    let s1 = self.entries_seq();
                    assert(s1 =~= s0.update(i as int, (model@, st)));
                    lemma_key_index(s1, model@);
                    assert(key_index(s1, model@) == i) by {
                        lemma_key_index_frame(s0, s1, model@);
                    }
                    assert forall|k: Seq<char>| k != model@ implies #[trigger] self.spec_get(k)
                        == old(self).spec_get(k) by {
                        lemma_key_index(s0, k);
                        lemma_key_index(s1, k);
                        assert forall|j: int| 0 <= j < s0.len() implies ((#[trigger] s0[j]).0 == k
                            <==> (#[trigger] s1[j]).0 == k) by {
                            if j == i {
                                assert(s0[j].0 == model@ && s1[j].0 == model@);
                            }
                        }
                        lemma_key_index_frame(s0, s1, k);
                        let a = key_index(s0, k);
                        if a < s0.len() {
                            assert(s0[a].0 == k);
                            assert(a != i);
                            assert(s1[a].1 == s0[a].1);
                        }
                    }
                }
            },
            None => {
                self.entries.push((model.clone(), st));
                proof {
                    let s1 = self.entries_seq();
                    assert(s1 =~= s0.push((model@, st)));
                    lemma_key_index(s1, model@);
                    let ki = key_index(s1, model@);
                    if ki < s0.len() {
                        assert(s1[ki] == s0[ki]);
                        assert(s0[ki].0 != model@);
                    }
                    if ki == s1.len() {
                        assert(s1[s0.len() as int].0 == model@);
                    }
                    assert(ki == s0.len());
                    assert(s1[ki].1 == st);
                    assert forall|k: Seq<char>| k != model@ implies #[trigger] self.spec_get(k)
                        == old(self).spec_get(k) by {
                        lemma_key_index(s0, k);
                        lemma_key_index(s1, k);
                        let a = key_index(s0, k);
                        let b = key_index(s1, k);
                        if a < s0.len() {
                            assert(s1[a] == s0[a]);
                            if b < a {
                                assert(s1[b] == s0[b]);
                                assert(s0[b].0 != k);
                            }
                            if b > a {
                                assert(s1[a].0 != k);
                            }
                            assert(b == a);
                        } else {
                            if b < s1.len() {
                                if b < s0.len() {
                                    assert(s1[b] == s0[b]);
                                    assert(s0[b].0 != k);
                                } else {
                                    assert(s1[b].0 == model@);
                                }
                                assert(false);
                            }
                        }
                    }
                    assert forall|a: int, b: int|
                        0 <= a < b < s1.len() implies (#[trigger] s1[a]).0 != (
                    #[trigger] s1[b]).0 by {
                        if b < s1.len() - 1 {
                            assert(s1[a] == s0[a] && s1[b] == s0[b]);
                        } else {
                            assert(s1[b].0 == model@);
                            assert(s0[a].0 != model@);
                        }
                    }
                }
            },
        }
    }
    /// Releases every tracked model from jail and blacklist, leaving all
    /// other fields as they were.
    pub fn release_all(&mut self)
        requires
            old(self).wf(),
        ensures
            final(self).wf(),
            final(self).entries_seq().len() == old(self).entries_seq().len(),
            forall|i: int|
                0 <= i < old(self).entries_seq().len() ==> #[trigger] final(self).entries_seq()[i]
                    == (old(self).entries_seq()[i].0, spec_unjail(old(self).entries_seq()[i].1)),
    {
        let ghost s0 = self.entries_seq();
        let n = self.entries.len();
        let mut i: usize = 0;
        while i < n
            invariant
                0 <= i <= n,
                n == s0.len(),
                self.entries_seq().len() == s0.len(),
                forall|j: int|
                    0 <= j < i ==> #[trigger] self.entries_seq()[j] == (
                    s0[j].0,
                    spec_unjail(s0[j].1),
                    ),
                forall|j: int| i <= j < n ==> #[trigger] self.entries_seq()[j] == s0[j],
            decreases n - i,
        {
            proof {
                assert(self.entries_seq()[i as int] == (
                    self.entries@[i as int].0@,
                    self.entries@[i as int].1,
                ));
            }
            let k = self.entries[i].0.clone();
            let ghost kv = k@;
            let mut st = self.entries[i].1;
            st.jail_until = None;
            st.blacklisted = false;
            st.jail_count = 0;
            let ghost stv = st;
            let ghost sprev = self.entries_seq();
            let ghost eprev = self.entries@;
            proof {
                assert(kv == s0[i as int].0);
                assert(stv == spec_unjail(s0[i as int].1));
            }
            self.entries[i] = (k, st);
            proof {
                assert forall|j: int| 0 <= j < n && j != i implies #[trigger] self.entries_seq()[j]
                    == sprev[j] by {
                    assert(self.entries@[j] == eprev[j]);
                    assert(self.entries_seq()[j] == (self.entries@[j].0@, self.entries@[j].1));
                    assert(sprev[j] == (eprev[j].0@, eprev[j].1));
                }
                assert(self.entries@[i as int].1 == stv);
                assert(self.entries@[i as int].0@ == kv);
                assert(self.entries_seq()[i as int] == (
                    self.entries@[i as int].0@,
                    self.entries@[i as int].1,
                ));
                assert(self.entries_seq()[i as int] == (s0[i as int].0, spec_unjail(s0[i as int].1)));
            }
            i = i + 1;
        }
        proof {
            assert forall|a: int, b: int|
                0 <= a < b < self.entries_seq().len() implies (#[trigger] self.entries_seq()[a]).0
                != (#[trigger] self.entries_seq()[b]).0 by {
                assert(self.entries_seq()[a].0 == s0[a].0);
                assert(self.entries_seq()[b].0 == s0[b].0);
            }
        }
    }

    /// Releases one model from jail and blacklist; reports whether the
    /// model was tracked at all.
    pub fn release(&mut self, model: &str) -> (found: bool)
        requires
            old(self).wf(),
        ensures
            final(self).wf(),
            found == old(self).spec_has(model@),
            old(self).spec_has(model@) ==> final(self).entries_seq() == old(
                self,
            ).entries_seq().update(
                key_index(old(self).entries_seq(), model@),
                (
                    model@,
                    spec_unjail(old(self).entries_seq()[key_index(old(self).entries_seq(), model@)].1),
                ),
            ),
            !old(self).spec_has(model@) ==> *final(self) == *old(self),
    {
        let ghost s0 = self.entries_seq();
        proof {
            lemma_key_index(s0, model@);
        }
        match self.find(model) {
            Some(i) => {
                let k = self.entries[i].0.clone();
                let mut st = self.entries[i].1;
                st.jail_until = None;
                st.blacklisted = false;
                st.jail_count = 0;
                self.entries[i] = (k, st);
                proof {
                    let s1 = self.entries_seq();
                    assert(s0[i as int].0 == model@);
                    assert(s1 =~= s0.update(i as int, (model@, spec_unjail(s0[i as int].1))));
                    assert forall|a: int, b: int|
                        0 <= a < b < s1.len() implies (#[trigger] s1[a]).0 != (
                    #[trigger] s1[b]).0 by {
                        assert(s1[a].0 == s0[a].0);
                        assert(s1[b].0 == s0[b].0);
                    }
                }
                true
            },
            None => false,
        }
    }
}

/// Two stores that agree on which positions carry `k` have the same first
/// index for `k`.
proof fn lemma_key_index_frame(s0: Seq<(Seq<char>, ModelStats)>, s1: Seq<(Seq<char>, ModelStats)>, k: Seq<char>)
    requires
        s0.len() == s1.len(),
        forall|j: int| 0 <= j < s0.len() ==> ((#[trigger] s0[j]).0 == k <==> (#[trigger] s1[j]).0 == k),
    ensures
        key_index(s0, k) == key_index(s1, k),
    decreases s0.len(),
{
    if s0.len() > 0 {
        assert(s0[0].0 == k <==> s1[0].0 == k);
        if s0[0].0 != k {
            lemma_key_index_frame(s0.drop_first(), s1.drop_first(), k);
            assert forall|j: int| 0 <= j < s0.drop_first().len() implies ((#[trigger] s0.drop_first()[
                j]).0 == k <==> (#[trigger] s1.drop_first()[j]).0 == k) by {
                assert(s0.drop_first()[j] == s0[j + 1]);
                assert(s1.drop_first()[j] == s1[j + 1]);
            }
        }
    }
}

} // verus!

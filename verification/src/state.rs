//! The persisted state of one rotating free-tier provider: credential,
//! generation parameters, the health store and the sticky last-used model,
//! together with the provider-level transitions the engine performs.

use vstd::prelude::*;
use crate::stats::ModelStats;
use crate::stats::default_stats;
use crate::stats::now_ok;
use crate::stats::record_model_failure;
use crate::stats::record_model_success;
use crate::stats::spec_record_failure;
use crate::stats::spec_record_success;
use crate::stats::spec_unjail;
use crate::store::StatsStore;
use crate::store::key_index;
use crate::store::lemma_key_index;
use crate::text::str_eq;
use vstd::string::StringExecFns;

verus! {

/// Everything persisted for one rotating free-tier provider.  The
/// sampling temperature is carried in thousandths, so that the whole
/// state is plain integer and string data.
#[derive(Clone, Debug, PartialEq, Eq)]
pub struct ProviderState {
    pub id: String,
    pub api_key: String,
    pub max_tokens: i32,
    pub temperature_milli: i32,
    pub model_stats: StatsStore,
    pub last_used_model: Option<String>,
}

/// The stats the store holds for `m`, with absent models read as the
/// all-zero default.
pub open spec fn stats_or_default(store: StatsStore, m: Seq<char>) -> ModelStats {
    match store.spec_get(m) {
        Some(st) => st,
        None => default_stats(),
    }
}

impl ProviderState {
    pub open spec fn wf(self) -> bool {
        self.model_stats.wf()
    }

    /// A fresh provider state with an empty health store.
    pub fn new(id: String, api_key: String, max_tokens: i32, temperature_milli: i32) -> (r:
        ProviderState)
        ensures
            r.wf(),
            r.id@ == id@,
            r.api_key@ == api_key@,
            r.max_tokens == max_tokens,
            r.temperature_milli == temperature_milli,
            r.model_stats.entries_seq().len() == 0,
            r.last_used_model is None,
    {
        ProviderState {
            id,
            api_key,
            max_tokens,
            temperature_milli,
            model_stats: StatsStore::new(),
            last_used_model: None,
        }
    }

    /// Records one successful call of `model` and makes it the sticky
    /// last-used model.  Every other model's stats are untouched.
    pub fn record_success(&mut self, model: &String, now: i64)
        requires
            old(self).wf(),
            now_ok(now),
            stats_or_default(old(self).model_stats, model@).success_count < u64::MAX,
        ensures
            final(self).wf(),
            final(self).model_stats.spec_get(model@) == Some(
                spec_record_success(stats_or_default(old(self).model_stats, model@), now),
            ),
            forall|k: Seq<char>|
                k != model@ ==> #[trigger] final(self).model_stats.spec_get(k) == old(
                    self,
                ).model_stats.spec_get(k),
            match final(self).last_used_model {
                Some(lu) => lu@ == model@,
                None => false,
            },
            final(self).id == old(self).id,
            final(self).api_key == old(self).api_key,
            final(self).max_tokens == old(self).max_tokens,
            final(self).temperature_milli == old(self).temperature_milli,
    {
        proof {
            lemma_stats_wf(old(self).model_stats, model@);
        }
        let mut st = match self.model_stats.get(model.as_str()) {
            Some(st) => st,
            None => ModelStats::default(),
        };
        record_model_success(&mut st, now);
        self.model_stats.set_stats(model, st);
        self.last_used_model = Some(model.clone());
    }

    /// Records one failed call of `model`, jailing or blacklisting it when
    /// the escalation rules say so.  Every other model's stats are
    /// untouched, and the sticky last-used model stays.
    pub fn record_failure(&mut self, model: &String, now: i64)
        requires
            old(self).wf(),
            now_ok(now),
            stats_or_default(old(self).model_stats, model@).failure_count < u64::MAX,
            stats_or_default(old(self).model_stats, model@).jail_count < u64::MAX,
        ensures
            final(self).wf(),
            final(self).model_stats.spec_get(model@) == Some(
                spec_record_failure(stats_or_default(old(self).model_stats, model@), now),
            ),
            forall|k: Seq<char>|
                k != model@ ==> #[trigger] final(self).model_stats.spec_get(k) == old(
                    self,
                ).model_stats.spec_get(k),
            final(self).last_used_model == old(self).last_used_model,
            final(self).id == old(self).id,
            final(self).api_key == old(self).api_key,
            final(self).max_tokens == old(self).max_tokens,
            final(self).temperature_milli == old(self).temperature_milli,
    {
        proof {
            lemma_stats_wf(old(self).model_stats, model@);
        }
        let mut st = match self.model_stats.get(model.as_str()) {
            Some(st) => st,
            None => ModelStats::default(),
        };
        record_model_failure(&mut st, now);
        self.model_stats.set_stats(model, st);
    }
}

/// The stats a well-formed store hands out are themselves well-formed.
pub proof fn lemma_stats_wf(store: StatsStore, m: Seq<char>)
    requires
        store.wf(),
    ensures
        stats_or_default(store, m).wf(),
        match store.spec_get(m) {
            Some(st) => st.wf(),
            None => true,
        },
{
    lemma_key_index(store.entries_seq(), m);
    if key_index(store.entries_seq(), m) < store.entries_seq().len() {
        assert(store.entries_seq()[key_index(store.entries_seq(), m)].1.wf());
    }
}

/// Manually releases `model_id` — or, for the wildcard `"*"`, every
/// tracked model — from jail and blacklist: the explicit escape hatch
/// overriding the automatic escalation.  A specific model that is not
/// tracked is reported as an error and nothing changes.
pub fn unjail_model(state: &mut ProviderState, model_id: &str) -> (r: Result<(), String>)
    requires
        old(state).wf(),
    ensures
        final(state).wf(),
        final(state).id == old(state).id,
        final(state).api_key == old(state).api_key,
        final(state).max_tokens == old(state).max_tokens,
        final(state).temperature_milli == old(state).temperature_milli,
        final(state).last_used_model == old(state).last_used_model,
        model_id@ == "*"@ ==> r is Ok && final(state).model_stats.entries_seq().len() == old(state).model_stats.entries_seq().len() && (forall|i: int|
            0 <= i < old(state).model_stats.entries_seq().len()
                ==> #[trigger] final(state).model_stats.entries_seq()[i] == (
            old(state).model_stats.entries_seq()[i].0,
            spec_unjail(old(state).model_stats.entries_seq()[i].1),
            )),
        model_id@ != "*"@ && old(state).model_stats.spec_has(model_id@) ==> r is Ok && final(state).model_stats.entries_seq() == old(state).model_stats.entries_seq().update(
            key_index(old(state).model_stats.entries_seq(), model_id@),
            (
                model_id@,
                spec_unjail(
                    old(state).model_stats.entries_seq()[key_index(
                        old(state).model_stats.entries_seq(),
                        model_id@,
                    )].1,
                ),
            ),
        ),
        model_id@ != "*"@ && !old(state).model_stats.spec_has(model_id@) ==> r is Err && final(state).model_stats.entries_seq() == old(state).model_stats.entries_seq(),
{
    if str_eq(model_id, "*") {
        state.model_stats.release_all();
        Ok(())
    } else if state.model_stats.release(model_id) {
        Ok(())
    } else {
        let mut msg = String::new();
        msg.append("Model '");
        msg.append(model_id);
        msg.append("' not found in statistics");
        Err(msg)
    }
}

/// Manually releases every tracked model from jail and blacklist.
pub fn unjail_all_models(state: &mut ProviderState) -> (r: Result<(), String>)
    requires
        old(state).wf(),
    ensures
        final(state).wf(),
        r is Ok,
        final(state).model_stats.entries_seq().len() == old(state).model_stats.entries_seq().len(),
        forall|i: int|
            0 <= i < old(state).model_stats.entries_seq().len()
                ==> #[trigger] final(state).model_stats.entries_seq()[i] == (
            old(state).model_stats.entries_seq()[i].0,
            spec_unjail(old(state).model_stats.entries_seq()[i].1),
            ),
        final(state).last_used_model == old(state).last_used_model,
        final(state).id == old(state).id,
        final(state).api_key == old(state).api_key,
        final(state).max_tokens == old(state).max_tokens,
        final(state).temperature_milli == old(state).temperature_milli,
{
    unjail_model(state, "*")
}

} // verus!

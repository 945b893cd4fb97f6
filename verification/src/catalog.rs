//! Classification of the remote model catalog: which offered models count
//! as free, and the fall-back to the static preference list when the
//! catalog cannot be used.
//!
//! A catalog entry holds, as plain values, everything the rules read from
//! one remote model descriptor.  Prices are carried in nano-units per
//! token (a price of 0.0001 is 100,000 nano-units); an absent price field
//! is `None` and never counts as free.

use vstd::prelude::*;
use crate::prefs::fallback_to_preferred_models;
use crate::prefs::spec_preferred_models;
use crate::text::contains_sub;
use crate::text::spec_contains;

verus! {

/// Largest price, in nano-units per token, still accepted as "effectively
/// free" by the relaxed second classification pass.
pub const FREE_PRICE_EPSILON_NANO: u64 = 100_000;

/// What the classification reads from one remote model descriptor.
pub struct CatalogEntry {
    /// The model identifier.
    pub id: String,
    /// An explicit free-tier boolean, when the descriptor carries one.
    pub free_flag: Option<bool>,
    /// A free-quota token count, when the descriptor carries one.
    pub free_tokens: Option<u64>,
    /// Prompt price in nano-units; `None` when absent or unreadable.
    pub prompt_price_nano: Option<u64>,
    /// Completion price in nano-units; `None` when absent or unreadable.
    pub completion_price_nano: Option<u64>,
}

/// First classification pass: an entry is free when its identifier carries
/// the free-tier marker, its free flag is set, it has a non-zero free
/// quota, or both its prices are exactly zero.
pub open spec fn spec_is_free(e: CatalogEntry) -> bool {
    ||| spec_contains(e.id@, ":free"@)
    ||| e.free_flag == Some(true)
    ||| match e.free_tokens {
        Some(t) => t > 0,
        None => false,
    }
    ||| (e.prompt_price_nano == Some(0u64) && e.completion_price_nano == Some(0u64))
}

/// Relaxed second pass: both prices are present and at most the epsilon.
pub open spec fn spec_is_nearly_free(e: CatalogEntry) -> bool {
    match (e.prompt_price_nano, e.completion_price_nano) {
        (Some(p), Some(c)) => p <= FREE_PRICE_EPSILON_NANO && c <= FREE_PRICE_EPSILON_NANO,
        _ => false,
    }
}

pub open spec fn free_entry_pred() -> spec_fn(CatalogEntry) -> bool {
    |e: CatalogEntry| spec_is_free(e)
}

pub open spec fn nearly_free_entry_pred() -> spec_fn(CatalogEntry) -> bool {
    |e: CatalogEntry| spec_is_nearly_free(e)
}

pub open spec fn entry_id(e: CatalogEntry) -> Seq<char> {
    e.id@
}

/// The identifiers picked from a fetched catalog: every entry the first
/// pass accepts, in catalog order; only when that yields nothing, every
/// entry the relaxed pass accepts.
pub open spec fn spec_free_model_ids(entries: Seq<CatalogEntry>) -> Seq<Seq<char>> {
    let strict = entries.filter(free_entry_pred()).map_values(|e: CatalogEntry| entry_id(e));
    if strict.len() > 0 {
        strict
    } else {
        entries.filter(nearly_free_entry_pred()).map_values(|e: CatalogEntry| entry_id(e))
    }
}

/// Checks one entry against the first classification pass.
pub fn is_free_entry(e: &CatalogEntry) -> (r: bool)
    ensures
        r == spec_is_free(*e),
{
    if contains_sub(e.id.as_str(), ":free") {
        return true;
    }
    match e.free_flag {
        Some(true) => {
            return true;
        },
        _ => {},
    }
    match e.free_tokens {
        Some(t) => if t > 0 {
            return true;
        },
        None => {},
    }
    match (e.prompt_price_nano, e.completion_price_nano) {
        (Some(p), Some(c)) => p == 0 && c == 0,
        _ => false,
    }
}

/// Checks one entry against the relaxed second pass.
pub fn is_nearly_free_entry(e: &CatalogEntry) -> (r: bool)
    ensures
        r == spec_is_nearly_free(*e),
{
    match (e.prompt_price_nano, e.completion_price_nano) {
        (Some(p), Some(c)) => p <= FREE_PRICE_EPSILON_NANO && c <= FREE_PRICE_EPSILON_NANO,
        _ => false,
    }
}

#[verifier::loop_isolation(false)]
fn filter_free_ids(entries: &Vec<CatalogEntry>, relaxed: bool) -> (r: Vec<String>)
    ensures
        !relaxed ==> r.deep_view() == entries@.filter(free_entry_pred()).map_values(
            |e: CatalogEntry| entry_id(e),
        ),
        relaxed ==> r.deep_view() == entries@.filter(nearly_free_entry_pred()).map_values(
            |e: CatalogEntry| entry_id(e),
        ),
{
    let ghost pred = if relaxed {
        nearly_free_entry_pred()
    } else {
        free_entry_pred()
    };
    let n = entries.len();
    let mut out: Vec<String> = Vec::new();
    let mut i: usize = 0;
    proof {
        assert(entries@.take(0).filter(pred) =~= Seq::<CatalogEntry>::empty());
        assert(out.deep_view() =~= Seq::<CatalogEntry>::empty().map_values(
            |e: CatalogEntry| entry_id(e),
        ));
    }
    while i < n
        invariant
            0 <= i <= n,
            out.deep_view() == entries@.take(i as int).filter(pred).map_values(
                |e: CatalogEntry| entry_id(e),
            ),
        decreases n - i,
    {
        let e = &entries[i];
        let hit = if relaxed {
            is_nearly_free_entry(e)
        } else {
            is_free_entry(e)
        };
        let ghost out0 = out.deep_view();
        if hit {
            out.push(e.id.clone());
            proof {
                assert(out.deep_view() =~= out0.push(entry_id(*e)));
            }
        }
        proof {
            reveal(Seq::filter);
            assert(entries@.take(i + 1).drop_last() =~= entries@.take(i as int));
            assert(entries@.take(i + 1).last() == entries@[i as int]);
            if pred(entries@[i as int]) {
                assert(entries@.take(i + 1).filter(pred) == entries@.take(i as int).filter(
                    pred,
                ).push(entries@[i as int]));
                assert(entries@.take(i + 1).filter(pred).map_values(
                    |e: CatalogEntry| entry_id(e),
                ) =~= out0.push(entry_id(entries@[i as int])));
            } else {
                assert(entries@.take(i + 1).filter(pred) == entries@.take(i as int).filter(pred));
            }
        }
        i = i + 1;
    }
    proof {
        assert(entries@.take(n as int) =~= entries@);
    }
    out
}

/// The identifiers of the free models of a fetched catalog, in catalog
/// order (see [`spec_free_model_ids`]).
pub fn select_free_models(entries: &Vec<CatalogEntry>) -> (r: Vec<String>)
    ensures
        r.deep_view() == spec_free_model_ids(entries@),
{
    let strict = filter_free_ids(entries, false);
    if strict.len() > 0 {
        strict
    } else {
        proof {
            assert(entries@.filter(free_entry_pred()).map_values(
                |e: CatalogEntry| entry_id(e),
            ).len() == 0);
        }
        filter_free_ids(entries, true)
    }
}

/// The candidate list resolved from one catalog fetch outcome.
///
/// A fetch that failed, timed out or was skipped (`None`) degrades to the
/// static preference list, as does a catalog in which no entry counts as
/// free.  Resolution never fails: the only error this interface admits —
/// an empty fallback list — cannot arise.
pub open spec fn spec_resolved_models(fetched: Option<Seq<CatalogEntry>>) -> Seq<Seq<char>> {
    match fetched {
        None => spec_preferred_models(),
        Some(entries) => {
            let ids = spec_free_model_ids(entries);
            if ids.len() == 0 {
                spec_preferred_models()
            } else {
                ids
            }
        },
    }
}

/// Resolves the candidate models from what a catalog fetch returned
/// (`None` when the fetch was skipped or failed).
pub fn get_available_free_models(fetched: Option<Vec<CatalogEntry>>) -> (r: Result<
    Vec<String>,
    String,
>)
    ensures
        r is Ok,
        match r {
            Ok(v) => v.deep_view() == spec_resolved_models(
                match fetched {
                    None => None,
                    Some(e) => Some(e@),
                },
            ),
            Err(_) => false,
        },
{
    match fetched {
        None => fallback_to_preferred_models(),
        Some(entries) => {
            let ids = select_free_models(&entries);
            if ids.len() == 0 {
                fallback_to_preferred_models()
            } else {
                Ok(ids)
            }
        },
    }
}

} // verus!

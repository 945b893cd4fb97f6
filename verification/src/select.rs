//! The selection algorithm: given the candidate catalog, the health store,
//! a ranked preference list and the sticky last-used model, pick the model
//! to try next.
//!
//! The tie-break order is: sticky last-used model, first available entry of
//! the preference list, largest available candidate by the size read from
//! its identifier, jailed (not blacklisted) candidate whose jail expires
//! soonest, any candidate at all, nothing.

use vstd::prelude::*;
use crate::stats::ModelStats;
use crate::stats::now_ok;
use crate::stats::spec_available;
use crate::stats::is_model_available;
use crate::store::StatsStore;
use crate::store::key_index;
use crate::store::lemma_key_index;
use crate::text::ascii_lowercase;
use crate::text::contains_sub;
use crate::text::spec_contains;
use crate::text::spec_lower;
use crate::text::str_eq;

verus! {

/// Estimated parameter count, in billions, of the model whose lower-cased
/// identifier is `s`: the first size token of the fixed table that occurs
/// in it, else a coarse guess from qualitative size words, else zero.
pub open spec fn spec_size_of_lower(s: Seq<char>) -> u32 {
    if spec_contains(s, "253b"@) {
        253
    } else if spec_contains(s, "235b"@) {
        235
    } else if spec_contains(s, "200b"@) {
        200
    } else if spec_contains(s, "124b"@) {
        124
    } else if spec_contains(s, "70b"@) {
        70
    } else if spec_contains(s, "80b"@) {
        80
    } else if spec_contains(s, "90b"@) {
        90
    } else if spec_contains(s, "72b"@) {
        72
    } else if spec_contains(s, "65b"@) {
        65
    } else if spec_contains(s, "40b"@) {
        40
    } else if spec_contains(s, "32b"@) {
        32
    } else if spec_contains(s, "30b"@) {
        30
    } else if spec_contains(s, "24b"@) {
        24
    } else if spec_contains(s, "20b"@) {
        20
    } else if spec_contains(s, "16b"@) {
        16
    } else if spec_contains(s, "14b"@) {
        14
    } else if spec_contains(s, "13b"@) {
        13
    } else if spec_contains(s, "12b"@) {
        12
    } else if spec_contains(s, "11b"@) {
        11
    } else if spec_contains(s, "10b"@) {
        10
    } else if spec_contains(s, "9b"@) {
        9
    } else if spec_contains(s, "8b"@) {
        8
    } else if spec_contains(s, "7b"@) {
        7
    } else if spec_contains(s, "6b"@) {
        6
    } else if spec_contains(s, "5b"@) {
        5
    } else if spec_contains(s, "4b"@) {
        4
    } else if spec_contains(s, "3b"@) {
        3
    } else if spec_contains(s, "2b"@) {
        2
    } else if spec_contains(s, "1b"@) {
        1
    } else if spec_contains(s, "large"@) || spec_contains(s, "ultra"@) {
        15
    } else if spec_contains(s, "medium"@) {
        10
    } else if spec_contains(s, "small"@) || spec_contains(s, "tiny"@) {
        5
    } else {
        0
    }
}

pub open spec fn spec_model_size(name: Seq<char>) -> u32 {
    spec_size_of_lower(spec_lower(name))
}

/// Reads an estimated parameter count out of a model identifier, such as
/// the 70 of a "-70b" suffix.
pub fn extract_model_size(model_name: &str) -> (size: u32)
    ensures
        size == spec_model_size(model_name@),
{
    let lower = ascii_lowercase(model_name);
    let l = lower.as_str();
    if contains_sub(l, "253b") {
        253
    } else if contains_sub(l, "235b") {
        235
    } else if contains_sub(l, "200b") {
        200
    } else if contains_sub(l, "124b") {
        124
    } else if contains_sub(l, "70b") {
        70
    } else if contains_sub(l, "80b") {
        80
    } else if contains_sub(l, "90b") {
        90
    } else if contains_sub(l, "72b") {
        72
    } else if contains_sub(l, "65b") {
        65
    } else if contains_sub(l, "40b") {
        40
    } else if contains_sub(l, "32b") {
        32
    } else if contains_sub(l, "30b") {
        30
    } else if contains_sub(l, "24b") {
        24
    } else if contains_sub(l, "20b") {
        20
    } else if contains_sub(l, "16b") {
        16
    } else if contains_sub(l, "14b") {
        14
    } else if contains_sub(l, "13b") {
        13
    } else if contains_sub(l, "12b") {
        12
    } else if contains_sub(l, "11b") {
        11
    } else if contains_sub(l, "10b") {
        10
    } else if contains_sub(l, "9b") {
        9
    } else if contains_sub(l, "8b") {
        8
    } else if contains_sub(l, "7b") {
        7
    } else if contains_sub(l, "6b") {
        6
    } else if contains_sub(l, "5b") {
        5
    } else if contains_sub(l, "4b") {
        4
    } else if contains_sub(l, "3b") {
        3
    } else if contains_sub(l, "2b") {
        2
    } else if contains_sub(l, "1b") {
        1
    } else if contains_sub(l, "large") || contains_sub(l, "ultra") {
        15
    } else if contains_sub(l, "medium") {
        10
    } else if contains_sub(l, "small") || contains_sub(l, "tiny") {
        5
    } else {
        0
    }
}

/// The stats the store holds for `m`, if any, as the availability rule
/// sees them.
pub open spec fn spec_model_available(store: StatsStore, m: Seq<char>, now: i64) -> bool {
    spec_available(store.spec_get(m), now)
}

/// Whether `m` is recorded as jailed but not blacklisted.
pub open spec fn spec_jailed_not_blacklisted(store: StatsStore, m: Seq<char>) -> bool {
    match store.spec_get(m) {
        Some(st) => !st.blacklisted && st.jail_until is Some,
        None => false,
    }
}

/// The jail expiry recorded for `m` (zero when none is).
pub open spec fn spec_jail_expiry(store: StatsStore, m: Seq<char>) -> i64 {
    match store.spec_get(m) {
        Some(st) => match st.jail_until {
            Some(t) => t,
            None => 0,
        },
        None => 0,
    }
}

/// Checks a model against the store and the availability rule.
pub fn model_available(stats: &StatsStore, m: &str, now: i64) -> (r: bool)
    requires
        stats.wf(),
        now_ok(now),
    ensures
        r == spec_model_available(*stats, m@, now),
{
    proof {
        lemma_key_index(stats.entries_seq(), m@);
        if key_index(stats.entries_seq(), m@) < stats.entries_seq().len() {
            assert(stats.entries_seq()[key_index(stats.entries_seq(), m@)].1.wf());
        }
    }
    match stats.get(m) {
        Some(st) => is_model_available(Some(&st), now),
        None => is_model_available(None, now),
    }
}

/// Membership of `x` among the viewed strings of `v`.
pub fn vec_contains_str(v: &Vec<String>, x: &str) -> (r: bool)
    ensures
        r == v.deep_view().contains(x@),
{
    let n = v.len();
    let mut i: usize = 0;
    while i < n
        invariant
            0 <= i <= n,
            n == v@.len(),
            forall|j: int| 0 <= j < i ==> v.deep_view()[j] != x@,
        decreases n - i,
    {
        if str_eq(v[i].as_str(), x) {
            proof {
                assert(v.deep_view()[i as int] == x@);
            }
            return true;
        }
        i = i + 1;
    }
    proof {
        assert forall|j: int| 0 <= j < v.deep_view().len() implies v.deep_view()[j] != x@ by {}
    }
    false
}

/// Index of the first entry of `prefs` that is both offered in `cands` and
/// available, or `prefs.len()` when none is.
pub open spec fn spec_first_pref(
    cands: Seq<Seq<char>>,
    store: StatsStore,
    prefs: Seq<Seq<char>>,
    now: i64,
) -> int
    decreases prefs.len(),
{
    if prefs.len() == 0 {
        0
    } else if cands.contains(prefs[0]) && spec_model_available(store, prefs[0], now) {
        0
    } else {
        1 + spec_first_pref(cands, store, prefs.drop_first(), now)
    }
}

pub proof fn lemma_first_pref(
    cands: Seq<Seq<char>>,
    store: StatsStore,
    prefs: Seq<Seq<char>>,
    now: i64,
)
    ensures
        0 <= spec_first_pref(cands, store, prefs, now) <= prefs.len(),
        spec_first_pref(cands, store, prefs, now) < prefs.len() ==> cands.contains(
            prefs[spec_first_pref(cands, store, prefs, now)],
        ) && spec_model_available(store, prefs[spec_first_pref(cands, store, prefs, now)], now),
        forall|j: int|
            0 <= j < spec_first_pref(cands, store, prefs, now) ==> !(cands.contains(
                #[trigger] prefs[j],
            ) && spec_model_available(store, prefs[j], now)),
    decreases prefs.len(),
{
    if prefs.len() > 0 && !(cands.contains(prefs[0]) && spec_model_available(store, prefs[0], now)) {
        lemma_first_pref(cands, store, prefs.drop_first(), now);
        assert forall|j: int| 0 <= j < spec_first_pref(cands, store, prefs, now) implies !(
        cands.contains(#[trigger] prefs[j]) && spec_model_available(store, prefs[j], now)) by {
            if j > 0 {
                assert(prefs.drop_first()[j - 1] == prefs[j]);
            }
        }
        if spec_first_pref(cands, store, prefs, now) < prefs.len() {
            assert(prefs.drop_first()[spec_first_pref(cands, store, prefs.drop_first(), now)]
                == prefs[spec_first_pref(cands, store, prefs, now)]);
        }
    }
}

/// Index of the first element of `s` whose estimated size is maximal.
pub open spec fn spec_best_size_index(s: Seq<Seq<char>>) -> int
    decreases s.len(),
{
    if s.len() <= 1 {
        0
    } else {
        let r = spec_best_size_index(s.drop_last());
        if spec_model_size(s.last()) > spec_model_size(s[r]) {
            s.len() - 1
        } else {
            r
        }
    }
}

pub proof fn lemma_best_size_index(s: Seq<Seq<char>>)
    requires
        s.len() > 0,
    ensures
        0 <= spec_best_size_index(s) < s.len(),
        forall|j: int|
            0 <= j < s.len() ==> spec_model_size(#[trigger] s[j]) <= spec_model_size(
                s[spec_best_size_index(s)],
            ),
        forall|j: int|
            0 <= j < spec_best_size_index(s) ==> spec_model_size(#[trigger] s[j]) < spec_model_size(
                s[spec_best_size_index(s)],
            ),
    decreases s.len(),
{
    if s.len() > 1 {
        let r = spec_best_size_index(s);
        let dl = s.drop_last();
        let rp = spec_best_size_index(dl);
        lemma_best_size_index(dl);
        assert(dl[rp] == s[rp]);
        assert forall|j: int| 0 <= j < s.len() implies spec_model_size(#[trigger] s[j])
            <= spec_model_size(s[r]) by {
            if j < s.len() - 1 {
                assert(s[j] == dl[j]);
                assert(spec_model_size(dl[j]) <= spec_model_size(dl[rp]));
            }
        }
        assert forall|j: int| 0 <= j < r implies spec_model_size(#[trigger] s[j])
            < spec_model_size(s[r]) by {
            assert(s[j] == dl[j]);
            if r == s.len() - 1 {
                assert(spec_model_size(dl[j]) <= spec_model_size(dl[rp]));
            } else {
                assert(spec_model_size(dl[j]) < spec_model_size(dl[rp]));
            }
        }
    }
}

/// Index of the first element of `s` whose recorded jail expiry is
/// soonest.
pub open spec fn spec_soonest_jail_index(store: StatsStore, s: Seq<Seq<char>>) -> int
    decreases s.len(),
{
    if s.len() <= 1 {
        0
    } else {
        let r = spec_soonest_jail_index(store, s.drop_last());
        if spec_jail_expiry(store, s.last()) < spec_jail_expiry(store, s[r]) {
            s.len() - 1
        } else {
            r
        }
    }
}

pub proof fn lemma_soonest_jail_index(store: StatsStore, s: Seq<Seq<char>>)
    requires
        s.len() > 0,
    ensures
        0 <= spec_soonest_jail_index(store, s) < s.len(),
        forall|j: int|
            0 <= j < s.len() ==> spec_jail_expiry(store, #[trigger] s[j]) >= spec_jail_expiry(
                store,
                s[spec_soonest_jail_index(store, s)],
            ),
        forall|j: int|
            0 <= j < spec_soonest_jail_index(store, s) ==> spec_jail_expiry(store, #[trigger] s[j])
                > spec_jail_expiry(store, s[spec_soonest_jail_index(store, s)]),
    decreases s.len(),
{
    if s.len() > 1 {
        let r = spec_soonest_jail_index(store, s);
        let dl = s.drop_last();
        let rp = spec_soonest_jail_index(store, dl);
        lemma_soonest_jail_index(store, dl);
        assert(dl[rp] == s[rp]);
        assert forall|j: int| 0 <= j < s.len() implies spec_jail_expiry(store, #[trigger] s[j])
            >= spec_jail_expiry(store, s[r]) by {
            if j < s.len() - 1 {
                assert(s[j] == dl[j]);
                assert(spec_jail_expiry(store, dl[j]) >= spec_jail_expiry(store, dl[rp]));
            }
        }
        assert forall|j: int| 0 <= j < r implies spec_jail_expiry(store, #[trigger] s[j])
            > spec_jail_expiry(store, s[r]) by {
            assert(s[j] == dl[j]);
            if r == s.len() - 1 {
                assert(spec_jail_expiry(store, dl[j]) >= spec_jail_expiry(store, dl[rp]));
            } else {
                assert(spec_jail_expiry(store, dl[j]) > spec_jail_expiry(store, dl[rp]));
            }
        }
    }
}

pub open spec fn avail_pred(store: StatsStore, now: i64) -> spec_fn(Seq<char>) -> bool {
    |m: Seq<char>| spec_model_available(store, m, now)
}

pub open spec fn jailed_pred(store: StatsStore) -> spec_fn(Seq<char>) -> bool {
    |m: Seq<char>| spec_jailed_not_blacklisted(store, m)
}

/// The model picked from `cands` given the health store, the ranked
/// preference list, the sticky last-used model and the time.
pub open spec fn spec_select(
    cands: Seq<Seq<char>>,
    store: StatsStore,
    prefs: Seq<Seq<char>>,
    last_used: Option<Seq<char>>,
    now: i64,
) -> Option<Seq<char>> {
    if last_used is Some && cands.contains(last_used->0) && spec_model_available(
        store,
        last_used->0,
        now,
    ) {
        Some(last_used->0)
    } else {
        let pi = spec_first_pref(cands, store, prefs, now);
        if pi < prefs.len() {
            Some(prefs[pi])
        } else {
            let avail = cands.filter(avail_pred(store, now));
            if avail.len() > 0 {
                Some(avail[spec_best_size_index(avail)])
            } else {
                let jailed = cands.filter(jailed_pred(store));
                if jailed.len() > 0 {
                    Some(jailed[spec_soonest_jail_index(store, jailed)])
                } else if cands.len() > 0 {
                    Some(cands[0])
                } else {
                    None
                }
            }
        }
    }
}

pub open spec fn view_opt_string(o: Option<String>) -> Option<Seq<char>> {
    match o {
        None => None,
        Some(s) => Some(s@),
    }
}

/// Checks whether `m` is recorded as jailed but not blacklisted, and hands
/// out the recorded expiry.
fn jailed_candidate(stats: &StatsStore, m: &str) -> (r: Option<i64>)
    ensures
        r is Some <==> spec_jailed_not_blacklisted(*stats, m@),
        r is Some ==> r->0 == spec_jail_expiry(*stats, m@),
{
    match stats.get(m) {
        Some(st) => {
            if !st.blacklisted {
                match st.jail_until {
                    Some(t) => Some(t),
                    None => None,
                }
            } else {
                None
            }
        },
        None => None,
    }
}

/// Picks the best currently eligible model.
///
/// The result is `None` exactly when `available_models` is empty;
/// otherwise it is the pick of the tie-break order described in
/// [`spec_select`].
#[verifier::loop_isolation(false)]
pub fn find_best_available_model(
    available_models: &Vec<String>,
    stats: &StatsStore,
    preferred: &Vec<String>,
    last_used: &Option<String>,
    now: i64,
) -> (r: Option<String>)
    requires
        stats.wf(),
        now_ok(now),
    ensures
        view_opt_string(r) == spec_select(
            available_models.deep_view(),
            *stats,
            preferred.deep_view(),
            match last_used {
                None => None,
                Some(lu) => Some(lu@),
            },
            now,
        ),
{
    let ghost cv = available_models.deep_view();
    let ghost pv = preferred.deep_view();

    // Sticky preference: keep using the model that worked last time.
    match last_used {
        Some(lu) => {
            if vec_contains_str(available_models, lu.as_str()) && model_available(
                stats,
                lu.as_str(),
                now,
            ) {
                return Some(lu.clone());
            }
        },
        None => {},
    }

    // Curated preference: first ranked entry that is offered and available.
    let np = preferred.len();
    let mut pi: usize = 0;
    while pi < np
        invariant
            0 <= pi <= np,
            np == pv.len(),
            pv == preferred.deep_view(),
            cv == available_models.deep_view(),
            stats.wf(),
            now_ok(now),
            forall|j: int|
                0 <= j < pi ==> !(cv.contains(#[trigger] pv[j]) && spec_model_available(
                    *stats,
                    pv[j],
                    now,
                )),
        decreases np - pi,
    {
        let p = &preferred[pi];
        proof {
            assert(pv[pi as int] == p@);
        }
        if vec_contains_str(available_models, p.as_str()) && model_available(
            stats,
            p.as_str(),
            now,
        ) {
            proof {
                lemma_first_pref(cv, *stats, pv, now);
                let fp = spec_first_pref(cv, *stats, pv, now);
                if fp < pi {
                    assert(!(cv.contains(pv[fp]) && spec_model_available(*stats, pv[fp], now)));
                }
                assert(fp == pi);
            }
            return Some(p.clone());
        }
        pi = pi + 1;
    }
    proof {
        lemma_first_pref(cv, *stats, pv, now);
        let fp = spec_first_pref(cv, *stats, pv, now);
        if fp < pv.len() {
            assert(!(cv.contains(pv[fp]) && spec_model_available(*stats, pv[fp], now)));
        }
        assert(fp == pv.len());
    }

    // Size heuristic: among the available candidates, the first largest.
    let ghost apred = avail_pred(*stats, now);
    let n = available_models.len();
    let mut av: Vec<String> = Vec::new();
    let mut i: usize = 0;
    proof {
        assert(cv.take(0).filter(apred) =~= Seq::<Seq<char>>::empty());
        assert(av.deep_view() =~= Seq::<Seq<char>>::empty());
    }
    while i < n
        invariant
            0 <= i <= n,
            n == cv.len(),
            cv == available_models.deep_view(),
            stats.wf(),
            now_ok(now),
            apred == avail_pred(*stats, now),
            av.deep_view() == cv.take(i as int).filter(apred),
        decreases n - i,
    {
        let m = &available_models[i];
        proof {
            assert(cv[i as int] == m@);
        }
        let ghost av0 = av.deep_view();
        if model_available(stats, m.as_str(), now) {
            av.push(m.clone());
            proof {
                assert(av.deep_view() =~= av0.push(m@));
            }
        }
        proof {
            reveal(Seq::filter);
            assert(cv.take(i + 1).drop_last() =~= cv.take(i as int));
            assert(cv.take(i + 1).last() == cv[i as int]);
            assert(av.deep_view() == cv.take(i + 1).filter(apred));
        }
        i = i + 1;
    }
    proof {
        assert(cv.take(n as int) =~= cv);
    }

    let na = av.len();
    if na > 0 {
        let ghost avv = av.deep_view();
        let mut best: usize = 0;
        let mut best_size = extract_model_size(av[0].as_str());
        proof {
            assert(avv[0] == av@[0]@);
        }
        let mut k: usize = 1;
        while k < na
            invariant
                1 <= k <= na,
                0 <= best < k,
                na == avv.len(),
                avv == av.deep_view(),
                best_size == spec_model_size(avv[best as int]),
                forall|j: int| 0 <= j < k ==> spec_model_size(#[trigger] avv[j]) <= best_size,
                forall|j: int| 0 <= j < best ==> spec_model_size(#[trigger] avv[j]) < best_size,
            decreases na - k,
        {
            proof {
                assert(avv[k as int] == av@[k as int]@);
            }
            let sz = extract_model_size(av[k].as_str());
            if sz > best_size {
                best = k;
                best_size = sz;
            }
            k = k + 1;
        }
        proof {
            lemma_best_size_index(avv);
            let r = spec_best_size_index(avv);
            assert(spec_model_size(avv[r]) <= best_size);
            assert(best_size <= spec_model_size(avv[r]));
            if best < r {
                assert(spec_model_size(avv[best as int]) < spec_model_size(avv[r]));
            }
            if r < best {
                assert(spec_model_size(avv[r]) < best_size);
            }
            assert(best == r);
        }
        return Some(av[best].clone());
    }

    // Degraded fallback: jailed-but-not-blacklisted model released soonest.
    let ghost jpred = jailed_pred(*stats);
    let mut jailed: Vec<String> = Vec::new();
    let mut ji: usize = 0;
    proof {
        assert(cv.take(0).filter(jpred) =~= Seq::<Seq<char>>::empty());
        assert(jailed.deep_view() =~= Seq::<Seq<char>>::empty());
    }
    while ji < n
        invariant
            0 <= ji <= n,
            n == cv.len(),
            cv == available_models.deep_view(),
            stats.wf(),
            jpred == jailed_pred(*stats),
            jailed.deep_view() == cv.take(ji as int).filter(jpred),
        decreases n - ji,
    {
        let m = &available_models[ji];
        proof {
            assert(cv[ji as int] == m@);
        }
        let ghost jv0 = jailed.deep_view();
        match jailed_candidate(stats, m.as_str()) {
            Some(_) => {
                jailed.push(m.clone());
                proof {
                    assert(jailed.deep_view() =~= jv0.push(m@));
                }
            },
            None => {},
        }
        proof {
            reveal(Seq::filter);
            assert(cv.take(ji + 1).drop_last() =~= cv.take(ji as int));
            assert(cv.take(ji + 1).last() == cv[ji as int]);
            assert(jailed.deep_view() == cv.take(ji + 1).filter(jpred));
        }
        ji = ji + 1;
    }
    proof {
        assert(cv.take(n as int) =~= cv);
    }

    let nj = jailed.len();
    if nj > 0 {
        let ghost jvv = jailed.deep_view();
        proof {
            assert(jvv[0] == jailed@[0]@);
            assert(cv.filter(jpred).contains(jvv[0])) by {
                assert(cv.filter(jpred)[0] == jvv[0]);
            }
            lemma_filter_member_pred(cv, jpred, 0);
        }
        let mut bestj: usize = 0;
        let mut best_expiry = match jailed_candidate(stats, jailed[0].as_str()) {
            Some(t) => t,
            None => 0,
        };
        let mut k: usize = 1;
        while k < nj
            invariant
                1 <= k <= nj,
                0 <= bestj < k,
                nj == jvv.len(),
                jvv == jailed.deep_view(),
                cv == available_models.deep_view(),
                stats.wf(),
                jpred == jailed_pred(*stats),
                jvv == cv.filter(jpred),
                best_expiry == spec_jail_expiry(*stats, jvv[bestj as int]),
                forall|j: int|
                    0 <= j < k ==> spec_jail_expiry(*stats, #[trigger] jvv[j]) >= best_expiry,
                forall|j: int|
                    0 <= j < bestj ==> spec_jail_expiry(*stats, #[trigger] jvv[j]) > best_expiry,
            decreases nj - k,
        {
            proof {
                assert(jvv[k as int] == jailed@[k as int]@);
                lemma_filter_member_pred(cv, jpred, k as int);
            }
            let expiry = match jailed_candidate(stats, jailed[k].as_str()) {
                Some(t) => t,
                None => 0,
            };
            if expiry < best_expiry {
                bestj = k;
                best_expiry = expiry;
            }
            k = k + 1;
        }
        proof {
            lemma_soonest_jail_index(*stats, jvv);
            let r = spec_soonest_jail_index(*stats, jvv);
            assert(spec_jail_expiry(*stats, jvv[r]) >= best_expiry);
            assert(spec_jail_expiry(*stats, jvv[bestj as int]) >= spec_jail_expiry(*stats, jvv[r]));
            if bestj < r {
                assert(spec_jail_expiry(*stats, jvv[bestj as int]) > best_expiry);
            }
            if r < bestj {
                assert(spec_jail_expiry(*stats, jvv[r]) > best_expiry);
            }
            assert(bestj == r);
        }
        return Some(jailed[bestj].clone());
    }

    // Last resort: any candidate at all, even a blacklisted one.
    if n > 0 {
        proof {
            assert(cv[0] == available_models@[0]@);
        }
        return Some(available_models[0].clone());
    }
    None
}

/// Every element of a filtered sequence satisfies the predicate.
proof fn lemma_filter_member_pred(s: Seq<Seq<char>>, pred: spec_fn(Seq<char>) -> bool, i: int)
    requires
        0 <= i < s.filter(pred).len(),
    ensures
        pred(s.filter(pred)[i]),
    decreases s.len(),
{
    reveal(Seq::filter);
    if s.len() > 0 {
        if i < s.drop_last().filter(pred).len() {
            lemma_filter_member_pred(s.drop_last(), pred, i);
        }
    }
}

/// Selection is deterministic: equal inputs always give the same pick.
pub proof fn lemma_select_deterministic(
    cands1: Seq<Seq<char>>,
    store1: StatsStore,
    prefs1: Seq<Seq<char>>,
    last_used1: Option<Seq<char>>,
    now1: i64,
    cands2: Seq<Seq<char>>,
    store2: StatsStore,
    prefs2: Seq<Seq<char>>,
    last_used2: Option<Seq<char>>,
    now2: i64,
)
    requires
        cands1 == cands2,
        store1 == store2,
        prefs1 == prefs2,
        last_used1 == last_used2,
        now1 == now2,
    ensures
        spec_select(cands1, store1, prefs1, last_used1, now1) == spec_select(
            cands2,
            store2,
            prefs2,
            last_used2,
            now2,
        ),
{
}

/// Admission control favours attempting over failing: a pick is missing
/// exactly when there is no candidate at all.
pub proof fn lemma_select_some_iff_candidates(
    cands: Seq<Seq<char>>,
    store: StatsStore,
    prefs: Seq<Seq<char>>,
    last_used: Option<Seq<char>>,
    now: i64,
)
    ensures
        spec_select(cands, store, prefs, last_used, now) is Some <==> cands.len() > 0,
{
    lemma_first_pref(cands, store, prefs, now);
    if cands.len() == 0 {
        let fp = spec_first_pref(cands, store, prefs, now);
        if fp < prefs.len() {
            assert(cands.contains(prefs[fp]));
        }
        cands.lemma_filter_len(avail_pred(store, now));
        cands.lemma_filter_len(jailed_pred(store));
    }
}

/// Sticky selection: an available last-used model that is still offered is
/// always picked, whatever its rank in the preference list.
pub proof fn lemma_sticky_selection(
    cands: Seq<Seq<char>>,
    store: StatsStore,
    prefs: Seq<Seq<char>>,
    lu: Seq<char>,
    now: i64,
)
    requires
        cands.contains(lu),
        spec_model_available(store, lu, now),
    ensures
        spec_select(cands, store, prefs, Some(lu), now) == Some(lu),
{
}

} // verus!

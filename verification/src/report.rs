//! The operator's status report: every tracked model grouped into active,
//! jailed and blacklisted, each line carrying its counters and
//! human-relative timestamps, each group sorted.

use vstd::prelude::*;
use vstd::multiset::Multiset;
use vstd::relations::sorted_by;
use crate::stats::ModelStats;
use crate::stats::SECONDS_PER_DAY;
use crate::stats::SECONDS_PER_HOUR;
use crate::stats::now_ok;
use crate::state::ProviderState;
use crate::text::format_u64;
use crate::text::spec_dec;
use vstd::string::StringExecFns;

verus! {

/// How one model stands right now.
#[derive(Clone, Copy, Debug, PartialEq, Eq, Structural)]
pub enum ModelCondition {
    Active,
    Jailed,
    Blacklisted,
}

/// The condition shown for a model: blacklisted beats jailed, and a jail
/// already expired counts as active.
pub open spec fn spec_condition(st: ModelStats, now: i64) -> ModelCondition {
    if st.blacklisted {
        ModelCondition::Blacklisted
    } else if st.jail_until is Some && now < st.jail_until->0 {
        ModelCondition::Jailed
    } else {
        ModelCondition::Active
    }
}

/// Classifies one model's stats.
pub fn model_condition(st: &ModelStats, now: i64) -> (c: ModelCondition)
    ensures
        c == spec_condition(*st, now),
{
    if st.blacklisted {
        ModelCondition::Blacklisted
    } else {
        match st.jail_until {
            Some(until) => if now < until {
                ModelCondition::Jailed
            } else {
                ModelCondition::Active
            },
            None => ModelCondition::Active,
        }
    }
}

/// Signed division truncating toward zero, as machine division does.
pub open spec fn tdiv(a: int, b: int) -> int
    recommends
        b > 0,
{
    if a >= 0 {
        a / b
    } else {
        -((-a) / b)
    }
}

/// The words of a human-relative age: whole days when at least one, else
/// whole hours, else whole minutes; "Never" without a timestamp.
pub open spec fn spec_relative_age(ts: Option<i64>, now: i64) -> Seq<char> {
    match ts {
        None => "Never"@,
        Some(t) => {
            let ago = now - t;
            if tdiv(ago, SECONDS_PER_DAY as int) > 0 {
                spec_dec(tdiv(ago, SECONDS_PER_DAY as int) as nat) + " days ago"@
            } else if tdiv(ago, SECONDS_PER_HOUR as int) > 0 {
                spec_dec(tdiv(ago, SECONDS_PER_HOUR as int) as nat) + " hours ago"@
            } else {
                let m = tdiv(ago, 60);
                (if m >= 0 {
                    spec_dec(m as nat)
                } else {
                    seq!['-'] + spec_dec((-m) as nat)
                }) + " minutes ago"@
            }
        },
    }
}

fn format_i64(n: i64) -> (r: String)
    ensures
        n >= 0 ==> r@ == spec_dec(n as nat),
        n < 0 ==> r@ == seq!['-'] + spec_dec((-n) as nat),
{
    if n >= 0 {
        format_u64(n as u64)
    } else {
        let mag: u64 = if n == i64::MIN {
            9223372036854775808u64
        } else {
            (-n) as u64
        };
        let mut out = "-".to_owned();
        let num = format_u64(mag);
        out.append(num.as_str());
        proof {
            reveal_strlit("-");
            assert(out@ =~= seq!['-'] + spec_dec((-n) as nat));
        }
        out
    }
}

/// The age words for a timestamp.
pub fn relative_age(ts: Option<i64>, now: i64) -> (r: String)
    requires
        now_ok(now),
        match ts {
            None => true,
            Some(t) => crate::stats::ts_ok(t),
        },
    ensures
        r@ == spec_relative_age(ts, now),
{
    match ts {
        None => "Never".to_owned(),
        Some(t) => {
            let ago: i64 = now - t;
            let days: i64 = ago / SECONDS_PER_DAY;
            let hours: i64 = ago / SECONDS_PER_HOUR;
            let minutes: i64 = ago / 60;
            if days > 0 {
                let mut out = format_i64(days);
                out.append(" days ago");
                proof {
                    assert(out@ =~= spec_relative_age(ts, now));
                }
                out
            } else if hours > 0 {
                let mut out = format_i64(hours);
                out.append(" hours ago");
                proof {
                    assert(out@ =~= spec_relative_age(ts, now));
                }
                out
            } else {
                let mut out = format_i64(minutes);
                out.append(" minutes ago");
                proof {
                    assert(out@ =~= spec_relative_age(ts, now));
                }
                out
            }
        },
    }
}

/// The status word of a line: the condition and, for a jailed model, the
/// whole hours left.
pub open spec fn spec_status_text(st: ModelStats, now: i64) -> Seq<char> {
    if st.blacklisted {
        "BLACKLISTED"@
    } else if st.jail_until is Some && now < st.jail_until->0 {
        "JAILED ("@ + spec_dec(tdiv(st.jail_until->0 - now, SECONDS_PER_HOUR as int) as nat)
            + "h remaining)"@
    } else {
        "ACTIVE"@
    }
}

/// One report line for one model.
pub open spec fn spec_format_model_status(model: Seq<char>, st: ModelStats, now: i64) -> Seq<
    char,
> {
    model + ": "@ + spec_status_text(st, now) + " (Success: "@ + spec_dec(st.success_count as nat)
        + ", Failure: "@ + spec_dec(st.failure_count as nat) + ", Last success: "@
        + spec_relative_age(st.last_success, now) + ", Last failure: "@ + spec_relative_age(
        st.last_failure,
        now,
    ) + ")"@
}

/// Renders one report line: the model, its condition (with remaining jail
/// time), its counters and the ages of its last success and failure.
pub fn format_model_status(model: &str, stats: &ModelStats, now: i64) -> (r: String)
    requires
        stats.wf(),
        now_ok(now),
    ensures
        r@ == spec_format_model_status(model@, *stats, now),
{
    let mut out = model.to_owned();
    out.append(": ");
    if stats.blacklisted {
        out.append("BLACKLISTED");
    } else {
        match stats.jail_until {
            Some(until) => {
                if now < until {
                    out.append("JAILED (");
                    let remaining: i64 = (until - now) / SECONDS_PER_HOUR;
                    let num = format_i64(remaining);
                    out.append(num.as_str());
                    out.append("h remaining)");
                } else {
                    out.append("ACTIVE");
                }
            },
            None => {
                out.append("ACTIVE");
            },
        }
    }
    out.append(" (Success: ");
    let sc = format_u64(stats.success_count);
    out.append(sc.as_str());
    out.append(", Failure: ");
    let fc = format_u64(stats.failure_count);
    out.append(fc.as_str());
    out.append(", Last success: ");
    let ls = relative_age(stats.last_success, now);
    out.append(ls.as_str());
    out.append(", Last failure: ");
    let lf = relative_age(stats.last_failure, now);
    out.append(lf.as_str());
    out.append(")");
    proof {
        assert(out@ =~= spec_format_model_status(model@, *stats, now));
    }
    out
}

/// Whether `a` comes at or before `b` in code-point order.
pub open spec fn lex_leq(a: Seq<char>, b: Seq<char>) -> bool
    decreases a.len(),
{
    if a.len() == 0 {
        true
    } else if b.len() == 0 {
        false
    } else if (a[0] as u32) < (b[0] as u32) {
        true
    } else if (a[0] as u32) > (b[0] as u32) {
        false
    } else {
        lex_leq(a.drop_first(), b.drop_first())
    }
}

pub proof fn lemma_lex_total(a: Seq<char>, b: Seq<char>)
    ensures
        lex_leq(a, b) || lex_leq(b, a),
    decreases a.len(),
{
    if a.len() > 0 && b.len() > 0 && (a[0] as u32) == (b[0] as u32) {
        lemma_lex_total(a.drop_first(), b.drop_first());
    }
}

pub proof fn lemma_lex_trans(a: Seq<char>, b: Seq<char>, c: Seq<char>)
    requires
        lex_leq(a, b),
        lex_leq(b, c),
    ensures
        lex_leq(a, c),
    decreases a.len(),
{
    if a.len() > 0 && b.len() > 0 && c.len() > 0 && (a[0] as u32) == (b[0] as u32) && (b[0] as u32)
        == (c[0] as u32) {
        lemma_lex_trans(a.drop_first(), b.drop_first(), c.drop_first());
    }
}

/// Compares two strings in code-point order.
#[verifier::loop_isolation(false)]
pub fn lex_leq_exec(a: &str, b: &str) -> (r: bool)
    ensures
        r == lex_leq(a@, b@),
{
    let an = a.unicode_len();
    let bn = b.unicode_len();
    let mut i: usize = 0;
    proof {
        assert(a@.skip(0) =~= a@);
        assert(b@.skip(0) =~= b@);
    }
    loop
        invariant
            0 <= i,
            i <= an,
            i <= bn,
            an == a@.len(),
            bn == b@.len(),
            lex_leq(a@, b@) == lex_leq(a@.skip(i as int), b@.skip(i as int)),
        decreases an - i,
    {
        if i >= an {
            proof {
                assert(a@.skip(i as int).len() == 0);
            }
            return true;
        }
        if i >= bn {
            proof {
                assert(b@.skip(i as int).len() == 0);
                assert(a@.skip(i as int).len() > 0);
            }
            return false;
        }
        let ca = a.get_char(i);
        let cb = b.get_char(i);
        proof {
            assert(a@.skip(i as int)[0] == a@[i as int]);
            assert(b@.skip(i as int)[0] == b@[i as int]);
            assert(a@.skip(i as int).drop_first() =~= a@.skip(i + 1));
            assert(b@.skip(i as int).drop_first() =~= b@.skip(i + 1));
        }
        if (ca as u32) < (cb as u32) {
            return true;
        }
        if (ca as u32) > (cb as u32) {
            return false;
        }
        i = i + 1;
    }
}

pub open spec fn lex_leq_fn() -> spec_fn(Seq<char>, Seq<char>) -> bool {
    |a: Seq<char>, b: Seq<char>| lex_leq(a, b)
}

/// Sorts strings into code-point order; the result holds exactly the
/// strings that went in.
#[verifier::loop_isolation(false)]
pub fn sort_strings(v: Vec<String>) -> (r: Vec<String>)
    ensures
        sorted_by(r.deep_view(), lex_leq_fn()),
        r.deep_view().to_multiset() == v.deep_view().to_multiset(),
{
    let ghost orig = v.deep_view();
    let mut work = v;
    let mut out: Vec<String> = Vec::new();
    proof {
        assert(out.deep_view() =~= Seq::<Seq<char>>::empty());
        out.deep_view().to_multiset_ensures();
        work.deep_view().to_multiset_ensures();
        assert(out.deep_view().to_multiset().add(work.deep_view().to_multiset()) =~= orig.to_multiset());
    }
    while work.len() > 0
        invariant
            out.deep_view().to_multiset().add(work.deep_view().to_multiset())
                == orig.to_multiset(),
            sorted_by(out.deep_view(), lex_leq_fn()),
            forall|i: int, j: int|
                0 <= i < out.deep_view().len() && 0 <= j < work.deep_view().len() ==> lex_leq(
                    #[trigger] out.deep_view()[i],
                    #[trigger] work.deep_view()[j],
                ),
        decreases work.len(),
    {
        let n = work.len();
        let mut m: usize = 0;
        let mut k: usize = 1;
        proof {
            lemma_lex_total(work.deep_view()[0], work.deep_view()[0]);
        }
        while k < n
            invariant
                0 <= m < k <= n,
                n == work.deep_view().len(),
                forall|j: int|
                    0 <= j < k ==> lex_leq(work.deep_view()[m as int], #[trigger] work.deep_view()[j]),
            decreases n - k,
        {
            proof {
                assert(work.deep_view()[m as int] == work@[m as int]@);
                assert(work.deep_view()[k as int] == work@[k as int]@);
            }
            if !lex_leq_exec(work[m].as_str(), work[k].as_str()) {
                proof {
                    lemma_lex_total(work.deep_view()[m as int], work.deep_view()[k as int]);
                    assert forall|j: int| 0 <= j < k + 1 implies lex_leq(
                        work.deep_view()[k as int],
                        #[trigger] work.deep_view()[j],
                    ) by {
                        if j < k {
                            lemma_lex_trans(
                                work.deep_view()[k as int],
                                work.deep_view()[m as int],
                                work.deep_view()[j],
                            );
                        } else {
                            lemma_lex_total(work.deep_view()[k as int], work.deep_view()[k as int]);
                        }
                    }
                }
                m = k;
            } else {
                proof {
                    assert forall|j: int| 0 <= j < k + 1 implies lex_leq(
                        work.deep_view()[m as int],
                        #[trigger] work.deep_view()[j],
                    ) by {}
                }
            }
            k = k + 1;
        }
        let ghost wv = work.deep_view();
        let ghost ov = out.deep_view();
        let x = work.remove(m);
        out.push(x);
        proof {
            assert(work.deep_view() =~= wv.remove(m as int));
            assert(out.deep_view() =~= ov.push(wv[m as int]));
            wv.to_multiset_ensures();
            ov.to_multiset_ensures();
            assert(wv.remove(m as int).to_multiset() =~= wv.to_multiset().remove(wv[m as int]));
            assert(ov.push(wv[m as int]).to_multiset() =~= ov.to_multiset().insert(wv[m as int]));
            assert(wv.to_multiset().count(wv[m as int]) >= 1) by {
                assert(wv.contains(wv[m as int]));
            }
            assert(out.deep_view().to_multiset().add(work.deep_view().to_multiset())
                =~= orig.to_multiset());
            // The popped minimum keeps the output sorted and below the rest.
            assert forall|i: int, j: int|
                0 <= i < j < out.deep_view().len() implies lex_leq_fn()(
                out.deep_view()[i],
                out.deep_view()[j],
            ) by {
                if j < out.deep_view().len() - 1 {
                    assert(lex_leq_fn()(ov[i], ov[j]));
                    assert(lex_leq(ov[i], ov[j]));
                } else {
                    assert(lex_leq(ov[i], wv[m as int]));
                }
            }
            assert forall|i: int, j: int|
                0 <= i < out.deep_view().len() && 0 <= j < work.deep_view().len() implies lex_leq(
                #[trigger] out.deep_view()[i],
                #[trigger] work.deep_view()[j],
            ) by {
                let wj = if j < m { j } else { j + 1 };
                assert(work.deep_view()[j] == wv[wj]);
                if i < out.deep_view().len() - 1 {
                    assert(lex_leq(ov[i], wv[wj]));
                } else {
                    assert(lex_leq(wv[m as int], wv[wj]));
                }
            }
        }
    }
    proof {
        assert(work.deep_view() =~= Seq::<Seq<char>>::empty());
        work.deep_view().to_multiset_ensures();
        assert(out.deep_view().to_multiset().add(Multiset::<Seq<char>>::empty())
            =~= out.deep_view().to_multiset());
    }
    out
}

/// The report lines of the models in condition `c`, in store order,
/// before sorting.
pub open spec fn spec_group_lines(state: ProviderState, now: i64, c: ModelCondition) -> Seq<
    Seq<char>,
> {
    state.model_stats.entries_seq().filter(
        |e: (Seq<char>, ModelStats)| spec_condition(e.1, now) == c,
    ).map_values(|e: (Seq<char>, ModelStats)| spec_format_model_status(e.0, e.1, now))
}

#[verifier::loop_isolation(false)]
fn collect_group(state: &ProviderState, now: i64, c: ModelCondition) -> (r: Vec<String>)
    requires
        state.wf(),
        now_ok(now),
    ensures
        r.deep_view() == spec_group_lines(*state, now, c),
{
    let ghost es = state.model_stats.entries_seq();
    let ghost pred = |e: (Seq<char>, ModelStats)| spec_condition(e.1, now) == c;
    let ghost fmt = |e: (Seq<char>, ModelStats)| spec_format_model_status(e.0, e.1, now);
    let n = state.model_stats.len();
    let mut out: Vec<String> = Vec::new();
    let mut i: usize = 0;
    proof {
        assert(es.take(0).filter(pred) =~= Seq::<(Seq<char>, ModelStats)>::empty());
        assert(out.deep_view() =~= es.take(0).filter(pred).map_values(fmt));
    }
    while i < n
        invariant
            0 <= i <= n,
            n == es.len(),
            out.deep_view() == es.take(i as int).filter(pred).map_values(fmt),
        decreases n - i,
    {
        let key = state.model_stats.key_at(i).clone();
        let st = state.model_stats.stats_at(i);
        proof {
            assert(es[i as int].1.wf());
        }
        let ghost out0 = out.deep_view();
        let cond = model_condition(&st, now);
        if cond == c {
            let line = format_model_status(key.as_str(), &st, now);
            out.push(line);
            proof {
                assert(out.deep_view() =~= out0.push(fmt(es[i as int])));
            }
        }
        proof {
            reveal(Seq::filter);
            assert(es.take(i + 1).drop_last() =~= es.take(i as int));
            assert(es.take(i + 1).last() == es[i as int]);
            if pred(es[i as int]) {
                assert(es.take(i + 1).filter(pred) == es.take(i as int).filter(pred).push(
                    es[i as int],
                ));
                assert(es.take(i + 1).filter(pred).map_values(fmt) =~= out0.push(
                    fmt(es[i as int]),
                ));
            } else {
                assert(es.take(i + 1).filter(pred) == es.take(i as int).filter(pred));
            }
        }
        i = i + 1;
    }
    proof {
        assert(es.take(n as int) =~= es);
    }
    out
}

/// The full status report: the active, jailed and blacklisted models'
/// lines, each group sorted in code-point order.
pub fn model_status_report(state: &ProviderState, now: i64) -> (r: (
    Vec<String>,
    Vec<String>,
    Vec<String>,
))
    requires
        state.wf(),
        now_ok(now),
    ensures
        sorted_by(r.0.deep_view(), lex_leq_fn()),
        r.0.deep_view().to_multiset() == spec_group_lines(
            *state,
            now,
            ModelCondition::Active,
        ).to_multiset(),
        sorted_by(r.1.deep_view(), lex_leq_fn()),
        r.1.deep_view().to_multiset() == spec_group_lines(
            *state,
            now,
            ModelCondition::Jailed,
        ).to_multiset(),
        sorted_by(r.2.deep_view(), lex_leq_fn()),
        r.2.deep_view().to_multiset() == spec_group_lines(
            *state,
            now,
            ModelCondition::Blacklisted,
        ).to_multiset(),
{
    let active = sort_strings(collect_group(state, now, ModelCondition::Active));
    let jailed = sort_strings(collect_group(state, now, ModelCondition::Jailed));
    let blacklisted = sort_strings(collect_group(state, now, ModelCondition::Blacklisted));
    (active, jailed, blacklisted)
}

} // verus!

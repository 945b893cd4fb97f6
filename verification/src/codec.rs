//! The persisted form of a provider state: a deterministic character
//! encoding with fixed-width decimal numerals and length-prefixed strings,
//! together with its parser and the proof that the two are inverse.
//!
//! Layout, in order: identifier, credential, max tokens, temperature (in
//! thousandths), sticky last-used model, entry count, then one
//! (identifier, stats) record per tracked model in store order.  Numerals
//! are zero-padded to a fixed width; options carry a one-character tag;
//! strings carry an eight-digit character count.

use vstd::prelude::*;
use crate::stats::MAX_JAIL_HOURS;
use crate::stats::MAX_TIMESTAMP;
use crate::stats::ModelStats;
use crate::stats::SECONDS_PER_HOUR;
use crate::state::ProviderState;
use crate::store::StatsStore;
use crate::text::chars_of;
use crate::text::digit_char;
use crate::text::digit_val;
use crate::text::is_digit;
use crate::text::push_char;

verus! {

/// Width of a string-length or entry-count numeral.
pub const LEN_WIDTH: usize = 8;
/// Width of a counter or timestamp numeral.
pub const U64_WIDTH: usize = 20;
/// Width of the magnitude of a signed 32-bit numeral.
pub const I32_WIDTH: usize = 10;

pub open spec fn pow10(w: nat) -> nat
    decreases w,
{
    if w == 0 {
        1
    } else {
        10 * pow10((w - 1) as nat)
    }
}

/// The numeral of `n % pow10(w)`, zero-padded to exactly `w` digits.
pub open spec fn fixed_dec(n: nat, w: nat) -> Seq<char>
    decreases w,
{
    if w == 0 {
        Seq::empty()
    } else {
        fixed_dec(n / 10, (w - 1) as nat).push(digit_char(n % 10))
    }
}

pub proof fn lemma_fixed_dec_len(n: nat, w: nat)
    ensures
        fixed_dec(n, w).len() == w,
    decreases w,
{
    if w > 0 {
        lemma_fixed_dec_len(n / 10, (w - 1) as nat);
    }
}

/// Bound on every stored timestamp, as the codec checks it.
pub open spec fn ts_bound() -> int {
    MAX_TIMESTAMP + MAX_JAIL_HOURS * SECONDS_PER_HOUR
}

pub open spec fn enc_u64(n: u64) -> Seq<char> {
    fixed_dec(n as nat, U64_WIDTH as nat)
}

pub open spec fn enc_len(n: nat) -> Seq<char> {
    fixed_dec(n, LEN_WIDTH as nat)
}

pub open spec fn enc_bool(b: bool) -> Seq<char> {
    if b {
        seq!['T']
    } else {
        seq!['F']
    }
}

pub open spec fn enc_opt_ts(o: Option<i64>) -> Seq<char> {
    match o {
        None => seq!['n'],
        Some(t) => seq!['s'] + fixed_dec(t as nat, U64_WIDTH as nat),
    }
}

pub open spec fn enc_i32(n: i32) -> Seq<char> {
    let mag: nat = if n >= 0 {
        n as nat
    } else {
        (-(n as int)) as nat
    };
    (if n >= 0 {
        seq!['+']
    } else {
        seq!['-']
    }) + fixed_dec(mag, I32_WIDTH as nat)
}

pub open spec fn enc_str(s: Seq<char>) -> Seq<char> {
    enc_len(s.len()) + s
}

pub open spec fn enc_opt_str(o: Option<Seq<char>>) -> Seq<char> {
    match o {
        None => seq!['n'],
        Some(s) => seq!['s'] + enc_str(s),
    }
}

pub open spec fn enc_stats(st: ModelStats) -> Seq<char> {
    enc_u64(st.success_count) + enc_u64(st.failure_count) + enc_opt_ts(st.last_success)
        + enc_opt_ts(st.last_failure) + enc_opt_ts(st.jail_until) + enc_u64(st.jail_count)
        + enc_bool(st.blacklisted) + enc_opt_ts(st.blacklisted_since)
}

pub open spec fn enc_entry(e: (Seq<char>, ModelStats)) -> Seq<char> {
    enc_str(e.0) + enc_stats(e.1)
}

pub open spec fn enc_entries_from(es: Seq<(Seq<char>, ModelStats)>, i: int) -> Seq<char>
    decreases es.len() - i,
{
    if i < 0 || i >= es.len() {
        Seq::empty()
    } else {
        enc_entry(es[i]) + enc_entries_from(es, i + 1)
    }
}

/// Everything the encoding captures of a provider state, over plain
/// mathematical values.
pub struct StateView {
    pub id: Seq<char>,
    pub api_key: Seq<char>,
    pub max_tokens: i32,
    pub temperature_milli: i32,
    pub last_used: Option<Seq<char>>,
    pub entries: Seq<(Seq<char>, ModelStats)>,
}

pub open spec fn state_view(st: ProviderState) -> StateView {
    StateView {
        id: st.id@,
        api_key: st.api_key@,
        max_tokens: st.max_tokens,
        temperature_milli: st.temperature_milli,
        last_used: match st.last_used_model {
            None => None,
            Some(s) => Some(s@),
        },
        entries: st.model_stats.entries_seq(),
    }
}

pub open spec fn unique_keys(es: Seq<(Seq<char>, ModelStats)>) -> bool {
    forall|i: int, j: int|
        0 <= i < j < es.len() ==> (#[trigger] es[i]).0 != (#[trigger] es[j]).0
}

/// What the codec asks of a view: well-formed stats, unique keys, every
/// string and the entry count shorter than the eight-digit length field
/// can carry.
pub open spec fn view_ok(v: StateView) -> bool {
    &&& v.id.len() < pow10(LEN_WIDTH as nat)
    &&& v.api_key.len() < pow10(LEN_WIDTH as nat)
    &&& match v.last_used {
        None => true,
        Some(s) => s.len() < pow10(LEN_WIDTH as nat),
    }
    &&& v.entries.len() < pow10(LEN_WIDTH as nat)
    &&& unique_keys(v.entries)
    &&& forall|i: int|
        0 <= i < v.entries.len() ==> (#[trigger] v.entries[i]).0.len() < pow10(LEN_WIDTH as nat)
    &&& forall|i: int| 0 <= i < v.entries.len() ==> (#[trigger] v.entries[i]).1.wf()
}

pub open spec fn spec_encode_state(v: StateView) -> Seq<char> {
    enc_str(v.id) + enc_str(v.api_key) + enc_i32(v.max_tokens) + enc_i32(v.temperature_milli)
        + enc_opt_str(v.last_used) + enc_len(v.entries.len()) + enc_entries_from(v.entries, 0)
}

pub proof fn lemma_u64_bound()
    ensures
        u64::MAX < pow10(U64_WIDTH as nat),
        i32::MAX < pow10(I32_WIDTH as nat),
        0x80000000 < pow10(I32_WIDTH as nat),
        ts_bound() < pow10(U64_WIDTH as nat),
        pow10(U64_WIDTH as nat) == 100000000000000000000,
        pow10(I32_WIDTH as nat) == 10000000000,
        pow10(LEN_WIDTH as nat) == 100000000,
{
    reveal_with_fuel(pow10, 21);
    assert(pow10(20) == 100000000000000000000);
    assert(pow10(10) == 10000000000);
    assert(pow10(8) == 100000000);
}

fn push_fixed_dec(out: &mut String, n: u64, w: usize)
    ensures
        final(out)@ == old(out)@ + fixed_dec(n as nat, w as nat),
    decreases w,
{
    if w == 0 {
        proof {
            assert(old(out)@ + fixed_dec(n as nat, 0) =~= old(out)@);
        }
    } else {
        push_fixed_dec(out, n / 10, w - 1);
        push_char(out, (48 + (n % 10) as u8) as char);
        proof {
            assert(final(out)@ =~= old(out)@ + fixed_dec(n as nat, w as nat));
        }
    }
}

fn push_bool(out: &mut String, b: bool)
    ensures
        final(out)@ == old(out)@ + enc_bool(b),
{
    push_char(out, if b {
        'T'
    } else {
        'F'
    });
    proof {
        assert(final(out)@ =~= old(out)@ + enc_bool(b));
    }
}

fn push_opt_ts(out: &mut String, o: Option<i64>)
    requires
        match o {
            None => true,
            Some(t) => t >= 0,
        },
    ensures
        final(out)@ == old(out)@ + enc_opt_ts(o),
{
    match o {
        None => {
            push_char(out, 'n');
            proof {
                assert(final(out)@ =~= old(out)@ + enc_opt_ts(o));
            }
        },
        Some(t) => {
            push_char(out, 's');
            push_fixed_dec(out, t as u64, U64_WIDTH);
            proof {
                assert(final(out)@ =~= old(out)@ + enc_opt_ts(o));
            }
        },
    }
}

fn push_i32(out: &mut String, n: i32)
    ensures
        final(out)@ == old(out)@ + enc_i32(n),
{
    if n >= 0 {
        push_char(out, '+');
        push_fixed_dec(out, n as u64, I32_WIDTH);
    } else {
        push_char(out, '-');
        let mag: i64 = -(n as i64);
        push_fixed_dec(out, mag as u64, I32_WIDTH);
    }
    proof {
        assert(final(out)@ =~= old(out)@ + enc_i32(n));
    }
}

fn push_str(out: &mut String, s: &String)
    requires
        s@.len() < pow10(LEN_WIDTH as nat),
    ensures
        final(out)@ == old(out)@ + enc_str(s@),
{
    proof {
        lemma_u64_bound();
        reveal_with_fuel(pow10, 9);
    }
    let n = s.as_str().unicode_len();
    push_fixed_dec(out, n as u64, LEN_WIDTH);
    out.append(s.as_str());
    proof {
        assert(final(out)@ =~= old(out)@ + enc_str(s@));
    }
}

fn push_stats(out: &mut String, st: &ModelStats)
    requires
        st.wf(),
    ensures
        final(out)@ == old(out)@ + enc_stats(*st),
{
    push_fixed_dec(out, st.success_count, U64_WIDTH);
    push_fixed_dec(out, st.failure_count, U64_WIDTH);
    push_opt_ts(out, st.last_success);
    push_opt_ts(out, st.last_failure);
    push_opt_ts(out, st.jail_until);
    push_fixed_dec(out, st.jail_count, U64_WIDTH);
    push_bool(out, st.blacklisted);
    push_opt_ts(out, st.blacklisted_since);
    proof {
        assert(final(out)@ =~= old(out)@ + enc_stats(*st));
    }
}

fn push_entries(out: &mut String, store: &StatsStore, i: usize)
    requires
        store.wf(),
        i <= store.entries_seq().len(),
        forall|j: int|
            0 <= j < store.entries_seq().len() ==> (#[trigger] store.entries_seq()[j]).0.len()
                < pow10(LEN_WIDTH as nat),
    ensures
        final(out)@ == old(out)@ + enc_entries_from(store.entries_seq(), i as int),
    decreases store.entries_seq().len() - i,
{
    if i == store.len() {
        proof {
            assert(final(out)@ =~= old(out)@ + enc_entries_from(store.entries_seq(), i as int));
        }
    } else {
        let k = store.key_at(i).clone();
        let st = store.stats_at(i);
        push_str(out, &k);
        push_stats(out, &st);
        push_entries(out, store, i + 1);
        proof {
            assert(final(out)@ =~= old(out)@ + enc_entries_from(store.entries_seq(), i as int));
        }
    }
}

/// Encodes a provider state into its persisted character form.
pub fn encode_provider_state(st: &ProviderState) -> (r: String)
    requires
        view_ok(state_view(*st)),
    ensures
        r@ == spec_encode_state(state_view(*st)),
{
    proof {
        lemma_u64_bound();
        reveal_with_fuel(pow10, 9);
    }
    let mut out = String::new();
    push_str(&mut out, &st.id);
    push_str(&mut out, &st.api_key);
    push_i32(&mut out, st.max_tokens);
    push_i32(&mut out, st.temperature_milli);
    match &st.last_used_model {
        None => {
            push_char(&mut out, 'n');
        },
        Some(lu) => {
            push_char(&mut out, 's');
            push_str(&mut out, lu);
        },
    }
    let count = st.model_stats.len();
    push_fixed_dec(&mut out, count as u64, LEN_WIDTH);
    push_entries(&mut out, &st.model_stats, 0);
    proof {
        assert(out@ =~= spec_encode_state(state_view(*st)));
    }
    out
}

pub open spec fn digits_ok(s: Seq<char>, p: int, w: int) -> bool {
    forall|k: int| 0 <= k < w ==> is_digit(#[trigger] s[p + k])
}

pub open spec fn digits_val(s: Seq<char>, p: int, w: int) -> nat
    decreases w,
{
    if w <= 0 {
        0
    } else {
        digits_val(s, p, w - 1) * 10 + digit_val(s[p + w - 1])
    }
}

/// Reads exactly `w` digit characters at `p`.
pub open spec fn parse_fixed(s: Seq<char>, p: int, w: int) -> Option<(nat, int)> {
    if 0 <= p && p + w <= s.len() && digits_ok(s, p, w) {
        Some((digits_val(s, p, w), p + w))
    } else {
        None
    }
}

pub open spec fn parse_u64(s: Seq<char>, p: int) -> Option<(u64, int)> {
    match parse_fixed(s, p, U64_WIDTH as int) {
        Some((v, q)) => if v <= u64::MAX {
            Some((v as u64, q))
        } else {
            None
        },
        None => None,
    }
}

pub open spec fn parse_bool(s: Seq<char>, p: int) -> Option<(bool, int)> {
    if 0 <= p < s.len() && s[p] == 'T' {
        Some((true, p + 1))
    } else if 0 <= p < s.len() && s[p] == 'F' {
        Some((false, p + 1))
    } else {
        None
    }
}

pub open spec fn parse_opt_ts(s: Seq<char>, p: int) -> Option<(Option<i64>, int)> {
    if 0 <= p < s.len() && s[p] == 'n' {
        Some((None, p + 1))
    } else if 0 <= p < s.len() && s[p] == 's' {
        match parse_u64(s, p + 1) {
            Some((v, q)) => if v <= ts_bound() {
                Some((Some(v as i64), q))
            } else {
                None
            },
            None => None,
        }
    } else {
        None
    }
}

pub open spec fn parse_i32(s: Seq<char>, p: int) -> Option<(i32, int)> {
    if 0 <= p < s.len() && s[p] == '+' {
        match parse_fixed(s, p + 1, I32_WIDTH as int) {
            Some((v, q)) => if v <= i32::MAX {
                Some((v as i32, q))
            } else {
                None
            },
            None => None,
        }
    } else if 0 <= p < s.len() && s[p] == '-' {
        match parse_fixed(s, p + 1, I32_WIDTH as int) {
            Some((v, q)) => if v <= 0x80000000 {
                Some(((-(v as int)) as i32, q))
            } else {
                None
            },
            None => None,
        }
    } else {
        None
    }
}

pub open spec fn parse_str(s: Seq<char>, p: int) -> Option<(Seq<char>, int)> {
    match parse_fixed(s, p, LEN_WIDTH as int) {
        Some((l, q)) => if q + l <= s.len() {
            Some((s.subrange(q, q + l), q + l))
        } else {
            None
        },
        None => None,
    }
}

pub open spec fn parse_opt_str(s: Seq<char>, p: int) -> Option<(Option<Seq<char>>, int)> {
    if 0 <= p < s.len() && s[p] == 'n' {
        Some((None, p + 1))
    } else if 0 <= p < s.len() && s[p] == 's' {
        match parse_str(s, p + 1) {
            Some((v, q)) => Some((Some(v), q)),
            None => None,
        }
    } else {
        None
    }
}

pub open spec fn parse_stats(s: Seq<char>, p: int) -> Option<(ModelStats, int)> {
    match parse_u64(s, p) {
        None => None,
        Some((success_count, p1)) => match parse_u64(s, p1) {
            None => None,
            Some((failure_count, p2)) => match parse_opt_ts(s, p2) {
                None => None,
                Some((last_success, p3)) => match parse_opt_ts(s, p3) {
                    None => None,
                    Some((last_failure, p4)) => match parse_opt_ts(s, p4) {
                        None => None,
                        Some((jail_until, p5)) => match parse_u64(s, p5) {
                            None => None,
                            Some((jail_count, p6)) => match parse_bool(s, p6) {
                                None => None,
                                Some((blacklisted, p7)) => match parse_opt_ts(s, p7) {
                                    None => None,
                                    Some((blacklisted_since, p8)) => {
                                        let st = ModelStats {
                                            success_count,
                                            failure_count,
                                            last_success,
                                            last_failure,
                                            jail_until,
                                            jail_count,
                                            blacklisted,
                                            blacklisted_since,
                                        };
                                        if st.wf() {
                                            Some((st, p8))
                                        } else {
                                            None
                                        }
                                    },
                                },
                            },
                        },
                    },
                },
            },
        },
    }
}

pub open spec fn parse_entry(s: Seq<char>, p: int) -> Option<((Seq<char>, ModelStats), int)> {
    match parse_str(s, p) {
        None => None,
        Some((k, p1)) => match parse_stats(s, p1) {
            None => None,
            Some((st, p2)) => Some(((k, st), p2)),
        },
    }
}

pub open spec fn parse_entries(s: Seq<char>, p: int, n: nat) -> Option<(
    Seq<(Seq<char>, ModelStats)>,
    int,
)>
    decreases n,
{
    if n == 0 {
        Some((Seq::empty(), p))
    } else {
        match parse_entry(s, p) {
            None => None,
            Some((e, p1)) => match parse_entries(s, p1, (n - 1) as nat) {
                None => None,
                Some((rest, p2)) => Some((seq![e] + rest, p2)),
            },
        }
    }
}

/// The view a persisted character sequence decodes to, if it is a valid
/// encoding: every field in turn, no trailing characters, distinct keys,
/// well-formed stats.
pub open spec fn spec_decode_state(s: Seq<char>) -> Option<StateView> {
    match parse_str(s, 0) {
        None => None,
        Some((id, p1)) => match parse_str(s, p1) {
            None => None,
            Some((api_key, p2)) => match parse_i32(s, p2) {
                None => None,
                Some((max_tokens, p3)) => match parse_i32(s, p3) {
                    None => None,
                    Some((temperature_milli, p4)) => match parse_opt_str(s, p4) {
                        None => None,
                        Some((last_used, p5)) => match parse_fixed(s, p5, LEN_WIDTH as int) {
                            None => None,
                            Some((count, p6)) => match parse_entries(s, p6, count) {
                                None => None,
                                Some((entries, p7)) => {
                                    if p7 == s.len() && unique_keys(entries) {
                                        Some(
                                            StateView {
                                                id,
                                                api_key,
                                                max_tokens,
                                                temperature_milli,
                                                last_used,
                                                entries,
                                            },
                                        )
                                    } else {
                                        None
                                    }
                                },
                            },
                        },
                    },
                },
            },
        },
    }
}

pub open spec fn matches_at(s: Seq<char>, p: int, t: Seq<char>) -> bool {
    forall|k: int| 0 <= k < t.len() ==> #[trigger] s[p + k] == t[k]
}

proof fn lemma_matches_split(s: Seq<char>, p: int, a: Seq<char>, b: Seq<char>)
    requires
        matches_at(s, p, a + b),
    ensures
        matches_at(s, p, a),
        matches_at(s, p + a.len(), b),
{
    assert forall|k: int| 0 <= k < a.len() implies #[trigger] s[p + k] == a[k] by {
        assert((a + b)[k] == a[k]);
        assert(s[p + k] == (a + b)[k]);
    }
    assert forall|k: int| 0 <= k < b.len() implies #[trigger] s[p + a.len() + k] == b[k] by {
        assert((a + b)[a.len() + k] == b[k]);
        assert(s[p + (a.len() + k)] == (a + b)[a.len() + k]);
    }
}

proof fn lemma_digit_roundtrip(d: nat)
    requires
        d < 10,
    ensures
        digit_val(digit_char(d)) == d,
        is_digit(digit_char(d)),
{
    assert(((48 + d) as u8) as char as u32 == 48 + d);
}

proof fn lemma_parse_fixed_of_enc(s: Seq<char>, p: int, n: nat, w: nat)
    requires
        0 <= p,
        n < pow10(w),
        p + w <= s.len(),
        matches_at(s, p, fixed_dec(n, w)),
    ensures
        parse_fixed(s, p, w as int) == Some((n, p + w)),
    decreases w,
{
    lemma_fixed_dec_len(n, w);
    if w == 0 {
        assert(digits_ok(s, p, 0));
        assert(digits_val(s, p, 0) == 0);
    } else {
        let enc = fixed_dec(n, w);
        let encp = fixed_dec(n / 10, (w - 1) as nat);
        lemma_fixed_dec_len(n / 10, (w - 1) as nat);
        assert forall|k: int| 0 <= k < encp.len() implies #[trigger] s[p + k] == encp[k] by {
            assert(enc[k] == encp[k]);
            assert(s[p + k] == enc[k]);
        }
        assert(pow10(w) == 10 * pow10((w - 1) as nat));
        assert(n / 10 < pow10((w - 1) as nat)) by (nonlinear_arith)
            requires
                n < pow10(w),
                pow10(w) == 10 * pow10((w - 1) as nat),
        ;
        lemma_parse_fixed_of_enc(s, p, n / 10, (w - 1) as nat);
        assert(s[p + (w - 1)] == enc[w - 1]);
        assert(enc[w - 1] == digit_char(n % 10));
        lemma_digit_roundtrip(n % 10);
        assert(digits_val(s, p, w as int) == digits_val(s, p, w - 1) * 10 + digit_val(
            s[p + (w - 1)],
        ));
        assert(digits_val(s, p, w as int) == (n / 10) * 10 + n % 10);
        assert forall|k: int| 0 <= k < w implies is_digit(#[trigger] s[p + k]) by {
            if k < w - 1 {
                assert(is_digit(s[p + k]));
            } else {
                assert(s[p + k] == digit_char(n % 10));
            }
        }
    }
}

proof fn lemma_parse_u64_of_enc(s: Seq<char>, p: int, n: u64)
    requires
        0 <= p,
        p + U64_WIDTH <= s.len(),
        matches_at(s, p, enc_u64(n)),
    ensures
        parse_u64(s, p) == Some((n, p + U64_WIDTH)),
{
    lemma_u64_bound();
    lemma_parse_fixed_of_enc(s, p, n as nat, U64_WIDTH as nat);
}

proof fn lemma_parse_bool_of_enc(s: Seq<char>, p: int, b: bool)
    requires
        0 <= p,
        p + 1 <= s.len(),
        matches_at(s, p, enc_bool(b)),
    ensures
        parse_bool(s, p) == Some((b, p + 1)),
{
    assert(s[p + 0] == enc_bool(b)[0]);
}

proof fn lemma_parse_opt_ts_of_enc(s: Seq<char>, p: int, o: Option<i64>)
    requires
        0 <= p,
        p + enc_opt_ts(o).len() <= s.len(),
        matches_at(s, p, enc_opt_ts(o)),
        match o {
            None => true,
            Some(t) => 0 <= t <= ts_bound(),
        },
    ensures
        parse_opt_ts(s, p) == Some((o, p + enc_opt_ts(o).len())),
{
    match o {
        None => {
            assert(s[p + 0] == 'n');
        },
        Some(t) => {
            lemma_u64_bound();
            lemma_fixed_dec_len(t as nat, U64_WIDTH as nat);
            assert(s[p + 0] == 's');
            lemma_matches_split(s, p, seq!['s'], fixed_dec(t as nat, U64_WIDTH as nat));
            lemma_parse_fixed_of_enc(s, p + 1, t as nat, U64_WIDTH as nat);
        },
    }
}

proof fn lemma_parse_i32_of_enc(s: Seq<char>, p: int, n: i32)
    requires
        0 <= p,
        p + enc_i32(n).len() <= s.len(),
        matches_at(s, p, enc_i32(n)),
    ensures
        parse_i32(s, p) == Some((n, p + enc_i32(n).len())),
{
    lemma_u64_bound();
    let mag: nat = if n >= 0 {
        n as nat
    } else {
        (-(n as int)) as nat
    };
    lemma_fixed_dec_len(mag, I32_WIDTH as nat);
    if n >= 0 {
        assert(s[p + 0] == '+');
        lemma_matches_split(s, p, seq!['+'], fixed_dec(mag, I32_WIDTH as nat));
    } else {
        assert(s[p + 0] == '-');
        lemma_matches_split(s, p, seq!['-'], fixed_dec(mag, I32_WIDTH as nat));
    }
    lemma_parse_fixed_of_enc(s, p + 1, mag, I32_WIDTH as nat);
}

proof fn lemma_parse_str_of_enc(s: Seq<char>, p: int, t: Seq<char>)
    requires
        0 <= p,
        p + enc_str(t).len() <= s.len(),
        matches_at(s, p, enc_str(t)),
        t.len() < pow10(LEN_WIDTH as nat),
    ensures
        parse_str(s, p) == Some((t, p + enc_str(t).len())),
{
    lemma_fixed_dec_len(t.len(), LEN_WIDTH as nat);
    lemma_matches_split(s, p, enc_len(t.len()), t);
    lemma_parse_fixed_of_enc(s, p, t.len(), LEN_WIDTH as nat);
    let q = p + LEN_WIDTH as int;
    assert(matches_at(s, q, t));
    assert forall|k: int| 0 <= k < t.len() implies s.subrange(q, q + t.len() as int)[k] == t[k] by {
        assert(s[q + k] == t[k]);
    }
    assert(s.subrange(q, q + t.len() as int) =~= t);
}

proof fn lemma_parse_opt_str_of_enc(s: Seq<char>, p: int, o: Option<Seq<char>>)
    requires
        0 <= p,
        p + enc_opt_str(o).len() <= s.len(),
        matches_at(s, p, enc_opt_str(o)),
        match o {
            None => true,
            Some(t) => t.len() < pow10(LEN_WIDTH as nat),
        },
    ensures
        parse_opt_str(s, p) == Some((o, p + enc_opt_str(o).len())),
{
    match o {
        None => {
            assert(s[p + 0] == 'n');
        },
        Some(t) => {
            assert(s[p + 0] == 's');
            lemma_matches_split(s, p, seq!['s'], enc_str(t));
            lemma_parse_str_of_enc(s, p + 1, t);
        },
    }
}

#[verifier::rlimit(60)]
proof fn lemma_parse_stats_of_enc(s: Seq<char>, p: int, st: ModelStats)
    requires
        0 <= p,
        p + enc_stats(st).len() <= s.len(),
        matches_at(s, p, enc_stats(st)),
        st.wf(),
    ensures
        parse_stats(s, p) == Some((st, p + enc_stats(st).len())),
{
    let a1 = enc_u64(st.success_count);
    let a2 = enc_u64(st.failure_count);
    let a3 = enc_opt_ts(st.last_success);
    let a4 = enc_opt_ts(st.last_failure);
    let a5 = enc_opt_ts(st.jail_until);
    let a6 = enc_u64(st.jail_count);
    let a7 = enc_bool(st.blacklisted);
    let a8 = enc_opt_ts(st.blacklisted_since);
    lemma_u64_bound();
    lemma_fixed_dec_len(st.success_count as nat, U64_WIDTH as nat);
    lemma_fixed_dec_len(st.failure_count as nat, U64_WIDTH as nat);
    lemma_fixed_dec_len(st.jail_count as nat, U64_WIDTH as nat);
    lemma_matches_split(s, p, a1, a2 + a3 + a4 + a5 + a6 + a7 + a8);
    let p1 = p + a1.len();
    lemma_matches_split(s, p1, a2, a3 + a4 + a5 + a6 + a7 + a8);
    let p2 = p1 + a2.len();
    lemma_matches_split(s, p2, a3, a4 + a5 + a6 + a7 + a8);
    let p3 = p2 + a3.len();
    lemma_matches_split(s, p3, a4, a5 + a6 + a7 + a8);
    let p4 = p3 + a4.len();
    lemma_matches_split(s, p4, a5, a6 + a7 + a8);
    let p5 = p4 + a5.len();
    lemma_matches_split(s, p5, a6, a7 + a8);
    let p6 = p5 + a6.len();
    lemma_matches_split(s, p6, a7, a8);
    let p7 = p6 + a7.len();
    assert(enc_stats(st) =~= a1 + (a2 + a3 + a4 + a5 + a6 + a7 + a8));
    assert(a2 + a3 + a4 + a5 + a6 + a7 + a8 =~= a2 + (a3 + a4 + a5 + a6 + a7 + a8));
    assert(a3 + a4 + a5 + a6 + a7 + a8 =~= a3 + (a4 + a5 + a6 + a7 + a8));
    assert(a4 + a5 + a6 + a7 + a8 =~= a4 + (a5 + a6 + a7 + a8));
    assert(a5 + a6 + a7 + a8 =~= a5 + (a6 + a7 + a8));
    assert(a6 + a7 + a8 =~= a6 + (a7 + a8));
    lemma_parse_u64_of_enc(s, p, st.success_count);
    lemma_parse_u64_of_enc(s, p1, st.failure_count);
    lemma_parse_opt_ts_of_enc(s, p2, st.last_success);
    lemma_parse_opt_ts_of_enc(s, p3, st.last_failure);
    lemma_parse_opt_ts_of_enc(s, p4, st.jail_until);
    lemma_parse_u64_of_enc(s, p5, st.jail_count);
    lemma_parse_bool_of_enc(s, p6, st.blacklisted);
    lemma_parse_opt_ts_of_enc(s, p7, st.blacklisted_since);
}

proof fn lemma_parse_entry_of_enc(s: Seq<char>, p: int, e: (Seq<char>, ModelStats))
    requires
        0 <= p,
        p + enc_entry(e).len() <= s.len(),
        matches_at(s, p, enc_entry(e)),
        e.0.len() < pow10(LEN_WIDTH as nat),
        e.1.wf(),
    ensures
        parse_entry(s, p) == Some((e, p + enc_entry(e).len())),
{
    lemma_matches_split(s, p, enc_str(e.0), enc_stats(e.1));
    lemma_parse_str_of_enc(s, p, e.0);
    lemma_parse_stats_of_enc(s, p + enc_str(e.0).len(), e.1);
}

proof fn lemma_parse_entries_of_enc(s: Seq<char>, p: int, es: Seq<(Seq<char>, ModelStats)>, i: int)
    requires
        0 <= i <= es.len(),
        0 <= p,
        p + enc_entries_from(es, i).len() <= s.len(),
        matches_at(s, p, enc_entries_from(es, i)),
        forall|j: int| 0 <= j < es.len() ==> (#[trigger] es[j]).0.len() < pow10(LEN_WIDTH as nat),
        forall|j: int| 0 <= j < es.len() ==> (#[trigger] es[j]).1.wf(),
    ensures
        parse_entries(s, p, (es.len() - i) as nat) == Some(
            (es.subrange(i, es.len() as int), p + enc_entries_from(es, i).len()),
        ),
    decreases es.len() - i,
{
    if i == es.len() {
        assert(es.subrange(i, es.len() as int) =~= Seq::<(Seq<char>, ModelStats)>::empty());
    } else {
        lemma_matches_split(s, p, enc_entry(es[i]), enc_entries_from(es, i + 1));
        lemma_parse_entry_of_enc(s, p, es[i]);
        let p1 = p + enc_entry(es[i]).len();
        lemma_parse_entries_of_enc(s, p1, es, i + 1);
        assert(es.subrange(i, es.len() as int) =~= seq![es[i]] + es.subrange(
            i + 1,
            es.len() as int,
        ));
    }
}

/// The round-trip law: decoding an encoded provider state gives back
/// exactly the state that was encoded — in particular, the model stats
/// come back entry for entry.
#[verifier::rlimit(80)]
pub proof fn lemma_state_round_trip(v: StateView)
    requires
        view_ok(v),
    ensures
        spec_decode_state(spec_encode_state(v)) == Some(v),
{
    let s = spec_encode_state(v);
    let b1 = enc_str(v.id);
    let b2 = enc_str(v.api_key);
    let b3 = enc_i32(v.max_tokens);
    let b4 = enc_i32(v.temperature_milli);
    let b5 = enc_opt_str(v.last_used);
    let b6 = enc_len(v.entries.len());
    let b7 = enc_entries_from(v.entries, 0);
    lemma_u64_bound();
    lemma_fixed_dec_len(v.entries.len(), LEN_WIDTH as nat);
    assert(matches_at(s, 0, s));
    assert(s =~= b1 + (b2 + (b3 + (b4 + (b5 + (b6 + b7))))));
    lemma_matches_split(s, 0, b1, b2 + (b3 + (b4 + (b5 + (b6 + b7)))));
    let p1 = b1.len() as int;
    lemma_matches_split(s, p1, b2, b3 + (b4 + (b5 + (b6 + b7))));
    let p2 = p1 + b2.len();
    lemma_matches_split(s, p2, b3, b4 + (b5 + (b6 + b7)));
    let p3 = p2 + b3.len();
    lemma_matches_split(s, p3, b4, b5 + (b6 + b7));
    let p4 = p3 + b4.len();
    lemma_matches_split(s, p4, b5, b6 + b7);
    let p5 = p4 + b5.len();
    lemma_matches_split(s, p5, b6, b7);
    let p6 = p5 + b6.len();
    lemma_parse_str_of_enc(s, 0, v.id);
    lemma_parse_str_of_enc(s, p1, v.api_key);
    lemma_parse_i32_of_enc(s, p2, v.max_tokens);
    lemma_parse_i32_of_enc(s, p3, v.temperature_milli);
    lemma_parse_opt_str_of_enc(s, p4, v.last_used);
    lemma_parse_fixed_of_enc(s, p5, v.entries.len(), LEN_WIDTH as nat);
    lemma_parse_entries_of_enc(s, p6, v.entries, 0);
    assert(v.entries.subrange(0, v.entries.len() as int) =~= v.entries);
}

pub proof fn lemma_pow10_pos(a: nat)
    ensures
        pow10(a) >= 1,
    decreases a,
{
    if a > 0 {
        lemma_pow10_pos((a - 1) as nat);
    }
}

pub proof fn lemma_pow10_mono(a: nat, b: nat)
    requires
        a <= b,
    ensures
        pow10(a) <= pow10(b),
        pow10(a) >= 1,
    decreases b,
{
    lemma_pow10_pos(a);
    if a < b {
        lemma_pow10_mono(a, (b - 1) as nat);
        lemma_pow10_pos((b - 1) as nat);
        assert(pow10(b) == 10 * pow10((b - 1) as nat));
    }
}

#[verifier::loop_isolation(false)]
fn parse_fixed_exec(cs: &Vec<char>, p: usize, w: usize) -> (r: Option<(u128, usize)>)
    requires
        w <= U64_WIDTH,
    ensures
        match r {
            Some((v, q)) => parse_fixed(cs@, p as int, w as int) == Some((v as nat, q as int)) && v
                < pow10(w as nat),
            None => parse_fixed(cs@, p as int, w as int) is None,
        },
{
    proof {
        lemma_u64_bound();
        lemma_pow10_mono(w as nat, U64_WIDTH as nat);
    }
    if p > cs.len() || w > cs.len() - p {
        return None;
    }
    let mut acc: u128 = 0;
    let mut i: usize = 0;
    while i < w
        invariant
            0 <= i <= w,
            p + w <= cs.len(),
            digits_ok(cs@, p as int, i as int),
            acc == digits_val(cs@, p as int, i as int),
            acc < pow10(i as nat),
        decreases w - i,
    {
        let c = cs[p + i];
        let cv = c as u32;
        if cv < 48 || cv > 57 {
            proof {
                assert(!is_digit(cs@[p + i]));
            }
            return None;
        }
        proof {
            lemma_pow10_mono((i + 1) as nat, U64_WIDTH as nat);
            assert(pow10((i + 1) as nat) == 10 * pow10(i as nat));
            assert(digits_val(cs@, p as int, i + 1) == digits_val(cs@, p as int, i as int) * 10
                + digit_val(cs@[p + i]));
        }
        acc = acc * 10 + ((cv - 48) as u128);
        i = i + 1;
    }
    Some((acc, p + w))
}

fn parse_u64_exec(cs: &Vec<char>, p: usize) -> (r: Option<(u64, usize)>)
    ensures
        match r {
            Some((v, q)) => parse_u64(cs@, p as int) == Some((v, q as int)),
            None => parse_u64(cs@, p as int) is None,
        },
{
    match parse_fixed_exec(cs, p, U64_WIDTH) {
        None => None,
        Some((v, q)) => {
            if v <= u64::MAX as u128 {
                Some((v as u64, q))
            } else {
                None
            }
        },
    }
}

fn parse_bool_exec(cs: &Vec<char>, p: usize) -> (r: Option<(bool, usize)>)
    ensures
        match r {
            Some((v, q)) => parse_bool(cs@, p as int) == Some((v, q as int)),
            None => parse_bool(cs@, p as int) is None,
        },
{
    if p < cs.len() {
        let c = cs[p];
        if c == 'T' {
            Some((true, p + 1))
        } else if c == 'F' {
            Some((false, p + 1))
        } else {
            None
        }
    } else {
        None
    }
}

fn parse_opt_ts_exec(cs: &Vec<char>, p: usize) -> (r: Option<(Option<i64>, usize)>)
    ensures
        match r {
            Some((v, q)) => parse_opt_ts(cs@, p as int) == Some((v, q as int)),
            None => parse_opt_ts(cs@, p as int) is None,
        },
{
    if p >= cs.len() {
        return None;
    }
    let c = cs[p];
    if c == 'n' {
        Some((None, p + 1))
    } else if c == 's' {
        match parse_u64_exec(cs, p + 1) {
            None => None,
            Some((v, q)) => {
                let bound: u64 = MAX_TIMESTAMP as u64 + (MAX_JAIL_HOURS * SECONDS_PER_HOUR) as u64;
                if v <= bound {
                    Some((Some(v as i64), q))
                } else {
                    None
                }
            },
        }
    } else {
        None
    }
}

fn parse_i32_exec(cs: &Vec<char>, p: usize) -> (r: Option<(i32, usize)>)
    ensures
        match r {
            Some((v, q)) => parse_i32(cs@, p as int) == Some((v, q as int)),
            None => parse_i32(cs@, p as int) is None,
        },
{
    if p >= cs.len() {
        return None;
    }
    let c = cs[p];
    if c == '+' {
        match parse_fixed_exec(cs, p + 1, I32_WIDTH) {
            None => None,
            Some((v, q)) => {
                if v <= i32::MAX as u128 {
                    Some((v as i32, q))
                } else {
                    None
                }
            },
        }
    } else if c == '-' {
        match parse_fixed_exec(cs, p + 1, I32_WIDTH) {
            None => None,
            Some((v, q)) => {
                if v <= 0x80000000u128 {
                    let neg: i64 = -(v as i64);
                    Some((neg as i32, q))
                } else {
                    None
                }
            },
        }
    } else {
        None
    }
}

#[verifier::loop_isolation(false)]
fn parse_str_exec(cs: &Vec<char>, p: usize) -> (r: Option<(String, usize)>)
    ensures
        match r {
            Some((t, q)) => parse_str(cs@, p as int) == Some((t@, q as int)) && t@.len() < pow10(
                LEN_WIDTH as nat,
            ),
            None => parse_str(cs@, p as int) is None,
        },
{
    match parse_fixed_exec(cs, p, LEN_WIDTH) {
        None => None,
        Some((lv, q)) => {
            proof {
                lemma_u64_bound();
            }
            let l = lv as usize;
            if q > cs.len() || l > cs.len() - q {
                return None;
            }
            let mut out = String::new();
            let mut k: usize = 0;
            while k < l
                invariant
                    0 <= k <= l,
                    q + l <= cs.len(),
                    out@ == cs@.subrange(q as int, q + k),
                decreases l - k,
            {
                push_char(&mut out, cs[q + k]);
                proof {
                    assert(out@ =~= cs@.subrange(q as int, q + k + 1));
                }
                k = k + 1;
            }
            proof {
                assert(out@ =~= cs@.subrange(q as int, q + l));
            }
            Some((out, q + l))
        },
    }
}

fn parse_opt_str_exec(cs: &Vec<char>, p: usize) -> (r: Option<(Option<String>, usize)>)
    ensures
        match r {
            Some((v, q)) => parse_opt_str(cs@, p as int) == Some(
                (
                    match v {
                        None => None,
                        Some(t) => Some(t@),
                    },
                    q as int,
                ),
            ) && (match v {
                None => true,
                Some(t) => t@.len() < pow10(LEN_WIDTH as nat),
            }),
            None => parse_opt_str(cs@, p as int) is None,
        },
{
    if p >= cs.len() {
        return None;
    }
    let c = cs[p];
    if c == 'n' {
        Some((None, p + 1))
    } else if c == 's' {
        match parse_str_exec(cs, p + 1) {
            None => None,
            Some((t, q)) => Some((Some(t), q)),
        }
    } else {
        None
    }
}

fn parse_stats_exec(cs: &Vec<char>, p: usize) -> (r: Option<(ModelStats, usize)>)
    ensures
        match r {
            Some((st, q)) => parse_stats(cs@, p as int) == Some((st, q as int)) && st.wf(),
            None => parse_stats(cs@, p as int) is None,
        },
{
    let (success_count, p1) = match parse_u64_exec(cs, p) {
        None => {
            return None;
        },
        Some(x) => x,
    };
    let (failure_count, p2) = match parse_u64_exec(cs, p1) {
        None => {
            return None;
        },
        Some(x) => x,
    };
    let (last_success, p3) = match parse_opt_ts_exec(cs, p2) {
        None => {
            return None;
        },
        Some(x) => x,
    };
    let (last_failure, p4) = match parse_opt_ts_exec(cs, p3) {
        None => {
            return None;
        },
        Some(x) => x,
    };
    let (jail_until, p5) = match parse_opt_ts_exec(cs, p4) {
        None => {
            return None;
        },
        Some(x) => x,
    };
    let (jail_count, p6) = match parse_u64_exec(cs, p5) {
        None => {
            return None;
        },
        Some(x) => x,
    };
    let (blacklisted, p7) = match parse_bool_exec(cs, p6) {
        None => {
            return None;
        },
        Some(x) => x,
    };
    let (blacklisted_since, p8) = match parse_opt_ts_exec(cs, p7) {
        None => {
            return None;
        },
        Some(x) => x,
    };
    let st = ModelStats {
        success_count,
        failure_count,
        last_success,
        last_failure,
        jail_until,
        jail_count,
        blacklisted,
        blacklisted_since,
    };
    if st.blacklisted && st.blacklisted_since.is_none() {
        return None;
    }
    if st.jail_until.is_some() && st.failure_count == 0 {
        return None;
    }
    Some((st, p8))
}

fn parse_entry_exec(cs: &Vec<char>, p: usize) -> (r: Option<((String, ModelStats), usize)>)
    ensures
        match r {
            Some((e, q)) => parse_entry(cs@, p as int) == Some(((e.0@, e.1), q as int)) && e.1.wf()
                && e.0@.len() < pow10(LEN_WIDTH as nat),
            None => parse_entry(cs@, p as int) is None,
        },
{
    match parse_str_exec(cs, p) {
        None => None,
        Some((k, p1)) => match parse_stats_exec(cs, p1) {
            None => None,
            Some((st, p2)) => Some(((k, st), p2)),
        },
    }
}

fn parse_entries_exec(cs: &Vec<char>, p: usize, n: usize) -> (r: Option<(
    Vec<(String, ModelStats)>,
    usize,
)>)
    ensures
        match r {
            Some((v, q)) => v@.len() == n && parse_entries(cs@, p as int, n as nat) == Some(
                (crate::store::entries_view(v@), q as int),
            ) && (forall|i: int|
                0 <= i < crate::store::entries_view(v@).len()
                    ==> (#[trigger] crate::store::entries_view(v@)[i]).1.wf() && crate::store::entries_view(
                    v@,
                )[i].0.len() < pow10(LEN_WIDTH as nat)),
            None => parse_entries(cs@, p as int, n as nat) is None,
        },
    decreases n,
{
    if n == 0 {
        let v: Vec<(String, ModelStats)> = Vec::new();
        proof {
            assert(crate::store::entries_view(v@) =~= Seq::<(Seq<char>, ModelStats)>::empty());
        }
        Some((v, p))
    } else {
        match parse_entry_exec(cs, p) {
            None => None,
            Some((e, p1)) => {
                let ghost ev = (e.0@, e.1);
                match parse_entries_exec(cs, p1, n - 1) {
                    None => None,
                    Some((rest, p2)) => {
                        let ghost restv = crate::store::entries_view(rest@);
                        let mut v = rest;
                        v.insert(0, e);
                        proof {
                            assert(crate::store::entries_view(v@) =~= seq![ev] + restv);
                        }
                        Some((v, p2))
                    },
                }
            },
        }
    }
}

/// Decodes a persisted character form back into a provider state.  The
/// result is `Some` exactly when the input is a valid encoding — then the
/// state it returns is well-formed and encodes back to the same
/// characters.
#[verifier::loop_isolation(false)]
pub fn decode_provider_state(s: &str) -> (r: Option<ProviderState>)
    ensures
        match r {
            Some(st) => spec_decode_state(s@) == Some(state_view(st)) && st.wf() && view_ok(
                state_view(st),
            ),
            None => spec_decode_state(s@) is None,
        },
{
    let cs = chars_of(s);
    let (id, p1) = match parse_str_exec(&cs, 0) {
        None => {
            return None;
        },
        Some(x) => x,
    };
    let (api_key, p2) = match parse_str_exec(&cs, p1) {
        None => {
            return None;
        },
        Some(x) => x,
    };
    let (max_tokens, p3) = match parse_i32_exec(&cs, p2) {
        None => {
            return None;
        },
        Some(x) => x,
    };
    let (temperature_milli, p4) = match parse_i32_exec(&cs, p3) {
        None => {
            return None;
        },
        Some(x) => x,
    };
    let (last_used_model, p5) = match parse_opt_str_exec(&cs, p4) {
        None => {
            return None;
        },
        Some(x) => x,
    };
    let (count, p6) = match parse_fixed_exec(&cs, p5, LEN_WIDTH) {
        None => {
            return None;
        },
        Some(x) => x,
    };
    proof {
        lemma_u64_bound();
        lemma_pow10_mono(LEN_WIDTH as nat, U64_WIDTH as nat);
        reveal_with_fuel(pow10, 9);
    }
    let (entries, p7) = match parse_entries_exec(&cs, p6, count as usize) {
        None => {
            return None;
        },
        Some(x) => x,
    };
    if p7 != cs.len() {
        return None;
    }
    // Reject duplicate model identifiers: the store's keys are unique.
    let ghost ev = crate::store::entries_view(entries@);
    let ne = entries.len();
    let mut i: usize = 0;
    while i < ne
        invariant
            0 <= i <= ne,
            ne == ev.len(),
            ev == crate::store::entries_view(entries@),
            forall|a: int, b: int|
                0 <= a < b < ev.len() && a < i ==> (#[trigger] ev[a]).0 != (#[trigger] ev[b]).0,
        decreases ne - i,
    {
        let mut j: usize = i + 1;
        while j < ne
            invariant
                0 <= i < j <= ne,
                ne == ev.len(),
                ev == crate::store::entries_view(entries@),
                forall|a: int, b: int|
                    0 <= a < b < ev.len() && a < i ==> (#[trigger] ev[a]).0 != (#[trigger] ev[b]).0,
                forall|b: int| i < b < j ==> (#[trigger] ev[b]).0 != ev[i as int].0,
            decreases ne - j,
        {
            if crate::text::str_eq(entries[i].0.as_str(), entries[j].0.as_str()) {
                proof {
                    assert(ev[i as int].0 == ev[j as int].0);
                }
                return None;
            }
            j = j + 1;
        }
        i = i + 1;
    }
    proof {
        assert(unique_keys(ev));
    }
    let model_stats = StatsStore::from_entries(entries);
    let st = ProviderState {
        id,
        api_key,
        max_tokens,
        temperature_milli,
        model_stats,
        last_used_model,
    };
    Some(st)
}

} // verus!

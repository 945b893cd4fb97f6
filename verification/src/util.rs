//! Small text utilities around the engine: version bumping, duration
//! parsing and diff truncation.

use vstd::prelude::*;
use crate::codec::digits_ok;
use crate::codec::digits_val;
use crate::text::chars_of;
use crate::text::digit_val;
use crate::text::is_digit;
use crate::text::format_u64;
use crate::text::lower_char;
use crate::text::push_char;
use crate::text::spec_dec;
use crate::text::spec_lower;
use vstd::string::StringExecFns;
use vstd::string::StringSliceAdditionalSpecFns;
use vstd::utf8::decode_utf8;
use vstd::utf8::encode_utf8;
use vstd::utf8::encode_utf8_decode_utf8;
use vstd::utf8::encode_utf8_valid_utf8;
use vstd::utf8::is_char_boundary;
use vstd::utf8::valid_utf8;

verus! {

/// How many times a failed generation attempt is retried by default.
pub fn default_retry_attempts() -> (r: u32)
    ensures
        r == 3,
{
    3
}

/// An ASCII whitespace character, as the trimming here understands it.
pub open spec fn ws_char(c: char) -> bool {
    c == ' ' || c == '\t' || c == '\n' || c == '\r' || c == '\x0b' || c == '\x0c'
}

/// Index of the first non-whitespace character, or `s.len()`.
pub open spec fn first_non_ws(s: Seq<char>) -> int
    decreases s.len(),
{
    if s.len() == 0 {
        0
    } else if !ws_char(s[0]) {
        0
    } else {
        1 + first_non_ws(s.drop_first())
    }
}

/// One past the index of the last non-whitespace character, or 0.
pub open spec fn last_non_ws_end(s: Seq<char>) -> int
    decreases s.len(),
{
    if s.len() == 0 {
        0
    } else if !ws_char(s.last()) {
        s.len() as int
    } else {
        last_non_ws_end(s.drop_last())
    }
}

/// `s` with leading and trailing ASCII whitespace removed.
pub open spec fn spec_trim(s: Seq<char>) -> Seq<char> {
    if first_non_ws(s) >= last_non_ws_end(s) {
        Seq::empty()
    } else {
        s.subrange(first_non_ws(s), last_non_ws_end(s))
    }
}

proof fn lemma_first_non_ws(s: Seq<char>)
    ensures
        0 <= first_non_ws(s) <= s.len(),
        forall|k: int| 0 <= k < first_non_ws(s) ==> ws_char(#[trigger] s[k]),
        first_non_ws(s) < s.len() ==> !ws_char(s[first_non_ws(s)]),
    decreases s.len(),
{
    if s.len() > 0 && ws_char(s[0]) {
        lemma_first_non_ws(s.drop_first());
        assert forall|k: int| 0 <= k < first_non_ws(s) implies ws_char(#[trigger] s[k]) by {
            if k > 0 {
                assert(s.drop_first()[k - 1] == s[k]);
            }
        }
        if first_non_ws(s) < s.len() {
            assert(s.drop_first()[first_non_ws(s.drop_first())] == s[first_non_ws(s)]);
        }
    }
}

proof fn lemma_last_non_ws_end(s: Seq<char>)
    ensures
        0 <= last_non_ws_end(s) <= s.len(),
        forall|k: int| last_non_ws_end(s) <= k < s.len() ==> ws_char(#[trigger] s[k]),
        last_non_ws_end(s) > 0 ==> !ws_char(s[last_non_ws_end(s) - 1]),
    decreases s.len(),
{
    if s.len() > 0 && ws_char(s.last()) {
        lemma_last_non_ws_end(s.drop_last());
        assert forall|k: int| last_non_ws_end(s) <= k < s.len() implies ws_char(
            #[trigger] s[k],
        ) by {
            if k < s.len() - 1 {
                assert(s.drop_last()[k] == s[k]);
            }
        }
        if last_non_ws_end(s) > 0 {
            assert(s.drop_last()[last_non_ws_end(s.drop_last()) - 1] == s[last_non_ws_end(s) - 1]);
        }
    }
}

fn is_ws(c: char) -> (r: bool)
    ensures
        r == ws_char(c),
{
    c == ' ' || c == '\t' || c == '\n' || c == '\r' || c == '\x0b' || c == '\x0c'
}

/// `s` with leading and trailing ASCII whitespace removed.
#[verifier::loop_isolation(false)]
fn trim_chars(s: &Vec<char>) -> (r: Vec<char>)
    ensures
        r@ == spec_trim(s@),
{
    proof {
        lemma_first_non_ws(s@);
        lemma_last_non_ws_end(s@);
    }
    let n = s.len();
    let mut a: usize = 0;
    while a < n && is_ws(s[a])
        invariant
            0 <= a <= n,
            a <= first_non_ws(s@),
        decreases n - a,
    {
        proof {
            if a + 1 > first_non_ws(s@) {
                assert(!ws_char(s@[first_non_ws(s@)]));
            }
        }
        a = a + 1;
    }
    proof {
        assert(a == first_non_ws(s@));
    }
    let mut b: usize = n;
    while b > 0 && is_ws(s[b - 1])
        invariant
            0 <= b <= n,
            b >= last_non_ws_end(s@),
        decreases b,
    {
        proof {
            if b - 1 < last_non_ws_end(s@) {
                assert(!ws_char(s@[last_non_ws_end(s@) - 1]));
            }
        }
        b = b - 1;
    }
    proof {
        assert(b == last_non_ws_end(s@));
    }
    let mut out: Vec<char> = Vec::new();
    if a >= b {
        proof {
            assert(out@ =~= spec_trim(s@));
        }
        return out;
    }
    let mut i: usize = a;
    while i < b
        invariant
            a <= i <= b,
            out@ == s@.subrange(a as int, i as int),
        decreases b - i,
    {
        out.push(s[i]);
        proof {
            assert(out@ =~= s@.subrange(a as int, i + 1));
        }
        i = i + 1;
    }
    proof {
        assert(out@ =~= spec_trim(s@));
    }
    out
}

/// Length of the leading run of decimal digits.
pub open spec fn digit_prefix_len(s: Seq<char>) -> int
    decreases s.len(),
{
    if s.len() == 0 {
        0
    } else if !is_digit(s[0]) {
        0
    } else {
        1 + digit_prefix_len(s.drop_first())
    }
}

proof fn lemma_digit_prefix(s: Seq<char>)
    ensures
        0 <= digit_prefix_len(s) <= s.len(),
        forall|k: int| 0 <= k < digit_prefix_len(s) ==> is_digit(#[trigger] s[k]),
        digit_prefix_len(s) < s.len() ==> !is_digit(s[digit_prefix_len(s)]),
    decreases s.len(),
{
    if s.len() > 0 && is_digit(s[0]) {
        lemma_digit_prefix(s.drop_first());
        assert forall|k: int| 0 <= k < digit_prefix_len(s) implies is_digit(#[trigger] s[k]) by {
            if k > 0 {
                assert(s.drop_first()[k - 1] == s[k]);
            }
        }
        if digit_prefix_len(s) < s.len() {
            assert(s.drop_first()[digit_prefix_len(s.drop_first())] == s[digit_prefix_len(s)]);
        }
    }
}

fn lower_vec(s: &Vec<char>) -> (r: Vec<char>)
    ensures
        r@ == spec_lower(s@),
{
    let n = s.len();
    let mut out: Vec<char> = Vec::new();
    let mut i: usize = 0;
    while i < n
        invariant
            0 <= i <= n,
            n == s@.len(),
            out@.len() == i,
            forall|j: int| 0 <= j < i ==> out@[j] == lower_char(s@[j]),
        decreases n - i,
    {
        let c = s[i];
        let cv = c as u32;
        let lc: char = if 65 <= cv && cv <= 90 {
            ((cv + 32) as u8) as char
        } else {
            c
        };
        out.push(lc);
        i = i + 1;
    }
    proof {
        assert(out@ =~= spec_lower(s@));
    }
    out
}

#[verifier::loop_isolation(false)]
fn push_range(out: &mut String, s: &Vec<char>, from: usize, to: usize)
    requires
        from <= to <= s@.len(),
    ensures
        final(out)@ == old(out)@ + s@.subrange(from as int, to as int),
{
    let mut i: usize = from;
    proof {
        assert(out@ =~= old(out)@ + s@.subrange(from as int, from as int));
    }
    while i < to
        invariant
            from <= i <= to,
            out@ == old(out)@ + s@.subrange(from as int, i as int),
        decreases to - i,
    {
        push_char(out, s[i]);
        proof {
            assert(out@ =~= old(out)@ + s@.subrange(from as int, i + 1));
        }
        i = i + 1;
    }
}

/// What parsing a duration gives: the trimmed, lower-cased input is a run
/// of digits followed by a unit (`s`, `m` or `h`); the value in seconds
/// must fit an unsigned 64-bit count.  Every failure carries its message.
pub open spec fn spec_parse_duration(input: Seq<char>) -> Result<u64, Seq<char>> {
    let t = spec_lower(spec_trim(input));
    if t.len() == 0 {
        Err("Duration string is empty"@)
    } else {
        let d = digit_prefix_len(t);
        let digits = t.subrange(0, d);
        let unit = t.subrange(d, t.len() as int);
        if d == 0 {
            Err("No duration value provided"@)
        } else if digits_val(t, 0, d) > u64::MAX {
            Err("Invalid duration number: "@ + digits)
        } else {
            let v = digits_val(t, 0, d) as u64;
            if unit == "s"@ {
                Ok(v)
            } else if unit == "m"@ {
                if v * 60 > u64::MAX {
                    Err("Invalid duration number: "@ + digits)
                } else {
                    Ok((v * 60) as u64)
                }
            } else if unit == "h"@ {
                if v * 3600 > u64::MAX {
                    Err("Invalid duration number: "@ + digits)
                } else {
                    Ok((v * 3600) as u64)
                }
            } else {
                Err("Invalid duration unit: '"@ + unit + "'. Use s, m, or h"@)
            }
        }
    }
}

/// Parses a duration such as "30s", "5m" or "2h" into whole seconds.
#[verifier::loop_isolation(false)]
#[verifier::rlimit(60)]
pub fn parse_duration(duration_str: &str) -> (r: Result<u64, String>)
    ensures
        match r {
            Ok(v) => spec_parse_duration(duration_str@) == Ok::<u64, Seq<char>>(v),
            Err(e) => spec_parse_duration(duration_str@) == Err::<u64, Seq<char>>(e@),
        },
{
    proof {
        reveal_strlit("s");
        reveal_strlit("m");
        reveal_strlit("h");
    }
    let cs = chars_of(duration_str);
    let trimmed = trim_chars(&cs);
    let t = lower_vec(&trimmed);
    let ghost tv = t@;
    let n = t.len();
    if n == 0 {
        return Err("Duration string is empty".to_owned());
    }
    proof {
        lemma_digit_prefix(tv);
    }
    let mut d: usize = 0;
    while d < n && 48 <= t[d] as u32 && t[d] as u32 <= 57
        invariant
            0 <= d <= n,
            d <= digit_prefix_len(tv),
        decreases n - d,
    {
        proof {
            if d + 1 > digit_prefix_len(tv) {
                assert(!is_digit(tv[digit_prefix_len(tv)]));
            }
        }
        d = d + 1;
    }
    proof {
        assert(d == digit_prefix_len(tv));
    }
    if d == 0 {
        return Err("No duration value provided".to_owned());
    }
    // Accumulate the value, tracking overflow past u64::MAX.
    let mut acc: u128 = 0;
    let mut over: bool = false;
    let mut i: usize = 0;
    while i < d
        invariant
            0 <= i <= d,
            d <= n == tv.len(),
            digits_ok(tv, 0, d as int),
            !over ==> acc == digits_val(tv, 0, i as int) && acc <= u64::MAX,
            over ==> digits_val(tv, 0, i as int) > u64::MAX,
        decreases d - i,
    {
        let dv = (t[i] as u32 - 48) as u128;
        proof {
            assert(digits_val(tv, 0, i + 1) == digits_val(tv, 0, i as int) * 10 + digit_val(
                tv[i as int],
            ));
            if over {
                assert(digits_val(tv, 0, i as int) * 10 >= digits_val(tv, 0, i as int));
            }
        }
        if !over {
            let next: u128 = acc * 10 + dv;
            if next > u64::MAX as u128 {
                over = true;
            } else {
                acc = next;
            }
        }
        i = i + 1;
    }
    if over {
        let mut msg = "Invalid duration number: ".to_owned();
        push_range(&mut msg, &t, 0, d);
        return Err(msg);
    }
    let v = acc as u64;
    if d == n {
        // No unit characters at all.
        let mut msg = "Invalid duration unit: '".to_owned();
        push_range(&mut msg, &t, d, n);
        msg.append("'. Use s, m, or h");
        proof {
            reveal_strlit("s");
            reveal_strlit("m");
            reveal_strlit("h");
            assert(tv.subrange(d as int, n as int) =~= Seq::<char>::empty());
            assert(tv.subrange(d as int, n as int) != "s"@);
            assert(tv.subrange(d as int, n as int) != "m"@);
            assert(tv.subrange(d as int, n as int) != "h"@);
        }
        return Err(msg);
    }
    let u = t[d];
    if d + 1 == n && u == 's' {
        proof {
            reveal_strlit("s");
            reveal_strlit("m");
            reveal_strlit("h");
            assert(tv.subrange(d as int, n as int) =~= "s"@);
            assert(tv == spec_lower(spec_trim(duration_str@)));
            assert(d == digit_prefix_len(tv));
            assert(acc == digits_val(tv, 0, d as int));
            assert(digits_val(tv, 0, d as int) <= u64::MAX);
            assert(spec_parse_duration(duration_str@) == Ok::<u64, Seq<char>>(v));
        }
        Ok(v)
    } else if d + 1 == n && u == 'm' {
        proof {
            reveal_strlit("s");
            reveal_strlit("m");
            reveal_strlit("h");
            assert(tv.subrange(d as int, n as int) =~= "m"@);
            assert("s"@.len() == 1);
            assert("s"@[0] == 's');
            assert("m"@[0] == 'm');
            assert(tv.subrange(d as int, n as int) != "s"@);
        }
        if v > u64::MAX / 60 {
            let mut msg = "Invalid duration number: ".to_owned();
            push_range(&mut msg, &t, 0, d);
            Err(msg)
        } else {
            proof {
                reveal_strlit("s");
                reveal_strlit("m");
                reveal_strlit("h");
                assert(v * 60 <= u64::MAX) by (nonlinear_arith)
                    requires
                        v <= u64::MAX / 60,
                ;
                let tspec = spec_lower(spec_trim(duration_str@));
                assert(tspec == tv);
                assert(tspec.len() != 0);
                let dd = digit_prefix_len(tspec);
                assert(dd == d);
                assert(dd != 0);
                let unit = tspec.subrange(dd, tspec.len() as int);
                assert(unit == "m"@);
                assert('m' != 's');
                assert("s"@.len() == 1);
                assert("s"@[0] == 's');
                assert("m"@[0] == 'm');
                assert(unit != "s"@);
                assert(!(digits_val(tspec, 0, dd) > u64::MAX));
                assert(digits_val(tspec, 0, dd) as u64 == v);
                assert(spec_parse_duration(duration_str@) == Ok::<u64, Seq<char>>((v * 60) as u64));
            }
            Ok(v * 60)
        }
    } else if d + 1 == n && u == 'h' {
        proof {
            reveal_strlit("s");
            reveal_strlit("m");
            reveal_strlit("h");
            assert(tv.subrange(d as int, n as int) =~= "h"@);
            assert("s"@.len() == 1);
            assert("s"@[0] == 's');
            assert("m"@.len() == 1);
            assert("m"@[0] == 'm');
            assert("h"@[0] == 'h');
            assert(tv.subrange(d as int, n as int) != "s"@);
            assert(tv.subrange(d as int, n as int) != "m"@);
        }
        if v > u64::MAX / 3600 {
            let mut msg = "Invalid duration number: ".to_owned();
            push_range(&mut msg, &t, 0, d);
            Err(msg)
        } else {
            proof {
                reveal_strlit("s");
                reveal_strlit("m");
                reveal_strlit("h");
                assert(v * 3600 <= u64::MAX) by (nonlinear_arith)
                    requires
                        v <= u64::MAX / 3600,
                ;
                let tspec = spec_lower(spec_trim(duration_str@));
                assert(tspec == tv);
                let dd = digit_prefix_len(tspec);
                let unit = tspec.subrange(dd, tspec.len() as int);
                assert(unit == "h"@);
                assert("s"@.len() == 1);
                assert("s"@[0] == 's');
                assert("m"@.len() == 1);
                assert("m"@[0] == 'm');
                assert("h"@[0] == 'h');
                assert(unit != "s"@);
                assert(unit != "m"@);
                assert(!(digits_val(tspec, 0, dd) > u64::MAX));
                assert(digits_val(tspec, 0, dd) as u64 == v);
                assert(spec_parse_duration(duration_str@) == Ok::<u64, Seq<char>>((v * 3600) as u64));
            }
            Ok(v * 3600)
        }
    } else {
        proof {
            reveal_strlit("s");
            reveal_strlit("m");
            reveal_strlit("h");
            let unit = tv.subrange(d as int, n as int);
            assert(unit.len() == n - d);
            assert(unit[0] == tv[d as int]);
            if d + 1 == n {
                assert(unit.len() == 1);
            }
            assert(unit != "s"@);
            assert(unit != "m"@);
            assert(unit != "h"@);
        }
        let mut msg = "Invalid duration unit: '".to_owned();
        push_range(&mut msg, &t, d, n);
        msg.append("'. Use s, m, or h");
        Err(msg)
    }
}

/// Index just past the last `'.'`, or 0 when there is none.
pub open spec fn after_last_dot(s: Seq<char>) -> int
    decreases s.len(),
{
    if s.len() == 0 {
        0
    } else if s.last() == '.' {
        s.len() as int
    } else {
        after_last_dot(s.drop_last())
    }
}

proof fn lemma_after_last_dot(s: Seq<char>)
    ensures
        0 <= after_last_dot(s) <= s.len(),
        forall|k: int| after_last_dot(s) <= k < s.len() ==> #[trigger] s[k] != '.',
        after_last_dot(s) > 0 ==> s[after_last_dot(s) - 1] == '.',
    decreases s.len(),
{
    if s.len() > 0 && s.last() != '.' {
        lemma_after_last_dot(s.drop_last());
        assert forall|k: int| after_last_dot(s) <= k < s.len() implies #[trigger] s[k] != '.' by {
            if k < s.len() - 1 {
                assert(s.drop_last()[k] == s[k]);
            }
        }
        if after_last_dot(s) > 0 {
            assert(s.drop_last()[after_last_dot(s.drop_last()) - 1] == s[after_last_dot(s) - 1]);
        }
    }
}

/// What bumping a version string gives: with `t` the trimmed input and
/// `k` the position after its last dot, the tail from `k` must be a
/// non-empty run of digits below the unsigned 32-bit ceiling; the result
/// keeps everything up to `k` and carries the incremented tail.
pub open spec fn spec_increment_version(input: Seq<char>) -> Result<Seq<char>, Seq<char>> {
    let t = spec_trim(input);
    let k = after_last_dot(t);
    let w = t.len() - k;
    if w > 0 && digits_ok(t, k, w) && digits_val(t, k, w) < u32::MAX {
        Ok(t.subrange(0, k) + spec_dec((digits_val(t, k, w) + 1) as nat))
    } else {
        Err("Invalid version number"@)
    }
}

/// Bumps the last numeric component of a version string, so that "0.0.37"
/// becomes "0.0.38".
#[verifier::loop_isolation(false)]
#[verifier::rlimit(60)]
pub fn increment_version(version: &str) -> (r: Result<String, String>)
    ensures
        match r {
            Ok(v) => spec_increment_version(version@) == Ok::<Seq<char>, Seq<char>>(v@),
            Err(e) => spec_increment_version(version@) == Err::<Seq<char>, Seq<char>>(e@),
        },
{
    let cs = chars_of(version);
    let t = trim_chars(&cs);
    let ghost tv = t@;
    let n = t.len();
    proof {
        lemma_after_last_dot(tv);
    }
    let mut k: usize = n;
    while k > 0 && t[k - 1] != '.'
        invariant
            0 <= k <= n,
            n == tv.len(),
            k >= after_last_dot(tv),
            forall|j: int| k <= j < n ==> #[trigger] tv[j] != '.',
        decreases k,
    {
        proof {
            if k - 1 < after_last_dot(tv) {
                assert(tv[after_last_dot(tv) - 1] == '.');
            }
        }
        k = k - 1;
    }
    proof {
        assert(k == after_last_dot(tv));
    }
    let w = n - k;
    if w == 0 {
        return Err("Invalid version number".to_owned());
    }
    // Accumulate the tail value, rejecting non-digits and overflow.
    let mut acc: u64 = 0;
    let mut over: bool = false;
    let mut i: usize = 0;
    while i < w
        invariant
            0 <= i <= w,
            w == n - k,
            k + w <= n == tv.len(),
            digits_ok(tv, k as int, i as int),
            !over ==> acc == digits_val(tv, k as int, i as int) && acc <= u32::MAX,
            over ==> digits_val(tv, k as int, i as int) > u32::MAX,
        decreases w - i,
    {
        let c = t[k + i];
        let cv = c as u32;
        if cv < 48 || cv > 57 {
            proof {
                assert(!is_digit(tv[k + i]));
            }
            return Err("Invalid version number".to_owned());
        }
        proof {
            assert(digits_val(tv, k as int, i + 1) == digits_val(tv, k as int, i as int) * 10
                + digit_val(tv[k + i]));
            if over {
                assert(digits_val(tv, k as int, i as int) * 10 >= digits_val(tv, k as int, i as int));
            }
        }
        if !over {
            let next: u64 = acc * 10 + ((cv - 48) as u64);
            if next > u32::MAX as u64 {
                over = true;
            } else {
                acc = next;
            }
        }
        i = i + 1;
    }
    if over || acc == u32::MAX as u64 {
        return Err("Invalid version number".to_owned());
    }
    let mut out = String::new();
    push_range(&mut out, &t, 0, k);
    let num = format_u64(acc + 1);
    out.append(num.as_str());
    proof {
        assert(out@ =~= tv.subrange(0, k as int) + spec_dec((acc + 1) as nat));
    }
    Ok(out)
}

/// Byte budget for a diff handed to a model.
pub const MAX_DIFF_CHARS: usize = 15000;

/// Largest index at most `m` that falls on a character boundary (zero
/// when none other does).
pub open spec fn spec_safe_len(bytes: Seq<u8>, m: int) -> int
    decreases m,
{
    if m <= 0 {
        0
    } else if is_char_boundary(bytes, m) {
        m
    } else {
        spec_safe_len(bytes, m - 1)
    }
}

/// The byte length at which `bytes` can be cut: all of it when `max_len`
/// covers it, else the largest boundary at most `max_len`.
pub open spec fn spec_safe_slice_len(bytes: Seq<u8>, max_len: int) -> int {
    if max_len >= bytes.len() {
        bytes.len() as int
    } else {
        spec_safe_len(bytes, max_len)
    }
}

proof fn lemma_safe_len_boundary(bytes: Seq<u8>, m: int)
    requires
        valid_utf8(bytes),
    ensures
        0 <= spec_safe_len(bytes, m),
        m >= 0 ==> spec_safe_len(bytes, m) <= m,
        is_char_boundary(bytes, spec_safe_len(bytes, m)),
    decreases m,
{
    if m > 0 && !is_char_boundary(bytes, m) {
        lemma_safe_len_boundary(bytes, m - 1);
    }
}

/// Largest byte index of `s`, at most `max_len`, that can serve as the
/// end of a string slice without splitting a character.
#[verifier::loop_isolation(false)]
pub fn get_safe_slice_length(s: &str, max_len: usize) -> (r: usize)
    ensures
        r == spec_safe_slice_len(s.spec_bytes(), max_len as int),
{
    proof {
        encode_utf8_valid_utf8(s@);
    }
    let nb = s.as_bytes().len();
    proof {
        assert(nb == s.spec_bytes().len());
    }
    if max_len >= nb {
        return nb;
    }
    let mut safe_len = max_len;
    while safe_len > 0 && !s.is_char_boundary(safe_len)
        invariant
            0 <= safe_len <= max_len,
            spec_safe_len(s.spec_bytes(), max_len as int) == spec_safe_len(
                s.spec_bytes(),
                safe_len as int,
            ),
        decreases safe_len,
    {
        safe_len = safe_len - 1;
    }
    safe_len
}

/// A byte of ASCII whitespace.
pub open spec fn ws_byte(b: u8) -> bool {
    b == 9 || b == 10 || b == 11 || b == 12 || b == 13 || b == 32
}

pub open spec fn all_ws_bytes(bytes: Seq<u8>) -> bool {
    forall|i: int| 0 <= i < bytes.len() ==> ws_byte(#[trigger] bytes[i])
}

/// The note appended in place of what was cut from a long diff.
pub open spec fn truncation_note(shown: nat) -> Seq<char> {
    "...\n\n[... total diff truncated due to length (first "@ + spec_dec(shown)
        + " chars shown) ...]"@
}

/// Prepares a diff for a model: a diff within the byte budget passes
/// through unchanged; a longer one is cut at a character boundary just
/// under the budget and a note says how much is shown; a longer diff of
/// nothing but whitespace becomes empty.
#[verifier::loop_isolation(false)]
pub fn process_git_diff_output(diff: &str) -> (r: String)
    ensures
        diff.spec_bytes().len() <= MAX_DIFF_CHARS ==> r@ == diff@,
        diff.spec_bytes().len() > MAX_DIFF_CHARS && all_ws_bytes(diff.spec_bytes()) ==> r@.len()
            == 0,
        diff.spec_bytes().len() > MAX_DIFF_CHARS && !all_ws_bytes(diff.spec_bytes()) ==> r@
            == decode_utf8(
            diff.spec_bytes().subrange(
                0,
                spec_safe_slice_len(diff.spec_bytes(), MAX_DIFF_CHARS - 100),
            ),
        ) + truncation_note(spec_safe_slice_len(diff.spec_bytes(), MAX_DIFF_CHARS - 100) as nat),
{
    proof {
        encode_utf8_valid_utf8(diff@);
    }
    let bv = diff.as_bytes();
    let n = bv.len();
    proof {
        assert(n == diff.spec_bytes().len());
    }
    if n <= MAX_DIFF_CHARS {
        return diff.to_owned();
    }
    let mut i: usize = 0;
    while i < n && (bv[i] == 9 || bv[i] == 10 || bv[i] == 11 || bv[i] == 12 || bv[i] == 13
        || bv[i] == 32)
        invariant
            0 <= i <= n,
            forall|j: int| 0 <= j < i ==> ws_byte(#[trigger] diff.spec_bytes()[j]),
        decreases n - i,
    {
        i = i + 1;
    }
    if i == n {
        return String::new();
    }
    proof {
        assert(!ws_byte(diff.spec_bytes()[i as int]));
        lemma_safe_len_boundary(diff.spec_bytes(), MAX_DIFF_CHARS - 100);
    }
    let sl = get_safe_slice_length(diff, MAX_DIFF_CHARS - 100);
    let (prefix, _rest) = diff.split_at(sl);
    let mut out = prefix.to_owned();
    out.append("...\n\n[... total diff truncated due to length (first ");
    let num = format_u64(sl as u64);
    out.append(num.as_str());
    out.append(" chars shown) ...]");
    proof {
        encode_utf8_decode_utf8(prefix@);
        assert(prefix.spec_bytes() == encode_utf8(prefix@));
        assert(prefix@ == decode_utf8(
            diff.spec_bytes().subrange(0, spec_safe_slice_len(diff.spec_bytes(), MAX_DIFF_CHARS
                - 100)),
        ));
        assert(out@ =~= prefix@ + truncation_note(sl as nat));
    }
    out
}

/// The instruction text placed before the diff in a prompt.
pub open spec fn prompt_prefix() -> Seq<char> {
    "Generate ONLY the git commit message string based on the provided diff. Follow the Conventional Commits specification (type: description). Do NOT include any introductory phrases, explanations, or markdown formatting like ```.\nExamples:\n- feat: Add user authentication feature\n- fix: Correct calculation error in payment module\n- docs: Update README with installation instructions\n- style: Format code according to style guide\n- refactor: Simplify database query logic\n- test: Add unit tests for user service\n- chore: Update dependencies\n\nGit Diff:\n```diff\n"@
}

/// The instruction text placed after the diff in a prompt.
pub open spec fn prompt_suffix() -> Seq<char> {
    "\n```\nCommit Message ONLY:"@
}

/// The prompt sent to a model for a (possibly truncated) diff.
pub open spec fn spec_commit_prompt(diff: Seq<char>) -> Seq<char> {
    prompt_prefix() + diff + prompt_suffix()
}

/// Builds the generation prompt around a processed diff.
pub fn commit_prompt(processed_diff: &str) -> (r: String)
    ensures
        r@ == spec_commit_prompt(processed_diff@),
{
    let mut out =
        "Generate ONLY the git commit message string based on the provided diff. Follow the Conventional Commits specification (type: description). Do NOT include any introductory phrases, explanations, or markdown formatting like ```.\nExamples:\n- feat: Add user authentication feature\n- fix: Correct calculation error in payment module\n- docs: Update README with installation instructions\n- style: Format code according to style guide\n- refactor: Simplify database query logic\n- test: Add unit tests for user service\n- chore: Update dependencies\n\nGit Diff:\n```diff\n".to_owned();
    out.append(processed_diff);
    out.append("\n```\nCommit Message ONLY:");
    proof {
        assert(out@ =~= spec_commit_prompt(processed_diff@));
    }
    out
}

} // verus!

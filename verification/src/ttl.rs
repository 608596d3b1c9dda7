//! Client-side TTL support for memory items.
//!
//! The store has no native TTL, so items carry an `expires_at` attribute
//! (RFC 3339 text) and reads filter out items whose timestamp is in the
//! past. Durations are written `<N>h`, `<N>d` or `<N>w`.

use vstd::prelude::*;
use vstd::string::StrSliceExecFns;
use vstd::string::StringExecFns;
use crate::doc::{Document, DocView, JsonVal, spec_get_attr};
use crate::text::{spec_trim, trim_str, str_eq};
use crate::time::{
    MAX_TTL_SECONDS, end_of_day_rfc3339, end_of_day_utc_of, now_epoch_seconds,
    parse_rfc3339_epoch, rfc3339_epoch_of, rfc3339_seconds_from_now, spec_valid_ymd,
};

verus! {

/// A TTL duration, in whole seconds.
#[derive(Clone, Copy, PartialEq, Eq, Structural, Debug)]
pub struct Duration {
    pub seconds: i64,
}

impl Duration {
    /// A positive duration no longer than the TTL ceiling.
    pub open spec fn wf(self) -> bool {
        0 < self.seconds <= MAX_TTL_SECONDS
    }

    /// A duration of `n` hours.
    pub fn hours(n: i64) -> (r: Duration)
        requires
            0 <= n,
            n * 3600 <= MAX_TTL_SECONDS,
        ensures
            r.seconds == n * 3600,
    {
        Duration { seconds: n * 3600 }
    }

    /// A duration of `n` days.
    pub fn days(n: i64) -> (r: Duration)
        requires
            0 <= n,
            n * 86400 <= MAX_TTL_SECONDS,
        ensures
            r.seconds == n * 86400,
    {
        Duration { seconds: n * 86400 }
    }

    /// A duration of `n` weeks.
    pub fn weeks(n: i64) -> (r: Duration)
        requires
            0 <= n,
            n * 604800 <= MAX_TTL_SECONDS,
        ensures
            r.seconds == n * 604800,
    {
        Duration { seconds: n * 604800 }
    }
}

/// Default TTL for scratchpad items: 24 hours.
pub fn scratchpad_default_ttl() -> (r: Duration)
    ensures
        r.seconds == 86400,
{
    Duration { seconds: 86400 }
}

/// Default TTL for sessions items: 7 days.
pub fn sessions_default_ttl() -> (r: Duration)
    ensures
        r.seconds == 604800,
{
    Duration { seconds: 604800 }
}

/// Default TTL for interactions items: 90 days.
pub fn interactions_default_ttl() -> (r: Duration)
    ensures
        r.seconds == 7776000,
{
    Duration { seconds: 7776000 }
}

/// A decimal digit.
pub open spec fn spec_is_digit(c: char) -> bool {
    0x30 <= c as u32 <= 0x39
}

/// The value of a string of decimal digits.
pub open spec fn spec_digits_val(s: Seq<char>) -> int
    decreases s.len(),
{
    if s.len() == 0 {
        0
    } else {
        10 * spec_digits_val(s.drop_last()) + (s.last() as u32 - 0x30)
    }
}

/// The seconds in one unit: `h`our, `d`ay or `w`eek.
pub open spec fn spec_unit_seconds(c: char) -> Option<int> {
    if c == 'h' {
        Some(3600int)
    } else if c == 'd' {
        Some(86400int)
    } else if c == 'w' {
        Some(604800int)
    } else {
        None
    }
}

/// The digit part of a trimmed TTL text: everything before the final unit
/// character, less one optional leading `+` sign.
pub open spec fn spec_ttl_digits(t: Seq<char>) -> Seq<char> {
    let num = t.subrange(0, t.len() - 1);
    if num.len() > 0 && num[0] == '+' {
        num.drop_first()
    } else {
        num
    }
}

/// A TTL text is accepted when, after trimming, it is a positive decimal
/// number (optionally `+`-signed) within `i64`, followed by a known unit,
/// and the resulting length stays under the TTL ceiling.
pub open spec fn spec_ttl_ok(s: Seq<char>) -> bool {
    let t = spec_trim(s);
    let digits = spec_ttl_digits(t);
    &&& t.len() >= 2
    &&& digits.len() > 0
    &&& forall|i: int| 0 <= i < digits.len() ==> spec_is_digit(digits[i])
    &&& 0 < spec_digits_val(digits) <= i64::MAX
    &&& spec_unit_seconds(t.last()) is Some
    &&& spec_digits_val(digits) * spec_unit_seconds(t.last())->0 <= MAX_TTL_SECONDS
}

/// The seconds an accepted TTL text denotes.
pub open spec fn spec_ttl_seconds(s: Seq<char>) -> int {
    let t = spec_trim(s);
    spec_digits_val(spec_ttl_digits(t)) * spec_unit_seconds(t.last())->0
}

/// Parse a TTL duration such as `"24h"`, `"7d"` or `"2w"`.
///
/// Returns an error on an empty string, a non-positive or non-integer
/// number, an unknown unit, or a length over the TTL ceiling.
pub fn parse_ttl(s: &str) -> (r: Result<Duration, String>)
    ensures
        r matches Ok(d) ==> spec_ttl_ok(s@) && d.seconds == spec_ttl_seconds(s@) && d.wf(),
        r is Err ==> !spec_ttl_ok(s@),
{
    let t = trim_str(s);
    let n = t.unicode_len();
    if n == 0 {
        return Err(String::from_str("TTL string is empty"));
    }
    if n < 2 {
        return Err(String::from_str("Invalid TTL: too short"));
    }
    let unit = t.get_char(n - 1);
    let unit_secs: i64 = if unit == 'h' {
        3600
    } else if unit == 'd' {
        86400
    } else if unit == 'w' {
        604800
    } else {
        return Err(String::from_str("Unknown TTL unit. Use h (hours), d (days), or w (weeks)"));
    };
    // The number part, skipping one optional sign character.
    let mut start: usize = 0;
    let first = t.get_char(0);
    if first == '+' {
        start = 1;
    } else if first == '-' {
        return Err(String::from_str("TTL must be positive"));
    }
    if start == n - 1 {
        return Err(String::from_str("Invalid TTL number"));
    }
    proof {
        assert(spec_ttl_digits(t@) =~= t@.subrange(start as int, n - 1));
    }
    let mut val: i64 = 0;
    let mut i: usize = start;
    while i < n - 1
        invariant
            n == t@.len(),
            2 <= n,
            start <= i <= n - 1,
            start < n - 1,
            0 <= val,
            forall|j: int| start <= j < i ==> spec_is_digit(t@[j]),
            val == spec_digits_val(t@.subrange(start as int, i as int)),
            spec_ttl_digits(t@) == t@.subrange(start as int, n - 1),
            t@ == spec_trim(s@),
            spec_unit_seconds(t@[n - 1]) == Some(unit_secs as int),
        decreases n - i,
    {
        let c = t.get_char(i);
        let u = c as u32;
        if u < 0x30 || u > 0x39 {
            proof {
                assert(!spec_is_digit(spec_ttl_digits(t@)[i - start]));
            }
            return Err(String::from_str("Invalid TTL number"));
        }
        let d = (u - 0x30) as i64;
        if val > (i64::MAX - d) / 10 {
            proof {
                let g = t@.subrange(start as int, i + 1);
                assert(g.drop_last() =~= t@.subrange(start as int, i as int));
                assert(spec_digits_val(g) > i64::MAX);
                let digits = spec_ttl_digits(t@);
                assert(digits.subrange(0, i + 1 - start) =~= g);
                if forall|j: int| 0 <= j < digits.len() ==> spec_is_digit(digits[j]) {
                    lemma_digits_val_prefix_le(digits, i + 1 - start);
                }
            }
            return Err(String::from_str("Invalid TTL number: out of range"));
        }
        val = val * 10 + d;
        proof {
            assert(t@.subrange(start as int, i + 1).drop_last() =~= t@.subrange(
                start as int,
                i as int,
            ));
        }
        i = i + 1;
    }
    if val == 0 {
        return Err(String::from_str("TTL must be positive"));
    }
    if val > MAX_TTL_SECONDS / unit_secs {
        return Err(String::from_str("TTL is too long"));
    }
    let seconds: i64 = val * unit_secs;
    Ok(Duration { seconds })
}

/// Extending a digit string never lowers its value.
proof fn lemma_digits_val_prefix_le(s: Seq<char>, k: int)
    requires
        0 <= k <= s.len(),
        forall|i: int| 0 <= i < s.len() ==> spec_is_digit(s[i]),
    ensures
        spec_digits_val(s.subrange(0, k)) <= spec_digits_val(s),
    decreases s.len() - k,
{
    if k < s.len() {
        lemma_digits_val_prefix_le(s, k + 1);
        let a = s.subrange(0, k);
        let b = s.subrange(0, k + 1);
        assert(b.drop_last() =~= a);
        lemma_digits_val_nonneg(a);
    }
    if k == s.len() {
        assert(s.subrange(0, k) =~= s);
    }
}

/// The value of a digit string is non-negative.
proof fn lemma_digits_val_nonneg(s: Seq<char>)
    requires
        forall|i: int| 0 <= i < s.len() ==> spec_is_digit(s[i]),
    ensures
        spec_digits_val(s) >= 0,
    decreases s.len(),
{
    if s.len() > 0 {
        lemma_digits_val_nonneg(s.drop_last());
    }
}

/// A TTL made of bare digits and a known unit parses to the denoted length.
/// Stated over any digit string whose value is positive and under the
/// ceiling for its unit; `1h` through `999w` all satisfy it.
pub proof fn lemma_parse_ttl_round_trip(digits: Seq<char>, unit: char)
    requires
        digits.len() > 0,
        forall|i: int| 0 <= i < digits.len() ==> spec_is_digit(digits[i]),
        0 < spec_digits_val(digits) <= i64::MAX,
        spec_unit_seconds(unit) is Some,
        spec_digits_val(digits) * spec_unit_seconds(unit)->0 <= MAX_TTL_SECONDS,
    ensures
        spec_ttl_ok(digits.push(unit)),
        spec_ttl_seconds(digits.push(unit)) == spec_digits_val(digits) * spec_unit_seconds(
            unit,
        )->0,
{
    let s = digits.push(unit);
    assert(!crate::text::spec_is_whitespace(s[0]));
    assert(!crate::text::spec_is_whitespace(s[s.len() - 1]));
    assert(spec_trim(s) == s);
    assert(spec_ttl_digits(s) =~= digits);
}

/// Compute an `expires_at` timestamp, now plus the duration, as RFC 3339
/// text.
pub fn compute_expires_at(ttl: Duration) -> (r: String)
    requires
        ttl.wf(),
    ensures
        rfc3339_epoch_of(r@) is Some,
{
    rfc3339_seconds_from_now(ttl.seconds)
}

/// The `(year, month, day)` a text denotes when it is exactly `YYYY-MM-DD`.
pub open spec fn spec_parse_ymd(s: Seq<char>) -> Option<(int, int, int)> {
    if s.len() == 10 && s[4] == '-' && s[7] == '-' && spec_is_digit(s[0]) && spec_is_digit(s[1])
        && spec_is_digit(s[2]) && spec_is_digit(s[3]) && spec_is_digit(s[5]) && spec_is_digit(
        s[6],
    ) && spec_is_digit(s[8]) && spec_is_digit(s[9]) {
        Some(
            (
                spec_digits_val(s.subrange(0, 4)),
                spec_digits_val(s.subrange(5, 7)),
                spec_digits_val(s.subrange(8, 10)),
            ),
        )
    } else {
        None
    }
}

/// Unfold the value of a short digit substring into plain arithmetic.
proof fn lemma_digits_val_unfold(s: Seq<char>, a: int, b: int)
    requires
        0 <= a < b <= s.len(),
    ensures
        spec_digits_val(s.subrange(a, b)) == 10 * spec_digits_val(s.subrange(a, b - 1)) + (
        s[b - 1] as u32 - 0x30),
{
    assert(s.subrange(a, b).drop_last() =~= s.subrange(a, b - 1));
    assert(s.subrange(a, b).last() == s[b - 1]);
}

/// Auto-compute an `expires_at` for the `events` category from the `date`
/// attribute: if it reads `YYYY-MM-DD` and is a valid calendar date, the
/// end of that day (23:59:59 UTC); otherwise nothing.
pub fn auto_ttl_from_date(item: &Document) -> (r: Option<String>)
    ensures
        match spec_get_attr(item@, "date"@) {
            Some(JsonVal::Str(s)) => match spec_parse_ymd(s) {
                Some(ymd) => if spec_valid_ymd(ymd.0, ymd.1, ymd.2) {
                    r matches Some(e) && e@ == end_of_day_utc_of(ymd.0, ymd.1, ymd.2)
                } else {
                    r is None
                },
                None => r is None,
            },
            _ => r is None,
        },
{
    let date = match item.get_str("date") {
        Some(s) => s,
        None => {
            return None;
        },
    };
    let ds = date.as_str();
    let n = ds.unicode_len();
    if n != 10 {
        return None;
    }
    if ds.get_char(4) != '-' || ds.get_char(7) != '-' {
        return None;
    }
    let mut vals: [u32; 10] = [0, 0, 0, 0, 0, 0, 0, 0, 0, 0];
    let mut i: usize = 0;
    while i < 10
        invariant
            10 == ds@.len(),
            spec_get_attr(item@, "date"@) == Some(JsonVal::Str(ds@)),
            ds@[4] == '-',
            ds@[7] == '-',
            i <= 10,
            forall|j: int| 0 <= j < i && j != 4 && j != 7 ==> spec_is_digit(ds@[j]),
            forall|j: int|
                0 <= j < i && j != 4 && j != 7 ==> vals[j] == ds@[j] as u32 - 0x30,
        decreases 10 - i,
    {
        if i != 4 && i != 7 {
            let u = ds.get_char(i) as u32;
            if u < 0x30 || u > 0x39 {
                return None;
            }
            vals[i] = u - 0x30;
        }
        i = i + 1;
    }
    let y: u32 = vals[0] * 1000 + vals[1] * 100 + vals[2] * 10 + vals[3];
    let m: u32 = vals[5] * 10 + vals[6];
    let d: u32 = vals[8] * 10 + vals[9];
    proof {
        let s = ds@;
        lemma_digits_val_unfold(s, 0, 4);
        lemma_digits_val_unfold(s, 0, 3);
        lemma_digits_val_unfold(s, 0, 2);
        lemma_digits_val_unfold(s, 0, 1);
        assert(s.subrange(0, 0) =~= Seq::<char>::empty());
        lemma_digits_val_unfold(s, 5, 7);
        lemma_digits_val_unfold(s, 5, 6);
        assert(s.subrange(5, 5) =~= Seq::<char>::empty());
        lemma_digits_val_unfold(s, 8, 10);
        lemma_digits_val_unfold(s, 8, 9);
        assert(s.subrange(8, 8) =~= Seq::<char>::empty());
        assert(spec_digits_val(s.subrange(0, 4)) == y as int);
        assert(spec_digits_val(s.subrange(5, 7)) == m as int);
        assert(spec_digits_val(s.subrange(8, 10)) == d as int);
    }
    end_of_day_rfc3339(y as i32, m, d)
}

/// The default TTL that a category implies when the caller gives none:
/// `scratchpad` keeps for a day, `sessions` for a week, `interactions` for
/// ninety days; every other category has no default.
pub fn category_default_ttl(category: &str) -> (r: Option<Duration>)
    ensures
        category@ == "scratchpad"@ ==> (r matches Some(d) && d.seconds == 86400),
        category@ == "sessions"@ ==> (r matches Some(d) && d.seconds == 604800),
        category@ == "interactions"@ ==> (r matches Some(d) && d.seconds == 7776000),
        category@ != "scratchpad"@ && category@ != "sessions"@ && category@ != "interactions"@
            ==> r is None,
{
    proof {
        reveal_strlit("scratchpad");
        reveal_strlit("sessions");
        reveal_strlit("interactions");
        assert("scratchpad"@.len() == 10);
        assert("sessions"@.len() == 8);
        assert("interactions"@.len() == 12);
    }
    if str_eq(category, "scratchpad") {
        Some(scratchpad_default_ttl())
    } else if str_eq(category, "sessions") {
        Some(sessions_default_ttl())
    } else if str_eq(category, "interactions") {
        Some(interactions_default_ttl())
    } else {
        None
    }
}

/// An item is expired at a moment when its `expires_at` attribute is RFC
/// 3339 text denoting an earlier moment. Items without the attribute, or
/// with unparseable text, are never expired.
pub open spec fn spec_is_expired(d: DocView, now: int) -> bool {
    match spec_get_attr(d, "expires_at"@) {
        Some(JsonVal::Str(s)) => match rfc3339_epoch_of(s) {
            Some(t) => t < now,
            None => false,
        },
        _ => false,
    }
}

/// Check expiry against a given moment (seconds since the Unix epoch).
pub fn is_expired_at(item: &Document, now: i64) -> (r: bool)
    ensures
        r == spec_is_expired(item@, now as int),
{
    match item.get_str("expires_at") {
        Some(s) => match parse_rfc3339_epoch(s.as_str()) {
            Some(t) => t < now,
            None => false,
        },
        None => false,
    }
}

/// Check expiry against the clock.
///
/// Whatever the clock reads, an item without a string `expires_at`
/// attribute, or with text that does not parse, is not expired.
pub fn is_expired(item: &Document) -> (r: bool)
    ensures
        exists|now: int| r == spec_is_expired(item@, now),
        !(spec_get_attr(item@, "expires_at"@) matches Some(JsonVal::Str(_))) ==> !r,
        (spec_get_attr(item@, "expires_at"@) matches Some(JsonVal::Str(s))
            && rfc3339_epoch_of(s) is None) ==> !r,
{
    let now = now_epoch_seconds();
    let r = is_expired_at(item, now);
    proof {
        assert(r == spec_is_expired(item@, now as int));
    }
    r
}

/// Remove the items expired at a given moment, keeping the rest in order.
pub fn filter_expired_at(items: Vec<Document>, now: i64) -> (r: Vec<Document>)
    ensures
        r@ == items@.filter(|d: Document| !spec_is_expired(d@, now as int)),
{
    let mut rest = items;
    let mut out: Vec<Document> = Vec::new();
    let ghost all = rest@;
    proof {
        assert(all.subrange(0, 0) =~= Seq::<Document>::empty());
        assert(out@ =~= all.subrange(0, 0).filter(|d: Document| !spec_is_expired(d@, now as int)));
        assert(rest@ =~= all.subrange(0, all.len() as int));
    }
    let ghost mut i: int = 0;
    let ghost n = all.len();
    while rest.len() > 0
        invariant
            n == all.len(),
            0 <= i <= n,
            i + rest@.len() == n,
            rest@ == all.subrange(i as int, n as int),
            out@ == all.subrange(0, i as int).filter(
                |d: Document| !spec_is_expired(d@, now as int),
            ),
        decreases rest@.len(),
    {
        let ghost prefix = all.subrange(0, i as int);
        let item = rest.remove(0);
        proof {
            assert(item == all[i as int]);
            assert(rest@ =~= all.subrange(i + 1, n as int));
        }
        let keep = !is_expired_at(&item, now);
        proof {
            assert(all.subrange(0, i + 1) =~= prefix.push(all[i as int]));
            reveal_with_fuel(Seq::filter, 2);
            assert(prefix.push(all[i as int]).drop_last() =~= prefix);
        }
        if keep {
            out.push(item);
        }
        proof {
            assert(out@ =~= all.subrange(0, i + 1).filter(
                |d: Document| !spec_is_expired(d@, now as int),
            ));
            i = i + 1;
        }
    }
    proof {
        assert(all.subrange(0, n as int) =~= all);
    }
    out
}

/// The items of `items` not yet expired at `now`, in order.
pub open spec fn spec_filter_expired(items: Seq<Document>, now: int) -> Seq<Document> {
    items.filter(|d: Document| !spec_is_expired(d@, now))
}

/// Remove the items expired now, keeping the rest in order. Whatever the
/// clock reads, the result is the expiry filter at that moment.
pub fn filter_expired(items: Vec<Document>) -> (r: Vec<Document>)
    ensures
        exists|now: int| r@ == spec_filter_expired(items@, now),
{
    let ghost given = items@;
    let now = now_epoch_seconds();
    let r = filter_expired_at(items, now);
    proof {
        assert(r@ == spec_filter_expired(given, now as int));
    }
    r
}

/// `a` can be obtained from `b` by deleting elements, keeping order.
pub open spec fn spec_is_subsequence<A>(a: Seq<A>, b: Seq<A>) -> bool
    decreases b.len(),
{
    if a.len() == 0 {
        true
    } else if b.len() == 0 {
        false
    } else {
        (a.last() == b.last() && spec_is_subsequence(a.drop_last(), b.drop_last()))
            || spec_is_subsequence(a, b.drop_last())
    }
}

/// What a filter keeps is a subsequence of what it was given.
pub proof fn lemma_filter_is_subsequence<A>(s: Seq<A>, pred: spec_fn(A) -> bool)
    ensures
        spec_is_subsequence(s.filter(pred), s),
    decreases s.len(),
{
    reveal_with_fuel(Seq::filter, 2);
    if s.len() == 0 {
        assert(s.filter(pred) =~= Seq::<A>::empty());
    } else {
        let prior = s.drop_last();
        lemma_filter_is_subsequence(prior, pred);
        if pred(s.last()) {
            assert(s.filter(pred) == prior.filter(pred).push(s.last()));
            assert(s.filter(pred).drop_last() =~= prior.filter(pred));
        }
    }
}

/// The expiry filter yields a subsequence of its input, at every moment.
pub proof fn lemma_filter_expired_subsequence(items: Seq<Document>, now: int)
    ensures
        spec_is_subsequence(spec_filter_expired(items, now), items),
{
    lemma_filter_is_subsequence(items, |d: Document| !spec_is_expired(d@, now));
}

} // verus!

//! Dead roll detection over spans of time: black video and silent audio
//! spans are intersected, snapped to keyframes, and packets inside the cuts
//! are dropped while later timestamps are shifted back.
//!
//! Times are whole microseconds (the unit of `AV_TIME_BASE`); a span
//! `(start, end)` holds the times `t` with `start <= t < end`. Conversions
//! between ticks and microseconds are exact integer arithmetic: a packet's
//! time is rounded down to the microsecond, and the shift of a timestamp is
//! the exact cut time in the output time base, rounded toward zero.
//! Arithmetic in floating-point seconds can land one tick lower, where the
//! sum of the cut spans comes out just below its exact value (a cut of
//! 100 ms in a time base of 1/1000 is 100 ticks here; in `f64` seconds it
//! is 0.09999999999999964 s, truncated to 99 ticks).

use vstd::prelude::*;
use crate::text::{decimal, usize_to_decimal};
use crate::media::timebase::{Rational, is_valid_time_base, fits_i64, micros_of_ticks, ticks_of_micros, ticks_to_micros, micros_to_ticks};

verus! {

/// Whether time `t` lies in the half-open span `r`.
pub open spec fn in_span(r: (i64, i64), t: int) -> bool {
    r.0 <= t && t < r.1
}

/// Whether some span of `rs` holds time `t`.
pub open spec fn covers(rs: Seq<(i64, i64)>, t: int) -> bool {
    exists|j: int| 0 <= j < rs.len() && #[trigger] in_span(rs[j], t)
}

/// Spans in canonical form: each one non-empty, in increasing order, and
/// separated from the next by a gap (touching spans are merged).
pub open spec fn is_normalized(rs: Seq<(i64, i64)>) -> bool {
    &&& forall|i: int| 0 <= i < rs.len() ==> (#[trigger] rs[i]).0 < rs[i].1
    &&& forall|i: int, j: int| 0 <= i < j < rs.len() ==> (#[trigger] rs[i]).1 < (#[trigger] rs[j]).0
}

/// `out` is the canonical form of `input`: canonical, and holding exactly
/// the times that `input` holds.
pub open spec fn normalizes(input: Seq<(i64, i64)>, out: Seq<(i64, i64)>) -> bool {
    &&& is_normalized(out)
    &&& forall|t: int| covers(out, t) == covers(input, t)
}

/// `out` is the canonical form of the times that both `a` and `b` hold.
pub open spec fn intersects(a: Seq<(i64, i64)>, b: Seq<(i64, i64)>, out: Seq<(i64, i64)>) -> bool {
    &&& is_normalized(out)
    &&& forall|t: int| covers(out, t) == (covers(a, t) && covers(b, t))
}

/// Spans ordered by their start.
pub open spec fn sorted_by_start(rs: Seq<(i64, i64)>) -> bool {
    forall|i: int, j: int| 0 <= i < j < rs.len() ==> (#[trigger] rs[i]).0 <= (#[trigger] rs[j]).0
}

pub proof fn lemma_covers_push(s: Seq<(i64, i64)>, x: (i64, i64), t: int)
    ensures
        covers(s.push(x), t) == (covers(s, t) || in_span(x, t)),
{
    let p = s.push(x);
    if covers(s, t) {
        let j = choose|j: int| 0 <= j < s.len() && #[trigger] in_span(s[j], t);
        assert(p[j] == s[j]);
        assert(in_span(p[j], t));
    }
    if in_span(x, t) {
        assert(p[s.len() as int] == x);
        assert(in_span(p[s.len() as int], t));
    }
    if covers(p, t) {
        let j = choose|j: int| 0 <= j < p.len() && #[trigger] in_span(p[j], t);
        if j < s.len() {
            assert(p[j] == s[j]);
            assert(in_span(s[j], t));
        }
    }
}

pub proof fn lemma_covers_concat(s1: Seq<(i64, i64)>, s2: Seq<(i64, i64)>, t: int)
    ensures
        covers(s1 + s2, t) == (covers(s1, t) || covers(s2, t)),
{
    let p = s1 + s2;
    if covers(s1, t) {
        let j = choose|j: int| 0 <= j < s1.len() && #[trigger] in_span(s1[j], t);
        assert(p[j] == s1[j]);
        assert(in_span(p[j], t));
    }
    if covers(s2, t) {
        let j = choose|j: int| 0 <= j < s2.len() && #[trigger] in_span(s2[j], t);
        assert(p[s1.len() + j] == s2[j]);
        assert(in_span(p[s1.len() + j], t));
    }
    if covers(p, t) {
        let j = choose|j: int| 0 <= j < p.len() && #[trigger] in_span(p[j], t);
        if j < s1.len() {
            assert(p[j] == s1[j]);
            assert(in_span(s1[j], t));
        } else {
            assert(p[j] == s2[j - s1.len()]);
            assert(in_span(s2[j - s1.len()], t));
        }
    }
}

proof fn lemma_covers_insert(s: Seq<(i64, i64)>, k: int, x: (i64, i64), t: int)
    requires
        0 <= k <= s.len(),
    ensures
        covers(s.insert(k, x), t) == (covers(s, t) || in_span(x, t)),
{
    let p = s.insert(k, x);
    if covers(s, t) {
        let j = choose|j: int| 0 <= j < s.len() && #[trigger] in_span(s[j], t);
        if j < k {
            assert(p[j] == s[j]);
            assert(in_span(p[j], t));
        } else {
            assert(p[j + 1] == s[j]);
            assert(in_span(p[j + 1], t));
        }
    }
    if in_span(x, t) {
        assert(p[k] == x);
        assert(in_span(p[k], t));
    }
    if covers(p, t) {
        let j = choose|j: int| 0 <= j < p.len() && #[trigger] in_span(p[j], t);
        if j < k {
            assert(p[j] == s[j]);
            assert(in_span(s[j], t));
        } else if j > k {
            assert(p[j] == s[j - 1]);
            assert(in_span(s[j - 1], t));
        }
    }
}

proof fn lemma_covers_take_step(s: Seq<(i64, i64)>, i: int, t: int)
    requires
        0 <= i < s.len(),
    ensures
        covers(s.take(i + 1), t) == (covers(s.take(i), t) || in_span(s[i], t)),
{
    assert(s.take(i + 1) == s.take(i).push(s[i]));
    lemma_covers_push(s.take(i), s[i], t);
}

/// Orders the non-empty spans of `ranges` by start, dropping empty ones.
fn sorted_nonempty(ranges: &[(i64, i64)]) -> (out: Vec<(i64, i64)>)
    ensures
        sorted_by_start(out@),
        forall|i: int| 0 <= i < out@.len() ==> (#[trigger] out@[i]).0 < out@[i].1,
        forall|t: int| covers(out@, t) == covers(ranges@, t),
{
    let mut out: Vec<(i64, i64)> = Vec::new();
    let mut i: usize = 0;
    while i < ranges.len()
        invariant
            0 <= i <= ranges@.len(),
            sorted_by_start(out@),
            forall|m: int| 0 <= m < out@.len() ==> (#[trigger] out@[m]).0 < out@[m].1,
            forall|t: int| covers(out@, t) == covers(ranges@.take(i as int), t),
        decreases ranges@.len() - i,
    {
        let x = ranges[i];
        let ghost before = out@;
        if x.0 < x.1 {
            let mut k: usize = 0;
            while k < out.len() && out[k].0 <= x.0
                invariant
                    0 <= k <= out@.len(),
                    out@ == before,
                    forall|m: int| 0 <= m < k ==> (#[trigger] out@[m]).0 <= x.0,
                decreases out@.len() - k,
            {
                k = k + 1;
            }
            assert(forall|m: int| k <= m < out@.len() ==> (#[trigger] out@[m]).0 > x.0) by {
                assert forall|m: int| k <= m < out@.len() implies (#[trigger] out@[m]).0 > x.0 by {
                    if m > k {
                        assert(out@[k as int].0 <= out@[m].0);
                    }
                }
            }
            out.insert(k, x);
            assert(out@ == before.insert(k as int, x));
            assert forall|a: int, b: int| 0 <= a < b < out@.len() implies (#[trigger] out@[a]).0 <= (#[trigger] out@[b]).0 by {
                if a < k && b < k {
                    assert(out@[a] == before[a] && out@[b] == before[b]);
                } else if a < k && b == k {
                    assert(out@[a] == before[a]);
                } else if a < k && b > k {
                    assert(out@[a] == before[a] && out@[b] == before[b - 1]);
                } else if a == k {
                    assert(out@[b] == before[b - 1]);
                } else {
                    assert(out@[a] == before[a - 1] && out@[b] == before[b - 1]);
                }
            }
            assert forall|m: int| 0 <= m < out@.len() implies (#[trigger] out@[m]).0 < out@[m].1 by {
                if m < k {
                    assert(out@[m] == before[m]);
                } else if m > k {
                    assert(out@[m] == before[m - 1]);
                }
            }
            assert forall|t: int| covers(out@, t) == covers(ranges@.take(i + 1), t) by {
                lemma_covers_insert(before, k as int, x, t);
                lemma_covers_take_step(ranges@, i as int, t);
            }
        } else {
            assert forall|t: int| covers(out@, t) == covers(ranges@.take(i + 1), t) by {
                lemma_covers_take_step(ranges@, i as int, t);
            }
        }
        i = i + 1;
    }
    assert(ranges@.take(ranges@.len() as int) == ranges@);
    out
}

/// Puts spans into canonical form: drops empty spans, orders them by start
/// and merges spans that overlap or touch. The result holds exactly the
/// times that the input holds.
pub fn normalize_ranges(ranges: Vec<(i64, i64)>) -> (merged: Vec<(i64, i64)>)
    ensures
        normalizes(ranges@, merged@),
{
    normalize_slice(ranges.as_slice())
}

fn normalize_slice(ranges: &[(i64, i64)]) -> (merged: Vec<(i64, i64)>)
    ensures
        is_normalized(merged@),
        forall|t: int| covers(merged@, t) == covers(ranges@, t),
{
    let sorted = sorted_nonempty(ranges);
    let mut merged: Vec<(i64, i64)> = Vec::new();
    let mut i: usize = 0;
    while i < sorted.len()
        invariant
            0 <= i <= sorted@.len(),
            sorted_by_start(sorted@),
            forall|m: int| 0 <= m < sorted@.len() ==> (#[trigger] sorted@[m]).0 < sorted@[m].1,
            is_normalized(merged@),
            forall|t: int| covers(merged@, t) == covers(sorted@.take(i as int), t),
            i == 0 <==> merged@.len() == 0,
            i > 0 ==> merged@.last().0 <= sorted@[i - 1].0,
        decreases sorted@.len() - i,
    {
        let (start, end) = sorted[i];
        let ghost before = merged@;
        if merged.len() > 0 && start <= merged[merged.len() - 1].1 {
            let last = merged.pop().unwrap();
            let ghost rest = merged@;
            assert(before == rest.push(last));
            assert(last.0 <= start);
            let new_end = if end > last.1 { end } else { last.1 };
            merged.push((last.0, new_end));
            assert(sorted@[i - 1].0 <= sorted@[i as int].0);
            assert forall|t: int| covers(merged@, t) == covers(sorted@.take(i + 1), t) by {
                assert(merged@ == rest.push((last.0, new_end)));
                lemma_covers_push(rest, (last.0, new_end), t);
                lemma_covers_push(rest, last, t);
                lemma_covers_take_step(sorted@, i as int, t);
            }
            assert forall|a: int, b: int| 0 <= a < b < merged@.len() implies (#[trigger] merged@[a]).1 < (#[trigger] merged@[b]).0 by {
                assert(before[a] == merged@[a]);
                if b < merged@.len() - 1 {
                    assert(before[b] == merged@[b]);
                } else {
                    assert(before[b] == last);
                }
            }
            assert forall|m: int| 0 <= m < merged@.len() implies (#[trigger] merged@[m]).0 < merged@[m].1 by {
                if m < merged@.len() - 1 {
                    assert(before[m] == merged@[m]);
                } else {
                    assert(before[m] == last);
                }
            }
        } else {
            merged.push((start, end));
            assert forall|t: int| covers(merged@, t) == covers(sorted@.take(i + 1), t) by {
                lemma_covers_push(before, (start, end), t);
                lemma_covers_take_step(sorted@, i as int, t);
            }
            assert forall|a: int, b: int| 0 <= a < b < merged@.len() implies (#[trigger] merged@[a]).1 < (#[trigger] merged@[b]).0 by {
                assert(before[a] == merged@[a]);
                if b < merged@.len() - 1 {
                    assert(before[b] == merged@[b]);
                } else {
                    let n = before.len() - 1;
                    assert(before[n] == before.last());
                    if a < n {
                        assert(before[a].1 < before[n].0);
                    }
                }
            }
            assert forall|m: int| 0 <= m < merged@.len() implies (#[trigger] merged@[m]).0 < merged@[m].1 by {
                if m < merged@.len() - 1 {
                    assert(before[m] == merged@[m]);
                }
            }
        }
        i = i + 1;
    }
    assert(sorted@.take(sorted@.len() as int) == sorted@);
    merged
}

/// Whether time `t` lies before the span at index `i` of `rs` (every time
/// does when `i` is past the end).
pub open spec fn before_span(rs: Seq<(i64, i64)>, i: int, t: int) -> bool {
    i >= rs.len() || t < rs[i].0
}

/// The times that both `a` and `b` hold.
pub open spec fn covers_both(a: Seq<(i64, i64)>, b: Seq<(i64, i64)>, t: int) -> bool {
    covers(a, t) && covers(b, t)
}

proof fn lemma_sweep_advance(a: Seq<(i64, i64)>, b: Seq<(i64, i64)>, i: int, j: int, t: int)
    requires
        is_normalized(a),
        is_normalized(b),
        0 <= i < a.len(),
        0 <= j < b.len(),
        a[i].1 <= b[j].1,
    ensures
        (covers_both(a, b, t) && (before_span(a, i + 1, t) || before_span(b, j, t))) == ((
        covers_both(a, b, t) && (before_span(a, i, t) || before_span(b, j, t))) || (a[i].0 <= t
            && b[j].0 <= t && t < a[i].1)),
{
    assert(a[i].0 < a[i].1);
    if i + 1 < a.len() {
        assert(a[i].1 < a[i + 1].0);
    }
    if covers(a, t) {
        let k = choose|k: int| 0 <= k < a.len() && #[trigger] in_span(a[k], t);
        if k < i {
            assert(a[k].1 < a[i].0);
        } else if k > i {
            assert(a[i + 1].0 <= a[k].0) by {
                if k > i + 1 {
                    assert(a[i + 1].1 < a[k].0);
                    assert(a[i + 1].0 < a[i + 1].1);
                }
            }
        }
    }
    if covers(b, t) {
        let m = choose|m: int| 0 <= m < b.len() && #[trigger] in_span(b[m], t);
        if m < j {
            assert(b[m].1 < b[j].0);
        } else if m > j {
            assert(b[j].1 < b[m].0);
            assert(b[j].0 < b[j].1);
        }
    }
    if a[i].0 <= t && b[j].0 <= t && t < a[i].1 {
        assert(in_span(a[i], t));
        assert(in_span(b[j], t));
    }
}

/// The times held by both `a` and `b`, in canonical form. Both inputs are
/// put into canonical form first, then swept together.
pub fn intersect_ranges(a: &[(i64, i64)], b: &[(i64, i64)]) -> (result: Vec<(i64, i64)>)
    ensures
        intersects(a@, b@, result@),
{
    let a = normalize_slice(a);
    let b = normalize_slice(b);
    let mut result: Vec<(i64, i64)> = Vec::new();
    let mut i: usize = 0;
    let mut j: usize = 0;
    while i < a.len() && j < b.len()
        invariant
            is_normalized(a@),
            is_normalized(b@),
            0 <= i <= a@.len(),
            0 <= j <= b@.len(),
            is_normalized(result@),
            forall|t: int| covers(result@, t) == (covers_both(a@, b@, t) && (before_span(a@, i as int, t)
                || before_span(b@, j as int, t))),
            i < a@.len() && j < b@.len() ==> forall|k: int| 0 <= k < result@.len() ==> ((#[trigger] result@[k]).1 < a@[i as int].0
                || result@[k].1 < b@[j as int].0),
        decreases a@.len() - i + b@.len() - j,
    {
        let (a_start, a_end) = a[i];
        let (b_start, b_end) = b[j];
        let start = if a_start > b_start { a_start } else { b_start };
        let end = if a_end < b_end { a_end } else { b_end };
        let ghost before = result@;
        if start < end {
            result.push((start, end));
            assert forall|x: int, y: int| 0 <= x < y < result@.len() implies (#[trigger] result@[x]).1 < (#[trigger] result@[y]).0 by {
                assert(result@[x] == before[x]);
                if y < before.len() {
                    assert(result@[y] == before[y]);
                }
            }
            assert forall|m: int| 0 <= m < result@.len() implies (#[trigger] result@[m]).0 < result@[m].1 by {
                if m < before.len() {
                    assert(result@[m] == before[m]);
                }
            }
        }
        assert forall|t: int| covers(result@, t) == (covers_both(a@, b@, t) && (before_span(a@, i as int, t)
            || before_span(b@, j as int, t)) || (start <= t && t < end)) by {
            if start < end {
                lemma_covers_push(before, (start, end), t);
            }
        }
        if a_end <= b_end {
            assert forall|t: int| covers(result@, t) == (covers_both(a@, b@, t) && (before_span(a@, i + 1, t)
                || before_span(b@, j as int, t))) by {
                lemma_sweep_advance(a@, b@, i as int, j as int, t);
            }
            proof {
                if i + 1 < a@.len() && j < b@.len() {
                    assert(a@[i as int].1 < a@[i + 1].0);
                    assert forall|k: int| 0 <= k < result@.len() implies ((#[trigger] result@[k]).1
                        < a@[i + 1].0 || result@[k].1 < b@[j as int].0) by {
                        if k < before.len() {
                            assert(result@[k] == before[k]);
                            assert(a@[i as int].0 < a@[i as int].1);
                        }
                    }
                }
            }
            i = i + 1;
        } else {
            assert forall|t: int| covers(result@, t) == (covers_both(a@, b@, t) && (before_span(a@, i as int, t)
                || before_span(b@, j + 1, t))) by {
                lemma_sweep_advance(b@, a@, j as int, i as int, t);
            }
            proof {
                if i < a@.len() && j + 1 < b@.len() {
                    assert(b@[j as int].1 < b@[j + 1].0);
                    assert forall|k: int| 0 <= k < result@.len() implies ((#[trigger] result@[k]).1
                        < a@[i as int].0 || result@[k].1 < b@[j + 1].0) by {
                        if k < before.len() {
                            assert(result@[k] == before[k]);
                            assert(b@[j as int].0 < b@[j as int].1);
                        }
                    }
                }
            }
            j = j + 1;
        }
    }
    result
}

proof fn lemma_covers_drop_first(a: Seq<(i64, i64)>, t: int)
    requires
        is_normalized(a),
        a.len() > 0,
    ensures
        covers(a.drop_first(), t) == (covers(a, t) && t >= a[0].1),
        is_normalized(a.drop_first()),
{
    let d = a.drop_first();
    if covers(a, t) && t >= a[0].1 {
        let k = choose|k: int| 0 <= k < a.len() && #[trigger] in_span(a[k], t);
        assert(k != 0);
        assert(d[k - 1] == a[k]);
        assert(in_span(d[k - 1], t));
    }
    if covers(d, t) {
        let k = choose|k: int| 0 <= k < d.len() && #[trigger] in_span(d[k], t);
        assert(d[k] == a[k + 1]);
        assert(in_span(a[k + 1], t));
        assert(a[0].1 < a[k + 1].0);
    }
    assert forall|x: int, y: int| 0 <= x < y < d.len() implies (#[trigger] d[x]).1 < (#[trigger] d[y]).0 by {
        assert(d[x] == a[x + 1] && d[y] == a[y + 1]);
    }
    assert forall|x: int| 0 <= x < d.len() implies (#[trigger] d[x]).0 < d[x].1 by {
        assert(d[x] == a[x + 1]);
    }
}

proof fn lemma_first_span_starts_lowest(a: Seq<(i64, i64)>, t: int)
    requires
        is_normalized(a),
        covers(a, t),
    ensures
        a[0].0 <= t,
        t < a[0].1 || a[0].1 < t,
{
    let k = choose|k: int| 0 <= k < a.len() && #[trigger] in_span(a[k], t);
    if k > 0 {
        assert(a[0].1 < a[k].0);
        assert(a[0].0 < a[0].1);
    }
}

/// Two canonical span lists that hold the same times are the same list:
/// the canonical form of a set of times is unique.
pub proof fn law_normalized_form_is_unique(a: Seq<(i64, i64)>, b: Seq<(i64, i64)>)
    requires
        is_normalized(a),
        is_normalized(b),
        forall|t: int| covers(a, t) == covers(b, t),
    ensures
        a == b,
    decreases a.len() + b.len(),
{
    if a.len() == 0 || b.len() == 0 {
        if a.len() > 0 {
            assert(in_span(a[0], a[0].0 as int));
            assert(covers(a, a[0].0 as int));
        }
        if b.len() > 0 {
            assert(in_span(b[0], b[0].0 as int));
            assert(covers(b, b[0].0 as int));
        }
        assert(a =~= b);
    } else {
        assert(in_span(a[0], a[0].0 as int));
        assert(covers(a, a[0].0 as int));
        assert(in_span(b[0], b[0].0 as int));
        assert(covers(b, b[0].0 as int));
        lemma_first_span_starts_lowest(b, a[0].0 as int);
        lemma_first_span_starts_lowest(a, b[0].0 as int);
        assert(a[0].0 == b[0].0);
        if a[0].1 < b[0].1 {
            assert(in_span(b[0], a[0].1 as int));
            assert(covers(b, a[0].1 as int));
            lemma_first_span_starts_lowest(a, a[0].1 as int);
        }
        if b[0].1 < a[0].1 {
            assert(in_span(a[0], b[0].1 as int));
            assert(covers(a, b[0].1 as int));
            lemma_first_span_starts_lowest(b, b[0].1 as int);
        }
        assert(a[0] == b[0]);
        assert forall|t: int| covers(a.drop_first(), t) == covers(b.drop_first(), t) by {
            lemma_covers_drop_first(a, t);
            lemma_covers_drop_first(b, t);
        }
        lemma_covers_drop_first(a, 0);
        lemma_covers_drop_first(b, 0);
        law_normalized_form_is_unique(a.drop_first(), b.drop_first());
        assert(a =~= seq![a[0]] + a.drop_first());
        assert(b =~= seq![b[0]] + b.drop_first());
    }
}

/// Canonical form is a function of the input: two results that both meet
/// the contract of `normalize_ranges` on one input are equal.
pub proof fn law_normalization_is_deterministic(input: Seq<(i64, i64)>, x: Seq<(i64, i64)>, y: Seq<(i64, i64)>)
    requires
        normalizes(input, x),
        normalizes(input, y),
    ensures
        x == y,
{
    law_normalized_form_is_unique(x, y);
}

/// Putting spans that are already canonical into canonical form leaves them
/// unchanged, so normalizing twice is the same as normalizing once.
pub proof fn law_normalization_is_idempotent(input: Seq<(i64, i64)>, out: Seq<(i64, i64)>)
    requires
        is_normalized(input),
        normalizes(input, out),
    ensures
        out == input,
{
    law_normalized_form_is_unique(out, input);
}

/// Intersection does not depend on the order of its operands.
pub proof fn law_intersection_commutes(
    a: Seq<(i64, i64)>,
    b: Seq<(i64, i64)>,
    ab: Seq<(i64, i64)>,
    ba: Seq<(i64, i64)>,
)
    requires
        intersects(a, b, ab),
        intersects(b, a, ba),
    ensures
        ab == ba,
{
    law_normalized_form_is_unique(ab, ba);
}

/// Intersecting spans with themselves gives their canonical form.
pub proof fn law_self_intersection_normalizes(a: Seq<(i64, i64)>, aa: Seq<(i64, i64)>, n: Seq<(i64, i64)>)
    requires
        intersects(a, a, aa),
        normalizes(a, n),
    ensures
        aa == n,
{
    law_normalized_form_is_unique(aa, n);
}

/// Whether time `t` falls inside one of the cut spans.
pub fn is_within_cut(t: i64, ranges: &[(i64, i64)]) -> (r: bool)
    ensures
        r == covers(ranges@, t as int),
{
    let mut i: usize = 0;
    while i < ranges.len()
        invariant
            0 <= i <= ranges@.len(),
            forall|k: int| 0 <= k < i ==> !(#[trigger] in_span(ranges@[k], t as int)),
        decreases ranges@.len() - i,
    {
        let (start, end) = ranges[i];
        if t >= start && t < end {
            assert(in_span(ranges@[i as int], t as int));
            return true;
        }
        i = i + 1;
    }
    false
}

/// The total length of the leading spans that end at or before `t`: the
/// spans are read in order and the sum stops at the first span that ends
/// after `t`.
pub open spec fn cut_before(rs: Seq<(i64, i64)>, t: int) -> int
    decreases rs.len(),
{
    if rs.len() == 0 || rs[0].1 > t {
        0
    } else {
        (rs[0].1 - rs[0].0) + cut_before(rs.drop_first(), t)
    }
}

/// How much of the timeline the cuts remove before time `t`: the lengths of
/// the leading spans that end at or before `t`, summed in order until the
/// first span that ends after `t`.
pub fn cut_duration_before(t: i64, ranges: &[(i64, i64)]) -> (total: i128)
    requires
        ranges@.len() <= usize::MAX / 16,
    ensures
        total == cut_before(ranges@, t as int),
{
    let mut total: i128 = 0;
    let mut i: usize = 0;
    assert(ranges@.skip(0) == ranges@);
    while i < ranges.len()
        invariant
            0 <= i <= ranges@.len(),
            ranges@.len() <= usize::MAX / 16,
            total + cut_before(ranges@.skip(i as int), t as int) == cut_before(ranges@, t as int),
            -(i as int) * 0x1_0000_0000_0000_0000 <= total <= (i as int) * 0x1_0000_0000_0000_0000,
        decreases ranges@.len() - i,
    {
        let (start, end) = ranges[i];
        assert(ranges@.skip(i as int)[0] == ranges@[i as int]);
        if end > t {
            return total;
        }
        assert(ranges@.skip(i as int).drop_first() == ranges@.skip(i + 1));
        total = total + (end as i128 - start as i128);
        i = i + 1;
    }
    total
}

/// The tolerance, in microseconds, within which a cut counts as reaching the
/// end of the media: one second.
pub const EPSILON: i64 = 1_000_000;

/// The end of a cut that runs to the end of the media.
pub const END_OF_STREAM: i64 = 0x7fff_ffff_ffff_ffff;

/// How many of the sorted keyframe times are at most `x`.
pub open spec fn count_at_most(ks: Seq<i64>, x: int) -> nat
    decreases ks.len(),
{
    if ks.len() == 0 {
        0
    } else if ks.last() <= x {
        ks.len()
    } else {
        count_at_most(ks.drop_last(), x)
    }
}

/// How many of the sorted keyframe times are below `x`.
pub open spec fn count_below(ks: Seq<i64>, x: int) -> nat
    decreases ks.len(),
{
    if ks.len() == 0 {
        0
    } else if ks.last() < x {
        ks.len()
    } else {
        count_below(ks.drop_last(), x)
    }
}

/// Times in non-decreasing order.
pub open spec fn is_sorted(ks: Seq<i64>) -> bool {
    forall|i: int, j: int| 0 <= i <= j < ks.len() ==> #[trigger] ks[i] <= #[trigger] ks[j]
}

proof fn lemma_partition_counts(ks: Seq<i64>, x: int, p: int)
    requires
        is_sorted(ks),
        0 <= p <= ks.len(),
        forall|i: int| 0 <= i < p ==> #[trigger] ks[i] <= x,
        forall|i: int| p <= i < ks.len() ==> #[trigger] ks[i] > x,
    ensures
        count_at_most(ks, x) == p,
    decreases ks.len(),
{
    if ks.len() > 0 && p < ks.len() {
        let d = ks.drop_last();
        assert(ks.last() == ks[ks.len() - 1]);
        assert forall|i: int, j: int| 0 <= i <= j < d.len() implies #[trigger] d[i] <= #[trigger] d[j] by {
            assert(d[i] == ks[i] && d[j] == ks[j]);
        }
        assert forall|i: int| 0 <= i < p implies #[trigger] d[i] <= x by {
            assert(d[i] == ks[i]);
        }
        assert forall|i: int| p <= i < d.len() implies #[trigger] d[i] > x by {
            assert(d[i] == ks[i]);
        }
        lemma_partition_counts(d, x, p);
    }
}

proof fn lemma_partition_counts_below(ks: Seq<i64>, x: int, p: int)
    requires
        is_sorted(ks),
        0 <= p <= ks.len(),
        forall|i: int| 0 <= i < p ==> #[trigger] ks[i] < x,
        forall|i: int| p <= i < ks.len() ==> #[trigger] ks[i] >= x,
    ensures
        count_below(ks, x) == p,
    decreases ks.len(),
{
    if ks.len() > 0 && p < ks.len() {
        let d = ks.drop_last();
        assert(ks.last() == ks[ks.len() - 1]);
        assert forall|i: int, j: int| 0 <= i <= j < d.len() implies #[trigger] d[i] <= #[trigger] d[j] by {
            assert(d[i] == ks[i] && d[j] == ks[j]);
        }
        assert forall|i: int| 0 <= i < p implies #[trigger] d[i] < x by {
            assert(d[i] == ks[i]);
        }
        assert forall|i: int| p <= i < d.len() implies #[trigger] d[i] >= x by {
            assert(d[i] == ks[i]);
        }
        lemma_partition_counts_below(d, x, p);
    }
}

proof fn lemma_count_at_most_partitions(ks: Seq<i64>, x: int)
    requires
        is_sorted(ks),
    ensures
        count_at_most(ks, x) <= ks.len(),
        forall|i: int| 0 <= i < count_at_most(ks, x) ==> #[trigger] ks[i] <= x,
        forall|i: int| count_at_most(ks, x) <= i < ks.len() ==> #[trigger] ks[i] > x,
    decreases ks.len(),
{
    if ks.len() > 0 {
        let d = ks.drop_last();
        assert forall|i: int, j: int| 0 <= i <= j < d.len() implies #[trigger] d[i] <= #[trigger] d[j] by {
            assert(d[i] == ks[i] && d[j] == ks[j]);
        }
        lemma_count_at_most_partitions(d, x);
        assert(ks.last() == ks[ks.len() - 1]);
        if ks.last() <= x {
            assert forall|i: int| 0 <= i < ks.len() implies #[trigger] ks[i] <= x by {
                assert(ks[i] <= ks[ks.len() - 1]);
            }
        } else {
            assert forall|i: int| 0 <= i < count_at_most(ks, x) implies #[trigger] ks[i] <= x by {
                assert(d[i] == ks[i]);
            }
            assert forall|i: int| count_at_most(ks, x) <= i < ks.len() implies #[trigger] ks[i] > x by {
                if i < d.len() {
                    assert(d[i] == ks[i]);
                }
            }
        }
    }
}

proof fn lemma_count_below_partitions(ks: Seq<i64>, x: int)
    requires
        is_sorted(ks),
    ensures
        count_below(ks, x) <= ks.len(),
        forall|i: int| 0 <= i < count_below(ks, x) ==> #[trigger] ks[i] < x,
        forall|i: int| count_below(ks, x) <= i < ks.len() ==> #[trigger] ks[i] >= x,
    decreases ks.len(),
{
    if ks.len() > 0 {
        let d = ks.drop_last();
        assert forall|i: int, j: int| 0 <= i <= j < d.len() implies #[trigger] d[i] <= #[trigger] d[j] by {
            assert(d[i] == ks[i] && d[j] == ks[j]);
        }
        lemma_count_below_partitions(d, x);
        assert(ks.last() == ks[ks.len() - 1]);
        if ks.last() < x {
            assert forall|i: int| 0 <= i < ks.len() implies #[trigger] ks[i] < x by {
                assert(ks[i] <= ks[ks.len() - 1]);
            }
        } else {
            assert forall|i: int| 0 <= i < count_below(ks, x) implies #[trigger] ks[i] < x by {
                assert(d[i] == ks[i]);
            }
            assert forall|i: int| count_below(ks, x) <= i < ks.len() implies #[trigger] ks[i] >= x by {
                if i < d.len() {
                    assert(d[i] == ks[i]);
                }
            }
        }
    }
}

/// Index of the first keyframe after `x`, found by binary search.
fn partition_at_most(ks: &[i64], x: i64) -> (p: usize)
    requires
        is_sorted(ks@),
    ensures
        p == count_at_most(ks@, x as int),
        p <= ks@.len(),
{
    let mut lo: usize = 0;
    let mut hi: usize = ks.len();
    while lo < hi
        invariant
            0 <= lo <= hi <= ks@.len(),
            is_sorted(ks@),
            forall|i: int| 0 <= i < lo ==> #[trigger] ks@[i] <= x,
            forall|i: int| hi <= i < ks@.len() ==> #[trigger] ks@[i] > x,
        decreases hi - lo,
    {
        let mid = lo + (hi - lo) / 2;
        if ks[mid] <= x {
            assert forall|i: int| 0 <= i < mid + 1 implies #[trigger] ks@[i] <= x by {
                assert(ks@[i] <= ks@[mid as int]);
            }
            lo = mid + 1;
        } else {
            assert forall|i: int| mid <= i < ks@.len() implies #[trigger] ks@[i] > x by {
                assert(ks@[mid as int] <= ks@[i]);
            }
            hi = mid;
        }
    }
    proof {
        lemma_partition_counts(ks@, x as int, lo as int);
    }
    lo
}

/// Index of the first keyframe at or after `x`, found by binary search.
fn partition_below(ks: &[i64], x: i64) -> (p: usize)
    requires
        is_sorted(ks@),
    ensures
        p == count_below(ks@, x as int),
        p <= ks@.len(),
{
    let mut lo: usize = 0;
    let mut hi: usize = ks.len();
    while lo < hi
        invariant
            0 <= lo <= hi <= ks@.len(),
            is_sorted(ks@),
            forall|i: int| 0 <= i < lo ==> #[trigger] ks@[i] < x,
            forall|i: int| hi <= i < ks@.len() ==> #[trigger] ks@[i] >= x,
        decreases hi - lo,
    {
        let mid = lo + (hi - lo) / 2;
        if ks[mid] < x {
            assert forall|i: int| 0 <= i < mid + 1 implies #[trigger] ks@[i] < x by {
                assert(ks@[i] <= ks@[mid as int]);
            }
            lo = mid + 1;
        } else {
            assert forall|i: int| mid <= i < ks@.len() implies #[trigger] ks@[i] >= x by {
                assert(ks@[mid as int] <= ks@[i]);
            }
            hi = mid;
        }
    }
    proof {
        lemma_partition_counts_below(ks@, x as int, lo as int);
    }
    lo
}

/// Where one detected cut goes once snapped to keyframes. Its start moves
/// back to the last keyframe at or before it (it stays put when there is
/// none); its end moves forward to the first keyframe at or after it. When
/// no keyframe follows the end, the cut runs to the end of the media if it
/// ends within `EPSILON` of the known duration, and is dropped otherwise.
pub open spec fn snap_cut(cut: (i64, i64), ks: Seq<i64>, duration: Option<i64>) -> Option<(i64, i64)> {
    let l = count_at_most(ks, cut.0 as int);
    let s = count_below(ks, cut.1 as int);
    let start = if l == 0 { cut.0 } else { ks[l - 1] };
    if s == ks.len() {
        match duration {
            Some(d) => if cut.1 >= d - EPSILON { Some((start, END_OF_STREAM)) } else { None },
            None => None,
        }
    } else {
        Some((start, ks[s as int]))
    }
}

/// The snapped cuts, in the order of the detected ones, leaving out the
/// dropped ones.
pub open spec fn snapped_cuts(cuts: Seq<(i64, i64)>, ks: Seq<i64>, duration: Option<i64>) -> Seq<(i64, i64)>
    decreases cuts.len(),
{
    if cuts.len() == 0 {
        Seq::empty()
    } else {
        let rest = snapped_cuts(cuts.drop_last(), ks, duration);
        match snap_cut(cuts.last(), ks, duration) {
            Some(c) => rest.push(c),
            None => rest,
        }
    }
}

/// Snaps the detected black and silent spans to keyframes (so that the
/// media still decodes across a cut) and puts the result into canonical
/// form. `keyframes` are the keyframe times in order; `duration` is the
/// length of the media when known.
pub fn snap_to_keyframes(cut_ranges: &[(i64, i64)], keyframes: &[i64], duration: Option<i64>) -> (snapped: Vec<(i64, i64)>)
    requires
        is_sorted(keyframes@),
    ensures
        normalizes(snapped_cuts(cut_ranges@, keyframes@, duration), snapped@),
{
    let mut out: Vec<(i64, i64)> = Vec::new();
    let mut i: usize = 0;
    assert(cut_ranges@.take(0) =~= Seq::<(i64, i64)>::empty());
    while i < cut_ranges.len()
        invariant
            0 <= i <= cut_ranges@.len(),
            is_sorted(keyframes@),
            out@ == snapped_cuts(cut_ranges@.take(i as int), keyframes@, duration),
        decreases cut_ranges@.len() - i,
    {
        let (start, end) = cut_ranges[i];
        let l = partition_at_most(keyframes, start);
        let s = partition_below(keyframes, end);
        let snapped_start = if l == 0 { start } else { keyframes[l - 1] };
        assert(cut_ranges@.take(i + 1).drop_last() == cut_ranges@.take(i as int));
        assert(cut_ranges@.take(i + 1).last() == cut_ranges@[i as int]);
        if s == keyframes.len() {
            match duration {
                Some(d) => {
                    if end as i128 >= d as i128 - EPSILON as i128 {
                        out.push((snapped_start, END_OF_STREAM));
                    }
                },
                None => {},
            }
        } else {
            out.push((snapped_start, keyframes[s]));
        }
        i = i + 1;
    }
    assert(cut_ranges@.take(cut_ranges@.len() as int) == cut_ranges@);
    normalize_ranges(out)
}

/// Where a snapped cut lands, stated over the keyframes themselves. Its
/// start is the latest keyframe at or before the detected start, or the
/// detected start when no keyframe comes before it. Its end is the earliest
/// keyframe at or after the detected end, so an end that already sits on a
/// keyframe stays there. When no keyframe comes at or after the end, the cut
/// is kept, running to the end of the media, exactly when it ends within
/// `EPSILON` of the known duration.
pub proof fn law_snapped_cut_lands_on_nearest_keyframes(cut: (i64, i64), ks: Seq<i64>, duration: Option<i64>)
    requires
        is_sorted(ks),
    ensures
        snap_cut(cut, ks, duration) matches Some(r) ==> {
            &&& r.0 <= cut.0
            &&& (forall|j: int| 0 <= j < ks.len() ==> #[trigger] ks[j] > cut.0) ==> r.0 == cut.0
            &&& (exists|j: int| 0 <= j < ks.len() && #[trigger] ks[j] <= cut.0) ==> {
                &&& exists|j: int| 0 <= j < ks.len() && #[trigger] ks[j] == r.0
                &&& forall|j: int| 0 <= j < ks.len() && #[trigger] ks[j] <= cut.0 ==> ks[j] <= r.0
            }
        },
        (exists|j: int| 0 <= j < ks.len() && #[trigger] ks[j] >= cut.1) ==> (snap_cut(cut, ks, duration) matches Some(r)
            && r.1 >= cut.1
            && (exists|j: int| 0 <= j < ks.len() && #[trigger] ks[j] == r.1)
            && (forall|j: int| 0 <= j < ks.len() && #[trigger] ks[j] >= cut.1 ==> r.1 <= ks[j])),
        (forall|j: int| 0 <= j < ks.len() ==> #[trigger] ks[j] < cut.1) ==> {
            &&& (snap_cut(cut, ks, duration) is Some <==> (duration matches Some(d) && cut.1 >= d - EPSILON))
            &&& (snap_cut(cut, ks, duration) matches Some(r) ==> r.1 == END_OF_STREAM)
        },
{
    lemma_count_at_most_partitions(ks, cut.0 as int);
    lemma_count_below_partitions(ks, cut.1 as int);
    let l = count_at_most(ks, cut.0 as int);
    let s = count_below(ks, cut.1 as int);
    if l > 0 {
        assert(ks[l - 1] <= cut.0);
        assert forall|j: int| 0 <= j < ks.len() && #[trigger] ks[j] <= cut.0 implies ks[j] <= ks[l - 1] by {
            if j >= l {
                assert(ks[j] > cut.0);
            }
        }
    } else if ks.len() > 0 {
        assert(ks[0] > cut.0);
    }
    if s < ks.len() {
        assert(ks[s as int] >= cut.1);
        assert forall|j: int| 0 <= j < ks.len() && #[trigger] ks[j] >= cut.1 implies ks[s as int] <= ks[j] by {
            if j < s {
                assert(ks[j] < cut.1);
            }
        }
    }
    if exists|j: int| 0 <= j < ks.len() && #[trigger] ks[j] >= cut.1 {
        let j = choose|j: int| 0 <= j < ks.len() && #[trigger] ks[j] >= cut.1;
        assert(s <= j);
    }
}

/// How a stream of the input is carried into the output while cutting.
#[derive(Debug, Clone, Copy, PartialEq, Eq, Structural)]
pub struct DeadrollStreamInfo {
    pub output_stream_idx: usize,
    pub input_time_base: Rational,
    pub last_output_dts: Option<i64>,
}

/// Maps every input stream to the output stream at the same index, with no
/// timestamp written yet.
pub fn setup_output_streams(input_time_bases: &[Rational]) -> (mapping: Vec<Option<DeadrollStreamInfo>>)
    ensures
        mapping@.len() == input_time_bases@.len(),
        forall|i: int| 0 <= i < mapping@.len() ==> #[trigger] mapping@[i] == Some(DeadrollStreamInfo {
            output_stream_idx: i as usize,
            input_time_base: input_time_bases@[i],
            last_output_dts: None,
        }),
{
    let mut mapping: Vec<Option<DeadrollStreamInfo>> = Vec::new();
    let mut i: usize = 0;
    while i < input_time_bases.len()
        invariant
            0 <= i <= input_time_bases@.len(),
            mapping@.len() == i,
            forall|k: int| 0 <= k < i ==> #[trigger] mapping@[k] == Some(DeadrollStreamInfo {
                output_stream_idx: k as usize,
                input_time_base: input_time_bases@[k],
                last_output_dts: None,
            }),
        decreases input_time_bases@.len() - i,
    {
        mapping.push(Some(DeadrollStreamInfo {
            output_stream_idx: i,
            input_time_base: input_time_bases[i],
            last_output_dts: None,
        }));
        i = i + 1;
    }
    mapping
}

/// A packet's presentation time in microseconds, when it has one that can be
/// expressed.
pub open spec fn packet_time(pts: Option<i64>, tb: Rational) -> Option<int> {
    match pts {
        Some(p) => if fits_i64(micros_of_ticks(p as int, tb)) {
            Some(micros_of_ticks(p as int, tb))
        } else {
            None
        },
        None => None,
    }
}

/// Whether a packet is dropped from the output: its presentation time falls
/// inside a cut. Packets without a presentation time are kept.
pub fn is_packet_cut(pts: Option<i64>, input_time_base: Rational, cut_ranges: &[(i64, i64)]) -> (dropped: bool)
    requires
        is_valid_time_base(input_time_base),
    ensures
        dropped == (packet_time(pts, input_time_base) matches Some(t) && covers(cut_ranges@, t)),
{
    match pts {
        Some(p) => match ticks_to_micros(p, input_time_base) {
            Some(t) => is_within_cut(t, cut_ranges),
            None => false,
        },
        None => false,
    }
}

/// How far, in ticks of the output time base, the timestamps of a packet
/// anchored at `anchor` (ticks of the input time base) move back: the cut
/// time before the anchor, converted to the output time base.
pub open spec fn shift_ticks(anchor: i64, in_tb: Rational, out_tb: Rational, cuts: Seq<(i64, i64)>) -> Option<int> {
    match packet_time(Some(anchor), in_tb) {
        Some(t) => {
            let cut = cut_before(cuts, t);
            if fits_i64(cut) && fits_i64(ticks_of_micros(cut, out_tb)) {
                Some(ticks_of_micros(cut, out_tb))
            } else {
                None
            }
        },
        None => None,
    }
}

/// The decoding timestamp written for a shifted one: it must exceed the
/// previous one written on the stream, so it becomes one past it when it
/// does not.
pub open spec fn next_dts(last: Option<i64>, shifted: int) -> int {
    match last {
        Some(l) => if shifted <= l { l + 1 } else { shifted },
        None => shifted,
    }
}

/// What happens to a packet's timestamps.
#[derive(Debug, Clone, Copy, PartialEq, Eq, Structural)]
pub enum Stamp {
    /// The packet has neither a presentation nor a decoding timestamp; it is
    /// written as it is.
    Untouched,
    /// The timestamps to write, in the output time base.
    Shifted { pts: Option<i64>, dts: Option<i64> },
    /// The packet's time, the time cut before it or a shifted timestamp does
    /// not fit in `i64`.
    Unrepresentable,
}

/// The outcome of stamping a packet, and the last decoding timestamp of its
/// stream afterwards.
pub open spec fn stamp_spec(
    last: Option<i64>,
    pts: Option<i64>,
    dts: Option<i64>,
    rescaled_pts: Option<i64>,
    rescaled_dts: Option<i64>,
    in_tb: Rational,
    out_tb: Rational,
    cuts: Seq<(i64, i64)>,
) -> (Stamp, Option<i64>) {
    let anchor = if pts is Some { pts } else { dts };
    match anchor {
        None => (Stamp::Untouched, last),
        Some(a) => match shift_ticks(a, in_tb, out_tb, cuts) {
            None => (Stamp::Unrepresentable, last),
            Some(shift) => {
                let pts_ok = rescaled_pts matches Some(p) ==> fits_i64(p - shift);
                let dts_ok = rescaled_dts matches Some(d) ==> fits_i64(next_dts(last, d - shift));
                if pts_ok && dts_ok {
                    let new_pts = match rescaled_pts {
                        Some(p) => Some((p - shift) as i64),
                        None => None,
                    };
                    let new_dts = match rescaled_dts {
                        Some(d) => Some(next_dts(last, d - shift) as i64),
                        None => None,
                    };
                    (Stamp::Shifted { pts: new_pts, dts: new_dts }, if new_dts is Some { new_dts } else { last })
                } else {
                    (Stamp::Unrepresentable, last)
                }
            },
        },
    }
}

/// Moves a kept packet's timestamps back by the time cut before it. The
/// packet is anchored at its presentation timestamp, or its decoding one
/// when it has none; `rescaled_pts` and `rescaled_dts` are its timestamps
/// already converted to the output time base. The decoding timestamps
/// written on a stream keep strictly increasing.
pub fn stamp_shifted(
    info: &mut DeadrollStreamInfo,
    pts: Option<i64>,
    dts: Option<i64>,
    rescaled_pts: Option<i64>,
    rescaled_dts: Option<i64>,
    output_time_base: Rational,
    cut_ranges: &[(i64, i64)],
) -> (stamp: Stamp)
    requires
        is_valid_time_base(old(info).input_time_base),
        is_valid_time_base(output_time_base),
        cut_ranges@.len() <= usize::MAX / 16,
    ensures
        (stamp, final(info).last_output_dts) == stamp_spec(old(info).last_output_dts, pts, dts,
            rescaled_pts, rescaled_dts, old(info).input_time_base, output_time_base, cut_ranges@),
        final(info).output_stream_idx == old(info).output_stream_idx,
        final(info).input_time_base == old(info).input_time_base,
        stamp matches Stamp::Shifted { dts: Some(d), .. } ==> final(info).last_output_dts == Some(d)
            && (old(info).last_output_dts matches Some(l) ==> d > l),
        pts is None && dts is None ==> stamp == Stamp::Untouched && *final(info) == *old(info),
{
    let anchor = if pts.is_some() { pts } else { dts };
    let a = match anchor {
        None => { return Stamp::Untouched; },
        Some(a) => a,
    };
    let t = match ticks_to_micros(a, info.input_time_base) {
        None => { return Stamp::Unrepresentable; },
        Some(t) => t,
    };
    let cut = cut_duration_before(t, cut_ranges);
    if cut < i64::MIN as i128 || cut > i64::MAX as i128 {
        return Stamp::Unrepresentable;
    }
    let shift = match micros_to_ticks(cut as i64, output_time_base) {
        None => { return Stamp::Unrepresentable; },
        Some(s) => s,
    };
    let new_pts = match rescaled_pts {
        Some(p) => {
            let v = p as i128 - shift as i128;
            if v < i64::MIN as i128 || v > i64::MAX as i128 {
                return Stamp::Unrepresentable;
            }
            Some(v as i64)
        },
        None => None,
    };
    let new_dts = match rescaled_dts {
        Some(d) => {
            let shifted = d as i128 - shift as i128;
            let v = match info.last_output_dts {
                Some(l) => if shifted <= l as i128 { l as i128 + 1 } else { shifted },
                None => shifted,
            };
            if v < i64::MIN as i128 || v > i64::MAX as i128 {
                return Stamp::Unrepresentable;
            }
            Some(v as i64)
        },
        None => None,
    };
    if new_dts.is_some() {
        info.last_output_dts = new_dts;
    }
    Stamp::Shifted { pts: new_pts, dts: new_dts }
}

/// A packet with a presentation timestamp is shifted by the time cut
/// before its presentation time, whatever its decoding timestamp: the pts
/// written is its rescaled pts less the cut time before `p` (in the output
/// time base, rounded toward zero), and the dts written is its rescaled dts
/// less the same amount, raised to one past the previous dts when it would
/// not exceed it. This holds whenever every value involved fits in `i64`.
pub proof fn law_shift_follows_presentation_time(
    last: Option<i64>,
    p: i64,
    dts: Option<i64>,
    rp: i64,
    rescaled_dts: Option<i64>,
    in_tb: Rational,
    out_tb: Rational,
    cuts: Seq<(i64, i64)>,
)
    requires
        fits_i64(micros_of_ticks(p as int, in_tb)),
        fits_i64(cut_before(cuts, micros_of_ticks(p as int, in_tb))),
        fits_i64(ticks_of_micros(cut_before(cuts, micros_of_ticks(p as int, in_tb)), out_tb)),
        fits_i64(rp - ticks_of_micros(cut_before(cuts, micros_of_ticks(p as int, in_tb)), out_tb)),
        rescaled_dts matches Some(rd) ==> fits_i64(rd - ticks_of_micros(cut_before(cuts, micros_of_ticks(p as int, in_tb)), out_tb)),
        last matches Some(l) ==> l < i64::MAX,
    ensures
        ({
            let shift = ticks_of_micros(cut_before(cuts, micros_of_ticks(p as int, in_tb)), out_tb);
            stamp_spec(last, Some(p), dts, Some(rp), rescaled_dts, in_tb, out_tb, cuts).0 == Stamp::Shifted {
                pts: Some((rp - shift) as i64),
                dts: match rescaled_dts {
                    Some(rd) => Some((match last {
                        Some(l) => if rd - shift <= l { l + 1 } else { rd - shift },
                        None => rd - shift,
                    }) as i64),
                    None => None,
                },
            }
        }),
{
}

/// The decoding timestamps written on a stream strictly increase: whatever
/// shifted value comes next, the one written exceeds the previous one.
pub proof fn law_written_dts_increase(last: i64, shifted: int)
    ensures
        next_dts(Some(last), shifted) > last,
{
}

/// The time of a keyframe of the analysed video stream, in microseconds:
/// only key packets of that stream with a presentation timestamp count.
pub fn keyframe_time(is_video_stream: bool, is_key: bool, pts: Option<i64>, time_base: Rational) -> (t: Option<i64>)
    requires
        is_valid_time_base(time_base),
    ensures
        t == (if is_video_stream && is_key {
            match packet_time(pts, time_base) {
                Some(v) => Some(v as i64),
                None => None::<i64>,
            }
        } else {
            None::<i64>
        }),
{
    if is_video_stream && is_key {
        match pts {
            Some(p) => ticks_to_micros(p, time_base),
            None => None,
        }
    } else {
        None
    }
}

/// What is left to do once the packets outside the cuts were written.
#[derive(Debug, Clone, Copy, PartialEq, Eq, Structural)]
pub enum DeadrollFinish {
    /// No keyframe was found, so nothing was cut: the temporary output is
    /// removed and the original stays.
    NothingToCut,
    /// The cuts dropped every packet: the temporary output is removed and
    /// the job fails rather than replace the media with an empty file.
    EmptyOutput,
    /// The trailer is written and the output replaces the original.
    ReplaceOriginal,
}

/// Decides how a dead roll job ends from whether keyframes were found and
/// how many packets were kept.
pub fn deadroll_finish(keyframes_found: bool, kept: u64) -> (finish: DeadrollFinish)
    ensures
        finish == (if !keyframes_found {
            DeadrollFinish::NothingToCut
        } else if kept == 0 {
            DeadrollFinish::EmptyOutput
        } else {
            DeadrollFinish::ReplaceOriginal
        }),
{
    if !keyframes_found {
        DeadrollFinish::NothingToCut
    } else if kept == 0 {
        DeadrollFinish::EmptyOutput
    } else {
        DeadrollFinish::ReplaceOriginal
    }
}

/// The value that marks an unknown timestamp or duration (`AV_NOPTS_VALUE`).
pub const NO_PTS_VALUE: i64 = -0x7fff_ffff_ffff_ffff - 1;

/// The media's duration in microseconds (`AV_TIME_BASE` units), unknown when
/// the container reports no value.
pub fn media_duration(raw: i64) -> (d: Option<i64>)
    ensures
        d == (if raw == NO_PTS_VALUE { None::<i64> } else { Some(raw) }),
{
    if raw == NO_PTS_VALUE {
        None
    } else {
        Some(raw)
    }
}

/// The video filter that finds black spans at least `min_duration` seconds
/// long: `blackdetect=d=<min_duration>`.
pub open spec fn spec_video_filter(min_duration: nat) -> Seq<char> {
    "blackdetect=d="@ + decimal(min_duration)
}

/// The audio filter that finds spans at least `min_duration` seconds long
/// that stay below `-<min_db>` dB: `silencedetect=n=-<min_db>dB:d=<min_duration>`.
pub open spec fn spec_audio_filter(min_db: nat, min_duration: nat) -> Seq<char> {
    "silencedetect=n=-"@ + decimal(min_db) + "dB:d="@ + decimal(min_duration)
}

/// The video filter description for black detection.
pub fn video_filter_spec(min_duration: usize) -> (spec: String)
    ensures
        spec@ == spec_video_filter(min_duration as nat),
{
    let s = String::from_str("blackdetect=d=");
    let d = usize_to_decimal(min_duration);
    s.concat(d.as_str())
}

/// The audio filter description for silence detection.
pub fn audio_filter_spec(min_db: usize, min_duration: usize) -> (spec: String)
    ensures
        spec@ == spec_audio_filter(min_db as nat, min_duration as nat),
{
    let s = String::from_str("silencedetect=n=-");
    let db = usize_to_decimal(min_db);
    let s = s.concat(db.as_str());
    let s = s.concat("dB:d=");
    let d = usize_to_decimal(min_duration);
    s.concat(d.as_str())
}

/// Snapping only widens a cut: every time inside a detected cut that is
/// kept lies inside the snapped cut.
pub proof fn law_snapping_widens_cuts(cut: (i64, i64), ks: Seq<i64>, duration: Option<i64>, t: int)
    requires
        is_sorted(ks),
        in_span(cut, t),
        snap_cut(cut, ks, duration) is Some,
    ensures
        in_span(snap_cut(cut, ks, duration).unwrap(), t),
{
    lemma_count_at_most_partitions(ks, cut.0 as int);
    lemma_count_below_partitions(ks, cut.1 as int);
}

/// Whether every span starts no later than it ends.
pub open spec fn spans_run_forward(rs: Seq<(i64, i64)>) -> bool {
    forall|i: int| 0 <= i < rs.len() ==> (#[trigger] rs[i]).0 <= rs[i].1
}

/// The time cut before a moment never shrinks as the moment moves later,
/// whatever the spans, as long as each starts no later than it ends.
pub proof fn law_cut_time_grows_with_time(rs: Seq<(i64, i64)>, t1: int, t2: int)
    requires
        spans_run_forward(rs),
        t1 <= t2,
    ensures
        cut_before(rs, t1) <= cut_before(rs, t2),
    decreases rs.len(),
{
    if rs.len() > 0 {
        let tail = rs.drop_first();
        assert(rs[0].0 <= rs[0].1);
        assert forall|i: int| 0 <= i < tail.len() implies (#[trigger] tail[i]).0 <= tail[i].1 by {
            assert(tail[i] == rs[i + 1]);
        }
        law_cut_time_grows_with_time(tail, t1, t2);
        lemma_cut_before_nonnegative(tail, t2);
    }
}

proof fn lemma_cut_before_nonnegative(rs: Seq<(i64, i64)>, t: int)
    requires
        spans_run_forward(rs),
    ensures
        cut_before(rs, t) >= 0,
    decreases rs.len(),
{
    if rs.len() > 0 {
        let tail = rs.drop_first();
        assert(rs[0].0 <= rs[0].1);
        assert forall|i: int| 0 <= i < tail.len() implies (#[trigger] tail[i]).0 <= tail[i].1 by {
            assert(tail[i] == rs[i + 1]);
        }
        lemma_cut_before_nonnegative(tail, t);
    }
}

/// Cutting keeps the order of the moments that are kept: for canonical
/// cuts, a moment outside every cut keeps its place before any later
/// moment once both are shifted back by the time cut before them.
pub proof fn law_cutting_keeps_kept_times_in_order(rs: Seq<(i64, i64)>, t1: int, t2: int)
    requires
        is_normalized(rs),
        t1 <= t2,
        !covers(rs, t1),
    ensures
        t1 - cut_before(rs, t1) <= t2 - cut_before(rs, t2),
    decreases rs.len(),
{
    if rs.len() > 0 {
        let tail = rs.drop_first();
        lemma_covers_drop_first(rs, 0);
        if rs[0].1 > t2 {
        } else if rs[0].1 <= t1 {
            lemma_covers_drop_first(rs, t1);
            law_cutting_keeps_kept_times_in_order(tail, t1, t2);
        } else {
            if rs[0].0 <= t1 {
                assert(in_span(rs[0], t1));
            }
            let e = rs[0].1 as int;
            if covers(tail, e) {
                lemma_covers_drop_first(rs, e);
                let k = choose|k: int| 0 <= k < rs.len() && #[trigger] in_span(rs[k], e);
                if k > 0 {
                    assert(rs[0].1 < rs[k].0);
                }
            }
            law_cutting_keeps_kept_times_in_order(tail, e, t2);
            if tail.len() > 0 {
                assert(tail[0] == rs[1]);
                assert(rs[0].1 < rs[1].0);
                assert(rs[1].0 < rs[1].1);
            }
        }
    }
}

proof fn lemma_snapped_cuts_hold(cuts: Seq<(i64, i64)>, ks: Seq<i64>, duration: Option<i64>, i: int)
    requires
        0 <= i < cuts.len(),
        snap_cut(cuts[i], ks, duration) is Some,
    ensures
        exists|j: int| 0 <= j < snapped_cuts(cuts, ks, duration).len()
            && #[trigger] snapped_cuts(cuts, ks, duration)[j] == snap_cut(cuts[i], ks, duration).unwrap(),
    decreases cuts.len(),
{
    let d = cuts.drop_last();
    let rest = snapped_cuts(d, ks, duration);
    let all = snapped_cuts(cuts, ks, duration);
    if i == cuts.len() - 1 {
        assert(cuts.last() == cuts[i]);
        assert(all[rest.len() as int] == snap_cut(cuts[i], ks, duration).unwrap());
    } else {
        assert(d[i] == cuts[i]);
        lemma_snapped_cuts_hold(d, ks, duration, i);
        let j = choose|j: int| 0 <= j < rest.len() && #[trigger] rest[j] == snap_cut(d[i], ks, duration).unwrap();
        assert(all[j] == rest[j]);
    }
}

/// Every moment of a detected cut that is kept is cut out: the snapped,
/// canonical cuts hold it.
pub proof fn law_snapped_cuts_hold_detected_times(
    cuts: Seq<(i64, i64)>,
    ks: Seq<i64>,
    duration: Option<i64>,
    out: Seq<(i64, i64)>,
    i: int,
    t: int,
)
    requires
        is_sorted(ks),
        normalizes(snapped_cuts(cuts, ks, duration), out),
        0 <= i < cuts.len(),
        in_span(cuts[i], t),
        snap_cut(cuts[i], ks, duration) is Some,
    ensures
        covers(out, t),
{
    let all = snapped_cuts(cuts, ks, duration);
    lemma_snapped_cuts_hold(cuts, ks, duration, i);
    let j = choose|j: int| 0 <= j < all.len() && #[trigger] all[j] == snap_cut(cuts[i], ks, duration).unwrap();
    law_snapping_widens_cuts(cuts[i], ks, duration, t);
    assert(in_span(all[j], t));
    assert(covers(all, t));
}

} // verus!

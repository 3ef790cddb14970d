//! Parsing of inbound topic strings into structured routes.
//!
//! The topic grammar is slash-delimited: `gs/<gsId>`, `job/<jobId>` and
//! `satellite/<satId>/telemetry`.  An id is a non-empty run of decimal
//! digits whose value fits a signed 64-bit integer.  Every other shape —
//! wrong segment count, wrong keyword, empty or non-numeric id, oversized
//! id — maps to [`Route::Unrecognized`]; no topic is ever fatal.

use vstd::prelude::*;

verus! {

/// The parsed form of a topic.  Never persisted; derived deterministically
/// from the topic text alone.
#[derive(Clone, Copy, Debug, PartialEq, Eq, Structural)]
pub enum Route {
    GroundStation { gs_id: i64 },
    JobStatus { job_id: i64 },
    SatelliteTelemetry { sat_id: i64 },
    Unrecognized,
}

/// Index of the first `'/'` in `t`, or `t.len()` when there is none.
pub open spec fn spec_slash_pos(t: Seq<char>) -> int
    decreases t.len(),
{
    if t.len() == 0 {
        0
    } else if t[0] == '/' {
        0
    } else {
        1 + spec_slash_pos(t.drop_first())
    }
}

/// The segments of `t`, split on `'/'` exactly as the ingestion loop sees
/// them: splitting the empty string gives one empty segment, and a trailing
/// slash gives a trailing empty segment.
pub open spec fn spec_split(t: Seq<char>) -> Seq<Seq<char>>
    decreases t.len(),
{
    let p = spec_slash_pos(t);
    if 0 <= p && p < t.len() {
        seq![t.take(p)] + spec_split(t.skip(p + 1))
    } else {
        seq![t]
    }
}

pub open spec fn spec_is_digit(c: char) -> bool {
    '0' <= c && c <= '9'
}

pub open spec fn spec_all_digits(s: Seq<char>) -> bool {
    forall|i: int| 0 <= i < s.len() ==> spec_is_digit(#[trigger] s[i])
}

/// Numeric value of a digit run, most significant digit first.
pub open spec fn spec_digits_val(s: Seq<char>) -> int
    decreases s.len(),
{
    if s.len() == 0 {
        0
    } else {
        spec_digits_val(s.drop_last()) * 10 + (s.last() as u32 - '0' as u32)
    }
}

/// A segment names a valid id when it is a non-empty digit run whose value
/// fits a signed 64-bit integer.
pub open spec fn spec_valid_id(s: Seq<char>) -> bool {
    s.len() > 0 && spec_all_digits(s) && spec_digits_val(s) <= i64::MAX
}

/// The route a topic stands for.
pub open spec fn spec_route(t: Seq<char>) -> Route {
    let segs = spec_split(t);
    if segs.len() == 2 && segs[0] == seq!['g', 's'] && spec_valid_id(segs[1]) {
        Route::GroundStation { gs_id: spec_digits_val(segs[1]) as i64 }
    } else if segs.len() == 2 && segs[0] == seq!['j', 'o', 'b'] && spec_valid_id(segs[1]) {
        Route::JobStatus { job_id: spec_digits_val(segs[1]) as i64 }
    } else if segs.len() == 3 && segs[0] == seq!['s', 'a', 't', 'e', 'l', 'l', 'i', 't', 'e']
        && spec_valid_id(segs[1]) && segs[2] == seq!['t', 'e', 'l', 'e', 'm', 'e', 't', 'r', 'y'] {
        Route::SatelliteTelemetry { sat_id: spec_digits_val(segs[1]) as i64 }
    } else {
        Route::Unrecognized
    }
}

/// Routing is total: `spec_route` is a function defined on every character
/// sequence, so each topic maps to exactly one route, and the variant is
/// always one of the four below — malformed topics land on `Unrecognized`
/// rather than aborting.
pub proof fn lemma_route_total(t: Seq<char>)
    ensures
        spec_route(t) is GroundStation || spec_route(t) is JobStatus || spec_route(
            t,
        ) is SatelliteTelemetry || spec_route(t) is Unrecognized,
{
}

proof fn lemma_slash_pos_nonneg(t: Seq<char>)
    ensures
        spec_slash_pos(t) >= 0,
    decreases t.len(),
{
    if t.len() == 0 {
    } else if t[0] == '/' {
    } else {
        lemma_slash_pos_nonneg(t.drop_first());
    }
}

proof fn lemma_slash_pos_le(t: Seq<char>, k: int)
    requires
        0 <= k < t.len(),
        t[k] == '/',
    ensures
        spec_slash_pos(t) <= k,
    decreases t.len(),
{
    if t[0] == '/' {
    } else {
        assert(t.drop_first()[k - 1] == t[k]);
        lemma_slash_pos_le(t.drop_first(), k - 1);
    }
}

proof fn lemma_split_len(s: Seq<char>)
    ensures
        spec_split(s).len() >= 1,
{
    let p = spec_slash_pos(s);
    if 0 <= p && p < s.len() {
        assert(spec_split(s) == seq![s.take(p)] + spec_split(s.skip(p + 1)));
    } else {
        assert(spec_split(s) == seq![s]);
    }
}

proof fn lemma_slash_pos_of(t: Seq<char>, k: int)
    requires
        0 <= k <= t.len(),
        forall|j: int| 0 <= j < k ==> t[j] != '/',
        k < t.len() ==> t[k] == '/',
    ensures
        spec_slash_pos(t) == k,
    decreases t.len(),
{
    if t.len() == 0 {
    } else if k == 0 {
    } else {
        assert(t[0] != '/');
        let rest = t.drop_first();
        assert forall|j: int| 0 <= j < k - 1 implies rest[j] != '/' by {
            assert(rest[j] == t[j + 1]);
        }
        if k - 1 < rest.len() {
            assert(rest[k - 1] == t[k]);
        }
        lemma_slash_pos_of(rest, k - 1);
    }
}

proof fn lemma_digits_val_nonneg(s: Seq<char>)
    requires
        spec_all_digits(s),
    ensures
        spec_digits_val(s) >= 0,
    decreases s.len(),
{
    if s.len() > 0 {
        assert(spec_all_digits(s.drop_last())) by {
            assert(forall|i: int|
                0 <= i < s.len() - 1 ==> #[trigger] s.drop_last()[i] == s[i]);
        }
        lemma_digits_val_nonneg(s.drop_last());
        assert(spec_is_digit(s.last()));
    }
}

proof fn lemma_digits_val_mono(s: Seq<char>, j: int)
    requires
        spec_all_digits(s),
        0 <= j <= s.len(),
    ensures
        spec_digits_val(s.take(j)) <= spec_digits_val(s),
    decreases s.len(),
{
    if j == s.len() {
        assert(s.take(j) =~= s);
    } else {
        let head = s.drop_last();
        assert(spec_all_digits(head)) by {
            assert(forall|i: int| 0 <= i < head.len() ==> #[trigger] head[i] == s[i]);
        }
        assert(s.take(j) =~= head.take(j));
        lemma_digits_val_mono(head, j);
        lemma_digits_val_nonneg(head);
        assert(spec_is_digit(s.last()));
        assert(spec_digits_val(s) == spec_digits_val(head) * 10 + (s.last() as u32 - '0' as u32));
        assert(spec_digits_val(head) * 10 >= spec_digits_val(head)) by (nonlinear_arith)
            requires
                spec_digits_val(head) >= 0,
        ;
    }
}

/// Parses the digit run `chars[start..end]`; answers the id value exactly
/// when the segment is a valid id, and nothing otherwise.
fn parse_id(chars: &Vec<char>, start: usize, end: usize) -> (r: Option<i64>)
    requires
        start <= end <= chars@.len(),
    ensures
        spec_valid_id(chars@.subrange(start as int, end as int)) ==> r == Some(
            spec_digits_val(chars@.subrange(start as int, end as int)) as i64,
        ),
        !spec_valid_id(chars@.subrange(start as int, end as int)) ==> r is None,
{
    let ghost seg = chars@.subrange(start as int, end as int);
    if start == end {
        return None;
    }
    let mut acc: i64 = 0;
    let mut i: usize = start;
    while i < end
        invariant
            start <= i <= end <= chars@.len(),
            seg == chars@.subrange(start as int, end as int),
            spec_all_digits(seg.take(i - start)),
            acc == spec_digits_val(seg.take(i - start)),
            0 <= acc,
        decreases end - i,
    {
        let c = chars[i];
        proof {
            assert(seg[i - start] == chars@[i as int]);
        }
        if !(c >= '0' && c <= '9') {
            proof {
                assert(!spec_is_digit(seg[i - start]));
                assert(!spec_all_digits(seg));
            }
            return None;
        }
        let d: i64 = (c as u32 - 48) as i64;
        proof {
            assert('0' as u32 == 48);
            assert(0 <= d <= 9);
        }
        if acc > (9223372036854775807i64 - d) / 10 {
            proof {
                let ghost pre = seg.take(i - start + 1);
                assert(pre.drop_last() =~= seg.take(i - start));
                assert(pre.last() == seg[i - start]);
                assert(spec_all_digits(pre)) by {
                    assert(forall|j: int|
                        0 <= j < pre.len() ==> #[trigger] pre[j] == seg.take(i - start + 1)[j]);
                }
                assert(spec_digits_val(pre) == acc * 10 + d);
                assert(acc * 10 + d > i64::MAX) by (nonlinear_arith)
                    requires
                        acc > (9223372036854775807i64 - d) / 10,
                        0 <= d <= 9,
                        acc >= 0,
                ;
                assert(spec_all_digits(seg) ==> spec_digits_val(seg) > i64::MAX) by {
                    if spec_all_digits(seg) {
                        lemma_digits_val_mono(seg, i - start + 1);
                    }
                }
            }
            return None;
        }
        proof {
            assert(acc * 10 + d <= i64::MAX) by (nonlinear_arith)
                requires
                    acc <= (9223372036854775807i64 - d) / 10,
                    0 <= d <= 9,
                    acc >= 0,
            ;
        }
        acc = acc * 10 + d;
        proof {
            let ghost pre = seg.take(i - start + 1);
            assert(pre.drop_last() =~= seg.take(i - start));
            assert(pre.last() == seg[i - start]);
            assert(spec_all_digits(pre)) by {
                assert(forall|j: int| 0 <= j < pre.len() - 1 ==> pre[j] == pre.drop_last()[j]);
            }
        }
        i = i + 1;
    }
    proof {
        assert(seg.take(end - start) =~= seg);
    }
    Some(acc)
}

/// True exactly when `chars[start..end]` spells `gs`.
fn seg_is_gs(chars: &Vec<char>, start: usize, end: usize) -> (r: bool)
    requires
        start <= end <= chars@.len(),
    ensures
        r == (chars@.subrange(start as int, end as int) == seq!['g', 's']),
{
    let ghost seg = chars@.subrange(start as int, end as int);
    let r = end - start == 2 && chars[start] == 'g' && chars[start + 1] == 's';
    proof {
        if r {
            assert(seg =~= seq!['g', 's']);
        } else {
            if seg == seq!['g', 's'] {
                assert(seg.len() == 2);
                assert(seg[0] == 'g' && seg[1] == 's');
            }
        }
    }
    r
}

/// True exactly when `chars[start..end]` spells `job`.
fn seg_is_job(chars: &Vec<char>, start: usize, end: usize) -> (r: bool)
    requires
        start <= end <= chars@.len(),
    ensures
        r == (chars@.subrange(start as int, end as int) == seq!['j', 'o', 'b']),
{
    let ghost seg = chars@.subrange(start as int, end as int);
    let r = end - start == 3 && chars[start] == 'j' && chars[start + 1] == 'o' && chars[start
        + 2] == 'b';
    proof {
        if r {
            assert(seg =~= seq!['j', 'o', 'b']);
        } else {
            if seg == seq!['j', 'o', 'b'] {
                assert(seg.len() == 3);
                assert(seg[0] == 'j' && seg[1] == 'o' && seg[2] == 'b');
            }
        }
    }
    r
}

/// True exactly when `chars[start..end]` spells `satellite`.
fn seg_is_satellite(chars: &Vec<char>, start: usize, end: usize) -> (r: bool)
    requires
        start <= end <= chars@.len(),
    ensures
        r == (chars@.subrange(start as int, end as int) == seq![
            's', 'a', 't', 'e', 'l', 'l', 'i', 't', 'e',
        ]),
{
    let ghost seg = chars@.subrange(start as int, end as int);
    let ghost lit = seq!['s', 'a', 't', 'e', 'l', 'l', 'i', 't', 'e'];
    let r = end - start == 9 && chars[start] == 's' && chars[start + 1] == 'a' && chars[start
        + 2] == 't' && chars[start + 3] == 'e' && chars[start + 4] == 'l' && chars[start + 5]
        == 'l' && chars[start + 6] == 'i' && chars[start + 7] == 't' && chars[start + 8] == 'e';
    proof {
        if r {
            assert(seg =~= lit);
        } else {
            if seg == lit {
                assert(seg.len() == 9);
                assert(seg[0] == 's' && seg[1] == 'a' && seg[2] == 't' && seg[3] == 'e' && seg[4]
                    == 'l' && seg[5] == 'l' && seg[6] == 'i' && seg[7] == 't' && seg[8] == 'e');
            }
        }
    }
    r
}

/// True exactly when `chars[start..end]` spells `telemetry`.
fn seg_is_telemetry(chars: &Vec<char>, start: usize, end: usize) -> (r: bool)
    requires
        start <= end <= chars@.len(),
    ensures
        r == (chars@.subrange(start as int, end as int) == seq![
            't', 'e', 'l', 'e', 'm', 'e', 't', 'r', 'y',
        ]),
{
    let ghost seg = chars@.subrange(start as int, end as int);
    let ghost lit = seq!['t', 'e', 'l', 'e', 'm', 'e', 't', 'r', 'y'];
    let r = end - start == 9 && chars[start] == 't' && chars[start + 1] == 'e' && chars[start
        + 2] == 'l' && chars[start + 3] == 'e' && chars[start + 4] == 'm' && chars[start + 5]
        == 'e' && chars[start + 6] == 't' && chars[start + 7] == 'r' && chars[start + 8] == 'y';
    proof {
        if r {
            assert(seg =~= lit);
        } else {
            if seg == lit {
                assert(seg.len() == 9);
                assert(seg[0] == 't' && seg[1] == 'e' && seg[2] == 'l' && seg[3] == 'e' && seg[4]
                    == 'm' && seg[5] == 'e' && seg[6] == 't' && seg[7] == 'r' && seg[8] == 'y');
            }
        }
    }
    r
}

/// Finds the first `'/'` at or after `from`, or `chars.len()` when none is
/// left.
fn find_slash(chars: &Vec<char>, from: usize) -> (p: usize)
    requires
        from <= chars@.len(),
    ensures
        from <= p <= chars@.len(),
        forall|j: int| from <= j < p ==> chars@[j] != '/',
        p < chars@.len() ==> chars@[p as int] == '/',
{
    let n = chars.len();
    let mut i = from;
    while i < n
        invariant
            from <= i <= n,
            n == chars@.len(),
            forall|j: int| from <= j < i ==> chars@[j] != '/',
        decreases n - i,
    {
        if chars[i] == '/' {
            return i;
        }
        i = i + 1;
    }
    i
}

/// Routes a topic over its character sequence.
fn route_chars(chars: &Vec<char>) -> (r: Route)
    ensures
        r == spec_route(chars@),
{
    let ghost t = chars@;
    let n = chars.len();
    let p1 = find_slash(chars, 0);
    if p1 == n {
        // no slash: one segment, never a recognized shape
        proof {
            lemma_slash_pos_of(t, n as int);
            assert(spec_split(t) =~= seq![t]);
        }
        return Route::Unrecognized;
    }
    proof {
        lemma_slash_pos_of(t, p1 as int);
    }
    let ghost rest1 = t.skip(p1 + 1);
    let p2 = find_slash(chars, p1 + 1);
    if p2 == n {
        // exactly two segments
        proof {
            assert forall|j: int| 0 <= j < rest1.len() implies rest1[j] != '/' by {
                assert(rest1[j] == t[j + p1 + 1]);
            }
            lemma_slash_pos_of(rest1, rest1.len() as int);
            assert(spec_split(rest1) =~= seq![rest1]);
            assert(spec_split(t) =~= seq![t.take(p1 as int), rest1]);
            assert(t.take(p1 as int) == t.subrange(0, p1 as int));
            assert(rest1 == t.subrange(p1 + 1, n as int));
        }
        if seg_is_gs(chars, 0, p1) {
            match parse_id(chars, p1 + 1, n) {
                Option::Some(id) => {
                    return Route::GroundStation { gs_id: id };
                },
                Option::None => {
                    return Route::Unrecognized;
                },
            }
        } else if seg_is_job(chars, 0, p1) {
            match parse_id(chars, p1 + 1, n) {
                Option::Some(id) => {
                    return Route::JobStatus { job_id: id };
                },
                Option::None => {
                    return Route::Unrecognized;
                },
            }
        } else {
            return Route::Unrecognized;
        }
    }
    // at least three segments
    proof {
        assert forall|j: int| 0 <= j < p2 - p1 - 1 implies rest1[j] != '/' by {
            assert(rest1[j] == t[j + p1 + 1]);
        }
        assert(rest1[p2 - p1 - 1] == t[p2 as int]);
        lemma_slash_pos_of(rest1, p2 - p1 - 1);
    }
    let ghost rest2 = t.skip(p2 + 1);
    proof {
        assert(rest1.skip(p2 - p1 - 1 + 1) =~= rest2);
    }
    let p3 = find_slash(chars, p2 + 1);
    if p3 < n {
        // four or more segments
        proof {
            assert(rest2[p3 - p2 - 1] == t[p3 as int]);
            lemma_slash_pos_nonneg(rest2);
            lemma_slash_pos_le(rest2, p3 - p2 - 1);
            let q = spec_slash_pos(rest2);
            assert(spec_split(rest2) == seq![rest2.take(q)] + spec_split(rest2.skip(q + 1)));
            lemma_split_len(rest2.skip(q + 1));
            assert(spec_split(rest2).len() >= 2);
            assert(spec_split(rest1) == seq![rest1.take(p2 - p1 - 1)] + spec_split(rest2));
            assert(spec_split(t) == seq![t.take(p1 as int)] + spec_split(rest1));
            assert(spec_split(t).len() >= 4);
        }
        return Route::Unrecognized;
    }
    proof {
        assert forall|j: int| 0 <= j < rest2.len() implies rest2[j] != '/' by {
            assert(rest2[j] == t[j + p2 + 1]);
        }
        lemma_slash_pos_of(rest2, rest2.len() as int);
        assert(spec_split(rest2) =~= seq![rest2]);
        assert(spec_split(rest1) == seq![rest1.take(p2 - p1 - 1)] + spec_split(rest2));
        assert(spec_split(t) == seq![t.take(p1 as int)] + spec_split(rest1));
        assert(spec_split(t) =~= seq![t.take(p1 as int), rest1.take(p2 - p1 - 1), rest2]);
        assert(t.take(p1 as int) == t.subrange(0, p1 as int));
        assert(rest1.take(p2 - p1 - 1) =~= t.subrange(p1 + 1, p2 as int));
        assert(rest2 == t.subrange(p2 + 1, n as int));
    }
    if seg_is_satellite(chars, 0, p1) && seg_is_telemetry(chars, p2 + 1, n) {
        match parse_id(chars, p1 + 1, p2) {
            Option::Some(id) => Route::SatelliteTelemetry { sat_id: id },
            Option::None => Route::Unrecognized,
        }
    } else {
        Route::Unrecognized
    }
}

/// Parses an inbound topic into its route.  Total: accepts every string and
/// never aborts.
pub fn route(topic: &str) -> (r: Route)
    ensures
        r == spec_route(topic@),
{
    let n = topic.unicode_len();
    let mut chars: Vec<char> = Vec::new();
    let mut i: usize = 0;
    while i < n
        invariant
            0 <= i <= n,
            n == topic@.len(),
            chars@ == topic@.take(i as int),
        decreases n - i,
    {
        chars.push(topic.get_char(i));
        proof {
            assert(chars@ =~= topic@.take(i + 1));
        }
        i = i + 1;
    }
    proof {
        assert(chars@ =~= topic@);
    }
    route_chars(&chars)
}

} // verus!

//! The decisions of the clipping pipeline: which windows a scan observes, how an observer's
//! verdict becomes a candidate, identifiers and fingerprints, and the run summary.
use vstd::prelude::*;
use vstd::string::StringSliceAdditionalSpecFns;
use crate::digest::{sha256, sha256_digest};
use crate::domain::{segment_views, publishable_duration, Candidate, CandidateView, ClipState, EditorialDecision, TranscriptSegment, TranscriptSegmentView};
use crate::models::{hex, hex_exec};
use crate::text::{chars_of, extend_chars, extend_str, join, join_chars, str_starts_with, string_of, utf8_len, utf8_width};

verus! {

/// What one run of the pipeline did.
#[derive(Debug, Clone, Copy, PartialEq, Eq, Structural)]
pub struct RunSummary {
    pub windows_observed: usize,
    pub candidates_reviewed: usize,
    pub candidates_accepted: usize,
    pub candidates_rejected: usize,
    pub posts_completed: usize,
    pub publish_failures: usize,
}

impl Default for RunSummary {
    fn default() -> (s: Self)
        ensures
            s == (RunSummary {
                windows_observed: 0,
                candidates_reviewed: 0,
                candidates_accepted: 0,
                candidates_rejected: 0,
                posts_completed: 0,
                publish_failures: 0,
            }),
    {
        RunSummary {
            windows_observed: 0,
            candidates_reviewed: 0,
            candidates_accepted: 0,
            candidates_rejected: 0,
            posts_completed: 0,
            publish_failures: 0,
        }
    }
}

/// Whether `s` has the hyphenated lowercase form of a UUID: 36 characters, hyphens at 8, 13, 18
/// and 23, lowercase hex digits elsewhere.
pub open spec fn hyphenated_uuid(s: Seq<char>) -> bool {
    &&& s.len() == 36
    &&& forall|i: int| 0 <= i < 36 ==> (if i == 8 || i == 13 || i == 18 || i == 23 {
        s[i] == '-'
    } else {
        ('0' <= #[trigger] s[i] && s[i] <= '9') || ('a' <= s[i] && s[i] <= 'f')
    })
}

/// A fresh random version-4 UUID from `uuid::Uuid::new_v4`, in the hyphenated lowercase form
/// its `Display` writes: 36 characters, hyphens at 8, 13, 18 and 23, lowercase hex digits
/// elsewhere. Which identifier comes out is left open: it is random. The call panics only when
/// the operating system's random source fails, which no input here can cause.
#[verifier::external_body]
pub(crate) fn new_uuid() -> (s: String)
    ensures
        hyphenated_uuid(s@),
{
    uuid::Uuid::new_v4().to_string()
}

/// The characters of `s` that make up its first `bytes` UTF-8 bytes, when that many bytes end
/// on a character boundary.
pub open spec fn byte_prefix(s: Seq<char>, bytes: nat) -> Option<Seq<char>> {
    if exists|k: int| 0 <= k <= s.len() && utf8_len(#[trigger] s.subrange(0, k)) == bytes {
        Some(s.subrange(0, choose|k: int| 0 <= k <= s.len() && utf8_len(#[trigger] s.subrange(0, k)) == bytes))
    } else {
        None
    }
}

proof fn lemma_utf8_len_prefix_strict(s: Seq<char>, k: int, j: int)
    requires
        0 <= k < j <= s.len(),
    ensures
        utf8_len(s.subrange(0, k)) < utf8_len(s.subrange(0, j)),
    decreases j - k,
{
    assert(s.subrange(0, j).drop_last() =~= s.subrange(0, j - 1));
    if k < j - 1 {
        lemma_utf8_len_prefix_strict(s, k, j - 1);
    }
}

/// How far back a live pass reaches before the media it has not analyzed yet, so a developing
/// moment keeps its setup and delayed reaction.
pub const LIVE_OVERLAP_MS: i64 = 120_000;

/// The shortest pause between two looks at a live capture, in seconds.
pub const MIN_LIVE_POLL_SECONDS: u64 = 5;

/// What the live loop does after measuring how much media the capture holds.
#[derive(Debug, Clone, Copy, PartialEq, Eq, Structural)]
pub enum LiveAction {
    /// Analyze the capture from `start_ms` to its end.
    Scan { start_ms: i64 },
    /// Wait for `missing_ms` more media.
    Wait { missing_ms: i64 },
}

/// The media a live pass needs beyond what was analyzed: one observer step, in milliseconds,
/// saturated to the `i64` range.
pub open spec fn live_advance_ms(step_seconds: u64) -> int {
    if step_seconds * 1000 > i64::MAX { i64::MAX as int } else { step_seconds * 1000 }
}

/// The live loop's decision: once the capture holds at least one observer step beyond what was
/// analyzed, scan it from `LIVE_OVERLAP_MS` before that point; otherwise wait for the rest of
/// the step.
pub open spec fn spec_live_action(analyzed_through_ms: i64, captured_ms: i64, step_seconds: u64) -> LiveAction {
    let due = crate::domain::sat_add(analyzed_through_ms as int, live_advance_ms(step_seconds));
    if captured_ms >= due {
        LiveAction::Scan { start_ms: crate::domain::sat_add(analyzed_through_ms as int, -LIVE_OVERLAP_MS) as i64 }
    } else {
        LiveAction::Wait { missing_ms: (due - captured_ms) as i64 }
    }
}

/// Decides what the live loop does with a capture of `captured_ms` when everything up to
/// `analyzed_through_ms` has been analyzed.
pub fn live_action(analyzed_through_ms: i64, captured_ms: i64, step_seconds: u64) -> (a: LiveAction)
    requires
        analyzed_through_ms >= 0,
        captured_ms >= 0,
    ensures
        a == spec_live_action(analyzed_through_ms, captured_ms, step_seconds),
{
    let advance: i64 = if step_seconds > (i64::MAX as u64) / 1000 { i64::MAX } else { (step_seconds * 1000) as i64 };
    proof {
        if step_seconds > (i64::MAX as u64) / 1000 {
            assert(step_seconds * 1000 > i64::MAX) by (nonlinear_arith)
                requires step_seconds > (i64::MAX as u64) / 1000;
        } else {
            assert(step_seconds * 1000 <= i64::MAX) by (nonlinear_arith)
                requires step_seconds <= (i64::MAX as u64) / 1000;
        }
    }
    let due = crate::domain::saturating_add_i64(analyzed_through_ms, advance);
    if captured_ms >= due {
        LiveAction::Scan { start_ms: crate::domain::saturating_sub_i64(analyzed_through_ms, LIVE_OVERLAP_MS) }
    } else {
        LiveAction::Wait { missing_ms: due - captured_ms }
    }
}

/// Where the last pass over a finished live capture starts: `LIVE_OVERLAP_MS` before what was
/// analyzed, when the capture holds anything beyond it.
pub fn final_live_scan(analyzed_through_ms: i64, captured_ms: i64) -> (start: Option<i64>)
    ensures
        start == (if captured_ms > analyzed_through_ms {
            Some(crate::domain::sat_add(analyzed_through_ms as int, -LIVE_OVERLAP_MS) as i64)
        } else {
            None
        }),
{
    if captured_ms > analyzed_through_ms {
        Some(crate::domain::saturating_sub_i64(analyzed_through_ms, LIVE_OVERLAP_MS))
    } else {
        None
    }
}

/// The pause between two looks at a live capture: the configured one, at least five seconds.
pub fn live_poll_seconds(poll_seconds: u64) -> (s: u64)
    ensures
        s == (if poll_seconds >= MIN_LIVE_POLL_SECONDS { poll_seconds } else { MIN_LIVE_POLL_SECONDS }),
{
    if poll_seconds >= MIN_LIVE_POLL_SECONDS { poll_seconds } else { MIN_LIVE_POLL_SECONDS }
}

/// How much evidence around a candidate its review sees, on each side, in milliseconds.
pub const REVIEW_CONTEXT_MS: i64 = 30_000;

/// The evidence window a candidate's review sees: `REVIEW_CONTEXT_MS` on each side of it,
/// never before zero.
pub fn review_evidence_bounds(start_ms: i64, end_ms: i64) -> (r: (i64, i64))
    ensures
        r.0 == (if crate::domain::sat_add(start_ms as int, -REVIEW_CONTEXT_MS) >= 0 {
            crate::domain::sat_add(start_ms as int, -REVIEW_CONTEXT_MS)
        } else {
            0
        }),
        r.1 == crate::domain::sat_add(end_ms as int, REVIEW_CONTEXT_MS as int),
{
    let start = crate::domain::saturating_sub_i64(start_ms, REVIEW_CONTEXT_MS);
    let end = crate::domain::saturating_add_i64(end_ms, REVIEW_CONTEXT_MS);
    (if start >= 0 { start } else { 0 }, end)
}

/// When every candidate of a scan of `duration_ms` has matured: the end of the media plus the
/// maturation delay (`delay_seconds` taken as `i64`, then in milliseconds), saturated.
pub fn final_maturation_ms(duration_ms: i64, delay_seconds: u64) -> (t: i64)
    ensures
        t == crate::domain::sat_add(duration_ms as int, crate::timeline::sat_mul(crate::timeline::u64_as_i64(delay_seconds), 1000)),
{
    let delay = crate::timeline::wrapped_saturating_mul(delay_seconds, 1000);
    crate::domain::saturating_add_i64(duration_ms, delay)
}

/// Adds the counts of one analysis pass to a running total.
pub fn add_summary(total: &mut RunSummary, pass: &RunSummary)
    requires
        old(total).windows_observed + pass.windows_observed <= usize::MAX,
        old(total).candidates_reviewed + pass.candidates_reviewed <= usize::MAX,
        old(total).candidates_accepted + pass.candidates_accepted <= usize::MAX,
        old(total).candidates_rejected + pass.candidates_rejected <= usize::MAX,
        old(total).posts_completed + pass.posts_completed <= usize::MAX,
        old(total).publish_failures + pass.publish_failures <= usize::MAX,
    ensures
        final(total).windows_observed == old(total).windows_observed + pass.windows_observed,
        final(total).candidates_reviewed == old(total).candidates_reviewed + pass.candidates_reviewed,
        final(total).candidates_accepted == old(total).candidates_accepted + pass.candidates_accepted,
        final(total).candidates_rejected == old(total).candidates_rejected + pass.candidates_rejected,
        final(total).posts_completed == old(total).posts_completed + pass.posts_completed,
        final(total).publish_failures == old(total).publish_failures + pass.publish_failures,
{
    total.windows_observed = total.windows_observed + pass.windows_observed;
    total.candidates_reviewed = total.candidates_reviewed + pass.candidates_reviewed;
    total.candidates_accepted = total.candidates_accepted + pass.candidates_accepted;
    total.candidates_rejected = total.candidates_rejected + pass.candidates_rejected;
    total.posts_completed = total.posts_completed + pass.posts_completed;
    total.publish_failures = total.publish_failures + pass.publish_failures;
}

/// Why a requested slice of a VOD cannot be analyzed.
#[derive(Debug, Clone, Copy, PartialEq, Eq, Structural)]
pub enum VodWindowError {
    /// The slice starts before the VOD.
    NegativeStart,
    /// The slice does not end after it starts.
    EndNotAfterStart,
    /// The slice is shorter than five seconds.
    TooShort,
    /// The slice ends after the VOD.
    BeyondVod,
}

/// The first rule a VOD slice breaks, if any: it starts at or after zero, ends after its
/// start, lasts at least five seconds and ends within the VOD.
pub open spec fn vod_window_problem(duration_ms: int, start_ms: int, end_ms: int) -> Option<VodWindowError> {
    if start_ms < 0 {
        Some(VodWindowError::NegativeStart)
    } else if end_ms <= start_ms {
        Some(VodWindowError::EndNotAfterStart)
    } else if end_ms - start_ms < 5_000 {
        Some(VodWindowError::TooShort)
    } else if end_ms > duration_ms {
        Some(VodWindowError::BeyondVod)
    } else {
        None
    }
}

/// Checks a requested slice of a VOD of `duration_ms`.
pub fn validate_vod_window(duration_ms: i64, start_ms: i64, end_ms: i64) -> (r: Result<(), VodWindowError>)
    ensures
        match vod_window_problem(duration_ms as int, start_ms as int, end_ms as int) {
            None => r is Ok,
            Some(e) => r == Err::<(), VodWindowError>(e),
        },
{
    if start_ms < 0 {
        Err(VodWindowError::NegativeStart)
    } else if end_ms <= start_ms {
        Err(VodWindowError::EndNotAfterStart)
    } else if end_ms - start_ms < 5_000 {
        Err(VodWindowError::TooShort)
    } else if end_ms > duration_ms {
        Err(VodWindowError::BeyondVod)
    } else {
        Ok(())
    }
}

/// The first eight bytes of an identifier, for display; the whole identifier when it is
/// shorter or the eighth byte falls inside a character.
pub fn short_id(id: &str) -> (out: String)
    ensures
        out@ == (match byte_prefix(id@, 8) {
            Some(p) => p,
            None => id@,
        }),
{
    let chars = chars_of(id);
    let mut bytes: usize = 0;
    let mut k: usize = 0;
    while k < chars.len() && bytes < 8
        invariant
            k <= chars@.len(),
            chars@ == id@,
            bytes == utf8_len(id@.subrange(0, k as int)),
            forall|q: int| 0 <= q < k ==> utf8_len(#[trigger] id@.subrange(0, q)) < 8,
            bytes < 8 || k == 0 || utf8_len(id@.subrange(0, k - 1)) < 8,
        decreases chars.len() - k,
    {
        assert(id@.subrange(0, k + 1).drop_last() =~= id@.subrange(0, k as int));
        let c = chars[k];
        let w: usize = if (c as u32) < 0x80 { 1 } else if (c as u32) < 0x800 { 2 } else if (c as u32) < 0x10000 { 3 } else { 4 };
        bytes = bytes + w;
        k = k + 1;
    }
    if bytes == 8 {
        let mut out: Vec<char> = Vec::new();
        let mut i: usize = 0;
        while i < k
            invariant
                i <= k <= chars@.len(),
                chars@ == id@,
                out@ == id@.subrange(0, i as int),
            decreases k - i,
        {
            out.push(chars[i]);
            i = i + 1;
        }
        proof {
            let c = choose|q: int| 0 <= q <= id@.len() && utf8_len(#[trigger] id@.subrange(0, q)) == 8;
            if c < k {
                lemma_utf8_len_prefix_strict(id@, c, k as int);
            } else if c > k {
                lemma_utf8_len_prefix_strict(id@, k as int, c);
            }
        }
        string_of(&out)
    } else {
        proof {
            assert forall|q: int| 0 <= q <= id@.len() implies utf8_len(#[trigger] id@.subrange(0, q)) != 8 by {
                if q < k {
                } else if q == k {
                } else {
                    lemma_utf8_len_prefix_strict(id@, k as int, q);
                }
            }
        }
        id.to_owned()
    }
}

/// How an artifact location is shown: remote HTTPS objects are not spelled out.
pub open spec fn spec_display_location(location: Seq<char>) -> Seq<char> {
    if crate::text::spec_starts_with(location, "https://"@) { "remote HTTPS object ready"@ } else { location }
}

/// An artifact location as shown to the operator.
pub fn display_location(location: &str) -> (out: String)
    ensures
        out@ == spec_display_location(location@),
{
    if str_starts_with(location, "https://") { "remote HTTPS object ready".to_owned() } else { location.to_owned() }
}

/// The first observation window of a scan ends one step after where the scan starts.
pub open spec fn first_cursor(duration_ms: int, scan_start_ms: int, step_ms: int) -> int {
    let start = if scan_start_ms >= 0 { scan_start_ms } else { 0 };
    if start + step_ms <= duration_ms { start + step_ms } else { duration_ms }
}

/// The number of windows a scan observes, as announced before it starts.
pub open spec fn spec_total_windows(duration_ms: int, cursor: int, step_ms: int) -> int {
    let n = (duration_ms - cursor + step_ms - 1) / step_ms + 1;
    if n >= 1 { n } else { 1 }
}

/// The window ends of a scan from `cursor`: every step, the last one clamped to the end.
pub open spec fn window_ends(cursor: int, duration_ms: int, step_ms: int) -> Seq<int>
    decreases duration_ms - cursor, 
{
    if step_ms <= 0 || cursor > duration_ms {
        Seq::empty()
    } else if cursor == duration_ms {
        seq![cursor]
    } else {
        seq![cursor] + window_ends(if cursor + step_ms <= duration_ms { cursor + step_ms } else { duration_ms }, duration_ms, step_ms)
    }
}

/// The windows a scan observes, as `(start, end)` pairs: each window ends at a cursor and
/// reaches back `window_ms` (the start of the first windows may lie before zero).
pub open spec fn spec_scan_windows(duration_ms: int, scan_start_ms: int, step_ms: int, window_ms: int) -> Seq<(int, int)> {
    let ends = window_ends(first_cursor(duration_ms, scan_start_ms, step_ms), duration_ms, step_ms);
    Seq::new(ends.len(), |i: int| (ends[i] - window_ms, ends[i]))
}

proof fn lemma_window_ends(cursor: int, duration_ms: int, step_ms: int)
    requires
        step_ms > 0,
        cursor <= duration_ms,
    ensures
        window_ends(cursor, duration_ms, step_ms).len() == (duration_ms - cursor + step_ms - 1) / step_ms + 1,
        window_ends(cursor, duration_ms, step_ms).last() == duration_ms,
        window_ends(cursor, duration_ms, step_ms)[0] == cursor,
        forall|i: int, j: int| 0 <= i < j < window_ends(cursor, duration_ms, step_ms).len() ==>
            (#[trigger] window_ends(cursor, duration_ms, step_ms)[i]) < (#[trigger] window_ends(cursor, duration_ms, step_ms)[j]),
        forall|i: int| 0 <= i < window_ends(cursor, duration_ms, step_ms).len() ==>
            cursor <= (#[trigger] window_ends(cursor, duration_ms, step_ms)[i]) <= duration_ms,
    decreases duration_ms - cursor,
{
    if cursor < duration_ms {
        let next = if cursor + step_ms <= duration_ms { cursor + step_ms } else { duration_ms };
        lemma_window_ends(next, duration_ms, step_ms);
        let rest = window_ends(next, duration_ms, step_ms);
        let all = window_ends(cursor, duration_ms, step_ms);
        assert(all == seq![cursor] + rest);
        if cursor + step_ms <= duration_ms {
            assert((duration_ms - cursor + step_ms - 1) / step_ms == (duration_ms - next + step_ms - 1) / step_ms + 1) by {
                vstd::arithmetic::div_mod::lemma_div_plus_one(duration_ms - next + step_ms - 1, step_ms);
            }
        } else {
            assert((duration_ms - cursor + step_ms - 1) / step_ms == 1) by (nonlinear_arith)
                requires 0 < duration_ms - cursor < step_ms;
            assert((duration_ms - next + step_ms - 1) / step_ms == 0) by (nonlinear_arith)
                requires next == duration_ms, step_ms > 0;
        }
        assert forall|i: int, j: int| 0 <= i < j < all.len() implies (#[trigger] all[i]) < (#[trigger] all[j]) by {
            if i > 0 {
                assert(all[i] == rest[i - 1] && all[j] == rest[j - 1]);
            } else {
                assert(all[j] == rest[j - 1]);
            }
        }
        assert forall|i: int| 0 <= i < all.len() implies cursor <= (#[trigger] all[i]) <= duration_ms by {
            if i > 0 {
                assert(all[i] == rest[i - 1]);
            }
        }
    } else {
        assert((step_ms - 1) / step_ms == 0) by (nonlinear_arith)
            requires step_ms > 0;
    }
}

/// Why a scan cannot start.
#[derive(Debug, Clone, Copy, PartialEq, Eq, Structural)]
pub enum ScanError {
    /// The input is shorter than the shortest clip.
    TooShort,
}

/// The windows a scan of `duration_ms` of media from `scan_start_ms` observes, with windows
/// of `window_seconds` every `step_seconds`.
pub fn scan_windows(duration_ms: i64, scan_start_ms: i64, step_seconds: u64, window_seconds: u64) -> (r: Result<Vec<(i64, i64)>, ScanError>)
    requires
        step_seconds > 0,
        step_seconds * 1000 <= i64::MAX,
        window_seconds * 1000 <= i64::MAX,
    ensures
        match r {
            Ok(w) => duration_ms >= 5_000 && w@.len() == spec_scan_windows(duration_ms as int, scan_start_ms as int, step_seconds * 1000, window_seconds * 1000).len()
                && forall|i: int| 0 <= i < w@.len() ==> (#[trigger] w@[i]).1 as int == spec_scan_windows(duration_ms as int, scan_start_ms as int, step_seconds * 1000, window_seconds * 1000)[i].1
                    && w@[i].0 as int == crate::domain::sat_add(spec_scan_windows(duration_ms as int, scan_start_ms as int, step_seconds * 1000, window_seconds * 1000)[i].1, -(window_seconds * 1000)),
            Err(e) => e == ScanError::TooShort && duration_ms < 5_000,
        },
{
    if duration_ms < 5_000 {
        return Err(ScanError::TooShort);
    }
    let step_ms: i64 = (step_seconds * 1000) as i64;
    let window_ms: i64 = (window_seconds * 1000) as i64;
    let start: i64 = if scan_start_ms >= 0 { scan_start_ms } else { 0 };
    let mut cursor: i64 = if (start as i128) + (step_ms as i128) <= duration_ms as i128 { start + step_ms } else { duration_ms };
    let ghost sw = spec_scan_windows(duration_ms as int, scan_start_ms as int, step_ms as int, window_ms as int);
    let ghost all = window_ends(cursor as int, duration_ms as int, step_ms as int);
    proof {
        lemma_window_ends(cursor as int, duration_ms as int, step_ms as int);
    }
    let mut out: Vec<(i64, i64)> = Vec::new();
    loop
        invariant_except_break
            out@.len() + window_ends(cursor as int, duration_ms as int, step_ms as int).len() == all.len(),
            window_ends(cursor as int, duration_ms as int, step_ms as int) == all.subrange(out@.len() as int, all.len() as int),
        invariant
            step_ms > 0,
            cursor <= duration_ms,
            sw.len() == all.len(),
            forall|i: int| 0 <= i < sw.len() ==> (#[trigger] sw[i]).1 == all[i],
            all == window_ends(first_cursor(duration_ms as int, scan_start_ms as int, step_ms as int), duration_ms as int, step_ms as int),
            forall|i: int| 0 <= i < out@.len() ==> (#[trigger] out@[i]).1 as int == all[i]
                && out@[i].0 as int == crate::domain::sat_add(all[i], -(window_ms as int)),
        ensures
            out@.len() == all.len(),
            forall|i: int| 0 <= i < out@.len() ==> (#[trigger] out@[i]).1 as int == all[i]
                && out@[i].0 as int == crate::domain::sat_add(all[i], -(window_ms as int)),
        decreases duration_ms - cursor,
    {
        let ghost rest = window_ends(cursor as int, duration_ms as int, step_ms as int);
        let ghost before_len = out@.len();
        proof {
            lemma_window_ends(cursor as int, duration_ms as int, step_ms as int);
            assert(rest[0] == all[out@.len() as int]);
        }
        let window_start = crate::domain::saturating_sub_i64(cursor, window_ms);
        out.push((window_start, cursor));
        if cursor == duration_ms {
            assert(rest.len() == 1);
            break;
        }
        let next: i64 = if (cursor as i128) + (step_ms as i128) <= duration_ms as i128 { cursor + step_ms } else { duration_ms };
        proof {
            assert(rest == seq![cursor as int] + window_ends(next as int, duration_ms as int, step_ms as int));
            assert(window_ends(next as int, duration_ms as int, step_ms as int) =~= rest.subrange(1, rest.len() as int));
            assert(rest.subrange(1, rest.len() as int) =~= all.subrange(before_len as int + 1, all.len() as int));
        }
        cursor = next;
    }
    Ok(out)
}

/// The number of windows a scan announces: exactly the windows it observes.
pub proof fn law_announced_windows_match_the_scan(duration_ms: int, scan_start_ms: int, step_ms: int, window_ms: int)
    requires
        step_ms > 0,
        duration_ms >= 5_000,
    ensures
        spec_scan_windows(duration_ms, scan_start_ms, step_ms, window_ms).len() == spec_total_windows(
            duration_ms,
            first_cursor(duration_ms, scan_start_ms, step_ms),
            step_ms,
        ),
        spec_scan_windows(duration_ms, scan_start_ms, step_ms, window_ms).last().1 == duration_ms,
{
    let c = first_cursor(duration_ms, scan_start_ms, step_ms);
    lemma_window_ends(c, duration_ms, step_ms);
    assert(0 <= (duration_ms - c + step_ms - 1) / step_ms) by (nonlinear_arith)
        requires duration_ms - c >= 0, step_ms > 0;
}

/// The number of windows announced before a scan.
pub fn total_windows(duration_ms: i64, cursor: i64, step_ms: i64) -> (n: i64)
    requires
        step_ms > 0,
        0 <= cursor <= duration_ms,
        duration_ms - cursor + step_ms <= i64::MAX,
    ensures
        n == spec_total_windows(duration_ms as int, cursor as int, step_ms as int),
{
    let d: i128 = duration_ms as i128 - cursor as i128 + step_ms as i128 - 1;
    proof {
        assert(0 <= d / (step_ms as i128) <= d) by (nonlinear_arith)
            requires d >= 0, step_ms > 0;
    }
    let n: i128 = d / (step_ms as i128) + 1;
    if n >= 1 { n as i64 } else { 1 }
}

/// The transcript segments that overlap `start_ms..end_ms`, joined with spaces.
pub open spec fn overlapping_text(t: Seq<TranscriptSegmentView>, start_ms: i64, end_ms: i64) -> Seq<char> {
    join(overlapping_texts(t, start_ms, end_ms), seq![' '])
}

/// The texts of the segments that overlap `start_ms..end_ms`, in order.
pub open spec fn overlapping_texts(t: Seq<TranscriptSegmentView>, start_ms: i64, end_ms: i64) -> Seq<Seq<char>>
    decreases t.len(),
{
    if t.len() == 0 {
        Seq::empty()
    } else if t.last().end_ms > start_ms && t.last().start_ms < end_ms {
        overlapping_texts(t.drop_last(), start_ms, end_ms).push(t.last().text)
    } else {
        overlapping_texts(t.drop_last(), start_ms, end_ms)
    }
}

/// The bounds the observer's verdict gives a candidate: clipped to the media, stretched to
/// five seconds when shorter, and kept only when five to sixty seconds long.
pub open spec fn observed_bounds(observer_start: i64, observer_end: i64, duration_ms: i64) -> Option<(int, int)> {
    let start: int = if observer_start >= 0 { observer_start as int } else { 0 };
    let end0: int = if observer_end <= duration_ms { observer_end as int } else { duration_ms as int };
    let end: int = if end0 - start < 5_000 {
        if start + 5_000 <= duration_ms { start + 5_000 } else { duration_ms as int }
    } else {
        end0
    };
    if publishable_duration(end - start) { Some((start, end)) } else { None }
}

/// The candidate an accepting observer describes, with the given id.
pub open spec fn observed_candidate(
    id: Seq<char>,
    session_id: Seq<char>,
    channel_id: Seq<char>,
    source_id: Seq<char>,
    t: Seq<TranscriptSegmentView>,
    confidence: i64,
    start: int,
    end: int,
) -> CandidateView {
    CandidateView {
        id,
        session_id,
        channel_id,
        source: "twitch"@,
        source_id,
        start_ms: start as i64,
        end_ms: end as i64,
        payoff_ms: Some(end as i64),
        transcript: overlapping_text(t, start as i64, end as i64),
        observer_confidence: confidence,
        state: ClipState::Emerging,
    }
}

/// The candidate an observer's verdict describes, under the given id, if its bounds make a
/// clip.
pub fn candidate_with_id(
    id: String,
    session_id: &str,
    channel_id: &str,
    source_id: &str,
    transcripts: &[TranscriptSegment],
    observer: &EditorialDecision,
    duration_ms: i64,
) -> (r: Option<Candidate>)
    ensures
        match observed_bounds(observer.start_ms, observer.end_ms, duration_ms) {
            None => r is None,
            Some((s, e)) => r matches Some(c) && c@ == observed_candidate(
                id@,
                session_id@,
                channel_id@,
                source_id@,
                segment_views(transcripts@),
                observer.confidence,
                s,
                e,
            ),
        },
{
    let start_ms: i64 = if observer.start_ms >= 0 { observer.start_ms } else { 0 };
    let mut end_ms: i64 = if observer.end_ms <= duration_ms { observer.end_ms } else { duration_ms };
    if (end_ms as i128) - (start_ms as i128) < 5_000 {
        end_ms = if (start_ms as i128) + 5_000 <= duration_ms as i128 { start_ms + 5_000 } else { duration_ms };
    }
    let length: i128 = end_ms as i128 - start_ms as i128;
    if !(5_000 <= length && length <= 60_000) {
        return None;
    }
    assert(observed_bounds(observer.start_ms, observer.end_ms, duration_ms) == Some((start_ms as int, end_ms as int)));
    let ghost all = segment_views(transcripts@);
    let mut texts: Vec<Vec<char>> = Vec::new();
    let mut i: usize = 0;
    while i < transcripts.len()
        invariant
            i <= transcripts@.len(),
            all == segment_views(transcripts@),
            crate::text::views(texts@) == overlapping_texts(all.subrange(0, i as int), start_ms, end_ms),
        decreases transcripts.len() - i,
    {
        assert(all.subrange(0, i + 1).drop_last() =~= all.subrange(0, i as int));
        assert(all[i as int] == transcripts@[i as int]@);
        let seg = &transcripts[i];
        if seg.end_ms > start_ms && seg.start_ms < end_ms {
            let ghost before = crate::text::views(texts@);
            let t = chars_of(seg.text.as_str());
            texts.push(t);
            assert(crate::text::views(texts@) =~= before.push(seg.text@));
        }
        i = i + 1;
    }
    assert(all.subrange(0, transcripts@.len() as int) =~= all);
    let mut sep: Vec<char> = Vec::new();
    sep.push(' ');
    let transcript = join_chars(&texts, sep.as_slice());
    Some(Candidate {
        id,
        session_id: session_id.to_owned(),
        channel_id: channel_id.to_owned(),
        source: "twitch".to_owned(),
        source_id: source_id.to_owned(),
        start_ms,
        end_ms,
        payoff_ms: Some(end_ms),
        transcript: string_of(&transcript),
        observer_confidence: observer.confidence,
        state: ClipState::Emerging,
    })
}

/// The candidate an observer's verdict describes, under a fresh random id.
pub fn candidate_from_observer(
    session_id: &str,
    channel_id: &str,
    source_id: &str,
    transcripts: &[TranscriptSegment],
    observer: &EditorialDecision,
    duration_ms: i64,
) -> (r: Option<Candidate>)
    ensures
        match observed_bounds(observer.start_ms, observer.end_ms, duration_ms) {
            None => r is None,
            Some((s, e)) => r matches Some(c) && hyphenated_uuid(c@.id) && c@ == observed_candidate(
                c@.id,
                session_id@,
                channel_id@,
                source_id@,
                segment_views(transcripts@),
                observer.confidence,
                s,
                e,
            ),
        },
{
    let id = new_uuid();
    candidate_with_id(id, session_id, channel_id, source_id, transcripts, observer, duration_ms)
}

/// The pseudonym of a chat author: the first 16 hex digits of the SHA-256 of the name.
pub fn hash_author(author: &str) -> (out: String)
    ensures
        out@ == hex(sha256_digest(author.spec_bytes())).subrange(0, 16),
{
    let digest = sha256(author.as_bytes());
    let h = hex_exec(digest.as_slice());
    proof {
        crate::models::lemma_hex_len(digest@);
    }
    let mut out: Vec<char> = Vec::new();
    let mut i: usize = 0;
    while i < 16
        invariant
            i <= 16,
            h@.len() == 64,
            out@ == h@.subrange(0, i as int),
        decreases 16 - i,
    {
        out.push(h[i]);
        i = i + 1;
    }
    string_of(&out)
}

/// The stable identifier of a media source: the hex SHA-256 of its canonical path.
pub fn source_id_of(canonical_path: &str) -> (out: String)
    ensures
        out@ == hex(sha256_digest(canonical_path.spec_bytes())),
{
    let digest = sha256(canonical_path.as_bytes());
    let h = hex_exec(digest.as_slice());
    string_of(&h)
}

/// What an observation window sees of the session: the transcript segments that overlap it,
/// the chat messages and frames inside it (ends included), and the overlapping segments' text
/// joined with spaces.
pub struct WindowSlices {
    pub transcripts: Vec<TranscriptSegment>,
    pub chat: Vec<crate::domain::ChatEvent>,
    pub visuals: Vec<crate::domain::VisualSample>,
    pub combined_text: String,
}

/// The part of the session's evidence that falls in the window `start_ms..=end_ms`.
pub fn window_slices(
    transcripts: &[TranscriptSegment],
    chat: &[crate::domain::ChatEvent],
    visuals: &[crate::domain::VisualSample],
    start_ms: i64,
    end_ms: i64,
) -> (w: WindowSlices)
    ensures
        segment_views(w.transcripts@) == segment_views(transcripts@).filter(|s: TranscriptSegmentView| s.end_ms > start_ms && s.start_ms < end_ms),
        crate::domain::chat_views(w.chat@) == crate::domain::chat_views(chat@).filter(|e: crate::domain::ChatEventView| start_ms <= e.at_ms <= end_ms),
        crate::domain::visual_views(w.visuals@) == crate::domain::visual_views(visuals@).filter(|v: crate::domain::VisualSampleView| start_ms <= v.at_ms <= end_ms),
        w.combined_text@ == overlapping_text(segment_views(transcripts@), start_ms, end_ms),
{
    let ghost ts = segment_views(transcripts@);
    let mut kept: Vec<TranscriptSegment> = Vec::new();
    let mut texts: Vec<Vec<char>> = Vec::new();
    let mut i: usize = 0;
    while i < transcripts.len()
        invariant
            i <= transcripts@.len(),
            ts == segment_views(transcripts@),
            segment_views(kept@) == ts.subrange(0, i as int).filter(|s: TranscriptSegmentView| s.end_ms > start_ms && s.start_ms < end_ms),
            crate::text::views(texts@) == overlapping_texts(ts.subrange(0, i as int), start_ms, end_ms),
        decreases transcripts.len() - i,
    {
        let ghost sub = ts.subrange(0, i + 1);
        assert(sub.drop_last() =~= ts.subrange(0, i as int));
        assert(ts[i as int] == transcripts@[i as int]@);
        reveal(Seq::filter);
        let seg = &transcripts[i];
        if seg.end_ms > start_ms && seg.start_ms < end_ms {
            let ghost before = segment_views(kept@);
            let ghost tb = crate::text::views(texts@);
            let c = seg.duplicate();
            kept.push(c);
            assert(segment_views(kept@) =~= before.push(seg@));
            let t = chars_of(seg.text.as_str());
            texts.push(t);
            assert(crate::text::views(texts@) =~= tb.push(seg.text@));
        }
        i = i + 1;
    }
    assert(ts.subrange(0, transcripts@.len() as int) =~= ts);
    let ghost cs = crate::domain::chat_views(chat@);
    let mut chat_kept: Vec<crate::domain::ChatEvent> = Vec::new();
    let mut j: usize = 0;
    while j < chat.len()
        invariant
            j <= chat@.len(),
            cs == crate::domain::chat_views(chat@),
            crate::domain::chat_views(chat_kept@) == cs.subrange(0, j as int).filter(|e: crate::domain::ChatEventView| start_ms <= e.at_ms <= end_ms),
        decreases chat.len() - j,
    {
        assert(cs.subrange(0, j + 1).drop_last() =~= cs.subrange(0, j as int));
        assert(cs[j as int] == chat@[j as int]@);
        reveal(Seq::filter);
        if start_ms <= chat[j].at_ms && chat[j].at_ms <= end_ms {
            let ghost before = crate::domain::chat_views(chat_kept@);
            let c = chat[j].duplicate();
            chat_kept.push(c);
            assert(crate::domain::chat_views(chat_kept@) =~= before.push(c@));
        }
        j = j + 1;
    }
    assert(cs.subrange(0, chat@.len() as int) =~= cs);
    let ghost vs = crate::domain::visual_views(visuals@);
    let mut visuals_kept: Vec<crate::domain::VisualSample> = Vec::new();
    let mut k: usize = 0;
    while k < visuals.len()
        invariant
            k <= visuals@.len(),
            vs == crate::domain::visual_views(visuals@),
            crate::domain::visual_views(visuals_kept@) == vs.subrange(0, k as int).filter(|v: crate::domain::VisualSampleView| start_ms <= v.at_ms <= end_ms),
        decreases visuals.len() - k,
    {
        assert(vs.subrange(0, k + 1).drop_last() =~= vs.subrange(0, k as int));
        assert(vs[k as int] == visuals@[k as int]@);
        reveal(Seq::filter);
        if start_ms <= visuals[k].at_ms && visuals[k].at_ms <= end_ms {
            let ghost before = crate::domain::visual_views(visuals_kept@);
            let c = visuals[k].duplicate();
            visuals_kept.push(c);
            assert(crate::domain::visual_views(visuals_kept@) =~= before.push(c@));
        }
        k = k + 1;
    }
    assert(vs.subrange(0, visuals@.len() as int) =~= vs);
    let mut sep: Vec<char> = Vec::new();
    sep.push(' ');
    let combined = join_chars(&texts, sep.as_slice());
    WindowSlices { transcripts: kept, chat: chat_kept, visuals: visuals_kept, combined_text: string_of(&combined) }
}

} // verus!

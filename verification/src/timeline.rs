//! Session timelines: the stream clock, the media ring, transcript deduplication and the
//! tracker that holds candidates until their delayed reaction has had time to arrive.
use vstd::prelude::*;
use crate::domain::{
    candidate_views, merge_candidates, sat_add, segment_views, spec_merge_candidates, Candidate,
    CandidateView, ClipState, TimestampMs, TranscriptSegment, TranscriptSegmentView,
};
use crate::text::{
    chars_eq, chars_of, collapse_whitespace, collapse_whitespace_exec, is_alphanumeric,
    is_whitespace, lowercase, spec_is_alphanumeric, spec_is_whitespace, spec_lowercase, string_of,
    extend_chars,
};

verus! {

// ---------------------------------------------------------------------------------------------
// Stream clock.
// ---------------------------------------------------------------------------------------------
/// A point where the stream's timeline restarted.
#[derive(Debug)]
pub struct TimelineDiscontinuity {
    pub epoch: u32,
    pub at_ms: TimestampMs,
    pub reason: String,
}

/// The content of a [`TimelineDiscontinuity`].
pub struct DiscontinuityView {
    pub epoch: u32,
    pub at_ms: i64,
    pub reason: Seq<char>,
}

impl View for TimelineDiscontinuity {
    type V = DiscontinuityView;

    open spec fn view(&self) -> DiscontinuityView {
        DiscontinuityView { epoch: self.epoch, at_ms: self.at_ms, reason: self.reason@ }
    }
}

/// Why the clock refused an observation.
#[derive(Debug, Clone, Copy, PartialEq, Eq, Structural)]
pub enum TimelineError {
    /// The observed time lies before the last observed time of the current epoch.
    MovedBackwards,
}

/// A session clock whose time never moves backwards within an epoch; a discontinuity starts
/// a new epoch.
#[derive(Debug)]
pub struct StreamClock {
    session_id: String,
    epoch: u32,
    last_ms: TimestampMs,
    discontinuities: Vec<TimelineDiscontinuity>,
}

/// The content of a [`StreamClock`].
pub struct StreamClockView {
    pub session_id: Seq<char>,
    pub epoch: u32,
    pub last_ms: i64,
    pub discontinuities: Seq<DiscontinuityView>,
}

impl View for StreamClock {
    type V = StreamClockView;

    closed spec fn view(&self) -> StreamClockView {
        StreamClockView {
            session_id: self.session_id@,
            epoch: self.epoch,
            last_ms: self.last_ms,
            discontinuities: Seq::new(
                self.discontinuities@.len(),
                |i: int| self.discontinuities@[i]@,
            ),
        }
    }
}

impl StreamClock {
    /// A clock at time zero of epoch zero.
    pub fn new(session_id: String) -> (clock: StreamClock)
        ensures
            clock@ == new_clock(session_id@),
            clock@ == (StreamClockView {
                session_id: session_id@,
                epoch: 0,
                last_ms: 0,
                discontinuities: Seq::empty(),
            }),
    {
        let clock = StreamClock {
            session_id,
            epoch: 0,
            last_ms: 0,
            discontinuities: Vec::new(),
        };
        assert(clock@.discontinuities =~= Seq::empty());
        clock
    }

    /// Advances the clock to `at_ms`, refusing a time before the current one.
    pub fn observe(&mut self, at_ms: TimestampMs) -> (r: Result<(), TimelineError>)
        ensures
            at_ms >= old(self)@.last_ms ==> r is Ok && final(self)@ == (StreamClockView {
                last_ms: at_ms,
                ..old(self)@
            }),
            at_ms < old(self)@.last_ms ==> r == Err::<(), TimelineError>(TimelineError::MovedBackwards)
                && final(self)@ == old(self)@,
            final(self)@ == clock_after_observe(old(self)@, at_ms),
    {
        if at_ms < self.last_ms {
            return Err(TimelineError::MovedBackwards);
        }
        self.last_ms = at_ms;
        Ok(())
    }

    /// Starts a new epoch at `at_ms` (the epoch counter saturates), recording why.
    pub fn discontinuity(&mut self, at_ms: TimestampMs, reason: String)
        ensures
            final(self)@.session_id == old(self)@.session_id,
            final(self)@.epoch == (if old(self)@.epoch == u32::MAX { u32::MAX } else { (old(self)@.epoch + 1) as u32 }),
            final(self)@.last_ms == at_ms,
            final(self)@.discontinuities == old(self)@.discontinuities.push(DiscontinuityView {
                epoch: final(self)@.epoch,
                at_ms,
                reason: reason@,
            }),
            final(self)@ == clock_after_discontinuity(old(self)@, at_ms, reason@),
    {
        self.epoch = if self.epoch == u32::MAX { u32::MAX } else { self.epoch + 1 };
        self.last_ms = at_ms;
        let ghost before = self.discontinuities@;
        self.discontinuities.push(TimelineDiscontinuity { epoch: self.epoch, at_ms, reason });
        assert(self@.discontinuities =~= old(self)@.discontinuities.push(DiscontinuityView {
            epoch: self.epoch,
            at_ms,
            reason: reason@,
        }));
    }

    /// The session the clock belongs to.
    pub fn session_id(&self) -> (s: &str)
        ensures
            s@ == self@.session_id,
    {
        self.session_id.as_str()
    }

    /// The current epoch.
    pub fn epoch(&self) -> (e: u32)
        ensures
            e == self@.epoch,
    {
        self.epoch
    }

    /// The last observed time.
    pub fn now_ms(&self) -> (t: TimestampMs)
        ensures
            t == self@.last_ms,
    {
        self.last_ms
    }

    /// The discontinuities recorded so far, oldest first.
    pub fn discontinuities(&self) -> (d: &[TimelineDiscontinuity])
        ensures
            Seq::new(d@.len(), |i: int| d@[i]@) == self@.discontinuities,
    {
        let d = self.discontinuities.as_slice();
        assert(Seq::new(d@.len(), |i: int| d@[i]@) =~= self@.discontinuities);
        d
    }
}

/// A call that changes a stream clock.
pub enum ClockCall {
    /// `observe(at_ms)`.
    Observe(i64),
    /// `discontinuity(at_ms, reason)`.
    Discontinuity(i64, Seq<char>),
}

/// The clock `StreamClock::new(session_id)` makes.
pub open spec fn new_clock(session_id: Seq<char>) -> StreamClockView {
    StreamClockView { session_id, epoch: 0, last_ms: 0, discontinuities: Seq::empty() }
}

/// The clock after `observe(at_ms)`: advanced when the time does not move backwards.
pub open spec fn clock_after_observe(c: StreamClockView, at_ms: i64) -> StreamClockView {
    if at_ms >= c.last_ms { StreamClockView { last_ms: at_ms, ..c } } else { c }
}

/// The clock after `discontinuity(at_ms, reason)`: a new (saturating) epoch starting at `at_ms`.
pub open spec fn clock_after_discontinuity(c: StreamClockView, at_ms: i64, reason: Seq<char>) -> StreamClockView {
    let epoch = if c.epoch == u32::MAX { u32::MAX } else { (c.epoch + 1) as u32 };
    StreamClockView {
        epoch,
        last_ms: at_ms,
        discontinuities: c.discontinuities.push(DiscontinuityView { epoch, at_ms, reason }),
        ..c
    }
}

/// The clock after the calls, in order.
pub open spec fn clock_after(c: StreamClockView, calls: Seq<ClockCall>) -> StreamClockView
    decreases calls.len(),
{
    if calls.len() == 0 {
        c
    } else {
        let before = clock_after(c, calls.drop_last());
        match calls.last() {
            ClockCall::Observe(at_ms) => clock_after_observe(before, at_ms),
            ClockCall::Discontinuity(at_ms, reason) => clock_after_discontinuity(before, at_ms, reason),
        }
    }
}

/// How many of the calls are discontinuities.
pub open spec fn discontinuity_calls(calls: Seq<ClockCall>) -> nat
    decreases calls.len(),
{
    if calls.len() == 0 {
        0
    } else {
        discontinuity_calls(calls.drop_last()) + if calls.last() is Discontinuity { 1nat } else { 0nat }
    }
}

/// However a clock is driven, it keeps one record per discontinuity, numbered from one by
/// epoch, its epoch counts them, its time is never before the latest one, and its session
/// stays the same (while the epoch counter has not saturated).
pub proof fn law_clock_numbers_its_discontinuities(session_id: Seq<char>, calls: Seq<ClockCall>)
    requires
        discontinuity_calls(calls) < u32::MAX,
    ensures
        ({
            let c = clock_after(new_clock(session_id), calls);
            &&& c.session_id == session_id
            &&& c.discontinuities.len() == c.epoch
            &&& c.epoch == discontinuity_calls(calls)
            &&& forall|i: int| 0 <= i < c.discontinuities.len() ==> (#[trigger] c.discontinuities[i]).epoch == i + 1
            &&& c.discontinuities.len() > 0 ==> c.last_ms >= c.discontinuities.last().at_ms
        }),
    decreases calls.len(),
{
    if calls.len() > 0 {
        let init = calls.drop_last();
        assert(discontinuity_calls(init) <= discontinuity_calls(calls));
        law_clock_numbers_its_discontinuities(session_id, init);
        let before = clock_after(new_clock(session_id), init);
        let c = clock_after(new_clock(session_id), calls);
        match calls.last() {
            ClockCall::Observe(at_ms) => {}
            ClockCall::Discontinuity(at_ms, reason) => {
                assert forall|i: int| 0 <= i < c.discontinuities.len() implies (#[trigger] c.discontinuities[i]).epoch
                    == i + 1 by {
                    if i < before.discontinuities.len() {
                        assert(c.discontinuities[i] == before.discontinuities[i]);
                    }
                }
            }
        }
    }
}

/// After a discontinuity at `at_ms`, any time from `at_ms` on is accepted again, even one
/// earlier than what the clock had seen before.
pub proof fn law_discontinuity_reopens_the_clock(before: StreamClockView, after: StreamClockView, at_ms: i64, t: i64)
    requires
        after.last_ms == at_ms,
        at_ms <= t,
    ensures
        !(t < after.last_ms),
{
}

// ---------------------------------------------------------------------------------------------
// Media ring.
// ---------------------------------------------------------------------------------------------
/// A captured media file covering part of an epoch.
#[derive(Debug)]
pub struct MediaSegment {
    pub epoch: u32,
    pub start_ms: TimestampMs,
    pub end_ms: TimestampMs,
    pub path: String,
}

/// The content of a [`MediaSegment`].
pub struct MediaSegmentView {
    pub epoch: u32,
    pub start_ms: i64,
    pub end_ms: i64,
    pub path: Seq<char>,
}

impl View for MediaSegment {
    type V = MediaSegmentView;

    open spec fn view(&self) -> MediaSegmentView {
        MediaSegmentView {
            epoch: self.epoch,
            start_ms: self.start_ms,
            end_ms: self.end_ms,
            path: self.path@,
        }
    }
}

impl MediaSegment {
    /// A field-by-field copy.
    pub fn duplicate(&self) -> (out: MediaSegment)
        ensures
            out@ == self@,
    {
        MediaSegment {
            epoch: self.epoch,
            start_ms: self.start_ms,
            end_ms: self.end_ms,
            path: self.path.clone(),
        }
    }
}

/// The views of a sequence of media segments.
pub open spec fn media_views(v: Seq<MediaSegment>) -> Seq<MediaSegmentView> {
    Seq::new(v.len(), |i: int| v[i]@)
}

/// Media segments kept for a retention period, oldest first.
#[derive(Debug)]
pub struct MediaRing {
    retention_ms: i64,
    segments: Vec<MediaSegment>,
}

/// The content of a [`MediaRing`].
pub struct MediaRingView {
    pub retention_ms: i64,
    pub segments: Seq<MediaSegmentView>,
}

impl View for MediaRing {
    type V = MediaRingView;

    closed spec fn view(&self) -> MediaRingView {
        MediaRingView { retention_ms: self.retention_ms, segments: media_views(self.segments@) }
    }
}

/// `n` converted to `i64` as `n as i64` converts it (wrapping above `i64::MAX`).
pub open spec fn u64_as_i64(n: u64) -> int {
    if n <= i64::MAX { n as int } else { n - 0x1_0000_0000_0000_0000int }
}

/// `a * b` saturated to the `i64` range, as `i64::saturating_mul` computes it.
pub open spec fn sat_mul(a: int, b: int) -> int {
    if a * b > i64::MAX { i64::MAX as int } else if a * b < i64::MIN { i64::MIN as int } else { a * b }
}

/// `(n as i64).saturating_mul(factor)`.
pub fn wrapped_saturating_mul(n: u64, factor: i64) -> (r: i64)
    requires
        0 < factor <= 1_000_000,
    ensures
        r == sat_mul(u64_as_i64(n), factor as int),
{
    let x: i128 = if n <= i64::MAX as u64 { n as i128 } else { n as i128 - 0x1_0000_0000_0000_0000i128 };
    assert(-0x8000_0000_0000_0000int <= x <= 0x7fff_ffff_ffff_ffffint);
    assert(x * factor <= 0x7fff_ffff_ffff_ffffint * 1_000_000) by (nonlinear_arith)
        requires x <= 0x7fff_ffff_ffff_ffffint, 0 < factor <= 1_000_000;
    assert(x * factor >= -0x8000_0000_0000_0000int * 1_000_000) by (nonlinear_arith)
        requires x >= -0x8000_0000_0000_0000int, 0 < factor <= 1_000_000;
    let p: i128 = x * factor as i128;
    if p > i64::MAX as i128 {
        i64::MAX
    } else if p < i64::MIN as i128 {
        i64::MIN
    } else {
        p as i64
    }
}

/// How many leading segments end before `cutoff`.
pub open spec fn expired_count(s: Seq<MediaSegmentView>, cutoff: int) -> nat
    decreases s.len(),
{
    if s.len() == 0 || s[0].end_ms >= cutoff {
        0
    } else {
        1 + expired_count(s.drop_first(), cutoff)
    }
}

proof fn lemma_expired_count(s: Seq<MediaSegmentView>, cutoff: int)
    ensures
        expired_count(s, cutoff) <= s.len(),
        forall|i: int| 0 <= i < expired_count(s, cutoff) ==> s[i].end_ms < cutoff,
        expired_count(s, cutoff) < s.len() ==> s[expired_count(s, cutoff) as int].end_ms >= cutoff,
    decreases s.len(),
{
    if s.len() > 0 && s[0].end_ms < cutoff {
        lemma_expired_count(s.drop_first(), cutoff);
        assert forall|i: int| 0 <= i < expired_count(s, cutoff) implies s[i].end_ms < cutoff by {
            if i > 0 {
                assert(s[i] == s.drop_first()[i - 1]);
            }
        }
    }
}

/// Whether a segment of `epoch` overlaps `start_ms..end_ms`.
pub open spec fn in_range(s: MediaSegmentView, epoch: u32, start_ms: i64, end_ms: i64) -> bool {
    s.epoch == epoch && s.end_ms > start_ms && s.start_ms < end_ms
}

/// The segments of `epoch` that overlap `start_ms..end_ms`, in order.
pub open spec fn segments_in_range(s: Seq<MediaSegmentView>, epoch: u32, start_ms: i64, end_ms: i64) -> Seq<MediaSegmentView>
    decreases s.len(),
{
    if s.len() == 0 {
        Seq::empty()
    } else {
        let init = segments_in_range(s.drop_last(), epoch, start_ms, end_ms);
        if in_range(s.last(), epoch, start_ms, end_ms) { init.push(s.last()) } else { init }
    }
}

impl MediaRing {
    /// An empty ring keeping `retention_minutes` of media (computed as
    /// `(retention_minutes as i64).saturating_mul(60_000)`).
    pub fn new(retention_minutes: u64) -> (ring: MediaRing)
        ensures
            ring@.retention_ms == sat_mul(u64_as_i64(retention_minutes), 60_000),
            ring@.segments == Seq::<MediaSegmentView>::empty(),
    {
        let ring = MediaRing {
            retention_ms: wrapped_saturating_mul(retention_minutes, 60_000),
            segments: Vec::new(),
        };
        assert(ring@.segments =~= Seq::<MediaSegmentView>::empty());
        ring
    }

    /// Adds a segment and removes, oldest first, the leading segments that ended before the new
    /// segment's end minus the retention; returns the removed segments' paths so the caller can
    /// delete the files when it is safe.
    pub fn push(&mut self, segment: MediaSegment) -> (expired: Vec<String>)
        ensures
            ({
                let all = old(self)@.segments.push(segment@);
                let cutoff = sat_add(segment.end_ms as int, -(old(self)@.retention_ms as int));
                let k = expired_count(all, cutoff) as int;
                &&& final(self)@.retention_ms == old(self)@.retention_ms
                &&& final(self)@.segments == all.subrange(k, all.len() as int)
                &&& Seq::new(expired@.len(), |i: int| expired@[i]@) == Seq::new(k as nat, |i: int| all[i].path)
            }),
    {
        let cutoff = crate::domain::saturating_sub_i64(segment.end_ms, self.retention_ms);
        let ghost sv = segment@;
        self.segments.push(segment);
        let ghost all = media_views(self.segments@);
        proof {
            lemma_expired_count(all, cutoff as int);
            assert(all =~= old(self)@.segments.push(sv));
        }
        let mut k: usize = 0;
        while k < self.segments.len() && self.segments[k].end_ms < cutoff
            invariant
                k <= self.segments@.len(),
                all == media_views(self.segments@),
                forall|i: int| 0 <= i < k ==> all[i].end_ms < cutoff,
                k <= expired_count(all, cutoff as int),
            decreases self.segments.len() - k,
        {
            proof {
                lemma_expired_count(all, cutoff as int);
                if k == expired_count(all, cutoff as int) {
                    assert(all[k as int].end_ms >= cutoff);
                }
            }
            k = k + 1;
        }
        proof {
            if k < expired_count(all, cutoff as int) {
                assert(all[k as int].end_ms < cutoff);
            }
        }
        let mut expired: Vec<String> = Vec::new();
        let mut kept: Vec<MediaSegment> = Vec::new();
        let mut i: usize = 0;
        let n = self.segments.len();
        while i < n
            invariant
                n == self.segments@.len(),
                all == media_views(self.segments@),
                k <= n,
                i <= n,
                i <= k ==> Seq::new(expired@.len(), |j: int| expired@[j]@) == Seq::new(i as nat, |j: int| all[j].path),
                i <= k ==> kept@.len() == 0,
                i > k ==> Seq::new(expired@.len(), |j: int| expired@[j]@) == Seq::new(k as nat, |j: int| all[j].path),
                i > k ==> media_views(kept@) == all.subrange(k as int, i as int),
            decreases n - i,
        {
            let seg = self.segments[i].duplicate();
            if i < k {
                let ghost p = seg.path@;
                assert(all[i as int].path == p);
                let ghost old_expired = expired@;
                assert forall|j: int| 0 <= j < i implies old_expired[j]@ == all[j].path by {
                    assert(Seq::new(old_expired.len(), |q: int| old_expired[q]@)[j] == Seq::new(i as nat, |q: int| all[q].path)[j]);
                }
                expired.push(seg.path);
                assert(Seq::new(expired@.len(), |j: int| expired@[j]@) =~= Seq::new((i + 1) as nat, |j: int| all[j].path));
            } else {
                let ghost sv = seg@;
                kept.push(seg);
                assert(media_views(kept@) =~= all.subrange(k as int, i + 1));
            }
            i = i + 1;
        }
        proof {
            if n == k {
                assert(media_views(kept@) =~= all.subrange(k as int, n as int));
            }
        }
        self.segments = kept;
        expired
    }

    /// The segments of `epoch` overlapping `start_ms..end_ms`, in ring order.
    pub fn range(&self, epoch: u32, start_ms: i64, end_ms: i64) -> (found: Vec<MediaSegment>)
        ensures
            media_views(found@) == segments_in_range(self@.segments, epoch, start_ms, end_ms),
    {
        let mut found: Vec<MediaSegment> = Vec::new();
        let mut i: usize = 0;
        while i < self.segments.len()
            invariant
                i <= self.segments@.len(),
                media_views(found@) == segments_in_range(media_views(self.segments@).subrange(0, i as int), epoch, start_ms, end_ms),
            decreases self.segments.len() - i,
        {
            let ghost all = media_views(self.segments@);
            assert(all.subrange(0, i + 1).drop_last() =~= all.subrange(0, i as int));
            let segment = &self.segments[i];
            if segment.epoch == epoch && segment.end_ms > start_ms && segment.start_ms < end_ms {
                let copy = segment.duplicate();
                found.push(copy);
                assert(media_views(found@) =~= segments_in_range(all.subrange(0, i + 1), epoch, start_ms, end_ms));
            }
            i = i + 1;
        }
        assert(media_views(self.segments@).subrange(0, self.segments@.len() as int) =~= media_views(self.segments@));
        found
    }
}

/// Pushing never loses a segment: the expired paths followed by the kept segments are exactly
/// the old segments plus the new one, and every kept segment is still within retention of the
/// first kept one's cutoff.
pub proof fn law_media_ring_push_partitions(all: Seq<MediaSegmentView>, cutoff: int)
    ensures
        ({
            let k = expired_count(all, cutoff) as int;
            &&& 0 <= k <= all.len()
            &&& all.subrange(0, k) + all.subrange(k, all.len() as int) == all
            &&& forall|i: int| 0 <= i < k ==> all[i].end_ms < cutoff
            &&& k < all.len() ==> all[k].end_ms >= cutoff
        }),
{
    lemma_expired_count(all, cutoff);
    let k = expired_count(all, cutoff) as int;
    assert(all.subrange(0, k) + all.subrange(k, all.len() as int) =~= all);
}


// ---------------------------------------------------------------------------------------------
// Transcript deduplication.
// ---------------------------------------------------------------------------------------------
/// The alphanumeric and whitespace characters of `s`, in order.
pub open spec fn keep_alnum_ws(s: Seq<char>) -> Seq<char>
    decreases s.len(),
{
    if s.len() == 0 {
        Seq::empty()
    } else {
        let init = keep_alnum_ws(s.drop_last());
        if spec_is_alphanumeric(s.last()) || spec_is_whitespace(s.last()) {
            init.push(s.last())
        } else {
            init
        }
    }
}

/// `s` with every character lowercased (a character may lowercase to several).
pub open spec fn lower_all(s: Seq<char>) -> Seq<char>
    decreases s.len(),
{
    if s.len() == 0 {
        Seq::empty()
    } else {
        lower_all(s.drop_last()) + spec_lowercase(s.last())
    }
}

/// The comparison form of a transcript text: punctuation removed, lowercased, whitespace
/// collapsed.
pub open spec fn normalized_text(s: Seq<char>) -> Seq<char> {
    collapse_whitespace(lower_all(keep_alnum_ws(s)))
}

/// The comparison form of a transcript text: punctuation removed, lowercased, whitespace
/// collapsed.
pub fn normalized(value: &[char]) -> (out: Vec<char>)
    ensures
        out@ == normalized_text(value@),
{
    let mut kept: Vec<char> = Vec::new();
    let mut i: usize = 0;
    while i < value.len()
        invariant
            i <= value@.len(),
            kept@ == keep_alnum_ws(value@.subrange(0, i as int)),
        decreases value.len() - i,
    {
        let c = value[i];
        assert(value@.subrange(0, i + 1).drop_last() =~= value@.subrange(0, i as int));
        if is_alphanumeric(c) || is_whitespace(c) {
            kept.push(c);
        }
        i = i + 1;
    }
    assert(value@.subrange(0, value@.len() as int) =~= value@);
    let mut lowered: Vec<char> = Vec::new();
    let mut j: usize = 0;
    while j < kept.len()
        invariant
            j <= kept@.len(),
            lowered@ == lower_all(kept@.subrange(0, j as int)),
        decreases kept.len() - j,
    {
        assert(kept@.subrange(0, j + 1).drop_last() =~= kept@.subrange(0, j as int));
        let l = lowercase(kept[j]);
        extend_chars(&mut lowered, &l);
        j = j + 1;
    }
    assert(kept@.subrange(0, kept@.len() as int) =~= kept@);
    collapse_whitespace_exec(&lowered)
}

/// `c` placed into `s` after every segment that starts no later than it: one step of a
/// stable sort by start time.
pub open spec fn insert_segment_by_start(s: Seq<TranscriptSegmentView>, c: TranscriptSegmentView) -> Seq<TranscriptSegmentView>
    decreases s.len(),
{
    if s.len() == 0 {
        seq![c]
    } else if s.last().start_ms <= c.start_ms {
        s.push(c)
    } else {
        insert_segment_by_start(s.drop_last(), c).push(s.last())
    }
}

/// Whether the segments' starts never decrease.
pub open spec fn segments_sorted(s: Seq<TranscriptSegmentView>) -> bool {
    forall|i: int, j: int| 0 <= i <= j < s.len() ==> s[i].start_ms <= s[j].start_ms
}

/// Whether `incoming` repeats a kept segment: overlapping time and the same comparison text.
pub open spec fn repeats(kept: Seq<TranscriptSegmentView>, incoming: TranscriptSegmentView) -> bool {
    exists|i: int|
        0 <= i < kept.len() && incoming.start_ms < kept[i].end_ms && incoming.end_ms > kept[i].start_ms
            && normalized_text(incoming.text) == normalized_text(#[trigger] kept[i].text)
}

proof fn lemma_insert_segment_at(s: Seq<TranscriptSegmentView>, c: TranscriptSegmentView, j: int)
    requires
        0 <= j <= s.len(),
        forall|k: int| j <= k < s.len() ==> s[k].start_ms > c.start_ms,
        j == 0 || s[j - 1].start_ms <= c.start_ms,
    ensures
        insert_segment_by_start(s, c) == s.insert(j, c),
    decreases s.len(),
{
    if s.len() == 0 {
        assert(s.insert(j, c) =~= seq![c]);
    } else if s.last().start_ms <= c.start_ms {
        assert(s.insert(j, c) =~= s.push(c));
    } else {
        lemma_insert_segment_at(s.drop_last(), c, j);
        assert(s.insert(j, c) =~= s.drop_last().insert(j, c).push(s.last()));
    }
}

/// A segment with its whitespace collapsed.
pub open spec fn cleaned_segment(s: TranscriptSegmentView) -> TranscriptSegmentView {
    TranscriptSegmentView { text: collapse_whitespace(s.text), ..s }
}

/// Whether the deduper keeps `incoming`: after collapsing whitespace it is non-empty, lasts a
/// positive time and repeats no kept segment.
pub open spec fn keeps_segment(kept: Seq<TranscriptSegmentView>, incoming: TranscriptSegmentView) -> bool {
    let cleaned = cleaned_segment(incoming);
    cleaned.text.len() > 0 && cleaned.end_ms > cleaned.start_ms && !repeats(kept, cleaned)
}

proof fn lemma_insert_segment_contains(s: Seq<TranscriptSegmentView>, c: TranscriptSegmentView)
    ensures
        insert_segment_by_start(s, c).contains(c),
    decreases s.len(),
{
    if s.len() == 0 {
        assert(seq![c][0] == c);
    } else if s.last().start_ms <= c.start_ms {
        assert(s.push(c)[s.len() as int] == c);
    } else {
        lemma_insert_segment_contains(s.drop_last(), c);
        let t = insert_segment_by_start(s.drop_last(), c);
        let k = choose|k: int| 0 <= k < t.len() && t[k] == c;
        assert(t.push(s.last())[k] == c);
    }
}

/// A transcript segment is kept at most once: once the deduper has kept a segment, the same
/// segment arriving again (as overlapping transcription windows deliver it) is refused.
pub proof fn law_a_kept_segment_is_not_kept_twice(kept: Seq<TranscriptSegmentView>, incoming: TranscriptSegmentView)
    requires
        keeps_segment(kept, incoming),
    ensures
        !keeps_segment(insert_segment_by_start(kept, cleaned_segment(incoming)), incoming),
{
    let c = cleaned_segment(incoming);
    let after = insert_segment_by_start(kept, c);
    lemma_insert_segment_contains(kept, c);
    let k = choose|k: int| 0 <= k < after.len() && after[k] == c;
    assert(c.start_ms < after[k].end_ms && c.end_ms > after[k].start_ms
        && normalized_text(c.text) == normalized_text(after[k].text));
    assert(repeats(after, c));
}

/// Finalized transcript segments without repeats, ordered by start.
#[derive(Debug)]
pub struct TranscriptDeduper {
    finalized: Vec<TranscriptSegment>,
}

impl View for TranscriptDeduper {
    type V = Seq<TranscriptSegmentView>;

    closed spec fn view(&self) -> Seq<TranscriptSegmentView> {
        segment_views(self.finalized@)
    }
}

impl TranscriptDeduper {
    #[verifier::type_invariant]
    spec fn sorted(&self) -> bool {
        segments_sorted(segment_views(self.finalized@))
    }

    /// A deduper holding nothing.
    pub fn new() -> (d: TranscriptDeduper)
        ensures
            d@ == Seq::<TranscriptSegmentView>::empty(),
    {
        let d = TranscriptDeduper { finalized: Vec::new() };
        assert(d@ =~= Seq::<TranscriptSegmentView>::empty());
        d
    }

    /// Keeps `incoming` (its whitespace collapsed) unless it is empty, has no positive duration,
    /// or repeats a kept segment; answers whether it was kept. Kept segments stay ordered by
    /// start, a new one after those starting no later than it.
    pub fn insert(&mut self, incoming: TranscriptSegment) -> (inserted: bool)
        ensures
            inserted == keeps_segment(old(self)@, incoming@),
            inserted ==> final(self)@ == insert_segment_by_start(old(self)@, cleaned_segment(incoming@)),
            !inserted ==> final(self)@ == old(self)@,
            segments_sorted(final(self)@),
    {
        proof {
            use_type_invariant(&*self);
        }
        let ghost orig = incoming@;
        let mut seg = incoming;
        let raw = chars_of(seg.text.as_str());
        let collapsed = collapse_whitespace_exec(&raw);
        seg.text = string_of(&collapsed);
        assert(seg@ == TranscriptSegmentView { text: collapse_whitespace(orig.text), ..orig });
        if collapsed.len() == 0 || seg.end_ms <= seg.start_ms {
            return false;
        }
        let key = normalized(&collapsed);
        let mut i: usize = 0;
        while i < self.finalized.len()
            invariant
                i <= self.finalized@.len(),
                self@ == old(self)@,
                orig == incoming@,
                segments_sorted(self@),
                seg@ == (TranscriptSegmentView { text: collapse_whitespace(orig.text), ..orig }),
                key@ == normalized_text(seg@.text),
                forall|j: int| 0 <= j < i ==> !(seg@.start_ms < (#[trigger] self.finalized@[j]@).end_ms
                    && seg@.end_ms > self.finalized@[j]@.start_ms
                    && normalized_text(seg@.text) == normalized_text(self.finalized@[j]@.text)),
            decreases self.finalized.len() - i,
        {
            let existing = &self.finalized[i];
            if seg.start_ms < existing.end_ms && seg.end_ms > existing.start_ms {
                let existing_chars = chars_of(existing.text.as_str());
                let existing_key = normalized(&existing_chars);
                if chars_eq(&key, &existing_key) {
                    proof {
                        assert(segment_views(self.finalized@)[i as int] == self.finalized@[i as int]@);
                        let ghost e = self@[i as int];
                        assert(e == existing@);
                        assert(normalized_text(e.text) == key@);
                        assert(seg@.start_ms < e.end_ms && seg@.end_ms > e.start_ms);
                        assert(repeats(self@, seg@));
                        assert(repeats(old(self)@, TranscriptSegmentView { text: collapse_whitespace(orig.text), ..orig }));
                        assert(cleaned_segment(orig) == TranscriptSegmentView { text: collapse_whitespace(orig.text), ..orig });
                        assert(!keeps_segment(old(self)@, orig));
                    }
                    return false;
                }
            }
            i = i + 1;
        }
        proof {
            assert forall|j: int| 0 <= j < self@.len() implies !(seg@.start_ms < self@[j].end_ms
                && seg@.end_ms > self@[j].start_ms
                && normalized_text(seg@.text) == normalized_text(#[trigger] self@[j].text)) by {
                assert(self@[j] == self.finalized@[j]@);
            }
        }
        let mut finalized: Vec<TranscriptSegment> = Vec::new();
        std::mem::swap(&mut finalized, &mut self.finalized);
        let mut j = finalized.len();
        while j > 0 && finalized[j - 1].start_ms > seg.start_ms
            invariant
                j <= finalized@.len(),
                forall|k: int| j <= k < finalized@.len() ==> finalized@[k].start_ms > seg.start_ms,
            decreases j,
        {
            j = j - 1;
        }
        let ghost before = segment_views(finalized@);
        let ghost iv = seg@;
        finalized.insert(j, seg);
        proof {
            lemma_insert_segment_at(before, iv, j as int);
            assert(segment_views(finalized@) =~= before.insert(j as int, iv));
            let after = segment_views(finalized@);
            assert forall|a: int, b: int| 0 <= a <= b < after.len() implies after[a].start_ms <= after[b].start_ms by {
                if a < j && b > j { assert(after[a] == before[a]); assert(after[b] == before[b - 1]); }
                else if a < j && b == j { assert(after[a] == before[a]); }
                else if a < j { assert(after[a] == before[a]); assert(after[b] == before[b]); }
                else if a == j && b > j { assert(after[b] == before[b - 1]); }
                else if a > j { assert(after[a] == before[a - 1]); assert(after[b] == before[b - 1]); }
            }
        }
        self.finalized = finalized;
        true
    }

    /// The kept segments, ordered by start.
    pub fn segments(&self) -> (s: &[TranscriptSegment])
        ensures
            segment_views(s@) == self@,
    {
        self.finalized.as_slice()
    }
}

impl Default for TranscriptDeduper {
    fn default() -> (d: TranscriptDeduper)
        ensures
            d@ == Seq::<TranscriptSegmentView>::empty(),
    {
        TranscriptDeduper::new()
    }
}

// ---------------------------------------------------------------------------------------------
// Candidate tracking.
// ---------------------------------------------------------------------------------------------
/// Whether a candidate's delayed reaction has had time to arrive by `now_ms`: the time since
/// its payoff (or its end, without one) reaches the maturation delay.
pub open spec fn is_mature(c: CandidateView, now_ms: i64, delay_ms: i64) -> bool {
    let anchor = match c.payoff_ms { Some(p) => p, None => c.end_ms };
    sat_add(now_ms as int, -(anchor as int)) >= delay_ms
}

/// The mature candidates, in order, each marked ready.
pub open spec fn matured(s: Seq<CandidateView>, now_ms: i64, delay_ms: i64) -> Seq<CandidateView>
    decreases s.len(),
{
    if s.len() == 0 {
        Seq::empty()
    } else {
        let init = matured(s.drop_last(), now_ms, delay_ms);
        if is_mature(s.last(), now_ms, delay_ms) {
            init.push(CandidateView { state: ClipState::Ready, ..s.last() })
        } else {
            init
        }
    }
}

/// The candidates still waiting, in order.
pub open spec fn waiting(s: Seq<CandidateView>, now_ms: i64, delay_ms: i64) -> Seq<CandidateView>
    decreases s.len(),
{
    if s.len() == 0 {
        Seq::empty()
    } else {
        let init = waiting(s.drop_last(), now_ms, delay_ms);
        if is_mature(s.last(), now_ms, delay_ms) { init } else { init.push(s.last()) }
    }
}

/// Candidates that are developing, held until their delayed reaction has had time to arrive.
#[derive(Debug)]
pub struct CandidateTracker {
    maturation_delay_ms: i64,
    active: Vec<Candidate>,
}

/// The content of a [`CandidateTracker`].
pub struct CandidateTrackerView {
    pub maturation_delay_ms: i64,
    pub active: Seq<CandidateView>,
}

impl View for CandidateTracker {
    type V = CandidateTrackerView;

    closed spec fn view(&self) -> CandidateTrackerView {
        CandidateTrackerView {
            maturation_delay_ms: self.maturation_delay_ms,
            active: candidate_views(self.active@),
        }
    }
}

impl CandidateTracker {
    /// A tracker with no candidates and a delay of
    /// `(maturation_delay_seconds as i64).saturating_mul(1_000)` milliseconds.
    pub fn new(maturation_delay_seconds: u64) -> (t: CandidateTracker)
        ensures
            t@.maturation_delay_ms == sat_mul(u64_as_i64(maturation_delay_seconds), 1_000),
            t@.active == Seq::<CandidateView>::empty(),
    {
        let t = CandidateTracker {
            maturation_delay_ms: wrapped_saturating_mul(maturation_delay_seconds, 1_000),
            active: Vec::new(),
        };
        assert(t@.active =~= Seq::<CandidateView>::empty());
        t
    }

    /// Adds a candidate and merges the active set (two-second gap).
    pub fn observe(&mut self, candidate: Candidate)
        ensures
            final(self)@.maturation_delay_ms == old(self)@.maturation_delay_ms,
            final(self)@.active == spec_merge_candidates(old(self)@.active.push(candidate@), 2_000),
    {
        let mut active: Vec<Candidate> = Vec::new();
        std::mem::swap(&mut active, &mut self.active);
        let ghost cv = candidate@;
        let ghost before = candidate_views(active@);
        active.push(candidate);
        assert(candidate_views(active@) =~= before.push(cv));
        self.active = merge_candidates(active, 2_000);
    }

    /// Releases the candidates that are mature at `now_ms`, marked ready; the rest keep waiting.
    pub fn mature(&mut self, now_ms: i64) -> (ready: Vec<Candidate>)
        ensures
            final(self)@.maturation_delay_ms == old(self)@.maturation_delay_ms,
            candidate_views(ready@) == matured(old(self)@.active, now_ms, old(self)@.maturation_delay_ms),
            final(self)@.active == waiting(old(self)@.active, now_ms, old(self)@.maturation_delay_ms),
    {
        let delay = self.maturation_delay_ms;
        let mut pending: Vec<Candidate> = Vec::new();
        std::mem::swap(&mut pending, &mut self.active);
        let ghost all = candidate_views(pending@);
        let mut reversed: Vec<Candidate> = Vec::new();
        while pending.len() > 0
            invariant
                candidate_views(pending@) + candidate_views(reversed@).reverse() == all,
            decreases pending.len(),
        {
            let ghost r = pending@;
            let c = pending.pop().unwrap();
            reversed.push(c);
            proof {
                assert(candidate_views(reversed@).reverse() =~= seq![c@] + candidate_views(reversed@.drop_last()).reverse());
                assert(candidate_views(r) =~= candidate_views(pending@).push(c@));
                assert(candidate_views(pending@) + candidate_views(reversed@).reverse() =~= all);
            }
        }
        assert(candidate_views(reversed@).reverse() =~= all);
        let ghost n = all.len();
        let mut ready: Vec<Candidate> = Vec::new();
        let mut still: Vec<Candidate> = Vec::new();
        while reversed.len() > 0
            invariant
                candidate_views(reversed@).len() <= n,
                all.len() == n,
                all.subrange(n - reversed@.len(), n as int) == candidate_views(reversed@).reverse(),
                candidate_views(ready@) == matured(all.subrange(0, n - reversed@.len()), now_ms, delay),
                candidate_views(still@) == waiting(all.subrange(0, n - reversed@.len()), now_ms, delay),
            decreases reversed.len(),
        {
            let ghost k = n - reversed@.len();
            let ghost rv = candidate_views(reversed@);
            let mut c = reversed.pop().unwrap();
            proof {
                assert(rv.reverse()[0] == c@);
                assert(all[k] == c@);
                assert(all.subrange(0, k + 1).drop_last() =~= all.subrange(0, k));
                assert(candidate_views(reversed@) =~= rv.drop_last());
                assert(rv.drop_last().reverse() =~= rv.reverse().subrange(1, rv.len() as int));
                assert(all.subrange(n - reversed@.len(), n as int) =~= all.subrange(k, n as int).subrange(1, rv.len() as int));
            }
            let anchor = match c.payoff_ms {
                Some(p) => p,
                None => c.end_ms,
            };
            let ghost before_ready = candidate_views(ready@);
            let ghost before_still = candidate_views(still@);
            if crate::domain::saturating_sub_i64(now_ms, anchor) >= delay {
                c.state = ClipState::Ready;
                let ghost cv = c@;
                ready.push(c);
                assert(candidate_views(ready@) =~= before_ready.push(cv));
            } else {
                let ghost cv = c@;
                still.push(c);
                assert(candidate_views(still@) =~= before_still.push(cv));
            }
        }
        assert(all.subrange(0, n as int) =~= all);
        self.active = still;
        ready
    }

    /// The candidates still waiting.
    pub fn active(&self) -> (a: &[Candidate])
        ensures
            candidate_views(a@) == self@.active,
    {
        self.active.as_slice()
    }
}

proof fn lemma_matured_waiting(s: Seq<CandidateView>, now_ms: i64, delay_ms: i64)
    ensures
        matured(s, now_ms, delay_ms).len() + waiting(s, now_ms, delay_ms).len() == s.len(),
        forall|i: int| 0 <= i < matured(s, now_ms, delay_ms).len() ==> (#[trigger] matured(s, now_ms, delay_ms)[i]).state == ClipState::Ready
            && is_mature(matured(s, now_ms, delay_ms)[i], now_ms, delay_ms),
        forall|i: int| 0 <= i < waiting(s, now_ms, delay_ms).len() ==> !is_mature(#[trigger] waiting(s, now_ms, delay_ms)[i], now_ms, delay_ms),
    decreases s.len(),
{
    if s.len() > 0 {
        lemma_matured_waiting(s.drop_last(), now_ms, delay_ms);
    }
}

/// Maturing partitions the tracked candidates: every one is released (marked ready, its
/// reaction delay elapsed) or keeps waiting (delay not yet elapsed), none lost or duplicated.
pub proof fn law_mature_partitions(active: Seq<CandidateView>, now_ms: i64, delay_ms: i64)
    ensures
        matured(active, now_ms, delay_ms).len() + waiting(active, now_ms, delay_ms).len() == active.len(),
        forall|i: int| 0 <= i < matured(active, now_ms, delay_ms).len() ==> (#[trigger] matured(active, now_ms, delay_ms)[i]).state == ClipState::Ready
            && is_mature(matured(active, now_ms, delay_ms)[i], now_ms, delay_ms),
        forall|i: int| 0 <= i < waiting(active, now_ms, delay_ms).len() ==> !is_mature(#[trigger] waiting(active, now_ms, delay_ms)[i], now_ms, delay_ms),
{
    lemma_matured_waiting(active, now_ms, delay_ms);
}

/// A tracked candidate is released exactly when its delayed reaction has had time to arrive:
/// when it has a payoff, once `now_ms` minus the payoff (saturating) reaches the delay; only a
/// candidate without a payoff is timed from its end. Released candidates are marked ready, and
/// every candidate is either released or left waiting.
pub proof fn law_maturity_is_timed_from_the_payoff(s: Seq<CandidateView>, now_ms: i64, delay_ms: i64)
    ensures
        matured(s, now_ms, delay_ms).len() + waiting(s, now_ms, delay_ms).len() == s.len(),
        forall|i: int| 0 <= i < matured(s, now_ms, delay_ms).len() ==> {
            let c = #[trigger] matured(s, now_ms, delay_ms)[i];
            &&& c.state == ClipState::Ready
            &&& match c.payoff_ms {
                Some(p) => sat_add(now_ms as int, -(p as int)) >= delay_ms,
                None => sat_add(now_ms as int, -(c.end_ms as int)) >= delay_ms,
            }
        },
        forall|i: int| 0 <= i < waiting(s, now_ms, delay_ms).len() ==> {
            let c = #[trigger] waiting(s, now_ms, delay_ms)[i];
            match c.payoff_ms {
                Some(p) => sat_add(now_ms as int, -(p as int)) < delay_ms,
                None => sat_add(now_ms as int, -(c.end_ms as int)) < delay_ms,
            }
        },
{
    lemma_matured_waiting(s, now_ms, delay_ms);
}

/// A single tracked candidate is released exactly when the time since its payoff (or, without
/// one, since its end) reaches the delay.
pub proof fn law_a_candidate_is_released_once_its_payoff_is_old_enough(c: CandidateView, now_ms: i64, delay_ms: i64)
    ensures
        matured(seq![c], now_ms, delay_ms).len() == 1 <==> match c.payoff_ms {
            Some(p) => sat_add(now_ms as int, -(p as int)) >= delay_ms,
            None => sat_add(now_ms as int, -(c.end_ms as int)) >= delay_ms,
        },
{
    assert(seq![c].drop_last() =~= Seq::<CandidateView>::empty());
    assert(matured(Seq::<CandidateView>::empty(), now_ms, delay_ms) =~= Seq::<CandidateView>::empty());
}

/// The segments `range` returns are exactly those of the epoch that overlap the window, in ring
/// order: each belongs to the epoch, ends after `start_ms` and starts before `end_ms`, and every
/// segment of the ring that does so is returned.
pub proof fn law_range_returns_exactly_the_overlapping_segments(s: Seq<MediaSegmentView>, epoch: u32, start_ms: i64, end_ms: i64)
    ensures
        forall|i: int| 0 <= i < segments_in_range(s, epoch, start_ms, end_ms).len() ==> {
            let m = #[trigger] segments_in_range(s, epoch, start_ms, end_ms)[i];
            &&& m.epoch == epoch
            &&& m.end_ms > start_ms
            &&& m.start_ms < end_ms
            &&& s.contains(m)
        },
        forall|i: int| 0 <= i < s.len() && s[i].epoch == epoch && s[i].end_ms > start_ms && s[i].start_ms < end_ms
            ==> segments_in_range(s, epoch, start_ms, end_ms).contains(#[trigger] s[i]),
    decreases s.len(),
{
    if s.len() > 0 {
        let init = s.drop_last();
        law_range_returns_exactly_the_overlapping_segments(init, epoch, start_ms, end_ms);
        let r0 = segments_in_range(init, epoch, start_ms, end_ms);
        let r = segments_in_range(s, epoch, start_ms, end_ms);
        assert forall|i: int| 0 <= i < r.len() implies {
            let m = #[trigger] r[i];
            &&& m.epoch == epoch
            &&& m.end_ms > start_ms
            &&& m.start_ms < end_ms
            &&& s.contains(m)
        } by {
            if i < r0.len() {
                assert(r[i] == r0[i]);
                let k = choose|k: int| 0 <= k < init.len() && init[k] == r0[i];
                assert(s[k] == init[k]);
            } else {
                assert(r[i] == s.last());
                assert(s[s.len() - 1] == s.last());
            }
        }
        assert forall|i: int| 0 <= i < s.len() && s[i].epoch == epoch && s[i].end_ms > start_ms && s[i].start_ms < end_ms
            implies r.contains(#[trigger] s[i]) by {
            if i < s.len() - 1 {
                assert(init[i] == s[i]);
                assert(r0.contains(init[i]));
                let k = choose|k: int| 0 <= k < r0.len() && r0[k] == init[i];
                assert(r[k] == r0[k]);
            } else {
                assert(r[r.len() - 1] == s[i]);
            }
        }
    }
}

/// A segment that overlaps a kept segment in time (it starts before the kept one ends and ends
/// after it starts) and has the same comparison text is refused, whichever of the two starts
/// first.
pub proof fn law_an_overlapping_repeat_is_refused(kept: Seq<TranscriptSegmentView>, incoming: TranscriptSegmentView, i: int)
    requires
        0 <= i < kept.len(),
        incoming.start_ms < kept[i].end_ms,
        incoming.end_ms > kept[i].start_ms,
        normalized_text(collapse_whitespace(incoming.text)) == normalized_text(kept[i].text),
    ensures
        !keeps_segment(kept, incoming),
{
    let c = cleaned_segment(incoming);
    assert(c.start_ms < kept[i].end_ms && c.end_ms > kept[i].start_ms && normalized_text(c.text) == normalized_text(kept[i].text));
    assert(repeats(kept, c));
}

} // verus!

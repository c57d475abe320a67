//! Activities, their focus segments, and the operations on a timeline of them.
use vstd::prelude::*;
use crate::clock::{time_label, time_label_of};
use crate::text::{chars_of, decimal, decimal_chars, string_of_range};
use crate::window::{
    activity_key, activity_key_for_window, activity_title, display_activity_title, display_title,
    display_title_for_window, normalize_title_for_activity, normalized_title, push_str,
    ActiveWindow, WindowView,
};

verus! {

broadcast use vstd::string::group_string_axioms;

/// A stretch of focus time; `ended_at_ms` is `None` while it lasts.
#[derive(Debug, Clone, Copy)]
pub struct ActivitySegment {
    pub started_at_ms: u128,
    pub ended_at_ms: Option<u128>,
}

/// One activity of the timeline: a window key and the focus segments spent on it.
#[derive(Debug, Clone)]
pub struct TrackedActivity {
    pub id: String,
    pub activity_key: String,
    pub first_started_at_ms: u128,
    pub last_seen_at_ms: u128,
    pub app: String,
    pub title: String,
    pub normalized_title: String,
    pub source: String,
    pub pid: Option<u32>,
    pub segments: Vec<ActivitySegment>,
}

/// Mathematical view of a [`TrackedActivity`].
pub struct ActivityView {
    pub id: Seq<char>,
    pub key: Seq<char>,
    pub first: u128,
    pub last: u128,
    pub app: Seq<char>,
    pub title: Seq<char>,
    pub normalized: Seq<char>,
    pub source: Seq<char>,
    pub pid: Option<u32>,
    pub segments: Seq<ActivitySegment>,
}

impl View for TrackedActivity {
    type V = ActivityView;

    open spec fn view(&self) -> ActivityView {
        ActivityView {
            id: self.id@,
            key: self.activity_key@,
            first: self.first_started_at_ms,
            last: self.last_seen_at_ms,
            app: self.app@,
            title: self.title@,
            normalized: self.normalized_title@,
            source: self.source@,
            pid: self.pid,
            segments: self.segments@,
        }
    }
}

/// The views of the activities of a timeline.
pub open spec fn timeline_view(tl: Seq<TrackedActivity>) -> Seq<ActivityView> {
    tl.map_values(|a: TrackedActivity| a@)
}

/// How long, in milliseconds, a gap may last for an activity to be resumed.
pub open spec fn resume_window_ms() -> int {
    1_800_000int
}

/// The most activities a timeline keeps.
pub open spec fn timeline_limit() -> int {
    100int
}

/// `a - b`, or 0 when `b > a`.
pub open spec fn sat_sub(a: u128, b: u128) -> int {
    if a >= b {
        a - b
    } else {
        0
    }
}

/// The activity's last segment is still running.
pub open spec fn is_open(a: ActivityView) -> bool {
    a.segments.len() > 0 && a.segments.last().ended_at_ms is None
}

/// The first open activity at index `i` or later.
pub open spec fn first_open_from(tl: Seq<ActivityView>, i: int) -> Option<int>
    decreases tl.len() - i,
{
    if i < 0 || i >= tl.len() {
        None
    } else if is_open(tl[i]) {
        Some(i)
    } else {
        first_open_from(tl, i + 1)
    }
}

/// The first open activity.
pub open spec fn first_open(tl: Seq<ActivityView>) -> Option<int> {
    first_open_from(tl, 0)
}

/// The first open activity with key `key`, at index `i` or later.
pub open spec fn first_open_keyed_from(tl: Seq<ActivityView>, key: Seq<char>, i: int) -> Option<int>
    decreases tl.len() - i,
{
    if i < 0 || i >= tl.len() {
        None
    } else if tl[i].key == key && is_open(tl[i]) {
        Some(i)
    } else {
        first_open_keyed_from(tl, key, i + 1)
    }
}

/// The first activity with key `key` seen at most 30 minutes before `ts`, at index `i` or later.
pub open spec fn first_resumable_from(tl: Seq<ActivityView>, key: Seq<char>, ts: u128, i: int) -> Option<
    int,
>
    decreases tl.len() - i,
{
    if i < 0 || i >= tl.len() {
        None
    } else if tl[i].key == key && sat_sub(ts, tl[i].last) <= resume_window_ms() {
        Some(i)
    } else {
        first_resumable_from(tl, key, ts, i + 1)
    }
}

/// Index of the first activity, among the first `n`, that was seen least recently.
pub open spec fn least_recent_among(tl: Seq<ActivityView>, n: int) -> int
    decreases n,
{
    if n <= 1 {
        0
    } else {
        let m = least_recent_among(tl, n - 1);
        if tl[n - 1].last < tl[m].last {
            n - 1
        } else {
            m
        }
    }
}

pub proof fn lemma_least_recent_bounds(tl: Seq<ActivityView>, n: int)
    requires
        1 <= n,
    ensures
        0 <= least_recent_among(tl, n) < n,
    decreases n,
{
    if n > 1 {
        lemma_least_recent_bounds(tl, n - 1);
    }
}

pub proof fn lemma_first_open_from(tl: Seq<ActivityView>, i: int)
    ensures
        first_open_from(tl, i) matches Some(k) ==> i <= k < tl.len() && 0 <= k && is_open(tl[k]),
        first_open_from(tl, i) is None ==> forall|k: int|
            0 <= i <= k < tl.len() ==> !is_open(#[trigger] tl[k]),
    decreases tl.len() - i,
{
    if 0 <= i < tl.len() && !is_open(tl[i]) {
        lemma_first_open_from(tl, i + 1);
    }
}

pub proof fn lemma_first_open_keyed_from(tl: Seq<ActivityView>, key: Seq<char>, i: int)
    ensures
        first_open_keyed_from(tl, key, i) matches Some(k) ==> 0 <= i <= k < tl.len() && tl[k].key
            == key && is_open(tl[k]),
        first_open_keyed_from(tl, key, i) is None ==> forall|k: int|
            0 <= i <= k < tl.len() ==> !(#[trigger] tl[k].key == key && is_open(tl[k])),
    decreases tl.len() - i,
{
    if 0 <= i < tl.len() && !(tl[i].key == key && is_open(tl[i])) {
        lemma_first_open_keyed_from(tl, key, i + 1);
    }
}

pub proof fn lemma_first_resumable_from(tl: Seq<ActivityView>, key: Seq<char>, ts: u128, i: int)
    ensures
        first_resumable_from(tl, key, ts, i) matches Some(k) ==> 0 <= i <= k < tl.len() && tl[k].key
            == key && sat_sub(ts, tl[k].last) <= resume_window_ms(),
    decreases tl.len() - i,
{
    if 0 <= i < tl.len() && !(tl[i].key == key && sat_sub(ts, tl[i].last) <= resume_window_ms()) {
        lemma_first_resumable_from(tl, key, ts, i + 1);
    }
}

/// The timeline after dropping least recently seen activities down to the limit.
pub open spec fn pruned(tl: Seq<ActivityView>) -> Seq<ActivityView>
    decreases tl.len(),
{
    if tl.len() <= timeline_limit() {
        tl
    } else {
        proof {
            lemma_least_recent_bounds(tl, tl.len() as int);
        }
        pruned(tl.remove(least_recent_among(tl, tl.len() as int)))
    }
}

/// An activity whose metadata now comes from window `w`, seen at `ts`.
pub open spec fn refreshed(a: ActivityView, w: WindowView, tools: Seq<Seq<char>>, ts: u128) -> ActivityView {
    let d = display_title(w, tools);
    let n = normalized_title(d);
    ActivityView {
        id: a.id,
        key: a.key,
        first: a.first,
        last: ts,
        app: w.app,
        title: activity_title(d, n),
        normalized: n,
        source: w.source,
        pid: w.pid,
        segments: a.segments,
    }
}

/// A segment that starts at `ts` and is still running.
pub open spec fn open_segment(ts: u128) -> ActivitySegment {
    ActivitySegment { started_at_ms: ts, ended_at_ms: None }
}

/// A fresh activity for window `w` with key `key`, started at `ts`.
pub open spec fn fresh_activity(w: WindowView, tools: Seq<Seq<char>>, key: Seq<char>, ts: u128) -> ActivityView {
    let d = display_title(w, tools);
    let n = normalized_title(d);
    ActivityView {
        id: "activity-"@ + decimal(ts as nat),
        key: key,
        first: ts,
        last: ts,
        app: w.app,
        title: activity_title(d, n),
        normalized: n,
        source: w.source,
        pid: w.pid,
        segments: seq![open_segment(ts)],
    }
}

/// The timeline after focus on `w` begins at `ts`: a recent activity with the
/// same key is resumed with a new segment, otherwise a new activity is appended.
pub open spec fn resumed(
    tl: Seq<ActivityView>,
    w: WindowView,
    tools: Seq<Seq<char>>,
    home: Option<Seq<char>>,
    ts: u128,
) -> Seq<ActivityView> {
    let key = activity_key(w, home);
    match first_resumable_from(tl, key, ts, 0) {
        Some(i) => {
            let a = refreshed(tl[i], w, tools, ts);
            tl.update(i, ActivityView { segments: a.segments.push(open_segment(ts)), ..a })
        },
        None => tl.push(fresh_activity(w, tools, key, ts)),
    }
}

/// An activity whose running segment ends at `end`.
pub open spec fn closed_activity(a: ActivityView, end: u128) -> ActivityView {
    let s = a.segments.last();
    ActivityView {
        last: end,
        segments: a.segments.update(
            a.segments.len() - 1,
            ActivitySegment { started_at_ms: s.started_at_ms, ended_at_ms: Some(end) },
        ),
        ..a
    }
}

/// The timeline with its first open activity closed at `end`.
pub open spec fn closed_at(tl: Seq<ActivityView>, end: u128) -> Seq<ActivityView> {
    match first_open(tl) {
        Some(i) => tl.update(i, closed_activity(tl[i], end)),
        None => tl,
    }
}

/// The length of a segment, a running one measured up to `now`.
pub open spec fn segment_duration(s: ActivitySegment, now: u128) -> int {
    let end = match s.ended_at_ms {
        Some(e) => e,
        None => now,
    };
    sat_sub(end, s.started_at_ms)
}

/// The total length of the segments.
pub open spec fn total_duration(segs: Seq<ActivitySegment>, now: u128) -> int
    decreases segs.len(),
{
    if segs.len() == 0 {
        0
    } else {
        total_duration(segs.drop_last(), now) + segment_duration(segs.last(), now)
    }
}

/// Whether the activity's last segment is still running.
pub fn activity_has_open_segment(activity: &TrackedActivity) -> (b: bool)
    ensures
        b == is_open(activity@),
{
    let n = activity.segments.len();
    n > 0 && activity.segments[n - 1].ended_at_ms.is_none()
}

/// Index of the first open activity.
pub fn open_activity_index(timeline: &Vec<TrackedActivity>) -> (r: Option<usize>)
    ensures
        r matches Some(i) ==> first_open(timeline_view(timeline@)) == Some(i as int),
        r is None ==> first_open(timeline_view(timeline@)) is None,
{
    let ghost v = timeline_view(timeline@);
    let mut i: usize = 0;
    while i < timeline.len()
        invariant
            i <= timeline.len(),
            v == timeline_view(timeline@),
            first_open(v) == first_open_from(v, i as int),
        decreases timeline.len() - i,
    {
        if activity_has_open_segment(&timeline[i]) {
            return Some(i);
        }
        i = i + 1;
    }
    None
}

/// Ends the running segment of the first open activity at `ended_at_ms`.
pub fn close_open_activity(timeline: &mut Vec<TrackedActivity>, ended_at_ms: u128)
    ensures
        timeline_view(final(timeline)@) == closed_at(timeline_view(old(timeline)@), ended_at_ms),
{
    let ghost v = timeline_view(timeline@);
    match open_activity_index(timeline) {
        Some(i) => {
            proof {
                lemma_first_open_from(v, 0);
            }
            let mut a = timeline.remove(i);
            assert(a@ == v[i as int]);
            let n = a.segments.len();
            let s = a.segments[n - 1];
            a.segments.set(n - 1, ActivitySegment { started_at_ms: s.started_at_ms, ended_at_ms: Some(ended_at_ms) });
            a.last_seen_at_ms = ended_at_ms;
            timeline.insert(i, a);
            assert(timeline_view(timeline@) =~= v.update(i as int, closed_activity(v[i as int], ended_at_ms)));
        },
        None => {},
    }
}

/// Takes the app, title, source and pid of the activity from `window`, seen at `timestamp_ms`.
///
/// `tools` are the terminal process hints of the window (see `display_title_for_window`).
pub fn update_activity_metadata(
    activity: &mut TrackedActivity,
    window: &ActiveWindow,
    tools: &Vec<String>,
    timestamp_ms: u128,
)
    ensures
        final(activity)@ == refreshed(
            old(activity)@,
            window@,
            tools@.map_values(|x: String| x@),
            timestamp_ms,
        ),
{
    let display_title = display_title_for_window(window, tools);
    let normalized_title = normalize_title_for_activity(display_title.as_str());
    activity.app = window.app.clone();
    activity.title = display_activity_title(display_title.as_str(), normalized_title.as_str());
    activity.normalized_title = normalized_title;
    activity.source = window.source.clone();
    activity.pid = window.pid;
    activity.last_seen_at_ms = timestamp_ms;
}

/// Starts focus on `window` at `timestamp_ms`: resumes the first activity with the
/// same key seen within 30 minutes (adding a running segment), or appends a new one.
pub fn resume_or_push_activity(
    timeline: &mut Vec<TrackedActivity>,
    window: &ActiveWindow,
    tools: &Vec<String>,
    home: &Option<String>,
    timestamp_ms: u128,
)
    ensures
        timeline_view(final(timeline)@) == resumed(
            timeline_view(old(timeline)@),
            window@,
            tools@.map_values(|x: String| x@),
            home.deep_view(),
            timestamp_ms,
        ),
{
    let ghost v = timeline_view(timeline@);
    let key = activity_key_for_window(window, home);
    let mut i: usize = 0;
    while i < timeline.len()
        invariant
            i <= timeline.len(),
            v == timeline_view(timeline@),
            v == timeline_view(old(timeline)@),
            key@ == activity_key(window@, home.deep_view()),
            first_resumable_from(v, key@, timestamp_ms, 0) == first_resumable_from(
                v,
                key@,
                timestamp_ms,
                i as int,
            ),
        decreases timeline.len() - i,
    {
        if timeline[i].activity_key == key && timestamp_ms.saturating_sub(
            timeline[i].last_seen_at_ms,
        ) <= 1_800_000 {
            assert(first_resumable_from(v, key@, timestamp_ms, i as int) == Some(i as int));
            let mut a = timeline.remove(i);
            assert(a@ == v[i as int]);
            update_activity_metadata(&mut a, window, tools, timestamp_ms);
            a.segments.push(ActivitySegment { started_at_ms: timestamp_ms, ended_at_ms: None });
            timeline.insert(i, a);
            proof {
                let r = refreshed(v[i as int], window@, tools@.map_values(|x: String| x@), timestamp_ms);
                assert(timeline_view(timeline@) =~= v.update(
                    i as int,
                    ActivityView { segments: r.segments.push(open_segment(timestamp_ms)), ..r },
                ));
                assert(timeline_view(timeline@) == resumed(
                    v,
                    window@,
                    tools@.map_values(|x: String| x@),
                    home.deep_view(),
                    timestamp_ms,
                ));
            }
            return;
        }
        i = i + 1;
    }
    let display_title = display_title_for_window(window, tools);
    let normalized_title = normalize_title_for_activity(display_title.as_str());
    let mut id = chars_of("activity-");
    let digits = decimal_chars(timestamp_ms);
    let ghost before = id@;
    let mut k: usize = 0;
    while k < digits.len()
        invariant
            k <= digits.len(),
            id@ == before + digits@.take(k as int),
        decreases digits.len() - k,
    {
        id.push(digits[k]);
        k = k + 1;
        assert(id@ =~= before + digits@.take(k as int));
    }
    assert(digits@.take(digits.len() as int) =~= digits@);
    assert(id@.subrange(0, id.len() as int) =~= id@);
    let mut segments: Vec<ActivitySegment> = Vec::new();
    segments.push(ActivitySegment { started_at_ms: timestamp_ms, ended_at_ms: None });
    let title = display_activity_title(display_title.as_str(), normalized_title.as_str());
    timeline.push(
        TrackedActivity {
            id: string_of_range(&id, 0, id.len()),
            activity_key: key,
            first_started_at_ms: timestamp_ms,
            last_seen_at_ms: timestamp_ms,
            app: window.app.clone(),
            title,
            normalized_title,
            source: window.source.clone(),
            pid: window.pid,
            segments,
        },
    );
    assert(segments@ =~= seq![open_segment(timestamp_ms)]);
    assert(timeline_view(timeline@) =~= v.push(
        fresh_activity(window@, tools@.map_values(|x: String| x@), key@, timestamp_ms),
    ));
}


/// Index of the first least recently seen activity (`min_by_key` on `last_seen_at_ms`).
fn least_recent_index(timeline: &Vec<TrackedActivity>) -> (m: usize)
    requires
        timeline.len() >= 1,
    ensures
        m == least_recent_among(timeline_view(timeline@), timeline.len() as int),
        m < timeline.len(),
{
    let ghost v = timeline_view(timeline@);
    let mut m: usize = 0;
    let mut j: usize = 1;
    while j < timeline.len()
        invariant
            1 <= j <= timeline.len(),
            v == timeline_view(timeline@),
            m == least_recent_among(v, j as int),
            m < j,
        decreases timeline.len() - j,
    {
        if timeline[j].last_seen_at_ms < timeline[m].last_seen_at_ms {
            m = j;
        }
        j = j + 1;
    }
    m
}

/// Drops least recently seen activities until at most 100 remain.
pub fn prune_timeline(timeline: &mut Vec<TrackedActivity>)
    ensures
        timeline_view(final(timeline)@) == pruned(timeline_view(old(timeline)@)),
{
    while timeline.len() > 100
        invariant
            pruned(timeline_view(old(timeline)@)) == pruned(timeline_view(timeline@)),
        decreases timeline.len(),
    {
        let ghost v = timeline_view(timeline@);
        let m = least_recent_index(timeline);
        timeline.remove(m);
        assert(timeline_view(timeline@) =~= v.remove(m as int));
    }
}

/// `2^128`, the modulus of `u128` arithmetic.
pub open spec fn u128_modulus() -> int {
    u128::MAX + 1
}

/// Total focus time of an activity, a running segment counted up to `now`.
///
/// The sum is taken in `u128` and wraps around past `u128::MAX`, as the
/// release build of the summation does.
pub fn activity_duration_ms(activity: &TrackedActivity, now: u128) -> (r: u128)
    ensures
        r == total_duration(activity@.segments, now) % u128_modulus(),
{
    let segs = &activity.segments;
    let mut total: u128 = 0;
    let mut i: usize = 0;
    while i < segs.len()
        invariant
            i <= segs.len(),
            segs@ == activity@.segments,
            total == total_duration(segs@.take(i as int), now) % u128_modulus(),
        decreases segs.len() - i,
    {
        let s = segs[i];
        let end = match s.ended_at_ms {
            Some(e) => e,
            None => now,
        };
        let d = end.saturating_sub(s.started_at_ms);
        proof {
            assert(segs@.take(i + 1).drop_last() =~= segs@.take(i as int));
            let prev = total_duration(segs@.take(i as int), now);
            vstd::arithmetic::div_mod::lemma_add_mod_noop(prev, d as int, u128_modulus());
            vstd::arithmetic::div_mod::lemma_small_mod(d as nat, u128_modulus() as nat);
            if total + d >= u128_modulus() {
                vstd::arithmetic::div_mod::lemma_small_mod(
                    (total + d - u128_modulus()) as nat,
                    u128_modulus() as nat,
                );
                vstd::arithmetic::div_mod::lemma_mod_add_multiples_vanish(
                    (total + d) - u128_modulus(),
                    u128_modulus(),
                );
            } else {
                vstd::arithmetic::div_mod::lemma_small_mod((total + d) as nat, u128_modulus() as nat);
            }
        }
        total = total.wrapping_add(d);
        i = i + 1;
    }
    assert(segs@.take(segs.len() as int) =~= segs@);
    total
}

/// An activity as the timeline view shows it.
#[derive(Debug, Clone)]
pub struct ActivityEvent {
    pub id: String,
    pub started_at: String,
    pub ended_at: String,
    pub duration_seconds: u32,
    pub duration_minutes: u16,
    pub app: String,
    pub title: String,
    pub context: String,
    pub kind: String,
    pub confidence: u8,
    pub privacy: String,
}

/// Mathematical view of an [`ActivityEvent`].
pub struct EventView {
    pub id: Seq<char>,
    pub started_at: Seq<char>,
    pub ended_at: Seq<char>,
    pub duration_seconds: u32,
    pub duration_minutes: u16,
    pub app: Seq<char>,
    pub title: Seq<char>,
    pub context: Seq<char>,
    pub kind: Seq<char>,
    pub confidence: u8,
    pub privacy: Seq<char>,
}

impl View for ActivityEvent {
    type V = EventView;

    open spec fn view(&self) -> EventView {
        EventView {
            id: self.id@,
            started_at: self.started_at@,
            ended_at: self.ended_at@,
            duration_seconds: self.duration_seconds,
            duration_minutes: self.duration_minutes,
            app: self.app@,
            title: self.title@,
            context: self.context@,
            kind: self.kind@,
            confidence: self.confidence,
            privacy: self.privacy@,
        }
    }
}

impl ActivityEvent {
    /// A field-by-field copy.
    pub fn copy(&self) -> (r: ActivityEvent)
        ensures
            r@ == self@,
    {
        ActivityEvent {
            id: self.id.clone(),
            started_at: self.started_at.clone(),
            ended_at: self.ended_at.clone(),
            duration_seconds: self.duration_seconds,
            duration_minutes: self.duration_minutes,
            app: self.app.clone(),
            title: self.title.clone(),
            context: self.context.clone(),
            kind: self.kind.clone(),
            confidence: self.confidence,
            privacy: self.privacy.clone(),
        }
    }
}

/// `min(a, b)` of integers.
pub open spec fn min_int(a: int, b: int) -> int {
    if a <= b {
        a
    } else {
        b
    }
}

/// The event shown for an activity at time `now`, labels in the zone `offset_seconds` east of UTC.
pub open spec fn event_of(a: ActivityView, now: u128, offset_seconds: u64) -> EventView {
    let d = total_duration(a.segments, now) % u128_modulus();
    EventView {
        id: a.id,
        started_at: time_label_of(a.first, offset_seconds),
        ended_at: if is_open(a) {
            "记录中"@
        } else {
            time_label_of(a.last, offset_seconds)
        },
        duration_seconds: min_int(d / 1000, u32::MAX as int) as u32,
        duration_minutes: min_int(d / 60_000, u16::MAX as int) as u16,
        app: a.app,
        title: a.title,
        context: "来源："@ + a.source + " · "@ + decimal(a.segments.len()) + " 段累计"@,
        kind: "当前窗口"@,
        confidence: 93,
        privacy: "Wayland provider 直接返回的元数据"@,
    }
}

/// The timeline event for an activity at time `now`.
pub fn activity_to_event(activity: &TrackedActivity, now: u128, offset_seconds: u64) -> (e: ActivityEvent)
    ensures
        e@ == event_of(activity@, now, offset_seconds),
{
    let is_open = activity_has_open_segment(activity);
    let duration_ms = activity_duration_ms(activity, now);
    let secs = duration_ms / 1000;
    let duration_seconds: u32 = if secs > u32::MAX as u128 {
        u32::MAX
    } else {
        secs as u32
    };
    let mins = duration_ms / 60_000;
    let duration_minutes: u16 = if mins > u16::MAX as u128 {
        u16::MAX
    } else {
        mins as u16
    };
    let mut context = chars_of("来源：");
    push_str(&mut context, activity.source.as_str());
    push_str(&mut context, " · ");
    let count = decimal_chars(activity.segments.len() as u128);
    let ghost before = context@;
    let mut k: usize = 0;
    while k < count.len()
        invariant
            k <= count.len(),
            context@ == before + count@.take(k as int),
        decreases count.len() - k,
    {
        context.push(count[k]);
        k = k + 1;
        assert(context@ =~= before + count@.take(k as int));
    }
    assert(count@.take(count.len() as int) =~= count@);
    push_str(&mut context, " 段累计");
    assert(context@.subrange(0, context.len() as int) =~= context@);
    ActivityEvent {
        id: activity.id.clone(),
        started_at: time_label(activity.first_started_at_ms, offset_seconds),
        ended_at: if is_open {
            String::from_str("记录中")
        } else {
            time_label(activity.last_seen_at_ms, offset_seconds)
        },
        duration_seconds,
        duration_minutes,
        app: activity.app.clone(),
        title: activity.title.clone(),
        context: string_of_range(&context, 0, context.len()),
        kind: String::from_str("当前窗口"),
        confidence: 93,
        privacy: String::from_str("Wayland provider 直接返回的元数据"),
    }
}


/// Sort key of an activity in the timeline view: open activities first,
/// then the most recently seen first (smaller comes first).
pub open spec fn order_key(a: ActivityView) -> int {
    (if is_open(a) {
        0
    } else {
        u128::MAX + 1
    }) + (u128::MAX - a.last)
}

/// Activity `x` of the timeline is listed before activity `y`: it has the
/// smaller sort key, or the same key and comes first in the timeline.
pub open spec fn listed_before(tl: Seq<ActivityView>, x: int, y: int) -> bool {
    order_key(tl[x]) < order_key(tl[y]) || (order_key(tl[x]) == order_key(tl[y]) && x < y)
}

/// `order` lists every activity of `tl` once, open ones first, then by
/// decreasing last-seen time, ties in timeline order (a stable sort).
pub open spec fn stable_order(tl: Seq<ActivityView>, order: Seq<int>) -> bool {
    &&& order.len() == tl.len()
    &&& forall|i: int| 0 <= i < order.len() ==> 0 <= #[trigger] order[i] < tl.len()
    &&& forall|i: int, j: int|
        0 <= i < j < order.len() ==> listed_before(tl, #[trigger] order[i], #[trigger] order[j])
}

/// Whether activity `k` has a smaller sort key than activity `x`.
fn ranks_earlier(timeline: &Vec<TrackedActivity>, k: usize, x: usize) -> (b: bool)
    requires
        k < timeline.len(),
        x < timeline.len(),
    ensures
        b == (order_key(timeline_view(timeline@)[k as int]) < order_key(timeline_view(timeline@)[x as int])),
{
    let k_open = activity_has_open_segment(&timeline[k]);
    let x_open = activity_has_open_segment(&timeline[x]);
    (k_open && !x_open) || (k_open == x_open && timeline[k].last_seen_at_ms > timeline[x].last_seen_at_ms)
}

/// The indices of the timeline in the order the timeline view lists them.
pub fn timeline_order(timeline: &Vec<TrackedActivity>) -> (order: Vec<usize>)
    ensures
        stable_order(timeline_view(timeline@), order@.map_values(|i: usize| i as int)),
{
    let ghost v = timeline_view(timeline@);
    let mut order: Vec<usize> = Vec::new();
    let mut k: usize = 0;
    while k < timeline.len()
        invariant
            k <= timeline.len(),
            v == timeline_view(timeline@),
            order.len() == k,
            forall|i: int| 0 <= i < order.len() ==> 0 <= #[trigger] order@[i] < k,
            forall|i: int, j: int|
                0 <= i < j < order.len() ==> listed_before(v, #[trigger] order@[i] as int, #[trigger] order@[j] as int),
        decreases timeline.len() - k,
    {
        let mut p: usize = 0;
        while p < order.len() && !ranks_earlier(timeline, k, order[p])
            invariant
                k < timeline.len(),
                p <= order.len(),
                v == timeline_view(timeline@),
                forall|i: int| 0 <= i < order.len() ==> 0 <= #[trigger] order@[i] < k,
                forall|q: int| 0 <= q < p ==> order_key(v[k as int]) >= order_key(v[#[trigger] order@[q] as int]),
            decreases order.len() - p,
        {
            p = p + 1;
        }
        let ghost old_order = order@;
        order.insert(p, k);
        proof {
            assert forall|i: int, j: int|
                0 <= i < j < order.len() implies listed_before(v, #[trigger] order@[i] as int, #[trigger] order@[j] as int) by {
                if j < p {
                    assert(order@[i] == old_order[i] && order@[j] == old_order[j]);
                } else if j == p {
                    assert(order@[i] == old_order[i]);
                } else if i == p {
                    let x = old_order[p as int] as int;
                    assert(order@[j] == old_order[j - 1]);
                    if j - 1 > p {
                        assert(listed_before(v, x, old_order[j - 1] as int));
                    }
                } else if i < p {
                    assert(order@[i] == old_order[i] && order@[j] == old_order[j - 1]);
                } else {
                    assert(order@[i] == old_order[i - 1] && order@[j] == old_order[j - 1]);
                }
            }
        }
        k = k + 1;
    }
    assert(order@.map_values(|i: usize| i as int).len() == order.len());
    order
}

/// Focus returning to a window never rewrites when an activity began: every
/// activity already in the timeline keeps its id, key and first start, and its
/// earlier segments. Either one recent activity with the window's key gains a
/// running segment from `ts` and is seen at `ts`, or a new activity that starts
/// and is seen at `ts`, with one running segment, is appended.
pub proof fn law_resume_keeps_first_start(
    tl: Seq<ActivityView>,
    w: WindowView,
    tools: Seq<Seq<char>>,
    home: Option<Seq<char>>,
    ts: u128,
)
    ensures
        ({
            let r = resumed(tl, w, tools, home, ts);
            let running = ActivitySegment { started_at_ms: ts, ended_at_ms: None };
            &&& r.len() == tl.len() || r.len() == tl.len() + 1
            &&& forall|i: int|
                0 <= i < tl.len() ==> {
                    &&& #[trigger] r[i].id == tl[i].id
                    &&& r[i].key == tl[i].key
                    &&& r[i].first == tl[i].first
                    &&& r[i].segments.len() >= tl[i].segments.len()
                    &&& r[i].segments.take(tl[i].segments.len() as int) == tl[i].segments
                }
            &&& r.len() == tl.len() ==> exists|i: int|
                0 <= i < tl.len() && #[trigger] r[i].segments == tl[i].segments.push(running)
                    && r[i].last == ts && r[i].key == activity_key(w, home) && sat_sub(ts, tl[i].last)
                    <= 30 * 60 * 1000
            &&& r.len() == tl.len() + 1 ==> {
                &&& r[tl.len() as int].first == ts
                &&& r[tl.len() as int].last == ts
                &&& r[tl.len() as int].segments == seq![running]
                &&& r[tl.len() as int].key == activity_key(w, home)
            }
        }),
{
    let key = activity_key(w, home);
    let r = resumed(tl, w, tools, home, ts);
    lemma_first_resumable_from(tl, key, ts, 0);
    match first_resumable_from(tl, key, ts, 0) {
        Some(k) => {
            assert forall|i: int| 0 <= i < tl.len() implies {
                &&& #[trigger] r[i].id == tl[i].id
                &&& r[i].key == tl[i].key
                &&& r[i].first == tl[i].first
                &&& r[i].segments.len() >= tl[i].segments.len()
                &&& r[i].segments.take(tl[i].segments.len() as int) == tl[i].segments
            } by {
                if i == k {
                    assert(r[i].segments.take(tl[i].segments.len() as int) =~= tl[i].segments);
                } else {
                    assert(r[i] == tl[i]);
                    assert(r[i].segments.take(tl[i].segments.len() as int) =~= tl[i].segments);
                }
            }
            assert(r[k].segments == tl[k].segments.push(
                ActivitySegment { started_at_ms: ts, ended_at_ms: None },
            ));
        },
        None => {
            assert forall|i: int| 0 <= i < tl.len() implies {
                &&& #[trigger] r[i].id == tl[i].id
                &&& r[i].key == tl[i].key
                &&& r[i].first == tl[i].first
                &&& r[i].segments.len() >= tl[i].segments.len()
                &&& r[i].segments.take(tl[i].segments.len() as int) == tl[i].segments
            } by {
                assert(r[i] == tl[i]);
                assert(r[i].segments.take(tl[i].segments.len() as int) =~= tl[i].segments);
            }
        },
    }
}

/// The context of an event counts every segment of its activity, the running
/// one included: it reads `来源：<source> · <number of segments> 段累计`, and
/// ending the running segment leaves it as it was.
pub proof fn law_event_counts_every_segment(a: ActivityView, now: u128, offset_seconds: u64, end: u128)
    ensures
        event_of(a, now, offset_seconds).context == "来源："@ + a.source + " · "@ + decimal(
            a.segments.len(),
        ) + " 段累计"@,
        a.segments.len() > 0 ==> event_of(closed_activity(a, end), now, offset_seconds).context
            == event_of(a, now, offset_seconds).context,
{
}

} // verus!

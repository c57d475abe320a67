//! The recorder: turning focus reports into timeline activities.
use vstd::prelude::*;
use crate::timeline::{
    close_open_activity, closed_activity, closed_at, first_open, first_open_keyed_from,
    first_resumable_from, is_open, lemma_first_open_from, lemma_first_open_keyed_from,
    lemma_first_resumable_from, lemma_least_recent_bounds, least_recent_among, open_activity_index,
    open_segment, prune_timeline, pruned, refreshed, resume_or_push_activity, resumed, sat_sub,
    timeline_limit, timeline_view, update_activity_metadata, ActivityView, TrackedActivity,
};
use crate::timeline::{
    activity_has_open_segment, activity_to_event, event_of, stable_order, timeline_order,
    ActivityEvent, EventView,
};
use crate::text::{chars_of, decimal_chars, is_ws, string_of_range, trim, trim_bounds};
use crate::window::{
    push_str, sanitize_title, sanitize_url, sanitized_title, sanitized_url,
    activity_key, activity_key_for_window, ignored_window, should_ignore_activity, ActiveWindow,
    WindowView,
};

verus! {

broadcast use vstd::string::group_string_axioms;

/// How long, in milliseconds, a new focus must hold before the timeline switches to it.
pub open spec fn focus_switch_confirm_ms() -> int {
    15_000int
}

/// A focus change that is waiting to be confirmed.
#[derive(Debug, Clone)]
pub struct PendingFocus {
    pub window: ActiveWindow,
    pub started_at_ms: u128,
}

/// Mathematical view of a [`PendingFocus`].
pub struct PendingView {
    pub window: WindowView,
    pub started: u128,
}

/// The view of an optional pending focus.
pub open spec fn pending_view(p: Option<PendingFocus>) -> Option<PendingView> {
    match p {
        Some(f) => Some(PendingView { window: f.window@, started: f.started_at_ms }),
        None => None,
    }
}

/// The state the recorder keeps between reports.
#[derive(Debug)]
pub struct RecorderState {
    pub timeline: Vec<TrackedActivity>,
    pub pending_focus: Option<PendingFocus>,
    pub recording_enabled: bool,
}

/// What reporting focus on `w` at `ts` does to the timeline and the pending focus,
/// and whether the timeline changed (and is to be saved).
pub open spec fn record_step(
    tl: Seq<ActivityView>,
    pending: Option<PendingView>,
    enabled: bool,
    w: WindowView,
    tools: Seq<Seq<char>>,
    home: Option<Seq<char>>,
    ts: u128,
) -> (Seq<ActivityView>, Option<PendingView>, bool) {
    if ignored_window(w) || !enabled {
        (tl, pending, false)
    } else {
        let key = activity_key(w, home);
        match first_open_keyed_from(tl, key, 0) {
            Some(i) => (tl.update(i, refreshed(tl[i], w, tools, ts)), None, true),
            None => {
                if first_open(tl) is None {
                    (pruned(resumed(tl, w, tools, home, ts)), None, true)
                } else {
                    match pending {
                        Some(p) => {
                            if activity_key(p.window, home) == key {
                                if sat_sub(ts, p.started) < focus_switch_confirm_ms() {
                                    (tl, Some(PendingView { window: w, started: p.started }), false)
                                } else {
                                    (
                                        pruned(
                                            resumed(closed_at(tl, p.started), w, tools, home, p.started),
                                        ),
                                        None,
                                        true,
                                    )
                                }
                            } else {
                                (tl, Some(PendingView { window: w, started: ts }), false)
                            }
                        },
                        None => (tl, Some(PendingView { window: w, started: ts }), false),
                    }
                }
            },
        }
    }
}

impl RecorderState {
    /// An empty, recording state.
    pub fn new() -> (r: RecorderState)
        ensures
            r.timeline@.len() == 0,
            r.pending_focus is None,
            r.recording_enabled,
    {
        RecorderState { timeline: Vec::new(), pending_focus: None, recording_enabled: true }
    }

    /// Whether focus reports are being recorded.
    pub fn is_recording_enabled(&self) -> (b: bool)
        ensures
            b == self.recording_enabled,
    {
        self.recording_enabled
    }

    /// Index of the first open activity whose key is `key`.
    fn open_activity_with_key(&self, key: &String) -> (r: Option<usize>)
        ensures
            r matches Some(i) ==> first_open_keyed_from(timeline_view(self.timeline@), key@, 0) == Some(
                i as int,
            ),
            r is None ==> first_open_keyed_from(timeline_view(self.timeline@), key@, 0) is None,
    {
        let ghost v = timeline_view(self.timeline@);
        let mut i: usize = 0;
        while i < self.timeline.len()
            invariant
                i <= self.timeline.len(),
                v == timeline_view(self.timeline@),
                first_open_keyed_from(v, key@, 0) == first_open_keyed_from(v, key@, i as int),
            decreases self.timeline.len() - i,
        {
            if self.timeline[i].activity_key == *key && crate::timeline::activity_has_open_segment(
                &self.timeline[i],
            ) {
                return Some(i);
            }
            i = i + 1;
        }
        None
    }

    /// Records that `window` had focus at `timestamp_ms`.
    ///
    /// Reports of the open activity refresh it; with nothing open the window's
    /// activity is resumed or started at once; a different window must keep
    /// focus for 15 s before the open activity is closed and the new one started.
    /// `tools` are the terminal process hints of `window`, `home` is `$HOME`.
    /// Returns whether the timeline changed and is to be saved.
    pub fn record_window_activity(
        &mut self,
        window: &ActiveWindow,
        tools: &Vec<String>,
        home: &Option<String>,
        timestamp_ms: u128,
    ) -> (persist: bool)
        ensures
            (timeline_view(final(self).timeline@), pending_view(final(self).pending_focus), persist)
                == record_step(
                timeline_view(old(self).timeline@),
                pending_view(old(self).pending_focus),
                old(self).recording_enabled,
                window@,
                tools@.map_values(|x: String| x@),
                home.deep_view(),
                timestamp_ms,
            ),
            final(self).recording_enabled == old(self).recording_enabled,
    {
        if should_ignore_activity(window) || !self.recording_enabled {
            return false;
        }
        let ghost v = timeline_view(self.timeline@);
        let key = activity_key_for_window(window, home);
        match self.open_activity_with_key(&key) {
            Some(i) => {
                proof {
                    lemma_first_open_keyed_from(v, key@, 0);
                }
                self.pending_focus = None;
                let mut a = self.timeline.remove(i);
                assert(a@ == v[i as int]);
                update_activity_metadata(&mut a, window, tools, timestamp_ms);
                self.timeline.insert(i, a);
                assert(timeline_view(self.timeline@) =~= v.update(
                    i as int,
                    refreshed(v[i as int], window@, tools@.map_values(|x: String| x@), timestamp_ms),
                ));
                return true;
            },
            None => {},
        }
        if open_activity_index(&self.timeline).is_none() {
            self.pending_focus = None;
            resume_or_push_activity(&mut self.timeline, window, tools, home, timestamp_ms);
            prune_timeline(&mut self.timeline);
            return true;
        }
        let confirmed_start: Option<u128> = match &self.pending_focus {
            Some(p) => {
                let pending_key = activity_key_for_window(&p.window, home);
                if pending_key == key {
                    Some(p.started_at_ms)
                } else {
                    None
                }
            },
            None => None,
        };
        match confirmed_start {
            None => {
                self.pending_focus = Some(
                    PendingFocus { window: window.copy(), started_at_ms: timestamp_ms },
                );
                false
            },
            Some(started) => {
                if timestamp_ms.saturating_sub(started) < 15_000 {
                    self.pending_focus = Some(
                        PendingFocus { window: window.copy(), started_at_ms: started },
                    );
                    return false;
                }
                self.pending_focus = None;
                close_open_activity(&mut self.timeline, started);
                resume_or_push_activity(&mut self.timeline, window, tools, home, started);
                prune_timeline(&mut self.timeline);
                true
            },
        }
    }
}


/// Index of the open activity seen last among the first `n`; a later one wins a tie
/// (`max_by_key` over the open activities).
pub open spec fn latest_open_among(tl: Seq<ActivityView>, n: int) -> Option<int>
    decreases n,
{
    if n <= 0 {
        None
    } else {
        let r = latest_open_among(tl, n - 1);
        if is_open(tl[n - 1]) {
            match r {
                Some(m) => if tl[n - 1].last >= tl[m].last {
                    Some(n - 1)
                } else {
                    Some(m)
                },
                None => Some(n - 1),
            }
        } else {
            r
        }
    }
}

/// The window an activity was recorded from.
pub open spec fn activity_window(a: ActivityView) -> WindowView {
    WindowView { app: a.app, title: a.title, source: a.source, pid: a.pid }
}

impl RecorderState {
    /// Ends the running segment of the open activity at `ended_at_ms`.
    pub fn close_current_recording(&mut self, ended_at_ms: u128)
        ensures
            timeline_view(final(self).timeline@) == closed_at(timeline_view(old(self).timeline@), ended_at_ms),
            final(self).pending_focus == old(self).pending_focus,
            final(self).recording_enabled == old(self).recording_enabled,
    {
        close_open_activity(&mut self.timeline, ended_at_ms);
    }

    /// Turns recording on or off; turning it off closes the open activity at `now_ms`.
    /// Returns `enabled`.
    pub fn set_recording_enabled(&mut self, enabled: bool, now_ms: u128) -> (r: bool)
        ensures
            r == enabled,
            final(self).recording_enabled == enabled,
            final(self).pending_focus == old(self).pending_focus,
            timeline_view(final(self).timeline@) == if enabled {
                timeline_view(old(self).timeline@)
            } else {
                closed_at(timeline_view(old(self).timeline@), now_ms)
            },
    {
        self.recording_enabled = enabled;
        if !enabled {
            self.close_current_recording(now_ms);
        }
        enabled
    }

    /// The events of the timeline at `now_ms`: open activities first, then the
    /// most recently seen first, ties in timeline order.
    pub fn timeline_events(&self, now_ms: u128, offset_seconds: u64) -> (events: Vec<ActivityEvent>)
        ensures
            exists|order: Seq<int>|
                {
                    &&& stable_order(timeline_view(self.timeline@), order)
                    &&& events@.len() == order.len()
                    &&& forall|k: int|
                        0 <= k < order.len() ==> (#[trigger] events@[k])@ == event_of(
                            timeline_view(self.timeline@)[order[k]],
                            now_ms,
                            offset_seconds,
                        )
                },
    {
        let order = timeline_order(&self.timeline);
        let ghost o = order@.map_values(|i: usize| i as int);
        let ghost v = timeline_view(self.timeline@);
        let mut events: Vec<ActivityEvent> = Vec::new();
        let mut k: usize = 0;
        while k < order.len()
            invariant
                k <= order.len(),
                o == order@.map_values(|i: usize| i as int),
                v == timeline_view(self.timeline@),
                stable_order(v, o),
                events@.len() == k,
                forall|j: int| 0 <= j < k ==> (#[trigger] events@[j])@ == event_of(v[o[j]], now_ms, offset_seconds),
            decreases order.len() - k,
        {
            let idx = order[k];
            assert(o[k as int] == idx as int);
            events.push(activity_to_event(&self.timeline[idx], now_ms, offset_seconds));
            k = k + 1;
        }
        events
    }

    /// The window of the open activity seen last, if any.
    pub fn open_timeline_window(&self) -> (r: Option<ActiveWindow>)
        ensures
            r matches Some(w) ==> latest_open_among(timeline_view(self.timeline@), self.timeline@.len() as int)
                matches Some(i) && w@ == activity_window(timeline_view(self.timeline@)[i]),
            r is None ==> latest_open_among(timeline_view(self.timeline@), self.timeline@.len() as int) is None,
    {
        let ghost v = timeline_view(self.timeline@);
        let mut best: Option<usize> = None;
        let mut i: usize = 0;
        while i < self.timeline.len()
            invariant
                i <= self.timeline.len(),
                v == timeline_view(self.timeline@),
                best == match latest_open_among(v, i as int) {
                    Some(m) => Some(m as usize),
                    None => None::<usize>,
                },
                forall|m: int| latest_open_among(v, i as int) == Some(m) ==> 0 <= m < i,
            decreases self.timeline.len() - i,
        {
            if activity_has_open_segment(&self.timeline[i]) {
                best = match best {
                    Some(m) => if self.timeline[i].last_seen_at_ms >= self.timeline[m].last_seen_at_ms {
                        Some(i)
                    } else {
                        Some(m)
                    },
                    None => Some(i),
                };
            }
            i = i + 1;
        }
        match best {
            Some(m) => {
                let a = &self.timeline[m];
                Some(ActiveWindow {
                    app: a.app.clone(),
                    title: a.title.clone(),
                    source: a.source.clone(),
                    pid: a.pid,
                })
            },
            None => None,
        }
    }
}

/// No two activities of the timeline are open at once.
pub open spec fn at_most_one_open(tl: Seq<ActivityView>) -> bool {
    forall|i: int, j: int|
        0 <= i < tl.len() && 0 <= j < tl.len() && is_open(#[trigger] tl[i]) && is_open(#[trigger] tl[j])
            ==> i == j
}

/// No activity of the timeline is open.
pub open spec fn none_open(tl: Seq<ActivityView>) -> bool {
    forall|i: int| 0 <= i < tl.len() ==> !is_open(#[trigger] tl[i])
}

proof fn lemma_remove_keeps_single_open(tl: Seq<ActivityView>, k: int)
    requires
        0 <= k < tl.len(),
        at_most_one_open(tl),
    ensures
        at_most_one_open(tl.remove(k)),
{
    let r = tl.remove(k);
    assert forall|i: int, j: int|
        0 <= i < r.len() && 0 <= j < r.len() && is_open(#[trigger] r[i]) && is_open(#[trigger] r[j])
            implies i == j by {
        let i2 = if i < k { i } else { i + 1 };
        let j2 = if j < k { j } else { j + 1 };
        assert(r[i] == tl[i2]);
        assert(r[j] == tl[j2]);
    }
}

/// Pruning keeps at most one activity open and leaves at most 100 activities;
/// a timeline already within the limit is left as it is.
pub proof fn lemma_pruned(tl: Seq<ActivityView>)
    ensures
        at_most_one_open(tl) ==> at_most_one_open(pruned(tl)),
        pruned(tl).len() <= timeline_limit(),
        tl.len() <= timeline_limit() ==> pruned(tl) == tl,
    decreases tl.len(),
{
    if tl.len() > timeline_limit() {
        let k = least_recent_among(tl, tl.len() as int);
        lemma_least_recent_bounds(tl, tl.len() as int);
        if at_most_one_open(tl) {
            lemma_remove_keeps_single_open(tl, k);
        }
        lemma_pruned(tl.remove(k));
    }
}

/// Starting focus on a timeline with nothing open leaves exactly the resumed
/// or new activity open.
pub proof fn lemma_resumed_single_open(
    tl: Seq<ActivityView>,
    w: WindowView,
    tools: Seq<Seq<char>>,
    home: Option<Seq<char>>,
    ts: u128,
)
    requires
        none_open(tl),
    ensures
        at_most_one_open(resumed(tl, w, tools, home, ts)),
{
    let key = activity_key(w, home);
    let r = resumed(tl, w, tools, home, ts);
    lemma_first_resumable_from(tl, key, ts, 0);
    match first_resumable_from(tl, key, ts, 0) {
        Some(k) => {
            assert forall|i: int, j: int|
                0 <= i < r.len() && 0 <= j < r.len() && is_open(#[trigger] r[i]) && is_open(
                    #[trigger] r[j],
                ) implies i == j by {
                if i != k {
                    assert(r[i] == tl[i]);
                }
                if j != k {
                    assert(r[j] == tl[j]);
                }
            }
        },
        None => {
            assert forall|i: int, j: int|
                0 <= i < r.len() && 0 <= j < r.len() && is_open(#[trigger] r[i]) && is_open(
                    #[trigger] r[j],
                ) implies i == j by {
                if i < tl.len() {
                    assert(r[i] == tl[i]);
                }
                if j < tl.len() {
                    assert(r[j] == tl[j]);
                }
            }
        },
    }
}

/// Closing the open activity of a timeline with at most one open leaves none open.
pub proof fn law_close_leaves_none_open(tl: Seq<ActivityView>, end: u128)
    requires
        at_most_one_open(tl),
    ensures
        none_open(closed_at(tl, end)),
        closed_at(tl, end).len() == tl.len(),
{
    lemma_first_open_from(tl, 0);
    let c = closed_at(tl, end);
    match first_open(tl) {
        Some(k) => {
            assert forall|i: int| 0 <= i < c.len() implies !is_open(#[trigger] c[i]) by {
                if i == k {
                    let a = closed_activity(tl[k], end);
                    assert(a.segments.last().ended_at_ms == Some(end));
                } else {
                    assert(c[i] == tl[i]);
                }
            }
        },
        None => {},
    }
}

/// Every report keeps the timeline to at most one open activity.
pub proof fn law_record_keeps_single_open(
    tl: Seq<ActivityView>,
    pending: Option<PendingView>,
    enabled: bool,
    w: WindowView,
    tools: Seq<Seq<char>>,
    home: Option<Seq<char>>,
    ts: u128,
)
    requires
        at_most_one_open(tl),
    ensures
        at_most_one_open(record_step(tl, pending, enabled, w, tools, home, ts).0),
{
    if !ignored_window(w) && enabled {
        let key = activity_key(w, home);
        lemma_first_open_keyed_from(tl, key, 0);
        lemma_first_open_from(tl, 0);
        match first_open_keyed_from(tl, key, 0) {
            Some(k) => {
                let r = tl.update(k, refreshed(tl[k], w, tools, ts));
                assert forall|i: int, j: int|
                    0 <= i < r.len() && 0 <= j < r.len() && is_open(#[trigger] r[i]) && is_open(
                        #[trigger] r[j],
                    ) implies i == j by {
                    assert(is_open(r[i]) == is_open(tl[i]));
                    assert(is_open(r[j]) == is_open(tl[j]));
                }
            },
            None => {
                if first_open(tl) is None {
                    lemma_resumed_single_open(tl, w, tools, home, ts);
                    lemma_pruned(resumed(tl, w, tools, home, ts));
                } else {
                    match pending {
                        Some(p) => {
                            if activity_key(p.window, home) == key && sat_sub(ts, p.started)
                                >= focus_switch_confirm_ms() {
                                law_close_leaves_none_open(tl, p.started);
                                let c = closed_at(tl, p.started);
                                lemma_resumed_single_open(c, w, tools, home, p.started);
                                lemma_pruned(resumed(c, w, tools, home, p.started));
                            }
                        },
                        None => {},
                    }
                }
            },
        }
    }
}

/// A report never leaves more than 100 activities in a timeline that had at most 100.
pub proof fn law_record_keeps_limit(
    tl: Seq<ActivityView>,
    pending: Option<PendingView>,
    enabled: bool,
    w: WindowView,
    tools: Seq<Seq<char>>,
    home: Option<Seq<char>>,
    ts: u128,
)
    requires
        tl.len() <= timeline_limit(),
    ensures
        record_step(tl, pending, enabled, w, tools, home, ts).0.len() <= timeline_limit(),
{
    if !ignored_window(w) && enabled {
        let key = activity_key(w, home);
        lemma_first_open_keyed_from(tl, key, 0);
        match first_open_keyed_from(tl, key, 0) {
            Some(k) => {},
            None => {
                lemma_pruned(resumed(tl, w, tools, home, ts));
                match pending {
                    Some(p) => {
                        lemma_pruned(resumed(closed_at(tl, p.started), w, tools, home, p.started));
                    },
                    None => {},
                }
            },
        }
    }
}

/// Repeated reports of the window whose activity is open merge into it: no
/// activity or segment is added, only the open activity's metadata is refreshed.
pub proof fn law_repeated_focus_merges(
    tl: Seq<ActivityView>,
    pending: Option<PendingView>,
    w: WindowView,
    tools: Seq<Seq<char>>,
    home: Option<Seq<char>>,
    ts: u128,
)
    requires
        !ignored_window(w),
        first_open_keyed_from(tl, activity_key(w, home), 0) is Some,
    ensures
        ({
            let r = record_step(tl, pending, true, w, tools, home, ts);
            &&& r.0.len() == tl.len()
            &&& forall|i: int| 0 <= i < tl.len() ==> (#[trigger] r.0[i]).segments == tl[i].segments
            &&& r.1 is None
            &&& r.2
        }),
{
    lemma_first_open_keyed_from(tl, activity_key(w, home), 0);
}

/// A report of another window while an activity is open changes nothing in the
/// timeline until that window has kept focus for 15 s.
pub proof fn law_switch_waits_for_confirmation(
    tl: Seq<ActivityView>,
    pending: Option<PendingView>,
    w: WindowView,
    tools: Seq<Seq<char>>,
    home: Option<Seq<char>>,
    ts: u128,
)
    requires
        !ignored_window(w),
        first_open(tl) is Some,
        first_open_keyed_from(tl, activity_key(w, home), 0) is None,
        match pending {
            Some(p) => activity_key(p.window, home) != activity_key(w, home) || sat_sub(
                ts,
                p.started,
            ) < focus_switch_confirm_ms(),
            None => true,
        },
    ensures
        ({
            let r = record_step(tl, pending, true, w, tools, home, ts);
            &&& r.0 == tl
            &&& !r.2
            &&& r.1 is Some
            &&& r.1.unwrap().window == w
        }),
{
}

/// While recording is off, reports change nothing.
pub proof fn law_disabled_records_nothing(
    tl: Seq<ActivityView>,
    pending: Option<PendingView>,
    w: WindowView,
    tools: Seq<Seq<char>>,
    home: Option<Seq<char>>,
    ts: u128,
)
    ensures
        record_step(tl, pending, false, w, tools, home, ts) == (tl, pending, false),
{
}

} // verus!

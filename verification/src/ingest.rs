//! Windows reported by the GNOME Shell extension and by the browser extension.
use vstd::prelude::*;
use crate::recorder::{record_step, pending_view, RecorderState};
use crate::text::{chars_of, decimal, decimal_chars, is_ws, string_of_range, trim, trim_bounds};
use crate::timeline::{event_of, stable_order, timeline_view, ActivityEvent, ActivityView, EventView};
use crate::timeline::sat_sub;
use crate::window::{
    push_str, sanitize_title, sanitize_url, sanitized_title, sanitized_url, ActiveWindow,
    WindowView,
};

verus! {

broadcast use vstd::string::group_string_axioms;

/// How long, in milliseconds, a GNOME report stays current.
pub open spec fn gnome_window_stale_ms() -> int {
    120_000int
}

/// Focused-window metadata posted by the GNOME Shell extension.
#[derive(Debug, Clone)]
pub struct GnomeWindowPayload {
    pub title: String,
    pub app: Option<String>,
    pub app_id: Option<String>,
    pub wm_class: Option<String>,
    pub pid: Option<u32>,
    pub workspace: Option<i64>,
    pub focused_at: Option<u128>,
}

/// A GNOME report and when it arrived.
#[derive(Debug, Clone)]
pub struct ReceivedGnomeWindow {
    pub payload: GnomeWindowPayload,
    pub received_at_ms: u128,
}

/// Tab metadata posted by the browser extension.
#[derive(Debug, Clone)]
pub struct BrowserActivityPayload {
    pub title: String,
    pub url: String,
    pub browser: Option<String>,
}

/// The first of the three names that is present, or `fallback`.
pub open spec fn first_name(
    a: Option<Seq<char>>,
    b: Option<Seq<char>>,
    c: Option<Seq<char>>,
    fallback: Seq<char>,
) -> Seq<char> {
    match a {
        Some(x) => x,
        None => match b {
            Some(x) => x,
            None => match c {
                Some(x) => x,
                None => fallback,
            },
        },
    }
}

/// The window a GNOME report describes; none for a blank title.
pub open spec fn gnome_window(p: GnomeWindowPayload) -> Option<WindowView> {
    if trim(p.title@).len() == 0 {
        None
    } else {
        Some(
            WindowView {
                app: first_name(
                    p.app.deep_view(),
                    p.app_id.deep_view(),
                    p.wm_class.deep_view(),
                    "GNOME Window"@,
                ),
                title: sanitized_title(p.title@),
                source: "gnome-shell-extension"@,
                pid: p.pid,
            },
        )
    }
}

/// Whether the text is blank (empty once trimmed).
pub fn is_blank(s: &str) -> (b: bool)
    ensures
        b == (trim(s@).len() == 0),
{
    let v = chars_of(s);
    let (lo, hi) = trim_bounds(&v, 0, v.len());
    assert(v@.subrange(0, v.len() as int) =~= v@);
    lo == hi
}

/// The window a GNOME report describes: its app (or app id, or WM class),
/// its sanitized title and pid; none when the title is blank.
pub fn active_window_from_gnome_payload(payload: &GnomeWindowPayload) -> (r: Option<ActiveWindow>)
    ensures
        r matches Some(w) ==> gnome_window(*payload) == Some(w@),
        r is None ==> gnome_window(*payload) is None,
{
    if is_blank(payload.title.as_str()) {
        return None;
    }
    let app = match &payload.app {
        Some(a) => a.clone(),
        None => match &payload.app_id {
            Some(a) => a.clone(),
            None => match &payload.wm_class {
                Some(a) => a.clone(),
                None => String::from_str("GNOME Window"),
            },
        },
    };
    Some(
        ActiveWindow {
            app,
            title: sanitize_title(payload.title.as_str()),
            source: String::from_str("gnome-shell-extension"),
            pid: payload.pid,
        },
    )
}

/// The window of the last GNOME report, if it is at most two minutes old at `now_ms`.
pub fn read_gnome_window(received: &Option<ReceivedGnomeWindow>, now_ms: u128) -> (r: Option<ActiveWindow>)
    ensures
        r matches Some(w) ==> received matches Some(g) && sat_sub(now_ms, g.received_at_ms)
            <= gnome_window_stale_ms() && gnome_window(g.payload) == Some(w@),
        r is None ==> (received matches Some(g) ==> sat_sub(now_ms, g.received_at_ms)
            > gnome_window_stale_ms() || gnome_window(g.payload) is None),
{
    match received {
        Some(g) => {
            if now_ms.saturating_sub(g.received_at_ms) > 120_000 {
                None
            } else {
                active_window_from_gnome_payload(&g.payload)
            }
        },
        None => None,
    }
}

/// The window a browser report describes.
pub open spec fn browser_window_of(p: BrowserActivityPayload) -> WindowView {
    WindowView {
        app: match p.browser {
            Some(b) => b@,
            None => "Browser"@,
        },
        title: sanitized_title(p.title@),
        source: "browser-extension · "@ + sanitized_url(p.url@),
        pid: None,
    }
}

/// The window of a browser report: its browser name, sanitized title, and the
/// URL without query string or fragment as source.
pub fn browser_window(payload: &BrowserActivityPayload) -> (w: ActiveWindow)
    ensures
        w@ == browser_window_of(*payload),
{
    let app = match &payload.browser {
        Some(b) => b.clone(),
        None => String::from_str("Browser"),
    };
    let mut source = chars_of("browser-extension · ");
    let url = sanitize_url(payload.url.as_str());
    push_str(&mut source, url.as_str());
    assert(source@.subrange(0, source.len() as int) =~= source@);
    ActiveWindow {
        app,
        title: sanitize_title(payload.title.as_str()),
        source: string_of_range(&source, 0, source.len()),
        pid: None,
    }
}

/// The events a timeline lists in `order`.
pub open spec fn events_in_order(
    tl: Seq<ActivityView>,
    order: Seq<int>,
    now: u128,
    offset_seconds: u64,
) -> Seq<EventView> {
    Seq::new(order.len(), |k: int| event_of(tl[order[k]], now, offset_seconds))
}

/// Index of the first event at index `i` or later whose title is `title`.
pub open spec fn first_titled_from(es: Seq<EventView>, title: Seq<char>, i: int) -> Option<int>
    decreases es.len() - i,
{
    if i < 0 || i >= es.len() {
        None
    } else if es[i].title == title {
        Some(i)
    } else {
        first_titled_from(es, title, i + 1)
    }
}

/// The event shown for a browser report that no timeline event matches.
pub open spec fn provisional_browser_event(w: WindowView, now: u128) -> EventView {
    EventView {
        id: "browser-"@ + decimal(now as nat),
        started_at: "刚刚"@,
        ended_at: "记录中"@,
        duration_seconds: 0,
        duration_minutes: 0,
        app: w.app,
        title: w.title,
        context: w.source,
        kind: "网页"@,
        confidence: 96,
        privacy: "URL 参数已在本地脱敏"@,
    }
}

/// The event answered to a browser report: the first listed event with the
/// window's title, or a provisional one.
pub open spec fn browser_answer(es: Seq<EventView>, w: WindowView, now: u128) -> EventView {
    match first_titled_from(es, w.title, 0) {
        Some(i) => es[i],
        None => provisional_browser_event(w, now),
    }
}

impl RecorderState {
    /// Records a browser tab report at `now_ms` and answers with its timeline event.
    ///
    /// Returns the event and whether the timeline changed (and is to be saved).
    pub fn ingest_browser_activity(
        &mut self,
        payload: &BrowserActivityPayload,
        home: &Option<String>,
        now_ms: u128,
        offset_seconds: u64,
    ) -> (r: (ActivityEvent, bool))
        ensures
            ({
                let step = record_step(
                    timeline_view(old(self).timeline@),
                    pending_view(old(self).pending_focus),
                    old(self).recording_enabled,
                    browser_window_of(*payload),
                    Seq::empty(),
                    home.deep_view(),
                    now_ms,
                );
                &&& timeline_view(final(self).timeline@) == step.0
                &&& pending_view(final(self).pending_focus) == step.1
                &&& r.1 == step.2
            }),
            final(self).recording_enabled == old(self).recording_enabled,
            exists|order: Seq<int>|
                stable_order(timeline_view(final(self).timeline@), order) && r.0@ == browser_answer(
                    events_in_order(timeline_view(final(self).timeline@), order, now_ms, offset_seconds),
                    browser_window_of(*payload),
                    now_ms,
                ),
    {
        let window = browser_window(payload);
        let tools: Vec<String> = Vec::new();
        assert(tools@.map_values(|x: String| x@) =~= Seq::<Seq<char>>::empty());
        let persist = self.record_window_activity(&window, &tools, home, now_ms);
        let events = self.timeline_events(now_ms, offset_seconds);
        let ghost order = choose|order: Seq<int>|
            {
                &&& stable_order(timeline_view(self.timeline@), order)
                &&& events@.len() == order.len()
                &&& forall|k: int|
                    0 <= k < order.len() ==> (#[trigger] events@[k])@ == event_of(
                        timeline_view(self.timeline@)[order[k]],
                        now_ms,
                        offset_seconds,
                    )
            };
        let ghost es = events_in_order(timeline_view(self.timeline@), order, now_ms, offset_seconds);
        let mut i: usize = 0;
        #[verifier::loop_isolation(false)]
        while i < events.len()
            invariant
                i <= events.len(),
                es.len() == events@.len(),
                forall|k: int| 0 <= k < es.len() ==> #[trigger] es[k] == events@[k]@,
                first_titled_from(es, window@.title, 0) == first_titled_from(es, window@.title, i as int),
            decreases events.len() - i,
        {
            if events[i].title == window.title {
                let e = events[i].copy();
                assert(e@ == es[i as int]);
                return (e, persist);
            }
            i = i + 1;
        }
        let mut id = chars_of("browser-");
        let digits = decimal_chars(now_ms);
        let ghost before = id@;
        let mut k: usize = 0;
        while k < digits.len()
            invariant
                k <= digits.len(),
                id@ == before + digits@.take(k as int),
            decreases digits.len() - k,
        {
            id.push(digits[k]);
            k = k + 1;
            assert(id@ =~= before + digits@.take(k as int));
        }
        assert(digits@.take(digits.len() as int) =~= digits@);
        assert(id@.subrange(0, id.len() as int) =~= id@);
        let e = ActivityEvent {
            id: string_of_range(&id, 0, id.len()),
            started_at: String::from_str("刚刚"),
            ended_at: String::from_str("记录中"),
            duration_seconds: 0,
            duration_minutes: 0,
            app: window.app,
            title: window.title,
            context: window.source,
            kind: String::from_str("网页"),
            confidence: 96,
            privacy: String::from_str("URL 参数已在本地脱敏"),
        };
        (e, persist)
    }
}

} // verus!

//! The stored form of the recorder: where its database and bridge token live,
//! how activities map to table rows and back, and the bridge token itself.
use vstd::prelude::*;
use crate::clock::{day_start, day_start_ms, i64_from_u128, u128_from_i64};
use crate::text::{hex_chars, hexadecimal, string_of_range};
use crate::timeline::{ActivitySegment, ActivityView, TrackedActivity};
use crate::window::push_str;

verus! {

broadcast use vstd::string::group_string_axioms;

/// `PathBuf::join` with a relative path: a `/` goes between unless the base is
/// empty or already ends with one.
pub open spec fn path_join(base: Seq<char>, rel: Seq<char>) -> Seq<char> {
    if base.len() == 0 || base.last() == '/' {
        base + rel
    } else {
        base + seq!['/'] + rel
    }
}

/// The data directory: `$XDG_DATA_HOME`, else `$HOME/.local/share`.
pub open spec fn data_home(xdg_data_home: Option<Seq<char>>, home: Option<Seq<char>>) -> Option<Seq<char>> {
    match xdg_data_home {
        Some(x) => Some(x),
        None => match home {
            Some(h) => Some(path_join(h, ".local/share"@)),
            None => None,
        },
    }
}

/// A file of the recorder's own directory under the data directory.
pub open spec fn app_file(xdg_data_home: Option<Seq<char>>, home: Option<Seq<char>>, name: Seq<char>) -> Option<Seq<char>> {
    match data_home(xdg_data_home, home) {
        Some(d) => Some(path_join(path_join(d, "devflow-recorder"@), name)),
        None => None,
    }
}

/// Appends `rel` to the path `v` as `PathBuf::push` does.
fn push_path(v: &mut Vec<char>, rel: &str)
    ensures
        final(v)@ == path_join(old(v)@, rel@),
{
    if v.len() > 0 && v[v.len() - 1] != '/' {
        v.push('/');
    }
    push_str(v, rel);
}

/// The file `name` in the recorder's directory, from the values of
/// `$XDG_DATA_HOME` and `$HOME`; none when neither is set.
fn app_file_path(xdg_data_home: &Option<String>, home: &Option<String>, name: &str) -> (r: Option<String>)
    ensures
        r matches Some(p) ==> app_file(xdg_data_home.deep_view(), home.deep_view(), name@) == Some(p@),
        r is None ==> app_file(xdg_data_home.deep_view(), home.deep_view(), name@) is None,
{
    let mut v: Vec<char> = Vec::new();
    match xdg_data_home {
        Some(x) => push_str(&mut v, x.as_str()),
        None => match home {
            Some(h) => {
                push_str(&mut v, h.as_str());
                push_path(&mut v, ".local/share");
            },
            None => {
                return None;
            },
        },
    }
    assert(v@ =~= data_home(xdg_data_home.deep_view(), home.deep_view())->0);
    push_path(&mut v, "devflow-recorder");
    push_path(&mut v, name);
    let n = v.len();
    assert(v@.subrange(0, n as int) =~= v@);
    Some(string_of_range(&v, 0, n))
}

/// Where the SQLite database lives.
pub fn database_path(xdg_data_home: &Option<String>, home: &Option<String>) -> (r: Option<String>)
    ensures
        r matches Some(p) ==> app_file(
            xdg_data_home.deep_view(),
            home.deep_view(),
            "devflow-recorder.sqlite"@,
        ) == Some(p@),
        r is None ==> data_home(xdg_data_home.deep_view(), home.deep_view()) is None,
{
    app_file_path(xdg_data_home, home, "devflow-recorder.sqlite")
}

/// Where the bridge token is written: beside the database.
pub fn bridge_token_path(xdg_data_home: &Option<String>, home: &Option<String>) -> (r: Option<String>)
    ensures
        r matches Some(p) ==> app_file(xdg_data_home.deep_view(), home.deep_view(), "bridge-token"@)
            == Some(p@),
        r is None ==> data_home(xdg_data_home.deep_view(), home.deep_view()) is None,
{
    app_file_path(xdg_data_home, home, "bridge-token")
}

/// The bridge token made at start-up: the start time in milliseconds and the
/// process id, in lowercase hexadecimal, joined by `-`.
pub open spec fn token_text(now_ms: u128, pid: u32) -> Seq<char> {
    hexadecimal(now_ms as nat) + seq!['-'] + hexadecimal(pid as nat)
}

/// The bridge token for a start at `now_ms` by process `pid`.
pub fn bridge_token(now_ms: u128, pid: u32) -> (r: String)
    ensures
        r@ == token_text(now_ms, pid),
{
    let a = hex_chars(now_ms);
    let b = hex_chars(pid as u128);
    let mut v: Vec<char> = Vec::new();
    let mut i: usize = 0;
    while i < a.len()
        invariant
            i <= a.len(),
            v@ == a@.take(i as int),
        decreases a.len() - i,
    {
        v.push(a[i]);
        i = i + 1;
        assert(v@ =~= a@.take(i as int));
    }
    v.push('-');
    let ghost mid = v@;
    let mut j: usize = 0;
    while j < b.len()
        invariant
            j <= b.len(),
            v@ == mid + b@.take(j as int),
        decreases b.len() - j,
    {
        v.push(b[j]);
        j = j + 1;
        assert(v@ =~= mid + b@.take(j as int));
    }
    assert(a@.take(a.len() as int) =~= a@);
    assert(b@.take(b.len() as int) =~= b@);
    let n = v.len();
    assert(v@.subrange(0, n as int) =~= token_text(now_ms, pid));
    string_of_range(&v, 0, n)
}

/// A time as stored: milliseconds clamped to `i64::MAX`.
pub open spec fn stored_ms(v: u128) -> i64 {
    if v <= i64::MAX {
        v as i64
    } else {
        i64::MAX
    }
}

/// A stored time as read back: negative values read as 0.
pub open spec fn loaded_ms(v: i64) -> u128 {
    if v >= 0 {
        v as u128
    } else {
        0
    }
}

/// A stored pid as read back: values outside `u32` read as none.
pub open spec fn loaded_pid(p: Option<i64>) -> Option<u32> {
    match p {
        Some(x) => if 0 <= x <= u32::MAX {
            Some(x as u32)
        } else {
            None
        },
        None => None,
    }
}

/// A row of the `activities` table.
#[derive(Debug)]
pub struct ActivityRow {
    pub id: String,
    pub activity_key: String,
    pub first_started_at_ms: i64,
    pub last_seen_at_ms: i64,
    pub app: String,
    pub title: String,
    pub normalized_title: String,
    pub source: String,
    pub pid: Option<i64>,
}

/// A row of the `activity_segments` table, without its activity id.
#[derive(Debug, Clone, Copy)]
pub struct SegmentRow {
    pub started_at_ms: i64,
    pub ended_at_ms: Option<i64>,
}

/// The stored form of a segment.
pub open spec fn segment_row_of(s: ActivitySegment) -> SegmentRow {
    SegmentRow {
        started_at_ms: stored_ms(s.started_at_ms),
        ended_at_ms: match s.ended_at_ms {
            Some(e) => Some(stored_ms(e)),
            None => None,
        },
    }
}

/// A segment as read back from its row.
pub open spec fn segment_of_row(r: SegmentRow) -> ActivitySegment {
    ActivitySegment {
        started_at_ms: loaded_ms(r.started_at_ms),
        ended_at_ms: match r.ended_at_ms {
            Some(e) => Some(loaded_ms(e)),
            None => None,
        },
    }
}

/// The text and number fields of an activity's row.
pub open spec fn row_matches(row: ActivityRow, a: ActivityView) -> bool {
    &&& row.id@ == a.id
    &&& row.activity_key@ == a.key
    &&& row.first_started_at_ms == stored_ms(a.first)
    &&& row.last_seen_at_ms == stored_ms(a.last)
    &&& row.app@ == a.app
    &&& row.title@ == a.title
    &&& row.normalized_title@ == a.normalized
    &&& row.source@ == a.source
    &&& row.pid == match a.pid {
        Some(p) => Some(p as i64),
        None => None,
    }
}

/// The activity a row and its segment rows are read back as.
pub open spec fn activity_of_rows(row: ActivityRow, segments: Seq<SegmentRow>) -> ActivityView {
    ActivityView {
        id: row.id@,
        key: row.activity_key@,
        first: loaded_ms(row.first_started_at_ms),
        last: loaded_ms(row.last_seen_at_ms),
        app: row.app@,
        title: row.title@,
        normalized: row.normalized_title@,
        source: row.source@,
        pid: loaded_pid(row.pid),
        segments: segments.map_values(|r: SegmentRow| segment_of_row(r)),
    }
}

/// The `activities` row of an activity.
pub fn activity_row(activity: &TrackedActivity) -> (r: ActivityRow)
    ensures
        row_matches(r, activity@),
{
    ActivityRow {
        id: activity.id.clone(),
        activity_key: activity.activity_key.clone(),
        first_started_at_ms: i64_from_u128(activity.first_started_at_ms),
        last_seen_at_ms: i64_from_u128(activity.last_seen_at_ms),
        app: activity.app.clone(),
        title: activity.title.clone(),
        normalized_title: activity.normalized_title.clone(),
        source: activity.source.clone(),
        pid: match activity.pid {
            Some(p) => Some(p as i64),
            None => None,
        },
    }
}

/// The `activity_segments` rows of an activity, in order.
pub fn segment_rows(activity: &TrackedActivity) -> (r: Vec<SegmentRow>)
    ensures
        r@ == activity.segments@.map_values(|s: ActivitySegment| segment_row_of(s)),
{
    let mut out: Vec<SegmentRow> = Vec::new();
    let mut i: usize = 0;
    while i < activity.segments.len()
        invariant
            i <= activity.segments.len(),
            out@ == activity.segments@.take(i as int).map_values(|s: ActivitySegment| segment_row_of(s)),
        decreases activity.segments.len() - i,
    {
        let s = activity.segments[i];
        let row = SegmentRow {
            started_at_ms: i64_from_u128(s.started_at_ms),
            ended_at_ms: match s.ended_at_ms {
                Some(e) => Some(i64_from_u128(e)),
                None => None,
            },
        };
        out.push(row);
        i = i + 1;
        assert(out@ =~= activity.segments@.take(i as int).map_values(
            |s: ActivitySegment| segment_row_of(s),
        ));
    }
    assert(activity.segments@.take(activity.segments.len() as int) =~= activity.segments@);
    out
}

/// The activity stored as `row` with the segment rows `segments`, in order.
pub fn activity_from_rows(row: ActivityRow, segments: &Vec<SegmentRow>) -> (a: TrackedActivity)
    ensures
        a@ == activity_of_rows(row, segments@),
{
    let mut segs: Vec<ActivitySegment> = Vec::new();
    let mut i: usize = 0;
    while i < segments.len()
        invariant
            i <= segments.len(),
            segs@ == segments@.take(i as int).map_values(|r: SegmentRow| segment_of_row(r)),
        decreases segments.len() - i,
    {
        let r = segments[i];
        segs.push(
            ActivitySegment {
                started_at_ms: u128_from_i64(r.started_at_ms),
                ended_at_ms: match r.ended_at_ms {
                    Some(e) => Some(u128_from_i64(e)),
                    None => None,
                },
            },
        );
        i = i + 1;
        assert(segs@ =~= segments@.take(i as int).map_values(|r: SegmentRow| segment_of_row(r)));
    }
    assert(segments@.take(segments.len() as int) =~= segments@);
    let pid: Option<u32> = match row.pid {
        Some(p) => if 0 <= p && p <= u32::MAX as i64 {
            Some(p as u32)
        } else {
            None
        },
        None => None,
    };
    TrackedActivity {
        id: row.id,
        activity_key: row.activity_key,
        first_started_at_ms: u128_from_i64(row.first_started_at_ms),
        last_seen_at_ms: u128_from_i64(row.last_seen_at_ms),
        app: row.app,
        title: row.title,
        normalized_title: row.normalized_title,
        source: row.source,
        pid,
        segments: segs,
    }
}

/// The earliest `last_seen_at_ms` loaded at start-up: the start of the local day
/// of `now_ms`, as stored.
pub fn load_cutoff_ms(now_ms: u128, offset_seconds: u64) -> (r: i64)
    requires
        now_ms + offset_seconds * 1000 <= u128::MAX,
        day_start(now_ms, offset_seconds) >= 0,
    ensures
        r == stored_ms(day_start(now_ms, offset_seconds) as u128),
{
    i64_from_u128(day_start_ms(now_ms, offset_seconds))
}

/// All times of an activity fit the stored range.
pub open spec fn storable(a: ActivityView) -> bool {
    &&& a.first <= i64::MAX
    &&& a.last <= i64::MAX
    &&& forall|k: int| 0 <= k < a.segments.len() ==> {
        &&& #[trigger] a.segments[k].started_at_ms <= i64::MAX
        &&& a.segments[k].ended_at_ms matches Some(e) ==> e <= i64::MAX
    }
}

/// What is read back of a stored activity is the activity: its row and segment
/// rows give back every field, when its times fit the stored range.
pub proof fn law_rows_round_trip(a: ActivityView, row: ActivityRow)
    requires
        storable(a),
        row_matches(row, a),
    ensures
        activity_of_rows(row, a.segments.map_values(|s: ActivitySegment| segment_row_of(s))) == a,
{
    let back = activity_of_rows(row, a.segments.map_values(|s: ActivitySegment| segment_row_of(s)));
    assert(back.segments =~= a.segments);
}

} // verus!

//! Decisions of the local bridge: which endpoint a request is for, whether it
//! carries the token, how a GNOME report is taken in, and what is answered.
use vstd::prelude::*;
use crate::http::{
    ascii_fold, eq_ignore_ascii_case, field_parts, field_value, first_field_from, header_of,
    header_section, header_value, http_response, lines, response_text, split_lines,
};
use crate::ingest::{
    active_window_from_gnome_payload, gnome_window, is_blank, GnomeWindowPayload,
    ReceivedGnomeWindow,
};
use crate::text::{chars_of, find_exec, split_once, starts_with, starts_with_str, string_of_range, trim};
use crate::window::{ActiveWindow, WindowView};

verus! {

broadcast use vstd::string::group_string_axioms;

/// The request line: the first line of the request, or nothing.
pub open spec fn request_line(request: Seq<char>) -> Seq<char> {
    if lines(request).len() > 0 {
        lines(request)[0]
    } else {
        Seq::empty()
    }
}

/// The body of a request: what follows the first blank line, or nothing.
pub open spec fn request_body(request: Seq<char>) -> Seq<char> {
    match split_once(request, seq!['\r', '\n', '\r', '\n']) {
        Some(parts) => parts.1,
        None => Seq::empty(),
    }
}

/// A request carries the bridge token: the token is set and the
/// `x-devflow-token` header holds exactly it.
pub open spec fn token_valid(request: Seq<char>, expected: Seq<char>) -> bool {
    expected.len() > 0 && header_of(request, "x-devflow-token"@) == Some(expected)
}

/// Whether `request` carries the bridge token `expected`; an unset (empty)
/// token admits nothing.
pub fn bridge_token_is_valid(request: &str, expected: &str) -> (b: bool)
    ensures
        b == token_valid(request@, expected@),
{
    if expected.is_empty() {
        return false;
    }
    match header_value(request, "x-devflow-token") {
        Some(token) => crate::text::str_eq(token.as_str(), expected),
        None => false,
    }
}

/// Where the bridge sends a request.
#[derive(Debug)]
pub enum BridgeRoute {
    /// `GET /health`.
    Health,
    /// A CORS preflight (`OPTIONS`).
    Preflight,
    /// Any other endpoint.
    NotFound,
    /// A GNOME report without the bridge token.
    Unauthorized,
    /// A GNOME report with the token, and its body.
    GnomeWindow { body: String },
}

/// What a route stands for.
pub enum RouteView {
    Health,
    Preflight,
    NotFound,
    Unauthorized,
    GnomeWindow(Seq<char>),
}

impl View for BridgeRoute {
    type V = RouteView;

    open spec fn view(&self) -> RouteView {
        match self {
            BridgeRoute::Health => RouteView::Health,
            BridgeRoute::Preflight => RouteView::Preflight,
            BridgeRoute::NotFound => RouteView::NotFound,
            BridgeRoute::Unauthorized => RouteView::Unauthorized,
            BridgeRoute::GnomeWindow { body } => RouteView::GnomeWindow(body@),
        }
    }
}

/// The route of a request: health checks and preflights are answered at once,
/// GNOME reports must carry the token, and everything else is not found.
pub open spec fn route_of(request: Seq<char>, expected: Seq<char>) -> RouteView {
    let first = request_line(request);
    if starts_with(first, "GET /health "@) {
        RouteView::Health
    } else if starts_with(first, "OPTIONS "@) {
        RouteView::Preflight
    } else if !starts_with(first, "POST /v1/gnome/window "@) {
        RouteView::NotFound
    } else if !token_valid(request, expected) {
        RouteView::Unauthorized
    } else {
        RouteView::GnomeWindow(request_body(request))
    }
}

/// Where the bridge sends `request` when its token is `expected_token`.
pub fn route_bridge_request(request: &str, expected_token: &str) -> (r: BridgeRoute)
    ensures
        r@ == route_of(request@, expected_token@),
{
    let ls = split_lines(request);
    let ghost lv = ls@.map_values(|l: String| l@);
    let first: String = if ls.len() > 0 {
        assert(ls@[0]@ == lv[0]);
        ls[0].clone()
    } else {
        String::new()
    };
    assert(first@ == request_line(request@));
    if starts_with_str(first.as_str(), "GET /health ") {
        return BridgeRoute::Health;
    }
    if starts_with_str(first.as_str(), "OPTIONS ") {
        return BridgeRoute::Preflight;
    }
    if !starts_with_str(first.as_str(), "POST /v1/gnome/window ") {
        return BridgeRoute::NotFound;
    }
    if !bridge_token_is_valid(request, expected_token) {
        return BridgeRoute::Unauthorized;
    }
    let v = chars_of(request);
    let mut pat: Vec<char> = Vec::new();
    pat.push('\r');
    pat.push('\n');
    pat.push('\r');
    pat.push('\n');
    assert(pat@ =~= seq!['\r', '\n', '\r', '\n']);
    let body = match find_exec(&v, &pat, 0) {
        Some(i) => {
            assert(i + pat@.len() <= v@.len());
            assert(i + 4 <= v.len());
            let b = string_of_range(&v, i + 4, v.len());
            assert(b@ =~= v@.skip(i + 4));
            b
        },
        None => String::new(),
    };
    BridgeRoute::GnomeWindow { body }
}

/// What the bridge answers.
#[derive(Debug)]
pub enum BridgeReply {
    /// `200 OK` with `{"ok":true}`.
    Healthy,
    /// `204 No Content`.
    NoContent,
    /// `404 Not Found`.
    NotFound,
    /// `401 Unauthorized`.
    Unauthorized,
    /// `400 Bad Request` for a request that could not be read, with the reason.
    BadRequest { reason: String },
    /// `400 Bad Request` for a body that is not a GNOME report, with the parser's message.
    InvalidJson { message: String },
    /// `422 Unprocessable Entity` for a report with a blank title.
    EmptyTitle,
}

/// Status, reason phrase, content type and body of a reply.
pub open spec fn reply_parts(r: BridgeReply) -> (u16, Seq<char>, Seq<char>, Seq<char>) {
    match r {
        BridgeReply::Healthy => (200, "OK"@, "application/json"@, "{\"ok\":true}"@),
        BridgeReply::NoContent => (204, "No Content"@, "text/plain"@, Seq::empty()),
        BridgeReply::NotFound => (404, "Not Found"@, "text/plain"@, "not found"@),
        BridgeReply::Unauthorized => (401, "Unauthorized"@, "text/plain"@, "unauthorized"@),
        BridgeReply::BadRequest { reason } => (400, "Bad Request"@, "text/plain"@, reason@),
        BridgeReply::InvalidJson { message } => (
            400,
            "Bad Request"@,
            "text/plain"@,
            "invalid json: "@ + message@,
        ),
        BridgeReply::EmptyTitle => (422, "Unprocessable Entity"@, "text/plain"@, "empty title"@),
    }
}

/// The full response text of a reply.
pub fn reply_text(reply: &BridgeReply) -> (r: String)
    ensures
        ({
            let p = reply_parts(*reply);
            r@ == response_text(p.0, p.1, p.2, p.3)
        }),
{
    match reply {
        BridgeReply::Healthy => http_response(200, "OK", "application/json", "{\"ok\":true}"),
        BridgeReply::NoContent => {
            proof {
                reveal_strlit("");
            }
            http_response(204, "No Content", "text/plain", "")
        },
        BridgeReply::NotFound => http_response(404, "Not Found", "text/plain", "not found"),
        BridgeReply::Unauthorized => http_response(401, "Unauthorized", "text/plain", "unauthorized"),
        BridgeReply::BadRequest { reason } => http_response(
            400,
            "Bad Request",
            "text/plain",
            reason.as_str(),
        ),
        BridgeReply::InvalidJson { message } => {
            let mut v = chars_of("invalid json: ");
            crate::window::push_str(&mut v, message.as_str());
            let n = v.len();
            let body = string_of_range(&v, 0, n);
            assert(v@.subrange(0, n as int) =~= v@);
            http_response(400, "Bad Request", "text/plain", body.as_str())
        },
        BridgeReply::EmptyTitle => http_response(
            422,
            "Unprocessable Entity",
            "text/plain",
            "empty title",
        ),
    }
}

/// The reply a route gets at once; a GNOME report is answered only after its
/// body is read.
pub fn route_reply(route: &BridgeRoute) -> (r: Option<BridgeReply>)
    ensures
        route@ matches RouteView::GnomeWindow(_) ==> r is None,
        route@ matches RouteView::Health ==> r == Some(BridgeReply::Healthy),
        route@ matches RouteView::Preflight ==> r == Some(BridgeReply::NoContent),
        route@ matches RouteView::NotFound ==> r == Some(BridgeReply::NotFound),
        route@ matches RouteView::Unauthorized ==> r == Some(BridgeReply::Unauthorized),
{
    match route {
        BridgeRoute::Health => Some(BridgeReply::Healthy),
        BridgeRoute::Preflight => Some(BridgeReply::NoContent),
        BridgeRoute::NotFound => Some(BridgeReply::NotFound),
        BridgeRoute::Unauthorized => Some(BridgeReply::Unauthorized),
        BridgeRoute::GnomeWindow { .. } => None,
    }
}

/// How a GNOME report is taken in.
#[derive(Debug)]
pub enum GnomeAcceptance {
    /// The title is blank: the report is refused.
    EmptyTitle,
    /// The report is kept as the latest GNOME window, and `window` is to be
    /// recorded as focused at `timestamp_ms`.
    Accepted { received: ReceivedGnomeWindow, window: ActiveWindow, timestamp_ms: u128 },
}

/// Takes in a GNOME report that arrived at `now_ms`: a blank title is refused;
/// otherwise the report is kept with its arrival time and its window is
/// recorded as focused when the report says, or at arrival.
pub fn accept_gnome_payload(payload: GnomeWindowPayload, now_ms: u128) -> (r: GnomeAcceptance)
    ensures
        trim(payload.title@).len() == 0 <==> r is EmptyTitle,
        r matches GnomeAcceptance::Accepted { received, window, timestamp_ms } ==> {
            &&& received.payload == payload
            &&& received.received_at_ms == now_ms
            &&& gnome_window(payload) == Some(window@)
            &&& timestamp_ms == match payload.focused_at {
                Some(t) => t,
                None => now_ms,
            }
        },
{
    if is_blank(payload.title.as_str()) {
        return GnomeAcceptance::EmptyTitle;
    }
    let window = match active_window_from_gnome_payload(&payload) {
        Some(w) => w,
        None => {
            return GnomeAcceptance::EmptyTitle;
        },
    };
    let timestamp_ms = match payload.focused_at {
        Some(t) => t,
        None => now_ms,
    };
    GnomeAcceptance::Accepted {
        received: ReceivedGnomeWindow { payload, received_at_ms: now_ms },
        window,
        timestamp_ms,
    }
}

/// No GNOME report is taken in without the bridge token: a request reaches the
/// report endpoint only when its `x-devflow-token` header equals the token, and
/// never while no token is set.
pub proof fn law_reports_need_the_token(request: Seq<char>, expected: Seq<char>)
    ensures
        route_of(request, expected) is GnomeWindow ==> header_of(request, "x-devflow-token"@) == Some(
            expected,
        ),
        expected.len() == 0 ==> !(route_of(request, expected) is GnomeWindow),
{
}

/// Names that agree ignoring ASCII case find the same field in every line.
proof fn lemma_field_value_case(line: Seq<char>, a: Seq<char>, b: Seq<char>)
    requires
        eq_ignore_ascii_case(a, b),
    ensures
        field_value(line, a) == field_value(line, b),
{
    match field_parts(line) {
        Some(parts) => {
            if eq_ignore_ascii_case(parts.0, a) {
                assert forall|i: int| 0 <= i < parts.0.len() implies ascii_fold(#[trigger] parts.0[i])
                    == ascii_fold(b[i]) by {
                    assert(ascii_fold(parts.0[i]) == ascii_fold(a[i]));
                    assert(ascii_fold(a[i]) == ascii_fold(b[i]));
                }
            }
            if eq_ignore_ascii_case(parts.0, b) {
                assert forall|i: int| 0 <= i < parts.0.len() implies ascii_fold(#[trigger] parts.0[i])
                    == ascii_fold(a[i]) by {
                    assert(ascii_fold(parts.0[i]) == ascii_fold(b[i]));
                    assert(ascii_fold(a[i]) == ascii_fold(b[i]));
                }
            }
        },
        None => {},
    }
}

proof fn lemma_first_field_case(ls: Seq<Seq<char>>, a: Seq<char>, b: Seq<char>, i: int)
    requires
        eq_ignore_ascii_case(a, b),
    ensures
        first_field_from(ls, a, i) == first_field_from(ls, b, i),
    decreases ls.len() - i,
{
    if 0 <= i < ls.len() {
        lemma_field_value_case(ls[i], a, b);
        lemma_first_field_case(ls, a, b, i + 1);
    }
}

/// Header names match in any ASCII case: asking for `X-DevFlow-Token` or
/// `x-devflow-token` finds the same value.
pub proof fn law_header_names_ignore_case(request: Seq<char>, a: Seq<char>, b: Seq<char>)
    requires
        eq_ignore_ascii_case(a, b),
    ensures
        header_of(request, a) == header_of(request, b),
{
    lemma_first_field_case(lines(header_section(request)), a, b, 1);
}

/// The token check is exact: a request passes exactly when the token is set and
/// its `x-devflow-token` header equals it, whatever the token's length; and a
/// GNOME report that carries the token is taken in with its body.
pub proof fn law_token_admits_exactly_matching_reports(request: Seq<char>, expected: Seq<char>)
    ensures
        token_valid(request, expected) <==> (expected.len() > 0 && header_of(
            request,
            "x-devflow-token"@,
        ) == Some(expected)),
        starts_with(request_line(request), "POST /v1/gnome/window "@) && expected.len() > 0
            && header_of(request, "x-devflow-token"@) == Some(expected) ==> route_of(request, expected)
            == RouteView::GnomeWindow(request_body(request)),
{
    let first = request_line(request);
    if starts_with(first, "POST /v1/gnome/window "@) {
        reveal_strlit("POST /v1/gnome/window ");
        reveal_strlit("GET /health ");
        reveal_strlit("OPTIONS ");
        assert(first[0] == first.take(22)[0]);
        assert(first.take(22)[0] == 'P');
        if starts_with(first, "GET /health "@) {
            assert(first.take(12)[0] == first[0]);
        }
        if starts_with(first, "OPTIONS "@) {
            assert(first.take(8)[0] == first[0]);
        }
    }
}

} // verus!

//! Window metadata: titles, terminal titles, activity keys.
use vstd::prelude::*;
use crate::text::{
    after_last_char, before_char, before_char_len, chars_eq, chars_of, contains_seq,
    contains_str, copy_range, find_exec, is_whitespace, is_ws, lemma_trim_end_by,
    lemma_trim_start_by, lemma_before_char, lowercase, occurs_at, rfind_exec, rsplit_once, split_once, starts_with, str_eq,
    string_of_range, to_lowercase, trim, trim_bounds, trim_end_by, trim_start_by,
};

verus! {

broadcast use vstd::string::group_string_axioms;

/// The window that has focus, as a provider reports it.
#[derive(Debug, Clone)]
pub struct ActiveWindow {
    pub app: String,
    pub title: String,
    pub source: String,
    pub pid: Option<u32>,
}

/// Mathematical view of an [`ActiveWindow`].
pub struct WindowView {
    pub app: Seq<char>,
    pub title: Seq<char>,
    pub source: Seq<char>,
    pub pid: Option<u32>,
}

impl View for ActiveWindow {
    type V = WindowView;

    open spec fn view(&self) -> WindowView {
        WindowView { app: self.app@, title: self.title@, source: self.source@, pid: self.pid }
    }
}

impl ActiveWindow {
    /// A field-by-field copy.
    pub fn copy(&self) -> (r: ActiveWindow)
        ensures
            r@ == self@,
    {
        ActiveWindow {
            app: self.app.clone(),
            title: self.title.clone(),
            source: self.source.clone(),
            pid: self.pid,
        }
    }
}

/// Where the working directory of a terminal title points.
#[derive(Debug, Clone)]
pub struct TerminalCwdHint {
    pub path: String,
    pub exact: bool,
}

/// The longest length a title keeps.
pub open spec fn title_limit() -> nat {
    160
}

/// A title as shown: trimmed, `Untitled` when empty, at most 160 characters.
pub open spec fn sanitized_title(s: Seq<char>) -> Seq<char> {
    let t = trim(s);
    if t.len() == 0 {
        "Untitled"@
    } else if t.len() <= title_limit() {
        t
    } else {
        t.take(title_limit() as int)
    }
}

/// A URL without its fragment and without its query string.
pub open spec fn sanitized_url(s: Seq<char>) -> Seq<char> {
    before_char(before_char(s, '#'), '?')
}


/// A sanitized URL is a prefix of the URL that holds neither a query string nor
/// a fragment: no `?` and no `#`.
pub proof fn law_sanitized_url_drops_query_and_fragment(url: Seq<char>)
    ensures
        ({
            let r = sanitized_url(url);
            &&& r == url.take(r.len() as int)
            &&& forall|k: int| 0 <= k < r.len() ==> #[trigger] r[k] != '?' && r[k] != '#'
        }),
{
    let a = before_char(url, '#');
    let r = before_char(a, '?');
    lemma_before_char(url, '#');
    lemma_before_char(a, '?');
    assert forall|k: int| 0 <= k < r.len() implies #[trigger] r[k] != '?' && r[k] != '#' by {
        assert(r[k] == a[k]);
    }
    assert(r =~= url.take(r.len() as int));
}

/// White space and braille-pattern spinner characters that lead titles.
pub open spec fn is_title_noise(c: char) -> bool {
    is_ws(c) || (0x2800 <= (c as u32) <= 0x28ff)
}

/// A title with its leading spinner/white-space noise and its outer white space removed.
pub open spec fn normalized_title(s: Seq<char>) -> Seq<char> {
    trim(trim_start_by(s, |c: char| is_title_noise(c)))
}

/// The normalized title, or the sanitized raw title when normalizing left nothing.
pub open spec fn activity_title(raw: Seq<char>, normalized: Seq<char>) -> Seq<char> {
    if normalized.len() == 0 {
        sanitized_title(raw)
    } else {
        normalized
    }
}

/// Whether an application name denotes a terminal emulator.
pub open spec fn terminal_app(app: Seq<char>) -> bool {
    let l = lowercase(app);
    contains_seq(l, "terminal"@) || contains_seq(l, "gnome-terminal"@) || l == "终端"@
}

/// The location part of a terminal title: after the last `": "`, before the first `" · "`.
pub open spec fn terminal_title_part(title: Seq<char>) -> Seq<char> {
    let t1 = match rsplit_once(title, ": "@) {
        Some(p) => p.1,
        None => title,
    };
    match split_once(t1, " · "@) {
        Some(p) => p.0,
        None => t1,
    }
}

/// The last path component that a terminal title shows, sanitized.
pub open spec fn terminal_tail(title: Seq<char>) -> Seq<char> {
    let w = trim(terminal_title_part(title));
    if w == "~"@ || w.len() == 0 {
        sanitized_title(w)
    } else {
        let t = trim_end_by(w, |c: char| c == '/');
        if t.len() == 0 {
            sanitized_title(w)
        } else {
            sanitized_title(after_last_char(t, '/'))
        }
    }
}

/// The characters of `s` with every `/` removed from its end.
pub open spec fn without_trailing_slashes(s: Seq<char>) -> Seq<char> {
    trim_end_by(s, |c: char| c == '/')
}

/// `s` with every leading `"~/"` removed.
pub open spec fn strip_home_prefixes(s: Seq<char>) -> Seq<char>
    decreases s.len(),
{
    if s.len() >= 2 && s[0] == '~' && s[1] == '/' {
        strip_home_prefixes(s.skip(2))
    } else {
        s
    }
}

/// The path `home/cwd` for a `~/` working directory, without trailing slashes.
fn home_cwd_path(home: &String, cwd: &Vec<char>) -> (r: String)
    ensures
        r@ == without_trailing_slashes(home@ + "/"@ + strip_home_prefixes(cwd@)),
{
    let mut k: usize = 0;
    assert(cwd@.skip(0) =~= cwd@);
    while k < cwd.len() && cwd.len() - k >= 2 && cwd[k] == '~' && cwd[k + 1] == '/'
        invariant
            k <= cwd.len(),
            strip_home_prefixes(cwd@) == strip_home_prefixes(cwd@.skip(k as int)),
        decreases cwd.len() - k,
    {
        assert(cwd@.skip(k as int).skip(2) =~= cwd@.skip(k + 2));
        k = k + 2;
    }
    proof {
        let t = cwd@.skip(k as int);
        if t.len() >= 2 && t[0] == '~' && t[1] == '/' {
            assert(cwd@[k as int] == '~');
        }
    }
    let mut joined = chars_of(home.as_str());
    push_str(&mut joined, "/");
    let rest = copy_range(cwd, k, cwd.len());
    assert(rest@ =~= cwd@.skip(k as int));
    let mut i: usize = 0;
    let ghost base = joined@;
    while i < rest.len()
        invariant
            i <= rest.len(),
            joined@ == base + rest@.take(i as int),
        decreases rest.len() - i,
    {
        joined.push(rest[i]);
        i = i + 1;
        assert(joined@ =~= base + rest@.take(i as int));
    }
    assert(rest@.take(rest.len() as int) =~= rest@);
    let e = trailing_slash_cut(&joined);
    assert(joined@.subrange(0, e as int) =~= joined@.take(e as int));
    string_of_range(&joined, 0, e)
}

/// The working-directory hint of a terminal title, as `(path, exact)`.
pub open spec fn cwd_hint(title: Seq<char>, home: Option<Seq<char>>) -> Option<(Seq<char>, bool)> {
    cwd_hint_of(trim(terminal_title_part(title)), home)
}

/// The working-directory hint for the trimmed location text `cwd` of a terminal title.
pub open spec fn cwd_hint_of(cwd: Seq<char>, home: Option<Seq<char>>) -> Option<(Seq<char>, bool)> {
    if cwd.len() == 0 {
        None
    } else if cwd == "~"@ {
        match home {
            Some(h) => Some((h, true)),
            None => None,
        }
    } else if starts_with(cwd, "~/"@) {
        match home {
            Some(h) => Some(
                (without_trailing_slashes(h + "/"@ + strip_home_prefixes(cwd)), false),
            ),
            None => None,
        }
    } else if cwd[0] == '/' {
        Some((without_trailing_slashes(cwd), false))
    } else {
        Some((without_trailing_slashes(cwd), true))
    }
}

/// The title shown before any process hint is added.
pub open spec fn base_title(w: WindowView) -> Seq<char> {
    if terminal_app(w.app) {
        terminal_tail(w.title)
    } else {
        sanitized_title(w.title)
    }
}

/// `items` joined with `sep` between consecutive items.
pub open spec fn joined(items: Seq<Seq<char>>, sep: Seq<char>) -> Seq<char>
    decreases items.len(),
{
    if items.len() == 0 {
        Seq::empty()
    } else if items.len() == 1 {
        items[0]
    } else {
        joined(items.drop_last(), sep) + sep + items.last()
    }
}

/// The title shown for a window, with the terminal's process hints appended.
pub open spec fn display_title(w: WindowView, tools: Seq<Seq<char>>) -> Seq<char> {
    if terminal_app(w.app) && w.pid is Some && tools.len() > 0 {
        base_title(w) + " · "@ + joined(tools, ", "@)
    } else {
        base_title(w)
    }
}

/// The title part of the key under which focus time is aggregated.
pub open spec fn key_title(w: WindowView, home: Option<Seq<char>>) -> Seq<char> {
    if terminal_app(w.app) {
        match cwd_hint(w.title, home) {
            Some(h) => h.0,
            None => terminal_tail(w.title),
        }
    } else {
        base_title(w)
    }
}

/// The key under which focus time is aggregated.
pub open spec fn activity_key(w: WindowView, home: Option<Seq<char>>) -> Seq<char> {
    lowercase(w.app) + ":"@ + lowercase(normalized_title(key_title(w, home)))
}

/// Windows of the recorder itself, which are never recorded.
pub open spec fn ignored_window(w: WindowView) -> bool {
    lowercase(w.app) == "devflow_recorder"@ || lowercase(w.title) == "devflow recorder"@
}

/// [`sanitized_title`] of the characters `v[lo..hi]`.
fn sanitize_range(v: &Vec<char>, lo: usize, hi: usize) -> (r: String)
    requires
        lo <= hi <= v.len(),
    ensures
        r@ == sanitized_title(v@.subrange(lo as int, hi as int)),
{
    let (a, b) = trim_bounds(v, lo, hi);
    if a == b {
        String::from_str("Untitled")
    } else if b - a <= 160 {
        string_of_range(v, a, b)
    } else {
        let r = string_of_range(v, a, a + 160);
        assert(v@.subrange(a as int, a + 160) =~= v@.subrange(a as int, b as int).take(160));
        r
    }
}

/// Trims a title, caps it at 160 characters, and names an empty one `Untitled`.
pub fn sanitize_title(title: &str) -> (r: String)
    ensures
        r@ == sanitized_title(title@),
{
    let v = chars_of(title);
    assert(v@.subrange(0, v.len() as int) =~= v@);
    sanitize_range(&v, 0, v.len())
}

/// Drops the fragment and the query string of a URL.
pub fn sanitize_url(url: &str) -> (r: String)
    ensures
        r@ == sanitized_url(url@),
{
    let v = chars_of(url);
    let n1 = before_char_len(&v, '#');
    let w = copy_range(&v, 0, n1);
    assert(w@ =~= v@.take(n1 as int));
    let n2 = before_char_len(&w, '?');
    assert(w@.subrange(0, n2 as int) =~= w@.take(n2 as int));
    string_of_range(&w, 0, n2)
}

/// Whether `c` is white space or a braille spinner character.
fn is_title_noise_char(c: char) -> (b: bool)
    ensures
        b == is_title_noise(c),
{
    let u = c as u32;
    is_whitespace(c) || (0x2800 <= u && u <= 0x28ff)
}

/// Removes leading spinner characters and the surrounding white space of a title.
pub fn normalize_title_for_activity(title: &str) -> (r: String)
    ensures
        r@ == normalized_title(title@),
{
    let v = chars_of(title);
    let mut lo: usize = 0;
    while lo < v.len() && is_title_noise_char(v[lo])
        invariant
            lo <= v.len(),
            forall|j: int| 0 <= j < lo ==> is_title_noise(#[trigger] v@[j]),
        decreases v.len() - lo,
    {
        lo = lo + 1;
    }
    proof {
        let p = |c: char| is_title_noise(c);
        assert forall|j: int| 0 <= j < lo implies p(#[trigger] v@[j]) by {}
        lemma_trim_start_by(v@, p, lo as int);
        assert(v@.skip(lo as int) =~= v@.subrange(lo as int, v.len() as int));
    }
    let (a, b) = trim_bounds(&v, lo, v.len());
    string_of_range(&v, a, b)
}

/// The normalized title, or the sanitized raw title when the normalized one is empty.
pub fn display_activity_title(raw_title: &str, normalized_title: &str) -> (r: String)
    ensures
        r@ == activity_title(raw_title@, normalized_title@),
{
    if normalized_title.unicode_len() == 0 {
        sanitize_title(raw_title)
    } else {
        String::from_str(normalized_title)
    }
}

/// Whether the application is a terminal emulator.
pub fn is_terminal_app(app: &str) -> (b: bool)
    ensures
        b == terminal_app(app@),
{
    let l = to_lowercase(app);
    contains_str(l.as_str(), "terminal") || contains_str(l.as_str(), "gnome-terminal") || str_eq(
        l.as_str(),
        "终端",
    )
}

/// Bounds of [`terminal_title_part`] inside `v`.
fn terminal_title_part_bounds(v: &Vec<char>) -> (r: (usize, usize))
    ensures
        r.0 <= r.1 <= v.len(),
        v@.subrange(r.0 as int, r.1 as int) == terminal_title_part(v@),
{
    let colon = chars_of(": ");
    let dot = chars_of(" · ");
    let lo = match rfind_exec(v, &colon) {
        Some(i) => {
            assert(occurs_at(v@, colon@, i as int));
            i + colon.len()
        },
        None => 0,
    };
    assert(v@.skip(lo as int) =~= v@.subrange(lo as int, v.len() as int));
    assert(v@.subrange(0, v.len() as int) =~= v@);
    let t1 = copy_range(v, lo, v.len());
    match find_exec(&t1, &dot, 0) {
        Some(j) => {
            assert(t1@.take(j as int) =~= v@.subrange(lo as int, lo + j));
            (lo, lo + j)
        },
        None => (lo, v.len()),
    }
}

/// The last path component that a terminal title shows.
pub fn terminal_title_tail(title: &str) -> (r: String)
    ensures
        r@ == terminal_tail(title@),
{
    let v = chars_of(title);
    let (lo, hi) = terminal_title_part_bounds(&v);
    let (a, b) = trim_bounds(&v, lo, hi);
    let w = copy_range(&v, a, b);
    let tilde = chars_of("~");
    assert(w@.subrange(0, w.len() as int) =~= w@);
    if chars_eq(&w, &tilde) || w.len() == 0 {
        return sanitize_range(&w, 0, w.len());
    }
    let mut e = w.len();
    while e > 0 && w[e - 1] == '/'
        invariant
            e <= w.len(),
            forall|j: int| e <= j < w.len() ==> #[trigger] w@[j] == '/',
        decreases e,
    {
        e = e - 1;
    }
    proof {
        let p = |c: char| c == '/';
        assert forall|j: int| e <= j < w@.len() implies p(#[trigger] w@[j]) by {}
        lemma_trim_end_by(w@, p, e as int);
    }
    if e == 0 {
        return sanitize_range(&w, 0, w.len());
    }
    let t = copy_range(&w, 0, e);
    assert(t@ =~= w@.take(e as int));
    let slash = vec!['/'];
    assert(slash@ =~= seq!['/']);
    assert(t@.subrange(0, t.len() as int) =~= t@);
    match rfind_exec(&t, &slash) {
        Some(i) => {
            assert(t@.skip(i + 1) =~= t@.subrange(i + 1, t.len() as int));
            sanitize_range(&t, i + 1, t.len())
        },
        None => sanitize_range(&t, 0, t.len()),
    }
}


/// Appends the characters of `s` to `v`.
pub fn push_str(v: &mut Vec<char>, s: &str)
    ensures
        final(v)@ == old(v)@ + s@,
{
    let c = chars_of(s);
    let mut i: usize = 0;
    while i < c.len()
        invariant
            i <= c.len(),
            c@ == s@,
            v@ == old(v)@ + c@.take(i as int),
        decreases c.len() - i,
    {
        v.push(c[i]);
        i = i + 1;
        assert(v@ =~= old(v)@ + c@.take(i as int));
    }
    assert(c@.take(c.len() as int) =~= c@);
}

/// Length of `v` once every `/` is removed from its end.
fn trailing_slash_cut(v: &Vec<char>) -> (e: usize)
    ensures
        e <= v.len(),
        v@.take(e as int) == without_trailing_slashes(v@),
{
    let mut e = v.len();
    while e > 0 && v[e - 1] == '/'
        invariant
            e <= v.len(),
            forall|j: int| e <= j < v.len() ==> #[trigger] v@[j] == '/',
        decreases e,
    {
        e = e - 1;
    }
    proof {
        let p = |c: char| c == '/';
        assert forall|j: int| e <= j < v@.len() implies p(#[trigger] v@[j]) by {}
        lemma_trim_end_by(v@, p, e as int);
    }
    e
}

/// The working-directory hint for the location text `cwd` of a terminal title.
fn cwd_hint_from(cwd: &Vec<char>, home: &Option<String>) -> (r: Option<TerminalCwdHint>)
    ensures
        r matches Some(h) ==> cwd_hint_of(cwd@, home.deep_view()) == Some((h.path@, h.exact)),
        r is None ==> cwd_hint_of(cwd@, home.deep_view()) is None,
{
    if cwd.len() == 0 {
        return None;
    }
    let tilde = chars_of("~");
    if chars_eq(cwd, &tilde) {
        return match home {
            Some(h) => Some(TerminalCwdHint { path: h.clone(), exact: true }),
            None => None,
        };
    }
    let is_home_relative = cwd.len() >= 2 && cwd[0] == '~' && cwd[1] == '/';
    proof {
        reveal_strlit("~/");
        let p = "~/"@;
        assert(p =~= seq!['~', '/']);
        if cwd@.len() >= 2 {
            if starts_with(cwd@, p) {
                assert(cwd@[0] == cwd@.take(2)[0]);
                assert(cwd@[1] == cwd@.take(2)[1]);
            }
            if is_home_relative {
                assert(cwd@.take(2) =~= p);
            }
        }
        assert(is_home_relative == starts_with(cwd@, p));
    }
    if is_home_relative {
        return match home {
            Some(h) => Some(TerminalCwdHint { path: home_cwd_path(h, cwd), exact: false }),
            None => None,
        };
    }
    let e = trailing_slash_cut(cwd);
    assert(cwd@.subrange(0, e as int) =~= cwd@.take(e as int));
    let path = string_of_range(cwd, 0, e);
    Some(TerminalCwdHint { path, exact: cwd[0] != '/' })
}

/// The working-directory hint of a terminal title.
///
/// `home` is the user's home directory (`$HOME`), used for `~` paths.
pub fn terminal_cwd_hint(title: &str, home: &Option<String>) -> (r: Option<TerminalCwdHint>)
    ensures
        r matches Some(h) ==> cwd_hint(title@, home.deep_view()) == Some((h.path@, h.exact)),
        r is None ==> cwd_hint(title@, home.deep_view()) is None,
{
    let v = chars_of(title);
    let (lo, hi) = terminal_title_part_bounds(&v);
    let (a, b) = trim_bounds(&v, lo, hi);
    let cwd = copy_range(&v, a, b);
    cwd_hint_from(&cwd, home)
}

/// The title shown before process hints: the terminal tail for terminals,
/// the sanitized title otherwise.
pub fn base_display_title_for_window(window: &ActiveWindow) -> (r: String)
    ensures
        r@ == base_title(window@),
{
    if is_terminal_app(window.app.as_str()) {
        terminal_title_tail(window.title.as_str())
    } else {
        sanitize_title(window.title.as_str())
    }
}

/// `items` joined with `sep`.
pub fn join_strings(items: &Vec<String>, sep: &str) -> (r: Vec<char>)
    ensures
        r@ == joined(items@.map_values(|x: String| x@), sep@),
{
    let ghost views = items@.map_values(|x: String| x@);
    let mut out: Vec<char> = Vec::new();
    let mut i: usize = 0;
    while i < items.len()
        invariant
            i <= items.len(),
            views == items@.map_values(|x: String| x@),
            out@ == joined(views.take(i as int), sep@),
        decreases items.len() - i,
    {
        if i > 0 {
            push_str(&mut out, sep);
        }
        push_str(&mut out, items[i].as_str());
        proof {
            let t = views.take(i + 1);
            assert(t.drop_last() =~= views.take(i as int));
            assert(t.last() == items@[i as int]@);
            if i == 0 {
                assert(out@ =~= t[0]);
            }
        }
        i = i + 1;
    }
    assert(views.take(items.len() as int) =~= views);
    out
}

/// The title shown for a window.
///
/// `tools` are the process hints found under the terminal's process
/// (`terminal_process_names`); they are appended for a terminal with a pid.
pub fn display_title_for_window(window: &ActiveWindow, tools: &Vec<String>) -> (r: String)
    ensures
        r@ == display_title(window@, tools@.map_values(|x: String| x@)),
{
    let base = base_display_title_for_window(window);
    if is_terminal_app(window.app.as_str()) && window.pid.is_some() && tools.len() > 0 {
        let mut out = chars_of(base.as_str());
        push_str(&mut out, " · ");
        let j = join_strings(tools, ", ");
        let ghost before = out@;
        let mut i: usize = 0;
        while i < j.len()
            invariant
                i <= j.len(),
                out@ == before + j@.take(i as int),
            decreases j.len() - i,
        {
            out.push(j[i]);
            i = i + 1;
            assert(out@ =~= before + j@.take(i as int));
        }
        assert(j@.take(j.len() as int) =~= j@);
        assert(out@.subrange(0, out.len() as int) =~= out@);
        string_of_range(&out, 0, out.len())
    } else {
        base
    }
}

/// The title part of the activity key: the working directory for terminals
/// (or the title tail when none can be read), the display title otherwise.
pub fn activity_key_title_for_window(window: &ActiveWindow, home: &Option<String>) -> (r: String)
    ensures
        r@ == key_title(window@, home.deep_view()),
{
    if is_terminal_app(window.app.as_str()) {
        return match terminal_cwd_hint(window.title.as_str(), home) {
            Some(hint) => hint.path,
            None => terminal_title_tail(window.title.as_str()),
        };
    }
    base_display_title_for_window(window)
}

/// The key under which focus time of a window is aggregated:
/// lowercase application, `:`, lowercase normalized key title.
pub fn activity_key_for_window(window: &ActiveWindow, home: &Option<String>) -> (r: String)
    ensures
        r@ == activity_key(window@, home.deep_view()),
{
    let app = to_lowercase(window.app.as_str());
    let title = activity_key_title_for_window(window, home);
    let normalized = normalize_title_for_activity(title.as_str());
    let lower_title = to_lowercase(normalized.as_str());
    let mut out = chars_of(app.as_str());
    push_str(&mut out, ":");
    push_str(&mut out, lower_title.as_str());
    assert(out@.subrange(0, out.len() as int) =~= out@);
    string_of_range(&out, 0, out.len())
}

/// Whether the window belongs to the recorder itself.
pub fn should_ignore_activity(window: &ActiveWindow) -> (b: bool)
    ensures
        b == ignored_window(window@),
{
    let app = to_lowercase(window.app.as_str());
    let title = to_lowercase(window.title.as_str());
    str_eq(app.as_str(), "devflow_recorder") || str_eq(title.as_str(), "devflow recorder")
}

} // verus!

//! Desktop providers: compositor window reports and provider status.
use vstd::prelude::*;
use crate::clock::{age_label, short_age_label};
use crate::json::{
    bool_of, find_focused_node, focused_node, json_document, member, parse_json, text_of, u64_of,
    Json,
};
use crate::text::{chars_of, contains_seq, contains_str, lowercase, string_of_range, to_lowercase};
use crate::window::{push_str, sanitize_title, sanitized_title, ActiveWindow, WindowView};
use crate::ingest::ReceivedGnomeWindow;
use crate::timeline::sat_sub;

verus! {

broadcast use vstd::string::group_string_axioms;

/// The text, or `fallback` when there is none.
pub open spec fn text_or(t: Option<Seq<char>>, fallback: Seq<char>) -> Seq<char> {
    match t {
        Some(x) => x,
        None => fallback,
    }
}

/// A pid as the window reports keep it (`as u32`, truncating).
pub open spec fn pid_of(n: Option<u64>) -> Option<u32> {
    match n {
        Some(p) => Some(p as u32),
        None => None,
    }
}

/// The window that `hyprctl activewindow -j` describes.
pub open spec fn hyprland_window(v: Json) -> WindowView {
    WindowView {
        app: text_or(text_of(member(v, "class"@)), "Unknown"@),
        title: sanitized_title(text_or(text_of(member(v, "title"@)), "Untitled"@)),
        source: "hyprctl activewindow"@,
        pid: pid_of(u64_of(member(v, "pid"@))),
    }
}

/// The application member of a sway node: `app_id`, or else `window_properties.class`.
pub open spec fn sway_app_member(f: Json) -> Option<Json> {
    match member(f, "app_id"@) {
        Some(x) => Some(x),
        None => match member(f, "window_properties"@) {
            Some(p) => member(p, "class"@),
            None => None,
        },
    }
}

/// The window of a focused sway node.
pub open spec fn sway_window(f: Json) -> WindowView {
    WindowView {
        app: text_or(text_of(sway_app_member(f)), "Unknown"@),
        title: sanitized_title(text_or(text_of(member(f, "name"@)), "Untitled"@)),
        source: "swaymsg get_tree"@,
        pid: pid_of(u64_of(member(f, "pid"@))),
    }
}

/// The text of an optional string member, or `fallback`.
fn member_text_or(v: Option<&Json>, fallback: &str) -> (r: String)
    ensures
        r@ == text_or(
            text_of(
                match v {
                    Some(x) => Some(*x),
                    None => None,
                },
            ),
            fallback@,
        ),
{
    match v {
        Some(x) => match x.as_str() {
            Some(s) => s.clone(),
            None => String::from_str(fallback),
        },
        None => String::from_str(fallback),
    }
}

/// The pid of an optional number member.
fn member_pid(v: Option<&Json>) -> (r: Option<u32>)
    ensures
        r == pid_of(
            u64_of(
                match v {
                    Some(x) => Some(*x),
                    None => None,
                },
            ),
        ),
{
    match v {
        Some(x) => match x.as_u64() {
            Some(p) => Some(p as u32),
            None => None,
        },
        None => None,
    }
}

/// The window of a Hyprland `activewindow` document.
pub fn hyprland_window_from_json(value: &Json) -> (w: ActiveWindow)
    ensures
        w@ == hyprland_window(*value),
{
    let app = member_text_or(value.get("class"), "Unknown");
    let title = member_text_or(value.get("title"), "Untitled");
    ActiveWindow {
        app,
        title: sanitize_title(title.as_str()),
        source: String::from_str("hyprctl activewindow"),
        pid: member_pid(value.get("pid")),
    }
}

/// The window of the focused node of a sway tree.
pub fn sway_window_from_json(focused: &Json) -> (w: ActiveWindow)
    ensures
        w@ == sway_window(*focused),
{
    let app_member = match focused.get("app_id") {
        Some(x) => Some(x),
        None => match focused.get("window_properties") {
            Some(p) => p.get("class"),
            None => None,
        },
    };
    let app = member_text_or(app_member, "Unknown");
    let title = member_text_or(focused.get("name"), "Untitled");
    ActiveWindow {
        app,
        title: sanitize_title(title.as_str()),
        source: String::from_str("swaymsg get_tree"),
        pid: member_pid(focused.get("pid")),
    }
}

/// The window that the output of `hyprctl activewindow -j` describes.
pub fn hyprland_window_from_output(stdout: &[u8]) -> (r: Option<ActiveWindow>)
    ensures
        r matches Some(w) ==> json_document(stdout@) matches Some(v) && w@ == hyprland_window(v),
        r is None ==> json_document(stdout@) is None,
{
    match parse_json(stdout) {
        Some(v) => Some(hyprland_window_from_json(&v)),
        None => None,
    }
}

/// The window of the focused node that the output of `swaymsg -t get_tree` describes.
pub fn sway_window_from_output(stdout: &[u8]) -> (r: Option<ActiveWindow>)
    ensures
        r matches Some(w) ==> json_document(stdout@) matches Some(v) && focused_node(v) matches Some(
            f,
        ) && w@ == sway_window(f),
        r is None ==> (json_document(stdout@) matches Some(v) ==> focused_node(v) is None),
{
    match parse_json(stdout) {
        Some(v) => match find_focused_node(&v) {
            Some(f) => Some(sway_window_from_json(f)),
            None => None,
        },
        None => None,
    }
}

/// The bytes of an optional output.
pub open spec fn bytes_of(o: Option<Vec<u8>>) -> Option<Seq<u8>> {
    match o {
        Some(v) => Some(v@),
        None => None,
    }
}

/// The window a compositor reports: from Hyprland's output if it names one,
/// else from sway's output.
pub open spec fn compositor_window(hyprland: Option<Seq<u8>>, sway: Option<Seq<u8>>) -> Option<WindowView> {
    let h = match hyprland {
        Some(out) => match json_document(out) {
            Some(v) => Some(hyprland_window(v)),
            None => None,
        },
        None => None,
    };
    match h {
        Some(w) => Some(w),
        None => match sway {
            Some(out) => match json_document(out) {
                Some(v) => match focused_node(v) {
                    Some(f) => Some(sway_window(f)),
                    None => None,
                },
                None => None,
            },
            None => None,
        },
    }
}

/// The active window from the compositor outputs at hand (`None` where a
/// compositor is not running or its command failed): Hyprland first, then sway.
pub fn read_active_window(hyprland_stdout: &Option<Vec<u8>>, sway_stdout: &Option<Vec<u8>>) -> (r: Option<
    ActiveWindow,
>)
    ensures
        r matches Some(w) ==> compositor_window(bytes_of(*hyprland_stdout), bytes_of(*sway_stdout))
            == Some(w@),
        r is None ==> compositor_window(bytes_of(*hyprland_stdout), bytes_of(*sway_stdout)) is None,
{
    let h = match hyprland_stdout {
        Some(out) => hyprland_window_from_output(out.as_slice()),
        None => None,
    };
    match h {
        Some(w) => Some(w),
        None => match sway_stdout {
            Some(out) => sway_window_from_output(out.as_slice()),
            None => None,
        },
    }
}


/// The state of one desktop provider, as the status panel lists it.
#[derive(Debug, Clone)]
pub struct ProviderStatus {
    pub id: String,
    pub name: String,
    pub state: String,
    pub detail: String,
}

/// Mathematical view of a [`ProviderStatus`].
pub struct ProviderView {
    pub id: Seq<char>,
    pub name: Seq<char>,
    pub state: Seq<char>,
    pub detail: Seq<char>,
}

impl View for ProviderStatus {
    type V = ProviderView;

    open spec fn view(&self) -> ProviderView {
        ProviderView { id: self.id@, name: self.name@, state: self.state@, detail: self.detail@ }
    }
}

/// The desktop is GNOME (or Ubuntu's GNOME session).
pub open spec fn gnome_desktop(desktop: Seq<char>) -> bool {
    let l = lowercase(desktop);
    contains_seq(l, "gnome"@) || contains_seq(l, "ubuntu"@)
}

/// The desktop is KDE Plasma.
pub open spec fn kde_desktop(desktop: Seq<char>) -> bool {
    let l = lowercase(desktop);
    contains_seq(l, "kde"@) || contains_seq(l, "plasma"@)
}

/// `ready` when the condition holds, `standby` otherwise.
pub open spec fn ready_or_standby(ready: bool) -> Seq<char> {
    if ready {
        "ready"@
    } else {
        "standby"@
    }
}

/// The status of the GNOME Shell extension, given the age of its last report.
pub open spec fn gnome_status(age: Option<u128>) -> ProviderView {
    let (state, detail) = match age {
        Some(a) => if a <= 10_000 {
            ("ready"@, "GNOME Shell 扩展正在上报窗口元数据，最近一次在 "@ + age_label(a as nat) + " 前。"@)
        } else {
            (
                "partial"@,
                "本地接收端已启动，但 GNOME Shell 扩展最近一次上报是 "@ + age_label(a as nat)
                    + " 前，可能已停用。"@,
            )
        },
        None => ("standby"@, "本地接收端已就绪；安装并启用 GNOME Shell 扩展后可上报焦点窗口。"@),
    };
    ProviderView { id: "gnome-shell-extension"@, name: "GNOME Shell 扩展"@, state, detail }
}

/// The provider list for a desktop: Hyprland, sway and the browser bridge always,
/// then GNOME, KWin and the X11 fallback where they apply.
pub open spec fn provider_list(
    desktop: Seq<char>,
    session_type: Option<Seq<char>>,
    hyprland_ready: bool,
    sway_ready: bool,
    qdbus_available: bool,
    gnome_age: Option<u128>,
) -> Seq<ProviderView> {
    let base = seq![
        ProviderView {
            id: "hyprland"@,
            name: "Hyprland activewindow"@,
            state: ready_or_standby(hyprland_ready),
            detail: "通过 hyprctl activewindow -j 读取当前窗口。"@,
        },
        ProviderView {
            id: "sway"@,
            name: "Sway tree"@,
            state: ready_or_standby(sway_ready),
            detail: "通过 swaymsg -t get_tree 查找 focused 节点。"@,
        },
        ProviderView {
            id: "browser-extension"@,
            name: "浏览器扩展桥"@,
            state: "planned"@,
            detail: "扩展将把激活标签页标题和脱敏 URL 发给本地 Tauri 命令。"@,
        },
    ];
    let with_gnome = if gnome_desktop(desktop) {
        base.push(gnome_status(gnome_age))
    } else {
        base
    };
    let with_kde = if kde_desktop(desktop) {
        with_gnome.push(
            ProviderView {
                id: "kwin"@,
                name: "KDE KWin DBus"@,
                state: if qdbus_available {
                    "partial"@
                } else {
                    "standby"@
                },
                detail: "KWin 可通过脚本/DBus 扩展，默认接口不保证暴露窗口标题。"@,
            },
        )
    } else {
        with_gnome
    };
    if session_type == Some("x11"@) {
        with_kde.push(
            ProviderView {
                id: "x11-fallback"@,
                name: "X11 fallback"@,
                state: "available"@,
                detail: "仅作为兼容兜底，不作为第一优先级。"@,
            },
        )
    } else {
        with_kde
    }
}

/// A status entry from literal texts.
fn status(id: &str, name: &str, state: &str, detail: String) -> (r: ProviderStatus)
    ensures
        r@ == (ProviderView { id: id@, name: name@, state: state@, detail: detail@ }),
{
    ProviderStatus {
        id: String::from_str(id),
        name: String::from_str(name),
        state: String::from_str(state),
        detail,
    }
}

/// `a + b + c` as a string.
fn concat3(a: &str, b: &str, c: &str) -> (r: String)
    ensures
        r@ == a@ + b@ + c@,
{
    let mut v = chars_of(a);
    push_str(&mut v, b);
    push_str(&mut v, c);
    assert(v@.subrange(0, v.len() as int) =~= v@);
    string_of_range(&v, 0, v.len())
}

/// The status of the GNOME Shell extension for the age of its last report.
pub fn gnome_provider_status(age_ms: Option<u128>) -> (r: ProviderStatus)
    ensures
        r@ == gnome_status(age_ms),
{
    match age_ms {
        Some(age) => {
            let label = short_age_label(age);
            if age <= 10_000 {
                status(
                    "gnome-shell-extension",
                    "GNOME Shell 扩展",
                    "ready",
                    concat3("GNOME Shell 扩展正在上报窗口元数据，最近一次在 ", label.as_str(), " 前。"),
                )
            } else {
                status(
                    "gnome-shell-extension",
                    "GNOME Shell 扩展",
                    "partial",
                    concat3(
                        "本地接收端已启动，但 GNOME Shell 扩展最近一次上报是 ",
                        label.as_str(),
                        " 前，可能已停用。",
                    ),
                )
            }
        },
        None => status(
            "gnome-shell-extension",
            "GNOME Shell 扩展",
            "standby",
            String::from_str("本地接收端已就绪；安装并启用 GNOME Shell 扩展后可上报焦点窗口。"),
        ),
    }
}

/// The age at `now_ms` of the last GNOME report, if there was one.
pub fn gnome_report_age(received: &Option<ReceivedGnomeWindow>, now_ms: u128) -> (r: Option<u128>)
    ensures
        r == match received {
            Some(g) => Some(sat_sub(now_ms, g.received_at_ms) as u128),
            None => None::<u128>,
        },
{
    match received {
        Some(g) => Some(now_ms.saturating_sub(g.received_at_ms)),
        None => None,
    }
}

/// The provider statuses for a desktop.
///
/// `hyprland_ready` / `sway_ready`: the compositor's command exists and its
/// socket variable is set; `qdbus_available`: `qdbus` or `qdbus6` exists;
/// `gnome_age_ms`: age of the last GNOME report.
pub fn provider_statuses(
    desktop: &str,
    session_type: &Option<String>,
    hyprland_ready: bool,
    sway_ready: bool,
    qdbus_available: bool,
    gnome_age_ms: Option<u128>,
) -> (r: Vec<ProviderStatus>)
    ensures
        r@.map_values(|p: ProviderStatus| p@) == provider_list(
            desktop@,
            session_type.deep_view(),
            hyprland_ready,
            sway_ready,
            qdbus_available,
            gnome_age_ms,
        ),
{
    let lower = to_lowercase(desktop);
    let is_gnome = contains_str(lower.as_str(), "gnome") || contains_str(lower.as_str(), "ubuntu");
    let is_kde = contains_str(lower.as_str(), "kde") || contains_str(lower.as_str(), "plasma");
    let mut providers: Vec<ProviderStatus> = Vec::new();
    providers.push(
        status(
            "hyprland",
            "Hyprland activewindow",
            if hyprland_ready {
                "ready"
            } else {
                "standby"
            },
            String::from_str("通过 hyprctl activewindow -j 读取当前窗口。"),
        ),
    );
    providers.push(
        status(
            "sway",
            "Sway tree",
            if sway_ready {
                "ready"
            } else {
                "standby"
            },
            String::from_str("通过 swaymsg -t get_tree 查找 focused 节点。"),
        ),
    );
    providers.push(
        status(
            "browser-extension",
            "浏览器扩展桥",
            "planned",
            String::from_str("扩展将把激活标签页标题和脱敏 URL 发给本地 Tauri 命令。"),
        ),
    );
    if is_gnome {
        providers.push(gnome_provider_status(gnome_age_ms));
    }
    if is_kde {
        providers.push(
            status(
                "kwin",
                "KDE KWin DBus",
                if qdbus_available {
                    "partial"
                } else {
                    "standby"
                },
                String::from_str("KWin 可通过脚本/DBus 扩展，默认接口不保证暴露窗口标题。"),
            ),
        );
    }
    let is_x11 = match session_type {
        Some(t) => crate::text::str_eq(t.as_str(), "x11"),
        None => false,
    };
    if is_x11 {
        providers.push(
            status(
                "x11-fallback",
                "X11 fallback",
                "available",
                String::from_str("仅作为兼容兜底，不作为第一优先级。"),
            ),
        );
    }
    assert(providers@.map_values(|p: ProviderStatus| p@) =~= provider_list(
        desktop@,
        session_type.deep_view(),
        hyprland_ready,
        sway_ready,
        qdbus_available,
        gnome_age_ms,
    ));
    providers
}


/// The compositor a desktop session runs.
pub open spec fn compositor_name(desktop: Seq<char>, hyprland_signature: bool, swaysock: bool) -> Seq<char> {
    if hyprland_signature {
        "Hyprland"@
    } else if swaysock {
        "Sway"@
    } else if contains_seq(lowercase(desktop), "kde"@) {
        "KDE / KWin"@
    } else if contains_seq(lowercase(desktop), "gnome"@) {
        "GNOME / Mutter"@
    } else {
        "unknown"@
    }
}

/// Names the compositor: Hyprland or sway when their socket variables are set,
/// otherwise from the desktop name.
pub fn detect_compositor(desktop: &str, hyprland_signature: bool, swaysock: bool) -> (r: String)
    ensures
        r@ == compositor_name(desktop@, hyprland_signature, swaysock),
{
    if hyprland_signature {
        String::from_str("Hyprland")
    } else if swaysock {
        String::from_str("Sway")
    } else {
        let lower = to_lowercase(desktop);
        if contains_str(lower.as_str(), "kde") {
            String::from_str("KDE / KWin")
        } else if contains_str(lower.as_str(), "gnome") {
            String::from_str("GNOME / Mutter")
        } else {
            String::from_str("unknown")
        }
    }
}

/// What the environment and the command lookups report about the desktop session.
#[derive(Debug, Clone)]
pub struct DesktopProbe {
    /// `XDG_SESSION_TYPE`
    pub session_type: Option<String>,
    /// `XDG_CURRENT_DESKTOP`
    pub current_desktop: Option<String>,
    /// `DESKTOP_SESSION`
    pub desktop_session: Option<String>,
    /// `WAYLAND_DISPLAY`
    pub wayland_display: Option<String>,
    /// `DISPLAY`
    pub x11_display: Option<String>,
    /// `HYPRLAND_INSTANCE_SIGNATURE` is set
    pub hyprland_signature: bool,
    /// `SWAYSOCK` is set
    pub swaysock: bool,
    /// `hyprctl` is on the path
    pub hyprctl_exists: bool,
    /// `swaymsg` is on the path
    pub swaymsg_exists: bool,
    /// `qdbus` or `qdbus6` is on the path
    pub qdbus_exists: bool,
}

/// What the recorder reports about the desktop session.
#[derive(Debug, Clone)]
pub struct EnvironmentSnapshot {
    pub session_type: String,
    pub desktop: String,
    pub compositor: String,
    pub wayland_display: Option<String>,
    pub x11_display: Option<String>,
    pub providers: Vec<ProviderStatus>,
}

/// The desktop name: `XDG_CURRENT_DESKTOP`, else `DESKTOP_SESSION`, else `unknown`.
pub open spec fn desktop_name(p: DesktopProbe) -> Seq<char> {
    match p.current_desktop {
        Some(d) => d@,
        None => match p.desktop_session {
            Some(d) => d@,
            None => "unknown"@,
        },
    }
}

/// The desktop name of a probe.
pub fn probe_desktop(probe: &DesktopProbe) -> (r: String)
    ensures
        r@ == desktop_name(*probe),
{
    match &probe.current_desktop {
        Some(d) => d.clone(),
        None => match &probe.desktop_session {
            Some(d) => d.clone(),
            None => String::from_str("unknown"),
        },
    }
}

/// The environment snapshot for a probed session; `gnome_age_ms` is the age of
/// the last GNOME report.
pub fn get_environment_snapshot(probe: &DesktopProbe, gnome_age_ms: Option<u128>) -> (r: EnvironmentSnapshot)
    ensures
        r.session_type@ == match probe.session_type {
            Some(t) => t@,
            None => "unknown"@,
        },
        r.desktop@ == desktop_name(*probe),
        r.compositor@ == compositor_name(desktop_name(*probe), probe.hyprland_signature, probe.swaysock),
        r.wayland_display == probe.wayland_display,
        r.x11_display == probe.x11_display,
        r.providers@.map_values(|p: ProviderStatus| p@) == provider_list(
            desktop_name(*probe),
            probe.session_type.deep_view(),
            probe.hyprctl_exists && probe.hyprland_signature,
            probe.swaymsg_exists && probe.swaysock,
            probe.qdbus_exists,
            gnome_age_ms,
        ),
{
    let desktop = probe_desktop(probe);
    let session_type = match &probe.session_type {
        Some(t) => t.clone(),
        None => String::from_str("unknown"),
    };
    let compositor = detect_compositor(desktop.as_str(), probe.hyprland_signature, probe.swaysock);
    let providers = provider_statuses(
        desktop.as_str(),
        &probe.session_type,
        probe.hyprctl_exists && probe.hyprland_signature,
        probe.swaymsg_exists && probe.swaysock,
        probe.qdbus_exists,
        gnome_age_ms,
    );
    EnvironmentSnapshot {
        session_type,
        desktop,
        compositor,
        wayland_display: probe.wayland_display.clone(),
        x11_display: probe.x11_display.clone(),
        providers,
    }
}

/// Every GNOME or Ubuntu desktop, in any letter case, lists the GNOME Shell
/// extension, right after the three providers every desktop lists; with no
/// report received yet it stands by.
pub proof fn law_gnome_desktops_list_the_extension(
    desktop: Seq<char>,
    session_type: Option<Seq<char>>,
    hyprland_ready: bool,
    sway_ready: bool,
    qdbus_available: bool,
    gnome_age: Option<u128>,
)
    requires
        contains_seq(lowercase(desktop), "gnome"@) || contains_seq(lowercase(desktop), "ubuntu"@),
    ensures
        ({
            let l = provider_list(desktop, session_type, hyprland_ready, sway_ready, qdbus_available, gnome_age);
            &&& l.len() >= 4
            &&& l[3].id == "gnome-shell-extension"@
            &&& gnome_age is None ==> l[3].state == "standby"@
        }),
{
}

} // verus!

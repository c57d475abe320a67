//! Process hints for terminal windows: which tools run under a terminal.
use vstd::prelude::*;
use crate::text::{
    after_last_char, chars_of, contains_seq, contains_str, decimal, decimal_chars, is_whitespace,
    is_ws, lowercase, parse_u64, parsed_unsigned, rfind_exec, str_eq, string_of_range,
    to_lowercase, trim, trim_bounds, trim_end_by, lemma_trim_end_by, lossy_text, utf8_lossy,
};
use crate::window::{push_str, without_trailing_slashes, TerminalCwdHint};

verus! {

broadcast use vstd::string::group_string_axioms;

/// Characters a process name keeps: ASCII letters and digits, `-`, `_` and `.`.
pub open spec fn process_name_char(c: char) -> bool {
    ('a' <= c && c <= 'z') || ('A' <= c && c <= 'Z') || ('0' <= c && c <= '9') || c == '-' || c
        == '_' || c == '.'
}

/// The characters of `s` that a process name keeps, in order.
pub open spec fn kept_process_chars(s: Seq<char>) -> Seq<char>
    decreases s.len(),
{
    if s.len() == 0 {
        s
    } else {
        let r = kept_process_chars(s.drop_last());
        if process_name_char(s.last()) {
            r.push(s.last())
        } else {
            r
        }
    }
}

/// The longest a process name gets.
pub open spec fn process_name_limit() -> int {
    48int
}

/// A process name: trimmed, reduced to the kept characters, at most 48 of them.
pub open spec fn sanitized_process_name(s: Seq<char>) -> Seq<char> {
    let k = kept_process_chars(trim(s));
    if k.len() <= process_name_limit() {
        k
    } else {
        k.take(process_name_limit())
    }
}

/// Keeps at most 48 of the letters, digits, `-`, `_` and `.` of a trimmed process name.
pub fn sanitize_process_name(name: &str) -> (r: String)
    ensures
        r@ == sanitized_process_name(name@),
{
    let v = chars_of(name);
    let (lo, hi) = trim_bounds(&v, 0, v.len());
    assert(v@.subrange(0, v.len() as int) =~= v@);
    let ghost t = v@.subrange(lo as int, hi as int);
    let mut out: Vec<char> = Vec::new();
    let mut i = lo;
    while i < hi
        invariant
            lo <= i <= hi <= v.len(),
            t == v@.subrange(lo as int, hi as int),
            out@ == if kept_process_chars(t.take(i - lo)).len() <= 48 {
                kept_process_chars(t.take(i - lo))
            } else {
                kept_process_chars(t.take(i - lo)).take(48)
            },
        decreases hi - i,
    {
        let c = v[i];
        let keep = ('a' <= c && c <= 'z') || ('A' <= c && c <= 'Z') || ('0' <= c && c <= '9') || c
            == '-' || c == '_' || c == '.';
        proof {
            let p = t.take(i - lo + 1);
            assert(p.drop_last() =~= t.take(i - lo));
            assert(p.last() == c);
        }
        if keep && out.len() < 48 {
            out.push(c);
        }
        proof {
            let k0 = kept_process_chars(t.take(i - lo));
            let k1 = kept_process_chars(t.take(i - lo + 1));
            if keep {
                if k0.len() < 48 {
                    assert(out@ =~= k1);
                } else {
                    assert(k1.take(48) =~= k0.take(48));
                }
            }
        }
        i = i + 1;
    }
    assert(t.take(hi - lo) =~= t);
    string_of_range(&out, 0, out.len())
}

/// Shells, multiplexers and terminal emulators: processes that say nothing about the work.
pub open spec fn uninteresting_process(l: Seq<char>) -> bool {
    ||| l == "bash"@
    ||| l == "zsh"@
    ||| l == "fish"@
    ||| l == "sh"@
    ||| l == "dash"@
    ||| l == "tmux"@
    ||| l == "screen"@
    ||| l == "sudo"@
    ||| l == "su"@
    ||| l == "login"@
    ||| l == "gnome-terminal"@
    ||| l == "gnome-terminal-server"@
    ||| l == "kgx"@
    ||| l == "konsole"@
    ||| l == "xterm"@
    ||| l == "alacritty"@
    ||| l == "wezterm"@
}

/// Whether a process under a terminal is worth showing (not a shell or terminal).
pub fn is_interesting_terminal_process(name: &str) -> (b: bool)
    ensures
        b == !uninteresting_process(lowercase(name@)),
{
    let l = to_lowercase(name);
    let s = l.as_str();
    !(str_eq(s, "bash") || str_eq(s, "zsh") || str_eq(s, "fish") || str_eq(s, "sh") || str_eq(
        s,
        "dash",
    ) || str_eq(s, "tmux") || str_eq(s, "screen") || str_eq(s, "sudo") || str_eq(s, "su")
        || str_eq(s, "login") || str_eq(s, "gnome-terminal") || str_eq(s, "gnome-terminal-server")
        || str_eq(s, "kgx") || str_eq(s, "konsole") || str_eq(s, "xterm") || str_eq(
        s,
        "alacritty",
    ) || str_eq(s, "wezterm"))
}

/// The listing rank of a tool: reasonix, hermes, codex, npm, node, then the rest.
pub open spec fn process_rank(name: Seq<char>) -> u8 {
    if name == "reasonix"@ {
        0
    } else if name == "hermes"@ {
        1
    } else if name == "codex"@ {
        2
    } else if name == "npm"@ || name == "npmrundev"@ {
        3
    } else if name == "node"@ {
        4
    } else {
        10
    }
}

/// The listing rank of a tool name.
pub fn terminal_process_rank(name: &str) -> (r: u8)
    ensures
        r == process_rank(name@),
{
    if str_eq(name, "reasonix") {
        0
    } else if str_eq(name, "hermes") {
        1
    } else if str_eq(name, "codex") {
        2
    } else if str_eq(name, "npm") || str_eq(name, "npmrundev") {
        3
    } else if str_eq(name, "node") {
        4
    } else {
        10
    }
}

/// A process working directory as kept: trailing slashes removed, none if nothing is left.
pub open spec fn process_cwd_of(raw: Seq<char>) -> Option<Seq<char>> {
    let t = without_trailing_slashes(raw);
    if t.len() == 0 {
        None
    } else {
        Some(t)
    }
}

/// The working directory of a process from its `/proc/<pid>/cwd` link text.
pub fn normalize_process_cwd(raw: &str) -> (r: Option<String>)
    ensures
        r matches Some(s) ==> process_cwd_of(raw@) == Some(s@),
        r is None ==> process_cwd_of(raw@) is None,
{
    let v = chars_of(raw);
    let mut e = v.len();
    while e > 0 && v[e - 1] == '/'
        invariant
            e <= v.len(),
            forall|j: int| e <= j < v.len() ==> #[trigger] v@[j] == '/',
        decreases e,
    {
        e = e - 1;
    }
    proof {
        let p = |c: char| c == '/';
        assert forall|j: int| e <= j < v@.len() implies p(#[trigger] v@[j]) by {}
        lemma_trim_end_by(v@, p, e as int);
        assert(v@.subrange(0, e as int) =~= v@.take(e as int));
    }
    if e == 0 {
        None
    } else {
        Some(string_of_range(&v, 0, e))
    }
}

/// Whether a process working directory matches a terminal's working-directory hint.
pub open spec fn cwd_matches(process_cwd: Option<Seq<char>>, hint: Option<(Seq<char>, bool)>) -> bool {
    match hint {
        None => false,
        Some((path, exact)) => match process_cwd {
            None => false,
            Some(cwd) => if path.len() > 0 && path[0] == '/' {
                if exact {
                    cwd == path
                } else {
                    cwd == path || crate::text::starts_with(cwd, path + "/"@)
                }
            } else {
                after_last_char(cwd, '/') == path
            },
        },
    }
}

/// The hint as a pair of its path and exactness.
pub open spec fn hint_view(h: Option<TerminalCwdHint>) -> Option<(Seq<char>, bool)> {
    match h {
        Some(x) => Some((x.path@, x.exact)),
        None => None,
    }
}

/// Whether a process (by its working directory) belongs to the terminal's working
/// directory: the same path, a path below a non-exact hint, or, for a bare
/// directory name, a directory of that name.
pub fn process_matches_terminal_cwd(process_cwd: &Option<String>, cwd_hint: &Option<TerminalCwdHint>) -> (b: bool)
    ensures
        b == cwd_matches(process_cwd.deep_view(), hint_view(*cwd_hint)),
{
    let hint = match cwd_hint {
        Some(h) => h,
        None => return false,
    };
    let cwd = match process_cwd {
        Some(c) => c,
        None => return false,
    };
    let path = chars_of(hint.path.as_str());
    if path.len() > 0 && path[0] == '/' {
        let same = str_eq(cwd.as_str(), hint.path.as_str());
        if hint.exact {
            return same;
        }
        let mut prefix = chars_of(hint.path.as_str());
        push_str(&mut prefix, "/");
        let c = chars_of(cwd.as_str());
        let below = crate::text::occurs_at_exec(&c, &prefix, 0);
        assert(below == crate::text::starts_with(cwd@, hint.path@ + "/"@)) by {
            if prefix@.len() <= c@.len() {
                assert(c@.subrange(0, prefix@.len() as int) =~= c@.take(prefix@.len() as int));
            }
        }
        return same || below;
    }
    let c = chars_of(cwd.as_str());
    let slash = vec!['/'];
    assert(slash@ =~= seq!['/']);
    let last = match rfind_exec(&c, &slash) {
        Some(i) => {
            assert(c@.skip(i + 1) =~= c@.subrange(i + 1, c.len() as int));
            copy_tail(&c, i + 1)
        },
        None => {
            assert(c@.subrange(0, c.len() as int) =~= c@);
            copy_tail(&c, 0)
        },
    };
    crate::text::chars_eq(&last, &path)
}

/// The characters `v[from..]`.
fn copy_tail(v: &Vec<char>, from: usize) -> (r: Vec<char>)
    requires
        from <= v.len(),
    ensures
        r@ == v@.subrange(from as int, v.len() as int),
{
    crate::text::copy_range(v, from, v.len())
}


/// The bytes before the first NUL (`split(|b| *b == 0).next()`).
pub open spec fn before_nul(bytes: Seq<u8>) -> Seq<u8>
    decreases bytes.len(),
{
    if bytes.len() == 0 {
        bytes
    } else if bytes[0] == 0 {
        Seq::empty()
    } else {
        seq![bytes[0]] + before_nul(bytes.drop_first())
    }
}

/// The sanitized basename of `argv[0]` of a `/proc/<pid>/cmdline`, none when empty.
pub open spec fn argv0_basename(cmdline: Seq<u8>) -> Option<Seq<char>> {
    let a = before_nul(cmdline);
    if a.len() == 0 {
        None
    } else {
        let n = sanitized_process_name(after_last_char(lossy_text(a), '/'));
        if n.len() == 0 {
            None
        } else {
            Some(n)
        }
    }
}

proof fn lemma_before_nul(bytes: Seq<u8>, k: int)
    requires
        0 <= k <= bytes.len(),
        forall|j: int| 0 <= j < k ==> #[trigger] bytes[j] != 0,
        k == bytes.len() || bytes[k] == 0,
    ensures
        before_nul(bytes) == bytes.take(k),
    decreases k,
{
    if k > 0 {
        lemma_before_nul(bytes.drop_first(), k - 1);
        assert(seq![bytes[0]] + bytes.drop_first().take(k - 1) =~= bytes.take(k));
    } else if bytes.len() > 0 {
        assert(bytes.take(0) =~= Seq::<u8>::empty());
    } else {
        assert(bytes.take(0) =~= bytes);
    }
}

/// Only the program path of a command line names a process: the arguments
/// after the first NUL never change the name.
pub proof fn law_arguments_are_not_read(program: Seq<u8>, args: Seq<u8>)
    requires
        forall|j: int| 0 <= j < program.len() ==> #[trigger] program[j] != 0,
    ensures
        argv0_basename(program + seq![0u8] + args) == argv0_basename(program),
{
    let c = program + seq![0u8] + args;
    assert forall|j: int| 0 <= j < program.len() implies #[trigger] c[j] != 0 by {
        assert(c[j] == program[j]);
    }
    lemma_before_nul(c, program.len() as int);
    lemma_before_nul(program, program.len() as int);
    assert(c.take(program.len() as int) =~= program);
    assert(program.take(program.len() as int) =~= program);
}

/// The sanitized basename of the program a `/proc/<pid>/cmdline` starts with.
pub fn process_argv0_basename(cmdline: &[u8]) -> (r: Option<String>)
    ensures
        r matches Some(s) ==> argv0_basename(cmdline@) == Some(s@),
        r is None ==> argv0_basename(cmdline@) is None,
{
    let mut k: usize = 0;
    while k < cmdline.len() && cmdline[k] != 0
        invariant
            k <= cmdline.len(),
            forall|j: int| 0 <= j < k ==> #[trigger] cmdline@[j] != 0,
        decreases cmdline.len() - k,
    {
        k = k + 1;
    }
    proof {
        lemma_before_nul(cmdline@, k as int);
    }
    if k == 0 {
        return None;
    }
    let mut argv0: Vec<u8> = Vec::new();
    let mut i: usize = 0;
    while i < k
        invariant
            i <= k <= cmdline.len(),
            argv0@ == cmdline@.take(i as int),
        decreases k - i,
    {
        argv0.push(cmdline[i]);
        i = i + 1;
        assert(argv0@ =~= cmdline@.take(i as int));
    }
    let text = utf8_lossy(argv0.as_slice());
    let v = chars_of(text.as_str());
    let slash = vec!['/'];
    assert(slash@ =~= seq!['/']);
    let from = match rfind_exec(&v, &slash) {
        Some(i) => i + 1,
        None => 0,
    };
    assert(v@.skip(from as int) =~= v@.subrange(from as int, v.len() as int));
    assert(from == 0 ==> v@.subrange(0, v.len() as int) =~= v@);
    let base = string_of_range(&v, from, v.len());
    let name = sanitize_process_name(base.as_str());
    if name.unicode_len() == 0 {
        None
    } else {
        Some(name)
    }
}

/// The name shown for a process: `reasonix` when its command name or program
/// mentions it, else the sanitized command name, else the program's basename.
pub open spec fn display_name(comm: Option<Seq<char>>, argv0: Option<Seq<char>>) -> Option<Seq<char>> {
    let c = match comm {
        Some(t) => if sanitized_process_name(t).len() > 0 {
            Some(sanitized_process_name(t))
        } else {
            None
        },
        None => None,
    };
    let mentions = |n: Option<Seq<char>>| n matches Some(x) && contains_seq(x, "reasonix"@);
    if mentions(c) || mentions(argv0) {
        Some("reasonix"@)
    } else {
        match c {
            Some(x) => Some(x),
            None => argv0,
        }
    }
}

/// The bytes of an optional file.
pub open spec fn opt_bytes(o: Option<Vec<u8>>) -> Option<Seq<u8>> {
    match o {
        Some(v) => Some(v@),
        None => None,
    }
}

/// The program basename of an optional cmdline.
pub open spec fn argv0_of(cmdline: Option<Seq<u8>>) -> Option<Seq<char>> {
    match cmdline {
        Some(b) => argv0_basename(b),
        None => None,
    }
}

/// The name to show for a process, from its `/proc/<pid>/comm` and `/proc/<pid>/cmdline`.
pub fn process_display_name(comm: &Option<String>, cmdline: &Option<Vec<u8>>) -> (r: Option<String>)
    ensures
        r matches Some(s) ==> display_name(comm.deep_view(), argv0_of(opt_bytes(*cmdline))) == Some(s@),
        r is None ==> display_name(comm.deep_view(), argv0_of(opt_bytes(*cmdline))) is None,
{
    let c = match comm {
        Some(t) => {
            let n = sanitize_process_name(t.as_str());
            if n.unicode_len() > 0 {
                Some(n)
            } else {
                None
            }
        },
        None => None,
    };
    let argv0 = match cmdline {
        Some(b) => process_argv0_basename(b.as_slice()),
        None => None,
    };
    let c_mentions = match &c {
        Some(x) => contains_str(x.as_str(), "reasonix"),
        None => false,
    };
    let a_mentions = match &argv0 {
        Some(x) => contains_str(x.as_str(), "reasonix"),
        None => false,
    };
    if c_mentions || a_mentions {
        return Some(String::from_str("reasonix"));
    }
    match c {
        Some(x) => Some(x),
        None => argv0,
    }
}

/// End of the word that starts at `i` (the first white space at or after `i`).
pub open spec fn word_end(s: Seq<char>, i: int) -> int
    decreases s.len() - i,
{
    if i < 0 || i >= s.len() || is_ws(s[i]) {
        i
    } else {
        word_end(s, i + 1)
    }
}

pub proof fn lemma_word_end(s: Seq<char>, i: int)
    requires
        0 <= i,
    ensures
        i <= word_end(s, i),
        i < s.len() ==> word_end(s, i) <= s.len(),
        i >= s.len() ==> word_end(s, i) == i,
    decreases s.len() - i,
{
    if i < s.len() && !is_ws(s[i]) {
        lemma_word_end(s, i + 1);
    }
}

/// The white-space separated words of `s[i..]` (`split_whitespace`).
pub open spec fn words_from(s: Seq<char>, i: int) -> Seq<Seq<char>>
    decreases s.len() - i,
{
    if i < 0 || i >= s.len() {
        Seq::empty()
    } else if is_ws(s[i]) {
        words_from(s, i + 1)
    } else {
        proof {
            lemma_word_end(s, i + 1);
        }
        seq![s.subrange(i, word_end(s, i))] + words_from(s, word_end(s, i))
    }
}

/// The words that parse as `u32`, as numbers, in order.
pub open spec fn pids_of(ws: Seq<Seq<char>>) -> Seq<u32>
    decreases ws.len(),
{
    if ws.len() == 0 {
        Seq::empty()
    } else {
        let head = match parsed_unsigned(ws[0], u32::MAX as nat) {
            Some(n) => seq![n as u32],
            None => Seq::empty(),
        };
        head + pids_of(ws.drop_first())
    }
}

/// The pids listed in a `/proc/<pid>/task/<pid>/children` file; words that are not
/// `u32` numbers are skipped.
pub fn parse_child_pids(text: &str) -> (r: Vec<u32>)
    ensures
        r@ == pids_of(words_from(text@, 0)),
{
    let v = chars_of(text);
    let mut out: Vec<u32> = Vec::new();
    let mut pos: usize = 0;
    while pos < v.len()
        invariant
            pos <= v.len(),
            v@ == text@,
            pids_of(words_from(v@, 0)) == out@ + pids_of(words_from(v@, pos as int)),
        decreases v.len() - pos,
    {
        if is_whitespace(v[pos]) {
            pos = pos + 1;
            continue;
        }
        let mut end = pos;
        while end < v.len() && !is_whitespace(v[end])
            invariant
                pos <= end <= v.len(),
                word_end(v@, pos as int) == word_end(v@, end as int),
            decreases v.len() - end,
        {
            end = end + 1;
        }
        let word = string_of_range(&v, pos, end);
        let ghost w = v@.subrange(pos as int, end as int);
        let ghost rest = words_from(v@, end as int);
        assert(words_from(v@, pos as int) =~= seq![w] + rest);
        assert((seq![w] + rest).drop_first() =~= rest);
        let ghost before = out@;
        match parse_u64(word.as_str()) {
            Some(n) => {
                if n <= u32::MAX as u64 {
                    out.push(n as u32);
                    assert(parsed_unsigned(w, u32::MAX as nat) == Some(n as nat));
                } else {
                    assert(parsed_unsigned(w, u32::MAX as nat) is None);
                }
            },
            None => {
                assert(parsed_unsigned(w, u32::MAX as nat) is None);
            },
        }
        assert(pids_of(seq![w] + rest) == (match parsed_unsigned(w, u32::MAX as nat) {
            Some(n) => seq![n as u32],
            None => Seq::<u32>::empty(),
        }) + pids_of(rest));
        assert(out@ + pids_of(rest) =~= before + pids_of(seq![w] + rest));
        pos = end;
    }
    assert(out@ =~= out@ + pids_of(words_from(v@, pos as int)));
    out
}


/// How many processes a walk visits at most.
pub open spec fn process_walk_limit() -> int {
    80int
}

/// What was read about one process of a walk.
#[derive(Debug, Clone)]
pub struct ProcessObservation {
    /// The `/proc/<pid>/cwd` link text.
    pub cwd_link: Option<String>,
    /// The `/proc/<pid>/comm` text.
    pub comm: Option<String>,
    /// The `/proc/<pid>/cmdline` bytes.
    pub cmdline: Option<Vec<u8>>,
    /// The `/proc/<pid>/task/<pid>/children` text.
    pub children: Option<String>,
}

/// A breadth-first walk over the processes below a terminal, counting the
/// interesting tools that run in the terminal's working directory.
///
/// The caller asks [`ProcessWalk::next_pid`] which process to read and hands
/// what it read to [`ProcessWalk::visit`].
pub struct ProcessWalk {
    root: u32,
    hint: Option<TerminalCwdHint>,
    queue: Vec<u32>,
    head: usize,
    visited: Vec<u32>,
    counts: Vec<(String, u16)>,
    current: Option<u32>,
    visits: usize,
}

/// The names and counts of a count list.
pub open spec fn counts_view(c: Seq<(String, u16)>) -> Seq<(Seq<char>, u16)> {
    c.map_values(|e: (String, u16)| (e.0@, e.1))
}

/// Index of the first entry named `name`.
pub open spec fn count_index_from(c: Seq<(Seq<char>, u16)>, name: Seq<char>, i: int) -> Option<int>
    decreases c.len() - i,
{
    if i < 0 || i >= c.len() {
        None
    } else if c[i].0 == name {
        Some(i)
    } else {
        count_index_from(c, name, i + 1)
    }
}

/// The counts with one more for `name`.
pub open spec fn bumped(c: Seq<(Seq<char>, u16)>, name: Seq<char>) -> Seq<(Seq<char>, u16)> {
    match count_index_from(c, name, 0) {
        Some(i) => c.update(i, (name, (c[i].1 + 1) as u16)),
        None => c.push((name, 1u16)),
    }
}

/// Where the walk goes from queue position `head`: the next pid not yet visited
/// is marked visited and handed out while at most 80 are visited; pids past the
/// limit are marked and skipped.
pub open spec fn advance(queue: Seq<u32>, head: int, visited: Seq<u32>) -> (int, Seq<u32>, Option<u32>)
    decreases queue.len() - head,
{
    if head < 0 || head >= queue.len() {
        (head, visited, None)
    } else {
        let pid = queue[head];
        if visited.contains(pid) {
            advance(queue, head + 1, visited)
        } else if visited.len() + 1 > process_walk_limit() {
            advance(queue, head + 1, visited.push(pid))
        } else {
            (head + 1, visited.push(pid), Some(pid))
        }
    }
}

/// A walk reads at most 80 processes: a pid is handed out only while at most 80
/// pids are marked visited, and every pid handed out is marked.
pub proof fn law_walk_reads_at_most_eighty(queue: Seq<u32>, head: int, visited: Seq<u32>)
    ensures
        advance(queue, head, visited).2 matches Some(pid) ==> {
            &&& advance(queue, head, visited).1.len() <= process_walk_limit()
            &&& advance(queue, head, visited).1.last() == pid
            &&& !visited.contains(pid)
        },
    decreases queue.len() - head,
{
    if 0 <= head < queue.len() {
        let pid = queue[head];
        if visited.contains(pid) {
            law_walk_reads_at_most_eighty(queue, head + 1, visited);
        } else if visited.len() + 1 > process_walk_limit() {
            law_walk_reads_at_most_eighty(queue, head + 1, visited.push(pid));
            lemma_advance_grows(queue, head + 1, visited.push(pid));
        }
    }
}

/// The visited pids only grow as a walk advances.
proof fn lemma_advance_grows(queue: Seq<u32>, head: int, visited: Seq<u32>)
    ensures
        advance(queue, head, visited).1.len() >= visited.len(),
    decreases queue.len() - head,
{
    if 0 <= head < queue.len() {
        let pid = queue[head];
        if visited.contains(pid) {
            lemma_advance_grows(queue, head + 1, visited);
        } else if visited.len() + 1 > process_walk_limit() {
            lemma_advance_grows(queue, head + 1, visited.push(pid));
        }
    }
}

/// The children not yet visited, in order.
pub open spec fn unvisited(children: Seq<u32>, visited: Seq<u32>) -> Seq<u32>
    decreases children.len(),
{
    if children.len() == 0 {
        children
    } else {
        let r = unvisited(children.drop_last(), visited);
        if visited.contains(children.last()) {
            r
        } else {
            r.push(children.last())
        }
    }
}

/// The pids of an optional children file.
pub open spec fn children_of(text: Option<String>) -> Seq<u32> {
    match text {
        Some(t) => pids_of(words_from(t@, 0)),
        None => Seq::empty(),
    }
}

/// The tool a visited process counts as, if any: a process other than the
/// terminal itself, in the terminal's directory, with an interesting name.
pub open spec fn counted_name(
    pid: u32,
    root: u32,
    hint: Option<(Seq<char>, bool)>,
    obs: ProcessObservation,
) -> Option<Seq<char>> {
    let cwd = match obs.cwd_link {
        Some(l) => process_cwd_of(l@),
        None => None,
    };
    if pid != root && cwd_matches(cwd, hint) {
        match display_name(obs.comm.deep_view(), argv0_of(opt_bytes(obs.cmdline))) {
            Some(n) => if !uninteresting_process(lowercase(n)) {
                Some(n)
            } else {
                None
            },
            None => None,
        }
    } else {
        None
    }
}

impl ProcessWalk {
    /// The walk's bookkeeping is consistent: visits are within the limit, no
    /// count exceeds the number of visits, and no tool is counted twice.
    pub closed spec fn wf(&self) -> bool {
        &&& self.visits + (if self.current is Some {
            1int
        } else {
            0int
        }) <= self.visited@.len()
        &&& self.current is Some ==> self.visited@.len() <= process_walk_limit()
        &&& self.visits <= process_walk_limit()
        &&& self.head <= self.queue@.len()
        &&& forall|i: int| 0 <= i < self.counts@.len() ==> #[trigger] self.counts@[i].1 <= self.visits
        &&& forall|i: int, j: int|
            0 <= i < j < self.counts@.len() ==> #[trigger] self.counts@[i].0@ != #[trigger] self.counts@[j].0@
    }

    /// The terminal's own process.
    pub closed spec fn root_pid(&self) -> u32 {
        self.root
    }

    /// The working-directory hint of the terminal.
    pub closed spec fn hint_of(&self) -> Option<(Seq<char>, bool)> {
        hint_view(self.hint)
    }

    /// The pids queued so far, in order.
    pub closed spec fn queued(&self) -> Seq<u32> {
        self.queue@
    }

    /// How many queued pids were taken.
    pub closed spec fn taken(&self) -> int {
        self.head as int
    }

    /// The pids marked visited, in order.
    pub closed spec fn visited_pids(&self) -> Seq<u32> {
        self.visited@
    }

    /// The tools counted so far.
    pub closed spec fn tool_counts(&self) -> Seq<(Seq<char>, u16)> {
        counts_view(self.counts@)
    }

    /// The process handed out and not yet visited.
    pub closed spec fn pending_pid(&self) -> Option<u32> {
        self.current
    }

    /// A walk that starts at the terminal process `root_pid`.
    pub fn new(root_pid: u32, cwd_hint: Option<TerminalCwdHint>) -> (w: ProcessWalk)
        ensures
            w.root_pid() == root_pid,
            w.hint_of() == hint_view(cwd_hint),
            w.queued() == seq![root_pid],
            w.taken() == 0,
            w.visited_pids() == Seq::<u32>::empty(),
            w.tool_counts() == Seq::<(Seq<char>, u16)>::empty(),
            w.pending_pid() is None,
            w.wf(),
    {
        let mut queue: Vec<u32> = Vec::new();
        queue.push(root_pid);
        let w = ProcessWalk {
            root: root_pid,
            hint: cwd_hint,
            queue,
            head: 0,
            visited: Vec::new(),
            counts: Vec::new(),
            current: None,
            visits: 0,
        };
        assert(counts_view(w.counts@) =~= Seq::<(Seq<char>, u16)>::empty());
        w
    }

    /// The next process to read, or `None` when the walk is over.
    #[verifier::loop_isolation(false)]
    pub fn next_pid(&mut self) -> (r: Option<u32>)
        requires
            old(self).wf(),
        ensures
            final(self).wf(),
            (final(self).taken(), final(self).visited_pids(), r) == advance(
                old(self).queued(),
                old(self).taken(),
                old(self).visited_pids(),
            ),
            final(self).pending_pid() == r,
            final(self).queued() == old(self).queued(),
            final(self).tool_counts() == old(self).tool_counts(),
            final(self).root_pid() == old(self).root_pid(),
            final(self).hint_of() == old(self).hint_of(),
    {
        let ghost q = self.queue@;
        let ghost h0 = self.head as int;
        let ghost v0 = self.visited@;
        let ghost target = advance(q, h0, v0);
        self.current = None;
        while self.head < self.queue.len()
            invariant
                q == self.queue@,
                advance(q, self.head as int, self.visited@) == target,
                self.current is None,
                self.visits <= self.visited@.len(),
                self.visits <= process_walk_limit(),
                forall|i: int| 0 <= i < self.counts@.len() ==> #[trigger] self.counts@[i].1 <= self.visits,
                forall|i: int, j: int|
                    0 <= i < j < self.counts@.len() ==> #[trigger] self.counts@[i].0@ != #[trigger] self.counts@[j].0@,
                self.head <= self.queue.len(),
                counts_view(self.counts@) == counts_view(old(self).counts@),
                self.root == old(self).root,
                self.hint == old(self).hint,
            decreases self.queue.len() - self.head,
        {
            let pid = self.queue[self.head];
            self.head = self.head + 1;
            if contains_u32(&self.visited, pid) {
                continue;
            }
            self.visited.push(pid);
            if self.visited.len() > 80 {
                continue;
            }
            self.current = Some(pid);
            return Some(pid);
        }
        None
    }

    /// Takes in what was read about the process last handed out: counts it as a
    /// tool when it qualifies, and queues its children not yet visited.
    pub fn visit(&mut self, obs: &ProcessObservation)
        requires
            old(self).wf(),
        ensures
            final(self).wf(),
            old(self).pending_pid() matches Some(pid) ==> {
                &&& final(self).tool_counts() == match counted_name(
                    pid,
                    old(self).root_pid(),
                    old(self).hint_of(),
                    *obs,
                ) {
                    Some(n) => bumped(old(self).tool_counts(), n),
                    None => old(self).tool_counts(),
                }
                &&& final(self).queued() == old(self).queued() + unvisited(
                    children_of(obs.children),
                    old(self).visited_pids(),
                )
            },
            old(self).pending_pid() is None ==> final(self).tool_counts() == old(self).tool_counts()
                && final(self).queued() == old(self).queued(),
            final(self).pending_pid() is None,
            final(self).taken() == old(self).taken(),
            final(self).visited_pids() == old(self).visited_pids(),
            final(self).root_pid() == old(self).root_pid(),
            final(self).hint_of() == old(self).hint_of(),
    {
        let pid = match self.current {
            Some(p) => p,
            None => return,
        };
        let cwd = match &obs.cwd_link {
            Some(l) => normalize_process_cwd(l.as_str()),
            None => None,
        };
        if pid != self.root && process_matches_terminal_cwd(&cwd, &self.hint) {
            match process_display_name(&obs.comm, &obs.cmdline) {
                Some(name) => {
                    if is_interesting_terminal_process(name.as_str()) {
                        bump_count(&mut self.counts, name, self.visits);
                    }
                },
                None => {},
            }
        }
        let children = match &obs.children {
            Some(t) => parse_child_pids(t.as_str()),
            None => Vec::new(),
        };
        let mut fresh: Vec<u32> = Vec::new();
        let mut i: usize = 0;
        while i < children.len()
            invariant
                i <= children.len(),
                fresh@ == unvisited(children@.take(i as int), self.visited@),
            decreases children.len() - i,
        {
            let c = children[i];
            proof {
                assert(children@.take(i + 1).drop_last() =~= children@.take(i as int));
            }
            if !contains_u32(&self.visited, c) {
                fresh.push(c);
            }
            i = i + 1;
        }
        assert(children@.take(children.len() as int) =~= children@);
        self.queue.append(&mut fresh);
        self.current = None;
        self.visits = self.visits + 1;
    }
}

/// Whether `v` holds `x`.
fn contains_u32(v: &Vec<u32>, x: u32) -> (b: bool)
    ensures
        b == v@.contains(x),
{
    let mut i: usize = 0;
    while i < v.len()
        invariant
            i <= v.len(),
            forall|j: int| 0 <= j < i ==> v@[j] != x,
        decreases v.len() - i,
    {
        if v[i] == x {
            return true;
        }
        i = i + 1;
    }
    false
}

/// Adds one to the count of `name`, or starts it at one.
fn bump_count(counts: &mut Vec<(String, u16)>, name: String, limit: usize)
    requires
        limit < process_walk_limit(),
        forall|i: int| 0 <= i < old(counts)@.len() ==> #[trigger] old(counts)@[i].1 <= limit,
        forall|i: int, j: int|
            0 <= i < j < old(counts)@.len() ==> #[trigger] old(counts)@[i].0@ != #[trigger] old(counts)@[j].0@,
    ensures
        counts_view(final(counts)@) == bumped(counts_view(old(counts)@), name@),
        forall|i: int| 0 <= i < final(counts)@.len() ==> #[trigger] final(counts)@[i].1 <= limit + 1,
        forall|i: int, j: int|
            0 <= i < j < final(counts)@.len() ==> #[trigger] final(counts)@[i].0@ != #[trigger] final(counts)@[j].0@,
{
    let ghost c = counts_view(counts@);
    let mut i: usize = 0;
    while i < counts.len()
        invariant
            i <= counts.len(),
            counts@ == old(counts)@,
            c == counts_view(counts@),
            count_index_from(c, name@, 0) == count_index_from(c, name@, i as int),
            limit < process_walk_limit(),
            forall|j: int| 0 <= j < counts@.len() ==> #[trigger] counts@[j].1 <= limit,
            forall|j: int| 0 <= j < i ==> #[trigger] c[j].0 != name@,
            forall|a: int, b: int|
                0 <= a < b < counts@.len() ==> #[trigger] counts@[a].0@ != #[trigger] counts@[b].0@,
        decreases counts.len() - i,
    {
        if str_eq(counts[i].0.as_str(), name.as_str()) {
            assert(c[i as int].0 == name@);
            let (n, k) = counts.remove(i);
            counts.insert(i, (n, k + 1));
            assert(counts@ =~= old(counts)@.update(i as int, (n, (k + 1) as u16)));
            assert forall|a: int, b: int| 0 <= a < b < counts@.len() implies #[trigger] counts@[a].0@
                != #[trigger] counts@[b].0@ by {
                assert(counts@[a].0 == old(counts)@[a].0);
                assert(counts@[b].0 == old(counts)@[b].0);
            }
            assert(counts_view(counts@) =~= c.update(i as int, (name@, (c[i as int].1 + 1) as u16)));
            return;
        }
        i = i + 1;
    }
    let ghost nv = name@;
    counts.push((name, 1));
    assert(counts_view(counts@) =~= c.push((nv, 1u16)));
    assert forall|j: int| 0 <= j < c.len() implies #[trigger] counts@[j].0@ != nv by {
        assert(c[j].0 != nv);
    }
}

/// Lexicographic order of two names from position `i` on, by code point
/// (the order of `str`'s `Ord`, which compares UTF-8 bytes).
pub open spec fn lex_from(a: Seq<char>, b: Seq<char>, i: int) -> bool
    decreases a.len() - i,
{
    if i < 0 || i >= a.len() {
        0 <= i < b.len()
    } else if i >= b.len() {
        false
    } else if a[i] != b[i] {
        (a[i] as int) < (b[i] as int)
    } else {
        lex_from(a, b, i + 1)
    }
}

/// `a` sorts before `b`.
pub open spec fn lex_less(a: Seq<char>, b: Seq<char>) -> bool {
    lex_from(a, b, 0)
}

/// The listing order of counted tools: by rank, then most counted first, then
/// by name.
pub open spec fn ranked_before(x: (Seq<char>, u16), y: (Seq<char>, u16)) -> bool {
    let rx = process_rank(x.0);
    let ry = process_rank(y.0);
    rx < ry || (rx == ry && (x.1 > y.1 || (x.1 == y.1 && lex_less(x.0, y.0))))
}

/// The label a counted tool is listed under: its name, followed by ` x<count>`
/// when it was seen more than once.
pub open spec fn tool_label(e: (Seq<char>, u16)) -> Seq<char> {
    if e.1 > 1 {
        e.0 + " x"@ + decimal(e.1 as nat)
    } else {
        e.0
    }
}

/// How many tools a terminal title lists at most.
pub open spec fn listed_tools_limit() -> int {
    4int
}

/// `order` picks, in listing order, the first `min(4, len)` counted tools.
pub open spec fn top_tools(c: Seq<(Seq<char>, u16)>, order: Seq<int>) -> bool {
    &&& order.len() == (if c.len() < listed_tools_limit() {
        c.len() as int
    } else {
        listed_tools_limit()
    })
    &&& forall|k: int| 0 <= k < order.len() ==> 0 <= #[trigger] order[k] < c.len()
    &&& forall|k: int, l: int|
        0 <= k < l < order.len() ==> ranked_before(c[#[trigger] order[k]], c[#[trigger] order[l]])
    &&& forall|j: int, k: int|
        0 <= j < c.len() && 0 <= k < order.len() && !order.contains(j) ==> ranked_before(
            c[#[trigger] order[k]],
            #[trigger] c[j],
        )
}

proof fn lemma_lex_irreflexive(a: Seq<char>, i: int)
    requires
        0 <= i,
    ensures
        !lex_from(a, a, i),
    decreases a.len() - i,
{
    if i < a.len() {
        lemma_lex_irreflexive(a, i + 1);
    }
}

proof fn lemma_lex_transitive(a: Seq<char>, b: Seq<char>, c: Seq<char>, i: int)
    requires
        0 <= i,
        lex_from(a, b, i),
        lex_from(b, c, i),
    ensures
        lex_from(a, c, i),
    decreases a.len() - i,
{
    if i < a.len() && i < b.len() && i < c.len() && a[i] == b[i] && b[i] == c[i] {
        lemma_lex_transitive(a, b, c, i + 1);
    }
}

proof fn lemma_lex_total(a: Seq<char>, b: Seq<char>, i: int)
    requires
        0 <= i <= a.len(),
        i <= b.len(),
        a.subrange(i, a.len() as int) != b.subrange(i, b.len() as int),
    ensures
        lex_from(a, b, i) || lex_from(b, a, i),
    decreases a.len() - i,
{
    if i == a.len() && i == b.len() {
        assert(a.subrange(i, a.len() as int) =~= b.subrange(i, b.len() as int));
    } else if i < a.len() && i < b.len() && a[i] == b[i] {
        if a.subrange(i + 1, a.len() as int) == b.subrange(i + 1, b.len() as int) {
            assert(a.subrange(i, a.len() as int) =~= seq![a[i]] + a.subrange(i + 1, a.len() as int));
            assert(b.subrange(i, b.len() as int) =~= seq![b[i]] + b.subrange(i + 1, b.len() as int));
        }
        lemma_lex_total(a, b, i + 1);
    }
}

/// The listing order is a strict total order on tools with distinct names.
pub proof fn lemma_ranked_order(x: (Seq<char>, u16), y: (Seq<char>, u16), z: (Seq<char>, u16))
    ensures
        !ranked_before(x, x),
        ranked_before(x, y) && ranked_before(y, z) ==> ranked_before(x, z),
        x.0 != y.0 ==> ranked_before(x, y) || ranked_before(y, x),
{
    lemma_lex_irreflexive(x.0, 0);
    if lex_less(x.0, y.0) && lex_less(y.0, z.0) {
        lemma_lex_transitive(x.0, y.0, z.0, 0);
    }
    if x.0 != y.0 {
        assert(x.0.subrange(0, x.0.len() as int) =~= x.0);
        assert(y.0.subrange(0, y.0.len() as int) =~= y.0);
        lemma_lex_total(x.0, y.0, 0);
    }
}

/// Whether `a` sorts before `b` by code point.
pub fn lex_less_str(a: &str, b: &str) -> (r: bool)
    ensures
        r == lex_less(a@, b@),
{
    let x = chars_of(a);
    let y = chars_of(b);
    let mut i: usize = 0;
    while i < x.len() && i < y.len()
        invariant
            x@ == a@,
            y@ == b@,
            lex_from(a@, b@, 0) == lex_from(a@, b@, i as int),
        decreases x.len() - i,
    {
        if x[i] != y[i] {
            return x[i] < y[i];
        }
        i = i + 1;
    }
    i < y.len()
}

/// Whether tool `x` is listed before tool `y`.
fn ranked_before_exec(x: &(String, u16), y: &(String, u16)) -> (r: bool)
    ensures
        r == ranked_before((x.0@, x.1), (y.0@, y.1)),
{
    let rx = terminal_process_rank(x.0.as_str());
    let ry = terminal_process_rank(y.0.as_str());
    rx < ry || (rx == ry && (x.1 > y.1 || (x.1 == y.1 && lex_less_str(x.0.as_str(), y.0.as_str()))))
}

/// The label of one counted tool.
fn tool_label_exec(name: &String, count: u16) -> (r: String)
    ensures
        r@ == tool_label((name@, count)),
{
    if count > 1 {
        let mut v = chars_of(name.as_str());
        push_str(&mut v, " x");
        let d = decimal_chars(count as u128);
        let ghost before = v@;
        let mut i: usize = 0;
        while i < d.len()
            invariant
                i <= d.len(),
                v@ == before + d@.take(i as int),
            decreases d.len() - i,
        {
            v.push(d[i]);
            i = i + 1;
            assert(v@ =~= before + d@.take(i as int));
        }
        assert(d@.take(d.len() as int) =~= d@);
        proof {
            reveal_strlit(" x");
        }
        string_of_range(&v, 0, v.len())
    } else {
        name.clone()
    }
}

/// The tools of a finished walk as a terminal title lists them: the first four
/// in listing order, each with its count when it ran more than once.
pub fn terminal_process_names(walk: &ProcessWalk) -> (r: Vec<String>)
    requires
        walk.wf(),
    ensures
        exists|order: Seq<int>|
            top_tools(walk.tool_counts(), order) && r@.map_values(|s: String| s@) == order.map_values(
                |i: int| tool_label(walk.tool_counts()[i]),
            ),
{
    let counts = &walk.counts;
    let ghost c = counts_view(counts@);
    let n = counts.len();
    let mut perm: Vec<usize> = Vec::new();
    let mut p: usize = 0;
    while p < n
        invariant
            p <= n,
            perm@.len() == p,
            forall|q: int| 0 <= q < p ==> #[trigger] perm@[q] == q,
        decreases n - p,
    {
        perm.push(p);
        p = p + 1;
    }
    proof {
        assert forall|j: int| 0 <= j < n implies #[trigger] perm@.contains(j as usize) by {
            assert(perm@[j] == j);
        }
    }
    let m: usize = if n < 4 { n } else { 4 };
    let mut out: Vec<String> = Vec::new();
    let mut k: usize = 0;
    while k < m
        invariant
            n == counts.len(),
            m <= n,
            m == (if n < 4 { n } else { 4 }),
            c == counts_view(counts@),
            forall|a: int, b: int| 0 <= a < b < c.len() ==> #[trigger] c[a].0 != #[trigger] c[b].0,
            k <= m,
            perm@.len() == n,
            forall|q: int| 0 <= q < n ==> #[trigger] perm@[q] < n,
            forall|q1: int, q2: int| 0 <= q1 < q2 < n ==> #[trigger] perm@[q1] != #[trigger] perm@[q2],
            forall|j: int| 0 <= j < n ==> #[trigger] perm@.contains(j as usize),
            forall|q1: int, q2: int|
                0 <= q1 < k && q1 < q2 < n ==> ranked_before(
                    c[#[trigger] perm@[q1] as int],
                    c[#[trigger] perm@[q2] as int],
                ),
            out.len() == k,
            forall|q: int| 0 <= q < k ==> #[trigger] out@[q]@ == tool_label(c[perm@[q] as int]),
        decreases m - k,
    {
        let mut best: usize = k;
        let mut j: usize = k + 1;
        while j < n
            invariant
                n == counts.len(),
                c == counts_view(counts@),
                forall|a: int, b: int| 0 <= a < b < c.len() ==> #[trigger] c[a].0 != #[trigger] c[b].0,
                perm@.len() == n,
                forall|q: int| 0 <= q < n ==> #[trigger] perm@[q] < n,
                forall|q1: int, q2: int| 0 <= q1 < q2 < n ==> #[trigger] perm@[q1] != #[trigger] perm@[q2],
                k < n,
                k <= best < j <= n,
                forall|q: int|
                    k <= q < j && q != best ==> ranked_before(
                        c[perm@[best as int] as int],
                        c[#[trigger] perm@[q] as int],
                    ),
            decreases n - j,
        {
            let pj = perm[j];
            let pb = perm[best];
            if ranked_before_exec(&counts[pj], &counts[pb]) {
                proof {
                    assert forall|q: int| k <= q < j + 1 && q != j implies ranked_before(
                        c[perm@[j as int] as int],
                        c[#[trigger] perm@[q] as int],
                    ) by {
                        if q != best {
                            lemma_ranked_order(c[pj as int], c[pb as int], c[perm@[q] as int]);
                        }
                    }
                }
                best = j;
            } else {
                proof {
                    assert(c[pb as int].0 != c[pj as int].0);
                    lemma_ranked_order(c[pb as int], c[pj as int], c[pb as int]);
                }
            }
            j = j + 1;
        }
        let ghost old_perm = perm@;
        let pb = perm[best];
        let pk = perm[k];
        perm.set(k, pb);
        perm.set(best, pk);
        proof {
            assert(perm@ =~= old_perm.update(k as int, pb).update(best as int, pk));
            assert forall|q: int| 0 <= q < n implies #[trigger] perm@[q] < n by {
                if q == k {} else if q == best {} else { assert(perm@[q] == old_perm[q]); }
            }
            assert forall|q1: int, q2: int| 0 <= q1 < q2 < n implies #[trigger] perm@[q1]
                != #[trigger] perm@[q2] by {
                let o1 = if q1 == k { best as int } else if q1 == best { k as int } else { q1 };
                let o2 = if q2 == k { best as int } else if q2 == best { k as int } else { q2 };
                assert(perm@[q1] == old_perm[o1]);
                assert(perm@[q2] == old_perm[o2]);
            }
            assert forall|x: int| 0 <= x < n implies #[trigger] perm@.contains(x as usize) by {
                assert(old_perm.contains(x as usize));
                let w = choose|w: int| 0 <= w < n && old_perm[w] == x as usize;
                let w2 = if w == k { best as int } else if w == best { k as int } else { w };
                assert(perm@[w2] == x as usize);
            }
            assert forall|q1: int, q2: int|
                0 <= q1 < k + 1 && q1 < q2 < n implies ranked_before(
                c[#[trigger] perm@[q1] as int],
                c[#[trigger] perm@[q2] as int],
            ) by {
                let o2 = if q2 == k { best as int } else if q2 == best { k as int } else { q2 };
                assert(perm@[q2] == old_perm[o2]);
                if q1 < k {
                    assert(perm@[q1] == old_perm[q1]);
                } else {
                    assert(perm@[q1] == old_perm[best as int]);
                }
            }
        }
        let label = tool_label_exec(&counts[pb].0, counts[pb].1);
        out.push(label);
        k = k + 1;
    }
    let ghost order = perm@.take(m as int).map_values(|i: usize| i as int);
    proof {
        assert(out@.map_values(|s: String| s@) =~= order.map_values(|i: int| tool_label(c[i])));
        assert forall|j: int, q: int|
            0 <= j < c.len() && 0 <= q < order.len() && !order.contains(j) implies ranked_before(
            c[#[trigger] order[q]],
            #[trigger] c[j],
        ) by {
            assert(perm@.contains(j as usize));
            let w = choose|w: int| 0 <= w < n && perm@[w] == j as usize;
            if w < m {
                assert(order[w] == j);
            }
            assert(order[q] == perm@[q] as int);
        }
        assert forall|q1: int, q2: int| 0 <= q1 < q2 < order.len() implies ranked_before(
            c[#[trigger] order[q1]],
            c[#[trigger] order[q2]],
        ) by {
            assert(order[q1] == perm@[q1] as int);
            assert(order[q2] == perm@[q2] as int);
        }
        assert(top_tools(c, order));
        assert(c == walk.tool_counts());
        assert(top_tools(walk.tool_counts(), order) && out@.map_values(|s: String| s@)
            == order.map_values(|i: int| tool_label(walk.tool_counts()[i])));
    }
    out
}
/// Shells, multiplexers, `sudo`/`su`/`login` and terminal emulators are never
/// counted as tools, in any letter case: a process whose lowercased name is one
/// of them counts as nothing, wherever it runs.
pub proof fn law_shells_are_never_tools(
    pid: u32,
    root: u32,
    hint: Option<(Seq<char>, bool)>,
    obs: ProcessObservation,
)
    ensures
        counted_name(pid, root, hint, obs) matches Some(n) ==> {
            &&& lowercase(n) != "bash"@
            &&& lowercase(n) != "zsh"@
            &&& lowercase(n) != "fish"@
            &&& lowercase(n) != "sh"@
            &&& lowercase(n) != "dash"@
            &&& lowercase(n) != "tmux"@
            &&& lowercase(n) != "screen"@
            &&& lowercase(n) != "sudo"@
            &&& lowercase(n) != "su"@
            &&& lowercase(n) != "login"@
            &&& lowercase(n) != "gnome-terminal"@
            &&& lowercase(n) != "gnome-terminal-server"@
            &&& lowercase(n) != "kgx"@
            &&& lowercase(n) != "konsole"@
            &&& lowercase(n) != "xterm"@
            &&& lowercase(n) != "alacritty"@
            &&& lowercase(n) != "wezterm"@
        },
{
}

} // verus!

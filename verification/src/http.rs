//! HTTP framing of the local bridge: request lines, header fields, the end of the
//! header block and the declared body length.
use vstd::prelude::*;
use crate::text::{
    chars_of, decimal, decimal_chars, find_exec, lossy_text, parse_u64, parsed_unsigned, split_once,
    string_of_range, trim, trim_str, utf8_error_text, utf8_lossy, utf8_string,
};
use crate::window::push_str;

verus! {

broadcast use vstd::string::group_string_axioms;

/// Index of the first `\n` at or after `i`.
pub open spec fn next_newline(s: Seq<char>, i: int) -> Option<int>
    decreases s.len() - i,
{
    if i < 0 || i >= s.len() {
        None
    } else if s[i] == '\n' {
        Some(i)
    } else {
        next_newline(s, i + 1)
    }
}

/// Where the next `\n` from `i` lies.
pub proof fn lemma_next_newline(s: Seq<char>, i: int)
    requires
        0 <= i,
    ensures
        next_newline(s, i) matches Some(j) ==> i <= j < s.len() && s[j] == '\n',
        next_newline(s, i) is None ==> forall|k: int| i <= k < s.len() ==> s[k] != '\n',
    decreases s.len() - i,
{
    if i < s.len() && s[i] != '\n' {
        lemma_next_newline(s, i + 1);
    }
}

/// A line without the `\r` of a `\r\n` ending.
pub open spec fn without_cr(l: Seq<char>) -> Seq<char> {
    if l.len() > 0 && l.last() == '\r' {
        l.drop_last()
    } else {
        l
    }
}

/// The lines of `s` from index `i` on (`str::lines`): split at `\n`, a `\r`
/// before the `\n` dropped, and no empty line after a final `\n`.
pub open spec fn lines_from(s: Seq<char>, i: int) -> Seq<Seq<char>>
    decreases s.len() - i,
{
    if i < 0 || i >= s.len() {
        Seq::empty()
    } else {
        match next_newline(s, i) {
            Some(j) => {
                proof {
                    lemma_next_newline(s, i);
                }
                seq![without_cr(s.subrange(i, j))] + lines_from(s, j + 1)
            },
            None => seq![s.subrange(i, s.len() as int)],
        }
    }
}

/// `str::lines`.
pub open spec fn lines(s: Seq<char>) -> Seq<Seq<char>> {
    lines_from(s, 0)
}

/// The lines of `s` (`str::lines`).
pub fn split_lines(s: &str) -> (r: Vec<String>)
    ensures
        r@.map_values(|l: String| l@) == lines(s@),
{
    let v = chars_of(s);
    let n = v.len();
    let mut out: Vec<String> = Vec::new();
    let mut i: usize = 0;
    while i < n
        invariant
            v@ == s@,
            n == v.len(),
            i <= n,
            out@.map_values(|l: String| l@) + lines_from(v@, i as int) == lines(v@),
        decreases n - i,
    {
        let mut j = i;
        while j < n && v[j] != '\n'
            invariant
                i <= j <= n,
                n == v.len(),
                next_newline(v@, i as int) == next_newline(v@, j as int),
            decreases n - j,
        {
            j = j + 1;
        }
        let ghost before = out@.map_values(|l: String| l@);
        if j < n {
            let end = if j > i && v[j - 1] == '\r' {
                j - 1
            } else {
                j
            };
            let line = string_of_range(&v, i, end);
            assert(line@ == without_cr(v@.subrange(i as int, j as int)));
            out.push(line);
            assert(out@.map_values(|l: String| l@) =~= before.push(line@));
            assert(lines_from(v@, i as int) =~= seq![line@] + lines_from(v@, j + 1));
            i = j + 1;
        } else {
            let line = string_of_range(&v, i, n);
            out.push(line);
            assert(out@.map_values(|l: String| l@) =~= before.push(line@));
            assert(lines_from(v@, i as int) =~= seq![line@]);
            i = n;
        }
    }
    out
}

/// The blank line that ends an HTTP header block.
pub open spec fn blank_line() -> Seq<char> {
    seq!['\r', '\n', '\r', '\n']
}

/// The request up to the blank line, or all of it when there is none.
pub open spec fn header_section(request: Seq<char>) -> Seq<char> {
    match split_once(request, blank_line()) {
        Some(parts) => parts.0,
        None => request,
    }
}

/// A character as `char::to_ascii_lowercase` compares it.
pub open spec fn ascii_fold(c: char) -> int {
    if 'A' <= c && c <= 'Z' {
        (c as int) + 32
    } else {
        c as int
    }
}

/// `str::eq_ignore_ascii_case`.
pub open spec fn eq_ignore_ascii_case(a: Seq<char>, b: Seq<char>) -> bool {
    a.len() == b.len() && forall|i: int| 0 <= i < a.len() ==> ascii_fold(#[trigger] a[i]) == ascii_fold(b[i])
}

/// The name and the value of a `name: value` line, split at the first `:`.
pub open spec fn field_parts(line: Seq<char>) -> Option<(Seq<char>, Seq<char>)> {
    split_once(line, seq![':'])
}

/// The trimmed value of `line` when it is a field called `name` in any case.
pub open spec fn field_value(line: Seq<char>, name: Seq<char>) -> Option<Seq<char>> {
    match field_parts(line) {
        Some(parts) => if eq_ignore_ascii_case(parts.0, name) {
            Some(trim(parts.1))
        } else {
            None
        },
        None => None,
    }
}

/// The value of the first field called `name` among the lines from index `i`.
pub open spec fn first_field_from(ls: Seq<Seq<char>>, name: Seq<char>, i: int) -> Option<Seq<char>>
    decreases ls.len() - i,
{
    if i < 0 || i >= ls.len() {
        None
    } else {
        match field_value(ls[i], name) {
            Some(v) => Some(v),
            None => first_field_from(ls, name, i + 1),
        }
    }
}

/// The value of the header `name` of a request: the first header line after the
/// request line whose name matches in any ASCII case, trimmed.
pub open spec fn header_of(request: Seq<char>, name: Seq<char>) -> Option<Seq<char>> {
    first_field_from(lines(header_section(request)), name, 1)
}

/// The character `to_ascii_lowercase` gives, as a number.
fn ascii_fold_exec(c: char) -> (r: u32)
    ensures
        r == ascii_fold(c),
{
    if 'A' <= c && c <= 'Z' {
        (c as u32) + 32
    } else {
        c as u32
    }
}

/// Whether `a` and `b` are equal ignoring ASCII case.
pub fn eq_ignore_ascii_case_exec(a: &Vec<char>, b: &Vec<char>) -> (r: bool)
    ensures
        r == eq_ignore_ascii_case(a@, b@),
{
    if a.len() != b.len() {
        return false;
    }
    let mut i: usize = 0;
    while i < a.len()
        invariant
            a.len() == b.len(),
            i <= a.len(),
            forall|k: int| 0 <= k < i ==> ascii_fold(#[trigger] a@[k]) == ascii_fold(b@[k]),
        decreases a.len() - i,
    {
        if ascii_fold_exec(a[i]) != ascii_fold_exec(b[i]) {
            return false;
        }
        i = i + 1;
    }
    true
}

/// The parts of a `name: value` line.
fn split_field(line: &str) -> (r: Option<(Vec<char>, String)>)
    ensures
        r matches Some(p) ==> field_parts(line@) == Some((p.0@, p.1@)),
        r is None ==> field_parts(line@) is None,
{
    let v = chars_of(line);
    let mut colon: Vec<char> = Vec::new();
    colon.push(':');
    assert(colon@ =~= seq![':']);
    match find_exec(&v, &colon, 0) {
        Some(p) => {
            assert(p + 1 <= v.len());
            let name = crate::text::copy_range(&v, 0, p);
            let value = string_of_range(&v, p + 1, v.len());
            assert(name@ =~= v@.take(p as int));
            assert(value@ =~= v@.skip(p + 1));
            Some((name, value))
        },
        None => None,
    }
}

/// The trimmed value of `line` when it is a field called `name`.
fn field_value_exec(line: &str, name: &Vec<char>) -> (r: Option<String>)
    ensures
        r matches Some(v) ==> field_value(line@, name@) == Some(v@),
        r is None ==> field_value(line@, name@) is None,
{
    match split_field(line) {
        Some((n, v)) => {
            if eq_ignore_ascii_case_exec(&n, name) {
                Some(trim_str(v.as_str()))
            } else {
                None
            }
        },
        None => None,
    }
}

/// The value of the header `header_name` of `request`, trimmed; the request line
/// is skipped and the body is not searched.
pub fn header_value(request: &str, header_name: &str) -> (r: Option<String>)
    ensures
        r matches Some(v) ==> header_of(request@, header_name@) == Some(v@),
        r is None ==> header_of(request@, header_name@) is None,
{
    let v = chars_of(request);
    let mut pat: Vec<char> = Vec::new();
    pat.push('\r');
    pat.push('\n');
    pat.push('\r');
    pat.push('\n');
    assert(pat@ =~= blank_line());
    let head = match find_exec(&v, &pat, 0) {
        Some(i) => {
            let h = string_of_range(&v, 0, i);
            assert(h@ =~= v@.take(i as int));
            h
        },
        None => string_of_range(&v, 0, v.len()),
    };
    assert(v@.subrange(0, v.len() as int) =~= v@);
    assert(head@ == header_section(request@));
    let ls = split_lines(head.as_str());
    let ghost lv = ls@.map_values(|l: String| l@);
    let name = chars_of(header_name);
    let mut k: usize = 1;
    while k < ls.len()
        invariant
            1 <= k,
            lv == ls@.map_values(|l: String| l@),
            lv == lines(header_section(request@)),
            name@ == header_name@,
            first_field_from(lv, name@, 1) == first_field_from(lv, name@, k as int),
        decreases ls.len() - k,
    {
        match field_value_exec(ls[k].as_str(), &name) {
            Some(val) => {
                assert(ls@[k as int]@ == lv[k as int]);
                return Some(val);
            },
            None => {
                assert(ls@[k as int]@ == lv[k as int]);
            },
        }
        k = k + 1;
    }
    None
}

/// The declared body length of the first `Content-Length` line (any case) whose
/// trimmed value reads as a `usize`, among the lines from index `i`.
pub open spec fn content_length_from(ls: Seq<Seq<char>>, i: int) -> Option<nat>
    decreases ls.len() - i,
{
    if i < 0 || i >= ls.len() {
        None
    } else {
        match field_parts(ls[i]) {
            Some(parts) => if eq_ignore_ascii_case(parts.0, "content-length"@) && parsed_unsigned(
                trim(parts.1),
                usize::MAX as nat,
            ) is Some {
                parsed_unsigned(trim(parts.1), usize::MAX as nat)
            } else {
                content_length_from(ls, i + 1)
            },
            None => content_length_from(ls, i + 1),
        }
    }
}

/// `str::parse::<usize>`.
fn parse_usize(s: &str) -> (r: Option<usize>)
    ensures
        r matches Some(n) ==> parsed_unsigned(s@, usize::MAX as nat) == Some(n as nat),
        r is None ==> parsed_unsigned(s@, usize::MAX as nat) is None,
{
    match parse_u64(s) {
        Some(n) => {
            if n as u128 <= usize::MAX as u128 {
                Some(n as usize)
            } else {
                None
            }
        },
        None => None,
    }
}

/// The declared body length of a header block: the value of the first
/// `Content-Length` line, in any case, whose trimmed value is a number.
pub fn parse_content_length(headers: &str) -> (r: Option<usize>)
    ensures
        r matches Some(n) ==> content_length_from(lines(headers@), 0) == Some(n as nat),
        r is None ==> content_length_from(lines(headers@), 0) is None,
{
    let ls = split_lines(headers);
    let ghost lv = ls@.map_values(|l: String| l@);
    let name = chars_of("content-length");
    let mut k: usize = 0;
    while k < ls.len()
        invariant
            lv == ls@.map_values(|l: String| l@),
            lv == lines(headers@),
            name@ == "content-length"@,
            content_length_from(lv, 0) == content_length_from(lv, k as int),
        decreases ls.len() - k,
    {
        assert(ls@[k as int]@ == lv[k as int]);
        match split_field(ls[k].as_str()) {
            Some((n, v)) => {
                if eq_ignore_ascii_case_exec(&n, &name) {
                    let t = trim_str(v.as_str());
                    match parse_usize(t.as_str()) {
                        Some(len) => {
                            return Some(len);
                        },
                        None => {},
                    }
                }
            },
            None => {},
        }
        k = k + 1;
    }
    None
}

/// The bytes `\r\n\r\n` stand at index `i`.
pub open spec fn blank_line_at(b: Seq<u8>, i: int) -> bool {
    0 <= i && i + 4 <= b.len() && b[i] == 13 && b[i + 1] == 10 && b[i + 2] == 13 && b[i + 3] == 10
}

/// The first index from `i` at which `\r\n\r\n` stands.
pub open spec fn blank_line_from(b: Seq<u8>, i: int) -> Option<int>
    decreases b.len() - i,
{
    if i < 0 || i + 4 > b.len() {
        None
    } else if blank_line_at(b, i) {
        Some(i)
    } else {
        blank_line_from(b, i + 1)
    }
}

/// A found blank line lies within the bytes.
pub proof fn lemma_blank_line_from(b: Seq<u8>, i: int)
    ensures
        blank_line_from(b, i) matches Some(h) ==> i <= h && blank_line_at(b, h),
    decreases b.len() - i,
{
    if 0 <= i && i + 4 <= b.len() && !blank_line_at(b, i) {
        lemma_blank_line_from(b, i + 1);
    }
}

/// Where the header block of a raw request ends: the index of its first
/// `\r\n\r\n`.
pub fn find_header_end(buffer: &[u8]) -> (r: Option<usize>)
    ensures
        r matches Some(i) ==> blank_line_from(buffer@, 0) == Some(i as int),
        r is None ==> blank_line_from(buffer@, 0) is None,
{
    let n = buffer.len();
    if n < 4 {
        return None;
    }
    let mut i: usize = 0;
    while i < n - 3
        invariant
            n == buffer@.len(),
            n >= 4,
            i <= n - 3,
            blank_line_from(buffer@, 0) == blank_line_from(buffer@, i as int),
        decreases n - i,
    {
        if buffer[i] == 13 && buffer[i + 1] == 10 && buffer[i + 2] == 13 && buffer[i + 3] == 10 {
            return Some(i);
        }
        i = i + 1;
    }
    None
}

/// How many bytes a request may hold before its header block is complete.
pub open spec fn request_size_limit() -> int {
    65_536int
}

/// The body length a header block declares, zero when it declares none.
pub open spec fn declared_length(header_bytes: Seq<u8>) -> nat {
    match content_length_from(lines(lossy_text(header_bytes)), 0) {
        Some(n) => n,
        None => 0,
    }
}

/// The full length of a request whose bytes so far are `b`, once its header
/// block is complete: the headers, the blank line and the declared body.
pub open spec fn request_target(b: Seq<u8>) -> Option<int> {
    match blank_line_from(b, 0) {
        Some(h) => Some(h + 4 + declared_length(b.take(h))),
        None => None,
    }
}

/// How reading a request stands after a chunk.
#[derive(Debug, Clone, Copy, PartialEq, Eq, Structural)]
pub enum ReadProgress {
    /// More bytes are needed.
    NeedMore,
    /// The header block grew past the size limit.
    TooLarge,
    /// The request is complete.
    Complete,
}

/// One chunk read into a request whose bytes so far are `buf` and whose full
/// length, once known, is `target`: the new bytes, target and progress.
pub open spec fn feed_step(buf: Seq<u8>, target: Option<int>, chunk: Seq<u8>) -> (
    Seq<u8>,
    Option<int>,
    ReadProgress,
) {
    let b = buf + chunk;
    match target {
        Some(t) => if b.len() >= t {
            (b.take(t), Some(t), ReadProgress::Complete)
        } else {
            (b, Some(t), ReadProgress::NeedMore)
        },
        None => if b.len() > request_size_limit() {
            (b, None, ReadProgress::TooLarge)
        } else {
            match request_target(b) {
                Some(t) => if b.len() >= t {
                    (b.take(t), Some(t), ReadProgress::Complete)
                } else {
                    (b, Some(t), ReadProgress::NeedMore)
                },
                None => (b, None, ReadProgress::NeedMore),
            }
        },
    }
}

/// Reads one HTTP request chunk by chunk.
///
/// Until the header block is complete the request may not grow past 64 KiB;
/// then as many bytes as `Content-Length` declares follow the blank line, and
/// bytes past them are dropped. At the end of the stream what was read is the
/// request.
pub struct RequestReader {
    buffer: Vec<u8>,
    target: Option<u128>,
}

impl RequestReader {
    /// The bytes kept so far.
    pub closed spec fn received(&self) -> Seq<u8> {
        self.buffer@
    }

    /// The full length of the request, once its header block is complete.
    pub closed spec fn expected(&self) -> Option<int> {
        match self.target {
            Some(t) => Some(t as int),
            None => None,
        }
    }

    /// A reader that has read nothing.
    pub fn new() -> (r: RequestReader)
        ensures
            r.received() == Seq::<u8>::empty(),
            r.expected() is None,
    {
        RequestReader { buffer: Vec::new(), target: None }
    }

    /// Takes in the next chunk read from the stream.
    pub fn feed(&mut self, chunk: &[u8]) -> (p: ReadProgress)
        ensures
            (final(self).received(), final(self).expected(), p) == feed_step(
                old(self).received(),
                old(self).expected(),
                chunk@,
            ),
    {
        let ghost b0 = self.buffer@;
        let mut i: usize = 0;
        while i < chunk.len()
            invariant
                i <= chunk.len(),
                self.buffer@ == b0 + chunk@.take(i as int),
                self.target == old(self).target,
                b0 == old(self).buffer@,
            decreases chunk.len() - i,
        {
            self.buffer.push(chunk[i]);
            i = i + 1;
            assert(self.buffer@ =~= b0 + chunk@.take(i as int));
        }
        assert(chunk@.take(chunk.len() as int) =~= chunk@);
        let len = self.buffer.len();
        let t = match self.target {
            Some(t) => t,
            None => {
                if len > 65_536 {
                    return ReadProgress::TooLarge;
                }
                match find_header_end(self.buffer.as_slice()) {
                    Some(h) => {
                        proof {
                            lemma_blank_line_from(self.buffer@, 0);
                        }
                        let mut head: Vec<u8> = Vec::new();
                        let mut k: usize = 0;
                        while k < h
                            invariant
                                k <= h,
                                h <= self.buffer@.len(),
                                head@ == self.buffer@.take(k as int),
                            decreases h - k,
                        {
                            head.push(self.buffer[k]);
                            k = k + 1;
                            assert(head@ =~= self.buffer@.take(k as int));
                        }
                        let headers = utf8_lossy(head.as_slice());
                        let declared: usize = match parse_content_length(headers.as_str()) {
                            Some(n) => n,
                            None => 0,
                        };
                        let t = (h as u128) + 4 + (declared as u128);
                        self.target = Some(t);
                        t
                    },
                    None => {
                        return ReadProgress::NeedMore;
                    },
                }
            },
        };
        if (len as u128) >= t {
            self.buffer.truncate(t as usize);
            ReadProgress::Complete
        } else {
            ReadProgress::NeedMore
        }
    }

    /// The request as text, read up to the end of the stream or to its full
    /// length; an error text when its bytes are not UTF-8.
    pub fn finish(self) -> (r: Result<String, String>)
        ensures
            r matches Ok(s) ==> vstd::utf8::valid_utf8(self.received()) && s@
                == vstd::utf8::decode_utf8(self.received()),
            r matches Err(e) ==> !vstd::utf8::valid_utf8(self.received()) && e@ == utf8_error_text(
                self.received(),
            ),
    {
        utf8_string(self.buffer)
    }
}

/// A blank line found within `r` is found at the same place once more bytes follow.
proof fn lemma_blank_line_prefix(r: Seq<u8>, extra: Seq<u8>, i: int)
    requires
        0 <= i,
        blank_line_from(r, i) is Some,
    ensures
        blank_line_from(r + extra, i) == blank_line_from(r, i),
    decreases r.len() - i,
{
    let b = r + extra;
    if i + 4 <= r.len() {
        assert(b[i] == r[i] && b[i + 1] == r[i + 1] && b[i + 2] == r[i + 2] && b[i + 3] == r[i + 3]);
        if !blank_line_at(r, i) {
            lemma_blank_line_prefix(r, extra, i + 1);
        }
    }
}

/// A whole request, read in one chunk together with whatever follows it, is
/// given back exactly: its header block, the blank line and as many body bytes
/// as its `Content-Length` declares.
pub proof fn law_reader_returns_the_declared_request(r: Seq<u8>, extra: Seq<u8>, h: int)
    requires
        blank_line_from(r, 0) == Some(h),
        r.len() == h + 4 + declared_length(r.take(h)),
        r.len() + extra.len() <= request_size_limit(),
    ensures
        feed_step(Seq::empty(), None, r + extra) == (r, Some(r.len() as int), ReadProgress::Complete),
{
    let b = Seq::<u8>::empty() + (r + extra);
    assert(b =~= r + extra);
    lemma_blank_line_prefix(r, extra, 0);
    lemma_blank_line_from(r, 0);
    assert(b.take(h) =~= r.take(h));
    assert(b.take(r.len() as int) =~= r);
}

/// The UTF-8 byte count of a text, as `str::len` reports it.
pub open spec fn byte_length(s: Seq<char>) -> nat {
    (vstd::utf8::encode_utf8(s).len() as usize) as nat
}

/// The text of an HTTP response with the bridge's fixed headers; the length is
/// the body's UTF-8 byte count.
pub open spec fn response_text(
    status: u16,
    reason: Seq<char>,
    content_type: Seq<char>,
    body: Seq<char>,
) -> Seq<char> {
    "HTTP/1.1 "@ + decimal(status as nat) + " "@ + reason + "\r\nContent-Type: "@ + content_type
        + "; charset=utf-8\r\nContent-Length: "@ + decimal(byte_length(body))
        + "\r\nAccess-Control-Allow-Origin: http://localhost:1421\r\nAccess-Control-Allow-Methods: GET, POST, OPTIONS\r\nAccess-Control-Allow-Headers: content-type, x-devflow-token\r\nConnection: close\r\n\r\n"@
        + body
}

/// Appends the characters of `d` to `v`.
fn push_chars(v: &mut Vec<char>, d: &Vec<char>)
    ensures
        final(v)@ == old(v)@ + d@,
{
    let mut i: usize = 0;
    while i < d.len()
        invariant
            i <= d.len(),
            v@ == old(v)@ + d@.take(i as int),
        decreases d.len() - i,
    {
        v.push(d[i]);
        i = i + 1;
        assert(v@ =~= old(v)@ + d@.take(i as int));
    }
    assert(d@.take(d.len() as int) =~= d@);
}

/// The response the bridge writes: status line, content type, length, the
/// CORS headers for the app's origin, `Connection: close`, then the body.
pub fn http_response(status: u16, reason: &str, content_type: &str, body: &str) -> (r: String)
    ensures
        r@ == response_text(status, reason@, content_type@, body@),
{
    let mut v: Vec<char> = Vec::new();
    push_str(&mut v, "HTTP/1.1 ");
    push_chars(&mut v, &decimal_chars(status as u128));
    push_str(&mut v, " ");
    push_str(&mut v, reason);
    push_str(&mut v, "\r\nContent-Type: ");
    push_str(&mut v, content_type);
    push_str(&mut v, "; charset=utf-8\r\nContent-Length: ");
    push_chars(&mut v, &decimal_chars(body.len() as u128));
    push_str(
        &mut v,
        "\r\nAccess-Control-Allow-Origin: http://localhost:1421\r\nAccess-Control-Allow-Methods: GET, POST, OPTIONS\r\nAccess-Control-Allow-Headers: content-type, x-devflow-token\r\nConnection: close\r\n\r\n",
    );
    push_str(&mut v, body);
    let n = v.len();
    assert(v@.subrange(0, n as int) =~= response_text(status, reason@, content_type@, body@));
    string_of_range(&v, 0, n)
}

} // verus!

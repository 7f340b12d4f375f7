//! The browser tab's text rules: what an address bar entry opens, which
//! files are images, how a content type is shown and highlighted, and a
//! page's title.

use vstd::prelude::*;
use crate::paths::{file_name, file_name_of};
use crate::text::{
    append_str, chars_of, contains, copy_range, find_chars, find_from, is_ws, last_index_of,
    lemma_find_from_bounds, lower, lower_chars, owned, push_char, replace_all, replace_str,
    rfind_char, starts_with, str_contains, str_starts_with, string_of, to_lower, trim, trim_chars,
    trimmed,
};

verus! {

/// Whether a target already says how to fetch it.
pub open spec fn has_scheme(t: Seq<char>) -> bool {
    starts_with(t, "http://"@) || starts_with(t, "https://"@) || starts_with(t, "file://"@)
}

fn has_scheme_exec(t: &str) -> (r: bool)
    ensures
        r == has_scheme(t@),
{
    str_starts_with(t, "http://") || str_starts_with(t, "https://") || str_starts_with(t, "file://")
}

/// The words of a text joined by `+` (`split_whitespace().join("+")`),
/// read from the left: `started` once a word was seen, `pending` when
/// whitespace followed it.
pub open spec fn plus_joined_from(s: Seq<char>, started: bool, pending: bool) -> Seq<char>
    decreases s.len(),
{
    if s.len() == 0 {
        Seq::empty()
    } else if is_ws(s[0]) {
        plus_joined_from(s.drop_first(), started, started)
    } else {
        (if pending { seq!['+'] } else { Seq::empty() }) + seq![s[0]] + plus_joined_from(
            s.drop_first(),
            true,
            false,
        )
    }
}

/// The whitespace-separated words of a text, joined by `+`.
pub open spec fn plus_joined(s: Seq<char>) -> Seq<char> {
    plus_joined_from(s, false, false)
}

fn plus_join(s: &str) -> (r: String)
    ensures
        r@ == plus_joined(s@),
{
    let v = chars_of(s);
    let mut out = String::new();
    let mut started = false;
    let mut pending = false;
    let mut i: usize = 0;
    proof {
        assert(v@.skip(0) =~= v@);
    }
    while i < v.len()
        invariant
            i <= v.len(),
            v@ == s@,
            plus_joined(s@) == out@ + plus_joined_from(v@.skip(i as int), started, pending),
        decreases v.len() - i,
    {
        let c = v[i];
        proof {
            assert(v@.skip(i as int)[0] == c);
            assert(v@.skip(i as int).drop_first() =~= v@.skip(i + 1));
        }
        let ghost before = out@;
        let ghost st = started;
        let ghost pd = pending;
        if crate::text::char_is_ws(c) {
            pending = started;
        } else {
            if pending {
                push_char(&mut out, '+');
            }
            push_char(&mut out, c);
            started = true;
            pending = false;
            proof {
                let rest = plus_joined_from(v@.skip(i + 1), true, false);
                let mark = if pd { seq!['+'] } else { Seq::<char>::empty() };
                assert(out@ =~= before + mark + seq![c]);
                assert(plus_joined_from(v@.skip(i as int), st, pd) == mark + seq![c] + rest);
                assert(out@ + rest =~= before + (mark + seq![c] + rest));
            }
        }
        i = i + 1;
    }
    proof {
        assert(v@.skip(i as int) =~= Seq::<char>::empty());
    }
    out
}

/// What an address bar entry opens: the workspace when it is blank; a URL
/// with a scheme, or an existing path, as given; `localhost:` and
/// `127.0.0.1:` addresses over HTTP; a dotted name without spaces over
/// HTTPS; anything else as a web search.
pub open spec fn normalized_target(
    raw: Seq<char>,
    workspace_path: Option<Seq<char>>,
    target_exists: bool,
) -> Seq<char> {
    let t = trim(raw);
    if t.len() == 0 {
        match workspace_path {
            Some(w) => w,
            None => Seq::empty(),
        }
    } else if has_scheme(t) {
        t
    } else if target_exists {
        t
    } else if starts_with(t, "localhost:"@) || starts_with(t, "127.0.0.1:"@) {
        "http://"@ + t
    } else if contains(t, "."@) && !contains(t, " "@) {
        "https://"@ + t
    } else {
        "https://duckduckgo.com/?q="@ + plus_joined(t)
    }
}

/// The target an address bar entry opens; `target_exists` tells whether the
/// trimmed entry names an existing path.
pub fn normalize_target(raw: &str, workspace_path: Option<&str>, target_exists: bool) -> (r: String)
    ensures
        r@ == normalized_target(
            raw@,
            match workspace_path {
                Some(w) => Some(w@),
                None => None,
            },
            target_exists,
        ),
{
    let target = trimmed(raw);
    if target.as_str().is_empty() {
        return match workspace_path {
            Some(w) => owned(w),
            None => String::new(),
        };
    }
    if has_scheme_exec(target.as_str()) {
        return target;
    }
    if target_exists {
        return target;
    }
    if str_starts_with(target.as_str(), "localhost:") || str_starts_with(target.as_str(), "127.0.0.1:") {
        let mut r = owned("http://");
        append_str(&mut r, target.as_str());
        return r;
    }
    if str_contains(target.as_str(), ".") && !str_contains(target.as_str(), " ") {
        let mut r = owned("https://");
        append_str(&mut r, target.as_str());
        return r;
    }
    let query = plus_join(target.as_str());
    let mut r = owned("https://duckduckgo.com/?q=");
    append_str(&mut r, query.as_str());
    r
}

/// The `+`-joined words end with a word's character, not whitespace.
proof fn lemma_plus_joined_last(s: Seq<char>, started: bool, pending: bool)
    ensures
        plus_joined_from(s, started, pending).len() == 0 || !is_ws(plus_joined_from(s, started, pending).last()),
    decreases s.len(),
{
    if s.len() > 0 {
        lemma_plus_joined_last(s.drop_first(), true, false);
        lemma_plus_joined_last(s.drop_first(), started, started);
    }
}

/// A text that starts and ends with other than whitespace is its own trim.
proof fn lemma_trim_of_trimmed(s: Seq<char>)
    requires
        s.len() > 0,
        !is_ws(s[0]),
        !is_ws(s.last()),
    ensures
        trim(s) == s,
{
    assert(crate::text::trim_start(s) == s);
    assert(crate::text::trim_end(s) == s);
}

/// A scheme and a trimmed, non-blank text after it are their own trim.
proof fn lemma_prefixed_trimmed(a: Seq<char>, t: Seq<char>)
    requires
        a.len() > 0,
        !is_ws(a[0]),
        t.len() == 0 || !is_ws(t.last()),
        a.len() > 0 && !is_ws(a.last()),
    ensures
        trim(a + t) == a + t,
{
    let n = a + t;
    assert(n[0] == a[0]);
    if t.len() > 0 {
        assert(n.last() == t.last());
    } else {
        assert(n.last() == a.last());
    }
    lemma_trim_of_trimmed(n);
}

/// Opening what the address bar opened gives it back: a non-blank entry,
/// once normalized, normalizes to itself while the paths that exist
/// (`on_disk`) stay as they are.
pub proof fn law_normalize_target_idempotent(
    raw: Seq<char>,
    workspace_path: Option<Seq<char>>,
    workspace_path2: Option<Seq<char>>,
    on_disk: spec_fn(Seq<char>) -> bool,
)
    requires
        trim(raw).len() > 0,
    ensures
        ({
            let n = normalized_target(raw, workspace_path, on_disk(trim(raw)));
            normalized_target(n, workspace_path2, on_disk(trim(n))) == n
        }),
{
    reveal_strlit("http://");
    reveal_strlit("https://");
    reveal_strlit("https://duckduckgo.com/?q=");
    let t = trim(raw);
    crate::text::lemma_trim_start_len(raw);
    crate::text::lemma_trim_end_len(crate::text::trim_start(raw));
    crate::chunk::lemma_trim_shrinks(raw);
    assert(!is_ws(t[0]) && !is_ws(t.last()));
    let n = normalized_target(raw, workspace_path, on_disk(t));
    if has_scheme(t) || on_disk(t) {
        lemma_trim_of_trimmed(t);
        assert(n == t);
    } else if starts_with(t, "localhost:"@) || starts_with(t, "127.0.0.1:"@) {
        let a = "http://"@;
        lemma_prefixed_trimmed(a, t);
        assert((a + t).take(7) =~= a);
        assert(has_scheme(n));
    } else if contains(t, "."@) && !contains(t, " "@) {
        let a = "https://"@;
        lemma_prefixed_trimmed(a, t);
        assert((a + t).take(8) =~= a);
        assert(has_scheme(n));
    } else {
        let a = "https://duckduckgo.com/?q="@;
        let q = plus_joined(t);
        lemma_plus_joined_last(t, false, false);
        lemma_prefixed_trimmed(a, q);
        assert((a + q).take(8) =~= "https://"@);
        assert(has_scheme(n));
    }
}

/// A URL that already names how to fetch it is opened as given: an entry
/// whose trimmed text starts with `http://`, `https://` or `file://`
/// normalizes to that trimmed text, whatever the workspace and the disk.
pub proof fn law_scheme_targets_open_as_given(
    raw: Seq<char>,
    workspace_path: Option<Seq<char>>,
    target_exists: bool,
)
    requires
        starts_with(trim(raw), "http://"@) || starts_with(trim(raw), "https://"@) || starts_with(
            trim(raw),
            "file://"@,
        ),
    ensures
        normalized_target(raw, workspace_path, target_exists) == trim(raw),
{
    reveal_strlit("http://");
    reveal_strlit("https://");
    reveal_strlit("file://");
    assert(trim(raw).len() > 0);
}

/// The browser's history as values: the targets visited, oldest first, and
/// the one shown.
pub struct HistoryV {
    pub entries: Seq<Seq<char>>,
    pub index: Option<nat>,
}

/// The history after opening a target: the entries after the one shown are
/// dropped; the target is added and shown, unless it is already the last
/// entry, which then stays as it is.
pub open spec fn history_push(h: HistoryV, target: Seq<char>) -> HistoryV {
    let kept = match h.index {
        Some(i) => if i + 1 <= h.entries.len() {
            h.entries.take(i + 1int)
        } else {
            h.entries
        },
        None => h.entries,
    };
    if kept.len() > 0 && kept.last() == target {
        HistoryV { entries: kept, index: h.index }
    } else {
        HistoryV { entries: kept.push(target), index: Some(kept.len()) }
    }
}

/// Going back: the entry before the one shown, if there is one.
pub open spec fn history_back(h: HistoryV) -> (HistoryV, Option<Seq<char>>) {
    match h.index {
        Some(i) => if i > 0 {
            (HistoryV { index: Some((i - 1) as nat), ..h }, Some(h.entries[i - 1]))
        } else {
            (h, None)
        },
        None => (h, None),
    }
}

/// Going forward: the entry after the one shown, if there is one.
pub open spec fn history_forward(h: HistoryV) -> (HistoryV, Option<Seq<char>>) {
    match h.index {
        Some(i) => if i + 1 < h.entries.len() {
            (HistoryV { index: Some(i + 1), ..h }, Some(h.entries[i + 1int]))
        } else {
            (h, None)
        },
        None => (h, None),
    }
}

/// The targets the browser tab visited, and the one it shows.
pub struct BrowserHistory {
    entries: Vec<String>,
    index: Option<usize>,
}

impl View for BrowserHistory {
    type V = HistoryV;

    closed spec fn view(&self) -> HistoryV {
        HistoryV {
            entries: crate::chunk::string_views(self.entries@),
            index: match self.index {
                Some(i) => Some(i as nat),
                None => None,
            },
        }
    }
}

impl BrowserHistory {
    /// The history shows an entry exactly when it has one.
    pub closed spec fn wf(&self) -> bool {
        match self.index {
            Some(i) => i < self.entries@.len(),
            None => self.entries@.len() == 0,
        }
    }

    /// An empty history.
    pub fn new() -> (r: BrowserHistory)
        ensures
            r.wf(),
            r@ == (HistoryV { entries: Seq::empty(), index: None }),
    {
        let r = BrowserHistory { entries: Vec::new(), index: None };
        proof {
            assert(crate::chunk::string_views(r.entries@) =~= Seq::<Seq<char>>::empty());
        }
        r
    }

    /// Records an opened target (`history_push`).
    pub fn push(&mut self, target: String)
        requires
            old(self).wf(),
        ensures
            final(self).wf(),
            final(self)@ == history_push(old(self)@, target@),
    {
        let ghost before = self.entries@;
        match self.index {
            Some(i) => {
                assert(i < self.entries.len());
                self.entries.truncate(i + 1);
            },
            None => {},
        }
        proof {
            match old(self).index {
                Some(i) => {
                    assert(crate::chunk::string_views(self.entries@) =~= crate::chunk::string_views(before).take(
                        i + 1,
                    ));
                },
                None => {},
            }
        }
        let n = self.entries.len();
        if n > 0 && self.entries[n - 1] == target {
            proof {
                assert(crate::chunk::string_views(self.entries@).last() == self.entries@[n - 1]@);
            }
            return;
        }
        proof {
            if n > 0 {
                assert(crate::chunk::string_views(self.entries@).last() == self.entries@[n - 1]@);
            }
        }
        let ghost kept = self.entries@;
        self.entries.push(target);
        self.index = Some(n);
        proof {
            assert(crate::chunk::string_views(self.entries@) =~= crate::chunk::string_views(kept).push(target@));
        }
    }

    /// Goes back (`history_back`): the target to show, if any.
    pub fn back(&mut self) -> (r: Option<String>)
        requires
            old(self).wf(),
        ensures
            final(self).wf(),
            (final(self)@, match r {
                Some(t) => Some(t@),
                None => None,
            }) == history_back(old(self)@),
    {
        match self.index {
            Some(i) => {
                if i > 0 {
                    self.index = Some(i - 1);
                    Some(self.entries[i - 1].clone())
                } else {
                    None
                }
            },
            None => None,
        }
    }

    /// Goes forward (`history_forward`): the target to show, if any.
    pub fn forward(&mut self) -> (r: Option<String>)
        requires
            old(self).wf(),
        ensures
            final(self).wf(),
            (final(self)@, match r {
                Some(t) => Some(t@),
                None => None,
            }) == history_forward(old(self)@),
    {
        match self.index {
            Some(i) => {
                if i < self.entries.len() - 1 {
                    self.index = Some(i + 1);
                    Some(self.entries[i + 1].clone())
                } else {
                    None
                }
            },
            None => None,
        }
    }

    /// Whether there is an entry to go back to.
    pub fn can_go_back(&self) -> (r: bool)
        ensures
            r == (history_back(self@).1 is Some),
    {
        match self.index {
            Some(i) => i > 0,
            None => false,
        }
    }

    /// Whether there is an entry to go forward to.
    pub fn can_go_forward(&self) -> (r: bool)
        requires
            self.wf(),
        ensures
            r == (history_forward(self@).1 is Some),
    {
        match self.index {
            Some(i) => i < self.entries.len() - 1,
            None => false,
        }
    }
}

/// The URI to open a target with outside the app: none for a blank target;
/// a URL with a scheme as given; an existing path as a `file://` URI; else
/// what the address bar would open.
pub open spec fn external_uri(
    target: Seq<char>,
    target_exists: bool,
    trimmed_exists: bool,
) -> Option<Seq<char>> {
    if trim(target).len() == 0 {
        None
    } else if has_scheme(target) {
        Some(target)
    } else if target_exists {
        Some("file://"@ + target)
    } else {
        Some(normalized_target(target, None, trimmed_exists))
    }
}

/// The URI for opening a target in another application; `target_exists`
/// tells whether the target names an existing path, `trimmed_exists`
/// whether it does once trimmed.
pub fn external_uri_for_target(target: &str, target_exists: bool, trimmed_exists: bool) -> (r: Option<String>)
    ensures
        match r {
            Some(u) => external_uri(target@, target_exists, trimmed_exists) == Some(u@),
            None => external_uri(target@, target_exists, trimmed_exists) is None,
        },
{
    let t = trimmed(target);
    if t.as_str().is_empty() {
        return None;
    }
    if has_scheme_exec(target) {
        return Some(owned(target));
    }
    if target_exists {
        let mut r = owned("file://");
        append_str(&mut r, target);
        return Some(r);
    }
    Some(normalize_target(target, None, trimmed_exists))
}

/// `Path::extension`: what follows the last `.` of the file name, unless
/// that `.` starts the name.
pub open spec fn extension(path: Seq<char>) -> Option<Seq<char>> {
    match file_name(path) {
        Some(n) => match last_index_of(n, '.') {
            Some(i) => if i > 0 {
                Some(n.skip(i + 1))
            } else {
                None
            },
            None => None,
        },
        None => None,
    }
}

/// The extensions shown as images.
pub open spec fn image_extension(e: Seq<char>) -> bool {
    e == "png"@ || e == "jpg"@ || e == "jpeg"@ || e == "gif"@ || e == "bmp"@ || e == "webp"@ || e
        == "svg"@ || e == "ico"@
}

/// Whether a path is shown as an image: its extension, in ASCII lower case,
/// is one of the image extensions.
pub open spec fn image_path(path: Seq<char>) -> bool {
    match extension(path) {
        Some(e) => image_extension(lower(e)),
        None => false,
    }
}

fn extension_of(path: &str) -> (r: Option<Vec<char>>)
    ensures
        match r {
            Some(e) => extension(path@) == Some(e@),
            None => extension(path@) is None,
        },
{
    let name = match file_name_of(path) {
        Some(n) => n,
        None => return None,
    };
    let v = chars_of(name.as_str());
    proof {
        assert(v@.subrange(0, v@.len() as int) =~= v@);
    }
    match rfind_char(&v, 0, v.len(), '.') {
        Some(i) => {
            proof {
                crate::text::lemma_last_index_of_bounds(v@, '.');
            }
            if i > 0 {
                let e = copy_range(&v, i + 1, v.len());
                proof {
                    assert(e@ =~= v@.skip(i + 1));
                }
                Some(e)
            } else {
                None
            }
        },
        None => None,
    }
}

/// Whether the browser shows a file as an image.
pub fn is_image_path(path: &str) -> (r: bool)
    ensures
        r == image_path(path@),
{
    match extension_of(path) {
        Some(e) => {
            let l = lower_chars(&e);
            let s = string_of(&l);
            let k = s.as_str();
            crate::text::str_eq(k, "png") || crate::text::str_eq(k, "jpg") || crate::text::str_eq(k, "jpeg")
                || crate::text::str_eq(k, "gif") || crate::text::str_eq(k, "bmp") || crate::text::str_eq(
                k,
                "webp",
            ) || crate::text::str_eq(k, "svg") || crate::text::str_eq(k, "ico")
        },
        None => false,
    }
}

/// A content type for display: `unknown content` when it is blank.
pub fn content_type_or_unknown(content_type: &str) -> (r: &str)
    ensures
        r@ == if trim(content_type@).len() == 0 {
            "unknown content"@
        } else {
            content_type@
        },
{
    let t = trimmed(content_type);
    if t.as_str().is_empty() {
        "unknown content"
    } else {
        content_type
    }
}

/// The source language to highlight a content type with: by the first of
/// `html`, `json`, `css`, `javascript` or `ecmascript`, and `xml` that the
/// type (in ASCII lower case) mentions.
pub open spec fn content_language(content_type: Seq<char>) -> Option<Seq<char>> {
    let l = lower(content_type);
    if contains(l, "html"@) {
        Some("html"@)
    } else if contains(l, "json"@) {
        Some("json"@)
    } else if contains(l, "css"@) {
        Some("css"@)
    } else if contains(l, "javascript"@) || contains(l, "ecmascript"@) {
        Some("js"@)
    } else if contains(l, "xml"@) {
        Some("xml"@)
    } else {
        None
    }
}

/// The highlighting language for a content type.
pub fn language_for_content_type(content_type: &str) -> (r: Option<String>)
    ensures
        match r {
            Some(n) => content_language(content_type@) == Some(n@),
            None => content_language(content_type@) is None,
        },
{
    let l = to_lower(content_type);
    let k = l.as_str();
    if str_contains(k, "html") {
        Some(owned("html"))
    } else if str_contains(k, "json") {
        Some(owned("json"))
    } else if str_contains(k, "css") {
        Some(owned("css"))
    } else if str_contains(k, "javascript") || str_contains(k, "ecmascript") {
        Some(owned("js"))
    } else if str_contains(k, "xml") {
        Some(owned("xml"))
    } else {
        None
    }
}

/// The title of an HTML page: the text between the first `<title` tag's `>`
/// and the next `</title>` (tags found in any ASCII case), trimmed, with
/// line breaks and tabs as spaces; none when it is missing or blank.
pub open spec fn html_title(body: Seq<char>) -> Option<Seq<char>> {
    let l = lower(body);
    match find_from(l, "<title"@, 0) {
        Some(start) => match find_from(l, ">"@, start) {
            Some(gt) => match find_from(l, "</title>"@, gt + 1) {
                Some(end) => {
                    let title = trim(body.subrange(gt + 1, end));
                    if title.len() == 0 {
                        None
                    } else {
                        Some(replace_all(replace_all(title, "\n"@, " "@), "\t"@, " "@))
                    }
                },
                None => None,
            },
            None => None,
        },
        None => None,
    }
}

/// The page title of an HTML body.
pub fn extract_html_title(body: &str) -> (r: Option<String>)
    ensures
        match r {
            Some(t) => html_title(body@) == Some(t@),
            None => html_title(body@) is None,
        },
{
    let v = chars_of(body);
    let l = lower_chars(&v);
    proof {
        reveal_strlit("<title");
        reveal_strlit(">");
        reveal_strlit("</title>");
        reveal_strlit("\n");
        reveal_strlit("\t");
    }
    let open_tag = chars_of("<title");
    let gt_mark = chars_of(">");
    let close_tag = chars_of("</title>");
    let start = match find_chars(&l, &open_tag, 0) {
        Some(k) => k,
        None => return None,
    };
    proof {
        lemma_find_from_bounds(l@, open_tag@, 0);
    }
    let gt = match find_chars(&l, &gt_mark, start) {
        Some(k) => k,
        None => return None,
    };
    proof {
        lemma_find_from_bounds(l@, gt_mark@, start as int);
        assert(crate::text::occurs_at(l@, gt_mark@, gt as int));
        assert(gt_mark@.len() == 1);
        assert(gt + 1 <= l@.len());
        assert(gt + 1 <= l.len());
    }
    let end = match find_chars(&l, &close_tag, gt + 1) {
        Some(k) => k,
        None => return None,
    };
    proof {
        lemma_find_from_bounds(l@, close_tag@, gt + 1);
        assert(crate::text::occurs_at(l@, close_tag@, end as int));
    }
    let inner = copy_range(&v, gt + 1, end);
    let t = trim_chars(&inner);
    if t.len() == 0 {
        return None;
    }
    let title = string_of(&t);
    let once = replace_str(title.as_str(), "\n", " ");
    Some(replace_str(once.as_str(), "\t", " "))
}

/// The text `String::from_utf8_lossy` makes of some bytes.
pub uninterp spec fn utf8_lossy(bytes: Seq<u8>) -> Seq<char>;

/// Trusted: calls `String::from_utf8_lossy`, which decodes UTF-8 and puts
/// U+FFFD for each invalid sequence; its result is named `utf8_lossy`. Stated
/// besides: ASCII bytes decode to the characters with the same codes.
#[verifier::external_body]
fn decode_utf8_lossy(bytes: &[u8]) -> (r: String)
    ensures
        r@ == utf8_lossy(bytes@),
        (forall|i: int| 0 <= i < bytes@.len() ==> bytes@[i] < 128) ==> r@ == bytes@.map_values(
            |b: u8| b as char,
        ),
{
    String::from_utf8_lossy(bytes).into_owned()
}

/// How much of a page body the browser shows.
pub const MAX_TEXT_PREVIEW_BYTES: usize = 786432;

/// The line added under a body that was cut.
pub const TRUNCATED_NOTE: &'static str = "\n\n--- Preview truncated ---";

/// A page of the browser tab: its title, the line under it, its text, how to
/// highlight the text, and the image to show instead, if any.
#[derive(Clone, Debug, PartialEq, Eq)]
pub struct BrowserPage {
    pub title: String,
    pub meta: String,
    pub body: String,
    pub language_id: Option<String>,
    pub image_path: Option<String>,
}

/// Where a target's page comes from.
#[derive(Clone, Debug, PartialEq, Eq)]
pub enum PageSource {
    /// A URL fetched over HTTP.
    Http(String),
    /// A file, by path.
    File(String),
}

/// The source of a target: HTTP for `http://` and `https://` URLs; else a
/// file, a `file://` URL naming its path with `%20` for spaces.
pub open spec fn page_source_of(target: Seq<char>) -> (bool, Seq<char>) {
    if starts_with(target, "http://"@) || starts_with(target, "https://"@) {
        (true, target)
    } else if starts_with(target, "file://"@) {
        (false, replace_all(target.skip(7), "%20"@, " "@))
    } else {
        (false, target)
    }
}

/// Where the browser loads a target from.
pub fn page_source(target: &str) -> (r: PageSource)
    ensures
        match r {
            PageSource::Http(u) => page_source_of(target@) == (true, u@),
            PageSource::File(p) => page_source_of(target@) == (false, p@),
        },
{
    if str_starts_with(target, "http://") || str_starts_with(target, "https://") {
        return PageSource::Http(owned(target));
    }
    if str_starts_with(target, "file://") {
        proof {
            reveal_strlit("file://");
            reveal_strlit("%20");
        }
        let v = chars_of(target);
        let rest = copy_range(&v, 7, v.len());
        proof {
            assert(rest@ =~= target@.skip(7));
        }
        let path = string_of(&rest);
        return PageSource::File(replace_str(path.as_str(), "%20", " "));
    }
    PageSource::File(owned(target))
}

/// The text shown of a body: the first bytes that fit the preview, decoded
/// with replacement characters, without NUL characters, and a note when
/// the body was longer.
pub open spec fn preview_text(bytes: Seq<u8>) -> Seq<char> {
    let shown = if bytes.len() > MAX_TEXT_PREVIEW_BYTES {
        bytes.take(MAX_TEXT_PREVIEW_BYTES as int)
    } else {
        bytes
    };
    let text = replace_all(utf8_lossy(shown), "\0"@, ""@);
    if bytes.len() > MAX_TEXT_PREVIEW_BYTES {
        text + TRUNCATED_NOTE@
    } else {
        text
    }
}

fn preview(bytes: &[u8]) -> (r: String)
    ensures
        r@ == preview_text(bytes@),
{
    let n = if bytes.len() > MAX_TEXT_PREVIEW_BYTES { MAX_TEXT_PREVIEW_BYTES } else { bytes.len() };
    let mut shown: Vec<u8> = Vec::new();
    let mut i: usize = 0;
    while i < n
        invariant
            i <= n <= bytes@.len(),
            shown@ == bytes@.take(i as int),
        decreases n - i,
    {
        shown.push(bytes[i]);
        proof {
            assert(shown@ =~= bytes@.take(i + 1));
        }
        i = i + 1;
    }
    proof {
        if bytes@.len() <= MAX_TEXT_PREVIEW_BYTES {
            assert(bytes@.take(n as int) =~= bytes@);
        }
        reveal_strlit("\0");
    }
    let decoded = decode_utf8_lossy(shown.as_slice());
    let mut text = replace_str(decoded.as_str(), "\0", "");
    if bytes.len() > MAX_TEXT_PREVIEW_BYTES {
        append_str(&mut text, TRUNCATED_NOTE);
    }
    text
}

/// The page of an HTTP answer: titled by the HTML title, else by the final
/// URL; under it the status code and the content type; its text the
/// preview, or a note naming the content type when the preview is blank.
pub open spec fn http_page_of(
    final_url: Seq<char>,
    status: u16,
    content_type: Seq<char>,
    bytes: Seq<u8>,
) -> (Seq<char>, Seq<char>, Seq<char>, Option<Seq<char>>) {
    let text = preview_text(bytes);
    let body = if trim(text).len() == 0 {
        "No readable text body.\n\nContent-Type: "@ + content_type
    } else {
        text
    };
    let title = match html_title(body) {
        Some(t) => t,
        None => final_url,
    };
    let shown_type = if trim(content_type).len() == 0 {
        "unknown content"@
    } else {
        content_type
    };
    (title, "HTTP "@ + crate::json::decimal(status as int) + " \u{2022} "@ + shown_type, body, content_language(content_type))
}

/// The browser page for an HTTP answer, from the final URL, the status code,
/// the `Content-Type` header (empty when missing) and the body's bytes.
pub fn http_page(final_url: &str, status: u16, content_type: &str, bytes: &[u8]) -> (r: BrowserPage)
    ensures
        (r.title@, r.meta@, r.body@, match r.language_id {
            Some(l) => Some(l@),
            None => None,
        }) == http_page_of(final_url@, status, content_type@, bytes@),
        r.image_path is None,
{
    let text = preview(bytes);
    let t = trimmed(text.as_str());
    let body = if t.as_str().is_empty() {
        let mut b = owned("No readable text body.\n\nContent-Type: ");
        append_str(&mut b, content_type);
        b
    } else {
        text
    };
    let title = match extract_html_title(body.as_str()) {
        Some(t) => t,
        None => owned(final_url),
    };
    let mut meta = owned("HTTP ");
    crate::json::append_decimal(&mut meta, status as i128);
    append_str(&mut meta, " \u{2022} ");
    append_str(&mut meta, content_type_or_unknown(content_type));
    BrowserPage {
        title,
        meta,
        body,
        language_id: language_for_content_type(content_type),
        image_path: None,
    }
}

/// A file's page title: its file name, else `File`.
pub open spec fn file_title(path: Seq<char>) -> Seq<char> {
    match file_name(path) {
        Some(n) => n,
        None => "File"@,
    }
}

fn file_title_of(path: &str) -> (r: String)
    ensures
        r@ == file_title(path@),
{
    match file_name_of(path) {
        Some(n) => n,
        None => owned("File"),
    }
}

/// Whether one of the first 512 bytes is zero.
pub open spec fn looks_binary(bytes: Seq<u8>) -> bool {
    exists|i: int| 0 <= i < bytes.len() && i < 512 && bytes[i] == 0
}

fn has_zero_prefix(bytes: &[u8]) -> (r: bool)
    ensures
        r == looks_binary(bytes@),
{
    let mut i: usize = 0;
    while i < bytes.len() && i < 512
        invariant
            i <= bytes@.len(),
            i <= 512,
            forall|t: int| 0 <= t < i ==> bytes@[t] != 0,
        decreases bytes.len() - i,
    {
        if bytes[i] == 0 {
            return true;
        }
        i = i + 1;
    }
    false
}

/// The browser page of an image file: its name, its path, the image.
pub fn image_page(path: &str) -> (r: BrowserPage)
    ensures
        r.title@ == file_title(path@),
        r.meta@ == path@,
        r.body@.len() == 0,
        r.language_id is None,
        r.image_path matches Some(p) && p@ == path@,
{
    BrowserPage {
        title: file_title_of(path),
        meta: owned(path),
        body: String::new(),
        language_id: None,
        image_path: Some(owned(path)),
    }
}

/// The browser page of a file's contents: a note for binary contents, else
/// the preview, highlighted as `language_id` says.
pub fn file_page(path: &str, bytes: &[u8], language_id: Option<String>) -> (r: BrowserPage)
    ensures
        r.title@ == file_title(path@),
        r.image_path is None,
        looks_binary(bytes@) ==> r.meta@ == path@ + " \u{2022} binary"@
            && r.body@ == "Binary file preview is not supported."@ && r.language_id is None,
        !looks_binary(bytes@) ==> r.meta@ == path@ && r.body@ == preview_text(bytes@)
            && r.language_id == language_id,
{
    let title = file_title_of(path);
    if has_zero_prefix(bytes) {
        let mut meta = owned(path);
        append_str(&mut meta, " \u{2022} binary");
        return BrowserPage {
            title,
            meta,
            body: owned("Binary file preview is not supported."),
            language_id: None,
            image_path: None,
        };
    }
    BrowserPage { title, meta: owned(path), body: preview(bytes), language_id, image_path: None }
}

} // verus!

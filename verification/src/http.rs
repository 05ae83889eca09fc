//! HTTP requests and replies as plain values, for the servers that the library decides for.

use crate::json::{self, Json, JsonView};
use crate::text::{self, lowered, same_text};
use vstd::prelude::*;

verus! {

/// The method of a request, as far as the servers tell them apart.
#[derive(Clone, Copy, PartialEq, Eq, Structural, Debug)]
pub enum HttpMethod {
    Get,
    Post,
    Options,
    Other,
}

/// A header as a mathematical value: its field and its value.
pub type HeaderView = (Seq<char>, Seq<char>);

/// The views of a list of headers.
pub open spec fn header_views(headers: Seq<(String, String)>) -> Seq<HeaderView> {
    headers.map_values(|h: (String, String)| (h.0@, h.1@))
}

/// Do the two texts name one header field? Case does not matter.
pub open spec fn same_field(a: Seq<char>, b: Seq<char>) -> bool {
    text::lower(a) == text::lower(b)
}

/// The value of the first header with the field `name`.
pub open spec fn header_of(headers: Seq<HeaderView>, name: Seq<char>) -> Option<Seq<char>>
    decreases headers.len(),
{
    if headers.len() == 0 {
        None
    } else if same_field(headers[0].0, name) {
        Some(headers[0].1)
    } else {
        header_of(headers.skip(1), name)
    }
}

/// Is there a header with the field `name` and the value `value`?
pub open spec fn has_header(headers: Seq<HeaderView>, name: Seq<char>, value: Seq<char>) -> bool {
    exists|i: int|
        0 <= i < headers.len() && same_field((#[trigger] headers[i]).0, name) && headers[i].1
            == value
}

/// The value of the first header with the field `name`.
pub fn find_header(headers: &Vec<(String, String)>, name: &str) -> (value: Option<String>)
    ensures
        text::opt_view(value) == header_of(header_views(headers@), name@),
{
    let ghost all = header_views(headers@);
    let wanted: String = lowered(name);
    let mut i: usize = 0;
    assert(all.skip(0) =~= all);
    while i < headers.len()
        invariant
            all == header_views(headers@),
            wanted@ == text::lower(name@),
            i <= headers@.len(),
            header_of(all, name@) == header_of(all.skip(i as int), name@),
        decreases headers@.len() - i,
    {
        assert(all.skip(i as int)[0] == (headers@[i as int].0@, headers@[i as int].1@));
        assert(all.skip(i as int).skip(1) =~= all.skip(i + 1));
        if same_text(lowered(headers[i].0.as_str()).as_str(), wanted.as_str()) {
            return Some(headers[i].1.clone());
        }
        i += 1;
    }
    None
}

/// Is there a header with the field `name` and the value `value`?
pub fn carries_header(headers: &Vec<(String, String)>, name: &str, value: &str) -> (found: bool)
    ensures
        found == has_header(header_views(headers@), name@, value@),
{
    let ghost all = header_views(headers@);
    let wanted: String = lowered(name);
    let mut i: usize = 0;
    while i < headers.len()
        invariant
            all == header_views(headers@),
            wanted@ == text::lower(name@),
            i <= headers@.len(),
            forall|k: int|
                0 <= k < i ==> !(same_field((#[trigger] all[k]).0, name@) && all[k].1 == value@),
        decreases headers@.len() - i,
    {
        assert(all[i as int] == (headers@[i as int].0@, headers@[i as int].1@));
        if same_text(lowered(headers[i].0.as_str()).as_str(), wanted.as_str()) && same_text(
            headers[i].1.as_str(),
            value,
        ) {
            return true;
        }
        i += 1;
    }
    false
}

/// Is every character of `s` ASCII?
pub open spec fn ascii(s: Seq<char>) -> bool {
    forall|i: int| 0 <= i < s.len() ==> #[trigger] s[i] as u32 <= 127
}

/// `tiny_http::Header::from_bytes`: a field and a value make a header exactly where both
/// are ASCII.
#[verifier::external_body]
pub(crate) fn header_is_valid(name: &str, value: &str) -> (valid: bool)
    ensures
        valid == (ascii(name@) && ascii(value@)),
{
    tiny_http::Header::from_bytes(name.as_bytes(), value.as_bytes()).is_ok()
}

/// A reply as a mathematical value.
pub struct ReplyView {
    pub status: u16,
    pub headers: Seq<HeaderView>,
    pub body: Seq<char>,
}

/// What a server sends back.
pub struct HttpReply {
    pub status: u16,
    pub headers: Vec<(String, String)>,
    pub body: String,
}

impl View for HttpReply {
    type V = ReplyView;

    open spec fn view(&self) -> ReplyView {
        ReplyView {
            status: self.status,
            headers: header_views(self.headers@),
            body: self.body@,
        }
    }
}

/// Appends a header to a list.
pub fn push_header(headers: &mut Vec<(String, String)>, name: &str, value: &str)
    ensures
        header_views(final(headers)@) == header_views(old(headers)@).push((name@, value@)),
{
    let ghost before = headers@;
    headers.push((name.to_owned(), value.to_owned()));
    assert(header_views(headers@) =~= header_views(before).push((name@, value@)));
}

/// The path of a request's target: what stands before its query.
pub open spec fn path_of(url: Seq<char>) -> Seq<char> {
    url.take(text::run_before(url, '?') as int)
}

/// The path of a request's target.
pub fn request_path(url: &str) -> (path: String)
    ensures
        path@ == path_of(url@),
{
    let s: Vec<char> = text::chars_of(url);
    let at: usize = text::find_char(s.as_slice(), '?', 0);
    proof {
        assert(s@.skip(0) =~= s@);
        assert(s@.subrange(0, at as int) =~= s@.take(at as int));
    }
    text::text_of(vstd::slice::slice_subrange(s.as_slice(), 0, at))
}

/// A reply that carries a JSON document.
pub open spec fn json_reply(status: u16, value: JsonView) -> ReplyView {
    ReplyView {
        status,
        headers: seq![("Content-Type"@, "application/json"@)],
        body: json::compact_json(value),
    }
}

/// The document that tells an OpenAI client of an error.
pub open spec fn error_json(message: Seq<char>) -> JsonView {
    JsonView::object().put(
        "error"@,
        JsonView::object().put("message"@, JsonView::Text(message)),
    )
}

/// A reply that carries a JSON document.
pub fn reply_json(status: u16, value: &Json) -> (reply: HttpReply)
    ensures
        reply@ == json_reply(status, value@),
{
    let mut headers: Vec<(String, String)> = Vec::new();
    assert(header_views(headers@) =~= Seq::empty());
    push_header(&mut headers, "Content-Type", "application/json");
    HttpReply { status, headers, body: value.compact() }
}

/// A reply that tells an OpenAI client of an error.
pub fn reply_error(status: u16, message: &str) -> (reply: HttpReply)
    ensures
        reply@ == json_reply(status, error_json(message@)),
{
    let value: Json = Json::object().put(
        "error",
        Json::object().put("message", Json::text(message)),
    );
    reply_json(status, &value)
}

// ---------------------------------------------------------------------------
// Laws
// ---------------------------------------------------------------------------

/// The first header of a field is found, whatever the case of its letters.
pub proof fn law_first_header(headers: Seq<HeaderView>, name: Seq<char>, i: int)
    requires
        0 <= i <= headers.len(),
        forall|k: int| 0 <= k < i ==> text::lower((#[trigger] headers[k]).0) != text::lower(name),
    ensures
        i < headers.len() && text::lower(headers[i].0) == text::lower(name) ==> header_of(
            headers,
            name,
        ) == Some(headers[i].1),
        i == headers.len() ==> header_of(headers, name) is None,
    decreases headers.len(),
{
    if i > 0 {
        let rest = headers.skip(1);
        assert(text::lower(headers[0].0) != text::lower(name));
        assert forall|k: int| 0 <= k < i - 1 implies text::lower((#[trigger] rest[k]).0)
            != text::lower(name) by {
            assert(text::lower(headers[k + 1].0) != text::lower(name));
        }
        law_first_header(rest, name, i - 1);
    }
}

/// A header is carried exactly where one of that field, whatever its case, has that value.
pub proof fn law_carried_header(headers: Seq<HeaderView>, name: Seq<char>, value: Seq<char>)
    ensures
        has_header(headers, name, value) <==> exists|i: int|
            0 <= i < headers.len() && text::lower((#[trigger] headers[i]).0) == text::lower(name)
                && headers[i].1 == value,
{
}

/// The path of a target ends at its first question mark.
pub proof fn law_path_ends_at_query(path: Seq<char>, query: Seq<char>)
    requires
        !path.contains('?'),
    ensures
        path_of(path) == path,
        path_of(path + seq!['?'] + query) == path,
{
    let s = path + seq!['?'] + query;
    assert forall|k: int| 0 <= k < path.len() implies s[k] != '?' && path[k] != '?' by {
        assert(path.contains(path[k]));
    }
    text::lemma_run_before(s, '?', path.len() as int);
    text::lemma_run_before(path, '?', path.len() as int);
    assert(s.take(path.len() as int) =~= path);
    assert(path.take(path.len() as int) =~= path);
}

/// An error is told under `error`, in its own words, and a reply says what it was given.
pub proof fn law_errors_are_told(status: u16, message: Seq<char>, value: JsonView)
    ensures
        error_json(message).field("error"@) matches Some(e) && e.text_field("message"@) == Some(
            message,
        ),
        json_reply(status, value).status == status,
        json_reply(status, value).body == json::compact_json(value),
        json_reply(status, value).headers.contains(("Content-Type"@, "application/json"@)),
{
    assert(json_reply(status, value).headers[0] == ("Content-Type"@, "application/json"@));
}

/// A text is ASCII where both of its parts are, and a character is up to the last of them.
pub proof fn law_ascii(a: Seq<char>, b: Seq<char>, c: char)
    ensures
        ascii(a + b) <==> ascii(a) && ascii(b),
        c <= '\u{7f}' <==> ascii(seq![c]),
{
    if ascii(a + b) {
        assert forall|i: int| 0 <= i < a.len() implies #[trigger] a[i] as u32 <= 127 by {
            assert((a + b)[i] as u32 <= 127);
        }
        assert forall|i: int| 0 <= i < b.len() implies #[trigger] b[i] as u32 <= 127 by {
            assert((a + b)[a.len() + i] as u32 <= 127);
        }
    }
    assert(seq![c][0] == c);
}

} // verus!

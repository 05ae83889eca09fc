//! Requests to the TypeScript service, and what comes back from it.

use crate::bytes::{self, lossy_text};
use crate::json::{self, Json, JsonView};
use crate::text::{self, head, trimmed};
use vstd::prelude::*;

verus! {

/// A place in a source file, counted from zero.
#[derive(Clone, Copy)]
pub struct Position {
    pub line: i64,
    pub character: i64,
}

/// A place as the service gets it.
pub open spec fn position_json(p: Position) -> JsonView {
    JsonView::object().put("line"@, JsonView::Number(json::signed_view(p.line))).put(
        "character"@,
        JsonView::Number(json::signed_view(p.character)),
    )
}

/// An optional text, or `null`.
pub open spec fn text_or_null(t: Option<Seq<char>>) -> JsonView {
    match t {
        Some(t) => JsonView::Text(t),
        None => JsonView::Null,
    }
}

/// An optional text, or `null`.
fn optional_text(t: &Option<String>) -> (json: Json)
    ensures
        json@ == text_or_null(text::opt_view(*t)),
{
    match t {
        Some(t) => Json::text(t.as_str()),
        None => Json::Null,
    }
}

/// A request for the types at places of a file. `content`, where it is given, stands in
/// for what is on disk.
pub open spec fn types_request(
    root: Seq<char>,
    file: Seq<char>,
    positions: Seq<Position>,
    content: Option<Seq<char>>,
) -> JsonView {
    JsonView::object().put("root"@, JsonView::Text(root)).put("file"@, JsonView::Text(file)).put(
        "positions"@,
        JsonView::Array(positions.map_values(|p: Position| position_json(p))),
    ).put("content"@, text_or_null(content))
}

/// A request for the edits of a refactoring.
pub open spec fn refactor_request(
    root: Seq<char>,
    file: Seq<char>,
    kind: Seq<char>,
    args: JsonView,
    content: Option<Seq<char>>,
) -> JsonView {
    JsonView::object().put("root"@, JsonView::Text(root)).put("file"@, JsonView::Text(file)).put(
        "op"@,
        JsonView::Text("refactor"@),
    ).put("kind"@, JsonView::Text(kind)).put("args"@, args).put("content"@, text_or_null(content))
}

/// The places as the service gets them.
fn positions_to_json(positions: &Vec<Position>) -> (array: Json)
    ensures
        array@ == JsonView::Array(positions@.map_values(|p: Position| position_json(p))),
{
    let ghost all = positions@.map_values(|p: Position| position_json(p));
    let mut items: Vec<Json> = Vec::new();
    let mut i: usize = 0;
    while i < positions.len()
        invariant
            i <= positions@.len(),
            all == positions@.map_values(|p: Position| position_json(p)),
            json::json_views(items@) == all.take(i as int),
        decreases positions@.len() - i,
    {
        let p: Position = positions[i];
        let item: Json = Json::object().put("line", Json::Signed(p.line)).put(
            "character",
            Json::Signed(p.character),
        );
        proof {
            json::lemma_json_views_push(items@, item);
            assert(all.take(i + 1) =~= all.take(i as int).push(position_json(p)));
        }
        items.push(item);
        i += 1;
    }
    proof {
        assert(all.take(i as int) =~= all);
        json::lemma_array_view(items);
    }
    Json::Array(items)
}

/// A request to the service: the project it is for, and its text.
pub struct ScriptRequest {
    pub root: String,
    pub input: String,
}

/// The request for the types at places of a file.
pub fn resolve_types_inner(
    project_path: Option<String>,
    file: &str,
    positions: &Vec<Position>,
    content: Option<String>,
) -> (request: Result<ScriptRequest, String>)
    ensures
        match project_path {
            None => request matches Err(e) && e@ == "resolve_types: no project path"@,
            Some(root) => request matches Ok(r) && r.root@ == root@ && r.input@
                == json::compact_json(
                types_request(root@, file@, positions@, text::opt_view(content)),
            ),
        },
{
    let root: String = match project_path {
        Some(root) => root,
        None => return Err("resolve_types: no project path".to_owned()),
    };
    let value: Json = Json::object().put("root", Json::text(root.as_str())).put(
        "file",
        Json::text(file),
    ).put("positions", positions_to_json(positions)).put("content", optional_text(&content));
    Ok(ScriptRequest { root, input: value.compact() })
}

/// The request for the edits of a refactoring.
pub fn compute_refactor_inner(
    project_path: Option<String>,
    file: &str,
    kind: &str,
    args: Json,
    content: Option<String>,
) -> (request: Result<ScriptRequest, String>)
    ensures
        match project_path {
            None => request matches Err(e) && e@ == "compute_refactor: no project path"@,
            Some(root) => request matches Ok(r) && r.root@ == root@ && r.input@
                == json::compact_json(
                refactor_request(root@, file@, kind@, args@, text::opt_view(content)),
            ),
        },
{
    let root: String = match project_path {
        Some(root) => root,
        None => return Err("compute_refactor: no project path".to_owned()),
    };
    let value: Json = Json::object().put("root", Json::text(root.as_str())).put(
        "file",
        Json::text(file),
    ).put("op", Json::text("refactor")).put("kind", Json::text(kind)).put("args", args).put(
        "content",
        optional_text(&content),
    );
    Ok(ScriptRequest { root, input: value.compact() })
}

/// What the service printed, or the start of its errors where that was nothing.
pub open spec fn printed_by(stdout: Seq<char>, stderr: Seq<char>) -> Result<Seq<char>, Seq<char>> {
    if text::trim(stdout).len() > 0 {
        Ok(stdout)
    } else {
        Err("ts-service no output: "@ + text::head_of(stderr, 300))
    }
}

/// What the service printed, or the start of its errors where that was nothing.
pub fn script_output(stdout: &[u8], stderr: &[u8]) -> (output: Result<String, String>)
    ensures
        text::result_view(output) == printed_by(
            bytes::lossy_utf8(stdout@),
            bytes::lossy_utf8(stderr@),
        ),
        if text::trim(bytes::lossy_utf8(stdout@)).len() > 0 {
            output matches Ok(s) && s@ == bytes::lossy_utf8(stdout@)
        } else {
            output matches Err(e) && e@ == "ts-service no output: "@ + text::head_of(
                bytes::lossy_utf8(stderr@),
                300,
            )
        },
{
    let s: String = lossy_text(stdout);
    if trimmed(s.as_str()).as_str().is_empty() {
        let message: String = "ts-service no output: ".to_owned();
        return Err(message.concat(head(lossy_text(stderr).as_str(), 300).as_str()));
    }
    Ok(s)
}

/// What the service printed as a document, or why it is none: `failure` leads the reason.
pub fn script_document(output: &str, failure: &str) -> (document: Result<Json, String>)
    ensures
        match json::parsed_json(output@) {
            Ok(v) => document matches Ok(d) && d@ == v,
            Err(e) => document matches Err(f) && f@ == failure@ + e,
        },
{
    match Json::parse(output) {
        Ok(d) => Ok(d),
        Err(e) => {
            let message: String = failure.to_owned();
            Err(message.concat(e.as_str()))
        },
    }
}

// ---------------------------------------------------------------------------
// Laws
// ---------------------------------------------------------------------------

proof fn lemma_request_names()
    ensures
        "root"@ != "file"@,
        "root"@ != "positions"@,
        "root"@ != "content"@,
        "root"@ != "op"@,
        "root"@ != "kind"@,
        "root"@ != "args"@,
        "root"@ != "line"@,
        "root"@ != "character"@,
        "file"@ != "positions"@,
        "file"@ != "content"@,
        "file"@ != "op"@,
        "file"@ != "kind"@,
        "file"@ != "args"@,
        "file"@ != "line"@,
        "file"@ != "character"@,
        "positions"@ != "content"@,
        "positions"@ != "op"@,
        "positions"@ != "kind"@,
        "positions"@ != "args"@,
        "positions"@ != "line"@,
        "positions"@ != "character"@,
        "content"@ != "op"@,
        "content"@ != "kind"@,
        "content"@ != "args"@,
        "content"@ != "line"@,
        "content"@ != "character"@,
        "op"@ != "kind"@,
        "op"@ != "args"@,
        "op"@ != "line"@,
        "op"@ != "character"@,
        "kind"@ != "args"@,
        "kind"@ != "line"@,
        "kind"@ != "character"@,
        "args"@ != "line"@,
        "args"@ != "character"@,
        "line"@ != "character"@,
{
    reveal_strlit("root");
    reveal_strlit("file");
    reveal_strlit("positions");
    reveal_strlit("content");
    reveal_strlit("op");
    reveal_strlit("kind");
    reveal_strlit("args");
    reveal_strlit("line");
    reveal_strlit("character");
    assert("root"@.len() == 4);
    assert("file"@.len() == 4);
    assert("positions"@.len() == 9);
    assert("content"@.len() == 7);
    assert("op"@.len() == 2);
    assert("kind"@.len() == 4);
    assert("args"@.len() == 4);
    assert("line"@.len() == 4);
    assert("character"@.len() == 9);
    assert("root"@[0] == 'r');
    assert("file"@[0] == 'f');
    assert("kind"@[0] == 'k');
    assert("args"@[0] == 'a');
    assert("line"@[0] == 'l');
    assert("positions"@[0] == 'p');
    assert("character"@[0] == 'c');
}

/// A request for types names the project, the file and every place in order; a content that
/// is given goes with it, and `null` where none is.
pub proof fn law_types_request(
    root: Seq<char>,
    file: Seq<char>,
    positions: Seq<Position>,
    content: Seq<char>,
    i: int,
)
    requires
        0 <= i < positions.len(),
    ensures
        ({
            let r = types_request(root, file, positions, Some(content));
            &&& r.text_field("root"@) == Some(root)
            &&& r.text_field("file"@) == Some(file)
            &&& r.text_field("content"@) == Some(content)
            &&& r.field("op"@) is None
            &&& r.field("positions"@) matches Some(JsonView::Array(all)) && {
                &&& all.len() == positions.len()
                &&& all[i].field("line"@) == Some(
                    JsonView::Number(json::signed_view(positions[i].line)),
                )
                &&& all[i].field("character"@) == Some(
                    JsonView::Number(json::signed_view(positions[i].character)),
                )
            }
        }),
        types_request(root, file, positions, None).field("content"@) == Some(JsonView::Null),
{
    lemma_request_names();
}

/// A request for a refactoring names the project, the file, which one it is and its arguments.
pub proof fn law_refactor_request(
    root: Seq<char>,
    file: Seq<char>,
    kind: Seq<char>,
    args: JsonView,
    content: Seq<char>,
)
    ensures
        ({
            let r = refactor_request(root, file, kind, args, Some(content));
            &&& r.text_field("root"@) == Some(root)
            &&& r.text_field("file"@) == Some(file)
            &&& r.text_field("op"@) == Some("refactor"@)
            &&& r.text_field("kind"@) == Some(kind)
            &&& r.field("args"@) == Some(args)
            &&& r.text_field("content"@) == Some(content)
        }),
        refactor_request(root, file, kind, args, None).field("content"@) == Some(JsonView::Null),
{
    lemma_request_names();
}

/// What the service printed counts as it is, unless it is only white space; then the start of
/// its errors is told.
pub proof fn law_service_output(
    a: Seq<char>,
    out: Seq<char>,
    b: Seq<char>,
    err: Seq<char>,
    rest: Seq<char>,
)
    requires
        forall|i: int| 0 <= i < a.len() ==> text::is_space(#[trigger] a[i]),
        forall|i: int| 0 <= i < b.len() ==> text::is_space(#[trigger] b[i]),
        out.len() > 0 && !text::is_space(out[0]) && !text::is_space(out.last()),
        err.len() == 300 || err.len() < 300 && rest.len() == 0,
    ensures
        printed_by(a + out + b, err) == Ok::<Seq<char>, Seq<char>>(a + out + b),
        printed_by(a, err + rest) matches Err(e) && text::finishes(e, err),
{
    let e = Seq::<char>::empty();
    text::law_trimming(a, out, b, text::CharClass::Space);
    text::lemma_trim_start_skips(a, e, text::CharClass::Space);
    assert(a + e =~= a);
    text::law_start_and_end(err, rest);
    if err.len() < 300 {
        assert(err + rest =~= err);
        text::law_start_and_end(err, Seq::new((300 - err.len()) as nat, |i: int| 'x'));
    }
    text::law_prefix(err, "ts-service no output: "@, e);
}

} // verus!

//! The file writes that a model proposes in its output.
//!
//! Small models often print the JSON of a tool call as text. Such calls are read as
//! proposals: nothing is written until a person approves it.

use crate::json::{self, Json, JsonView};
use crate::paths::{self, path_below, path_file_name};
use crate::scan::{self, json_objects};
use crate::text::{
    self, chars_of, contains, ends_with, find_chars, replaced, same_text, starts_with, strip_prefix,
    text_of, trim_start_chars, trim_start_class, trimmed, CharClass,
};
use vstd::prelude::*;
use vstd::slice::slice_subrange;

verus! {

// ---------------------------------------------------------------------------
// Strings in broken JSON
// ---------------------------------------------------------------------------

/// What an escaped character stands for: one of the common escapes, or itself behind the
/// backslash.
pub open spec fn unescaped(c: char) -> Seq<char> {
    if c == 'n' {
        seq!['\n']
    } else if c == 't' {
        seq!['\t']
    } else if c == 'r' {
        seq!['\r']
    } else if c == '"' || c == '\\' || c == '\'' {
        seq![c]
    } else {
        seq!['\\', c]
    }
}

/// The text of a string up to its closing quote, or to the end where it has none.
pub open spec fn string_body(s: Seq<char>) -> Seq<char>
    decreases s.len(),
{
    if s.len() == 0 || s[0] == '"' {
        Seq::empty()
    } else if s[0] == '\\' {
        if s.len() == 1 {
            Seq::empty()
        } else {
            unescaped(s[1]) + string_body(s.skip(2))
        }
    } else {
        seq![s[0]] + string_body(s.skip(1))
    }
}

/// What stands behind the opening quote of the string in `field`, where there is one.
pub open spec fn field_start(blob: Seq<char>, field: Seq<char>) -> Option<Seq<char>> {
    let key = "\""@ + field + "\""@;
    match text::first_match(blob, key, 0) {
        None => None,
        Some(i) => {
            let after = blob.skip(i + key.len());
            match text::first_match(after, ":"@, 0) {
                None => None,
                Some(colon) => {
                    let rest = text::trim_start_of(after.skip(colon + 1), CharClass::Space);
                    if text::begins(rest, "\""@) {
                        Some(rest.skip(1))
                    } else {
                        None
                    }
                },
            }
        },
    }
}

/// The string in `field`, read loosely: the document around it need not be valid. A string
/// that ends before it begins is taken for none, unless its closing quote is there.
pub open spec fn loose_field(blob: Seq<char>, field: Seq<char>) -> Option<Seq<char>> {
    match field_start(blob, field) {
        None => None,
        Some(rest) => {
            let body = string_body(rest);
            if body.len() == 0 && !text::begins(rest, "\""@) {
                None
            } else {
                Some(body)
            }
        },
    }
}

/// The text of a string up to its closing quote.
fn read_string_body(s: &[char]) -> (body: String)
    ensures
        body@ == string_body(s@),
{
    let mut body: String = String::new();
    let mut i: usize = 0;
    let mut done: bool = false;
    assert(s@.skip(0) =~= s@);
    assert(body@ + string_body(s@) =~= string_body(s@));
    while !done && i < s.len()
        invariant
            i <= s@.len(),
            !done ==> body@ + string_body(s@.skip(i as int)) == string_body(s@),
            done ==> body@ == string_body(s@),
        decreases
                s@.len() - i,
                if done {
                    0int
                } else {
                    1int
                },
    {
        let ghost rest = s@.skip(i as int);
        let ghost before = body@;
        let c: char = s[i];
        if c == '"' {
            assert(before + string_body(rest) =~= before);
            done = true;
        } else if c == '\\' {
            if i + 1 == s.len() {
                assert(before + string_body(rest) =~= before);
                done = true;
            } else {
                let o: char = s[i + 1];
                assert(rest[1] == o);
                assert(rest.skip(2) =~= s@.skip(i + 2));
                if o == 'n' {
                    body.push('\n');
                } else if o == 't' {
                    body.push('\t');
                } else if o == 'r' {
                    body.push('\r');
                } else if o == '"' || o == '\\' || o == '\'' {
                    body.push(o);
                } else {
                    body.push('\\');
                    body.push(o);
                }
                assert(body@ =~= before + unescaped(o));
                assert(before + unescaped(o) + string_body(s@.skip(i + 2)) =~= before + (unescaped(
                    o,
                ) + string_body(s@.skip(i + 2))));
                i += 2;
            }
        } else {
            body.push(c);
            assert(rest.skip(1) =~= s@.skip(i + 1));
            assert(before.push(c) + string_body(s@.skip(i + 1)) =~= before + (seq![rest[0]]
                + string_body(s@.skip(i + 1))));
            i += 1;
        }
    }
    if !done {
        assert(body@ + string_body(s@.skip(i as int)) =~= body@);
    }
    body
}

/// The string in `field`, read loosely.
pub fn extract_json_string_field(blob: &str, field: &str) -> (value: Option<String>)
    ensures
        text::opt_view(value) == loose_field(blob@, field@),
{
    let mut key: String = "\"".to_owned();
    key.append(field);
    key.append("\"");
    let b: Vec<char> = chars_of(blob);
    let k: Vec<char> = chars_of(key.as_str());
    let quote: Vec<char> = chars_of("\"");
    let colon: Vec<char> = chars_of(":");
    proof {
        reveal_strlit("\"");
        reveal_strlit(":");
        text::lemma_first_match(b@, k@, 0);
    }
    let i: usize = match find_chars(b.as_slice(), k.as_slice(), 0) {
        Some(i) => i,
        None => return None,
    };
    assert(text::matches_at(b@, k@, i as int));
    let n: usize = b.len();
    let after: &[char] = slice_subrange(b.as_slice(), i + k.len(), n);
    assert(after@ =~= b@.skip(i + k@.len()));
    let c: usize = match find_chars(after, colon.as_slice(), 0) {
        Some(c) => c,
        None => return None,
    };
    proof {
        text::lemma_first_match(after@, colon@, 0);
        assert(text::matches_at(after@, colon@, c as int));
    }
    let behind: &[char] = slice_subrange(after, c + 1, after.len());
    assert(behind@ =~= after@.skip(c + 1));
    let rest: &[char] = trim_start_chars(behind, CharClass::Space);
    if !text::chars_match_at(rest, quote.as_slice(), 0) {
        return None;
    }
    let open: &[char] = slice_subrange(rest, 1, rest.len());
    assert(open@ =~= rest@.skip(1));
    let body: String = read_string_body(open);
    if body.as_str().is_empty() && !text::chars_match_at(open, quote.as_slice(), 0) {
        None
    } else {
        Some(body)
    }
}

// ---------------------------------------------------------------------------
// One write call
// ---------------------------------------------------------------------------

/// A proposed write as a mathematical value: the path as the model gave it, and the content.
pub type CallPair = (Seq<char>, Seq<char>);

/// A proposed write: the path as the model gave it, and the content.
pub struct WriteCall {
    pub raw_path: String,
    pub content: String,
}

impl View for WriteCall {
    type V = CallPair;

    open spec fn view(&self) -> CallPair {
        (self.raw_path@, self.content@)
    }
}

/// The view of an optional call.
pub open spec fn call_view(call: Option<WriteCall>) -> Option<CallPair> {
    match call {
        Some(c) => Some(c@),
        None => None,
    }
}

/// Is this the name of a tool that writes files?
pub open spec fn is_write_name(name: Seq<char>) -> bool {
    name == "write"@ || name == "write_file"@ || name == "create_file"@
}

/// The first of two optional values that is there.
pub open spec fn either(a: Option<JsonView>, b: Option<JsonView>) -> Option<JsonView> {
    match a {
        Some(v) => Some(v),
        None => b,
    }
}

/// The text of an optional value, where it is a string.
pub open spec fn text_of_value(v: Option<JsonView>) -> Option<Seq<char>> {
    match v {
        Some(v) => v.text(),
        None => None,
    }
}

/// The write that a tool call asks for: the call names a tool that writes, and its
/// arguments hold a content and a path.
pub open spec fn call_of_json(v: JsonView) -> Option<CallPair> {
    match v.text_field("name"@) {
        None => None,
        Some(name) => if !is_write_name(name) {
            None
        } else {
            match either(v.field("arguments"@), v.field("args"@)) {
                None => None,
                Some(args) => {
                    let content = text_of_value(
                        either(args.field("content"@), args.field("contents"@)),
                    );
                    let path = text_of_value(
                        either(
                            args.field("filePath"@),
                            either(args.field("path"@), args.field("file"@)),
                        ),
                    );
                    match (path, content) {
                        (Some(p), Some(c)) => Some((p, c)),
                        _ => None,
                    }
                },
            }
        },
    }
}

/// The write in a text that is no valid JSON, read loosely.
pub open spec fn call_of_broken(blob: Seq<char>) -> Option<CallPair> {
    let path = match loose_field(blob, "filePath"@) {
        Some(p) => Some(p),
        None => loose_field(blob, "path"@),
    };
    let content = match loose_field(blob, "content"@) {
        Some(c) => Some(c),
        None => loose_field(blob, "contents"@),
    };
    match (path, content) {
        (Some(p), Some(c)) => Some((p, c)),
        _ => None,
    }
}

/// A text with the mistakes mended that models often make: `\'` in strings, and `\r\n`.
pub open spec fn repaired(blob: Seq<char>) -> Seq<char> {
    text::replace_all(text::replace_all(blob, "\\'"@, "'"@), "\r\n"@, "\n"@)
}

/// The write that an object in a model's output asks for: strictly where it can be read as
/// JSON once it is mended, loosely where it cannot.
pub open spec fn call_of_text(blob: Seq<char>) -> Option<CallPair> {
    match json::parsed_json(repaired(blob)) {
        Ok(v) => call_of_json(v),
        Err(_) => call_of_broken(blob),
    }
}

/// The text of a field, or of another where the first is missing.
fn text_either(args: &Json, first: &str, second: &str) -> (found: Option<String>)
    ensures
        text::opt_view(found) == text_of_value(either(args@.field(first@), args@.field(second@))),
{
    match args.get(first) {
        Some(v) => match v.as_text() {
            Some(t) => Some(t.clone()),
            None => None,
        },
        None => args.text_at(second),
    }
}

/// The write that a tool call asks for.
pub fn write_call_of_json(v: &Json) -> (call: Option<WriteCall>)
    ensures
        call_view(call) == call_of_json(v@),
{
    let name: String = match v.text_at("name") {
        Some(name) => name,
        None => return None,
    };
    if !(same_text(name.as_str(), "write") || same_text(name.as_str(), "write_file") || same_text(
        name.as_str(),
        "create_file",
    )) {
        return None;
    }
    let args: &Json = match v.get("arguments") {
        Some(args) => args,
        None => match v.get("args") {
            Some(args) => args,
            None => return None,
        },
    };
    let content: Option<String> = text_either(args, "content", "contents");
    let raw_path: Option<String> = match args.get("filePath") {
        Some(v) => match v.as_text() {
            Some(t) => Some(t.clone()),
            None => None,
        },
        None => text_either(args, "path", "file"),
    };
    match (raw_path, content) {
        (Some(raw_path), Some(content)) => Some(WriteCall { raw_path, content }),
        _ => None,
    }
}

/// The write in a text that is no valid JSON, read loosely.
pub fn write_call_of_broken(blob: &str) -> (call: Option<WriteCall>)
    ensures
        call_view(call) == call_of_broken(blob@),
{
    let raw_path: Option<String> = match extract_json_string_field(blob, "filePath") {
        Some(p) => Some(p),
        None => extract_json_string_field(blob, "path"),
    };
    let content: Option<String> = match extract_json_string_field(blob, "content") {
        Some(c) => Some(c),
        None => extract_json_string_field(blob, "contents"),
    };
    match (raw_path, content) {
        (Some(raw_path), Some(content)) => Some(WriteCall { raw_path, content }),
        _ => None,
    }
}

/// The write that an object in a model's output asks for.
pub fn parse_write_call(blob: &str) -> (call: Option<WriteCall>)
    ensures
        call_view(call) == call_of_text(blob@),
{
    proof {
        reveal_strlit("\\'");
        reveal_strlit("\r\n");
    }
    let mended: String = replaced(replaced(blob, "\\'", "'").as_str(), "\r\n", "\n");
    match Json::parse(mended.as_str()) {
        Ok(v) => write_call_of_json(&v),
        Err(_) => write_call_of_broken(blob),
    }
}

// ---------------------------------------------------------------------------
// All write calls of an output
// ---------------------------------------------------------------------------

/// Does an object look like a call of a tool that writes?
pub open spec fn looks_like_write(blob: Seq<char>) -> bool {
    &&& text::has_match(blob, "\"name\""@)
    &&& (text::has_match(blob, "\"write\""@) || text::has_match(blob, "\"write_file\""@)
        || text::has_match(blob, "\"create_file\""@))
}

/// The writes that the first `n` objects ask for.
pub open spec fn calls_first(objects: Seq<Seq<char>>, n: nat) -> Seq<CallPair>
    decreases n,
{
    if n == 0 {
        Seq::empty()
    } else {
        let before = calls_first(objects, (n - 1) as nat);
        let blob = objects[n - 1];
        if looks_like_write(blob) {
            match call_of_text(blob) {
                Some(call) => before.push(call),
                None => before,
            }
        } else {
            before
        }
    }
}

/// The writes that a model's output asks for, in order.
pub open spec fn calls_of(output: Seq<char>) -> Seq<CallPair> {
    let objects = scan::objects_from(output, 0);
    calls_first(objects, objects.len())
}

/// The views of a sequence of calls.
pub open spec fn call_views(calls: Seq<WriteCall>) -> Seq<CallPair> {
    calls.map_values(|c: WriteCall| c@)
}

/// The writes that a model's output asks for, in order.
pub fn emitted_write_calls(output: &str) -> (calls: Vec<WriteCall>)
    ensures
        call_views(calls@) == calls_of(output@),
{
    let objects: Vec<String> = json_objects(output);
    let ghost all = text::views(objects@);
    let mut calls: Vec<WriteCall> = Vec::new();
    let mut i: usize = 0;
    assert(call_views(calls@) =~= Seq::empty());
    while i < objects.len()
        invariant
            i <= objects@.len(),
            all == text::views(objects@),
            call_views(calls@) == calls_first(all, i as nat),
        decreases objects@.len() - i,
    {
        assert(all[i as int] == objects@[i as int]@);
        let blob: &str = objects[i].as_str();
        let looks: bool = contains(blob, "\"name\"") && (contains(blob, "\"write\"") || contains(
            blob,
            "\"write_file\"",
        ) || contains(blob, "\"create_file\""));
        if looks {
            if let Some(call) = parse_write_call(blob) {
                let ghost before = calls@;
                calls.push(call);
                assert(call_views(calls@) =~= call_views(before).push(call@));
            }
        }
        i += 1;
    }
    calls
}

// ---------------------------------------------------------------------------
// Where a write goes
// ---------------------------------------------------------------------------

/// The path of a proposed write, relative to the project: `stripped` is the path without
/// the project's directory where the platform finds it under there, and `file_name` is the
/// name that the platform finds at its end. A path that could leave the project is none.
pub open spec fn relative_of(
    raw_path: Seq<char>,
    cwd: Seq<char>,
    stripped: Option<Seq<char>>,
    file_name: Option<Seq<char>>,
) -> Option<Seq<char>> {
    let p = text::trim(raw_path);
    let rel = if text::has_match(p, "/path/to/"@) || text::begins(p, "/path/"@) {
        match file_name {
            Some(name) => name,
            None => "DOGFOOD-OPENCODE.md"@,
        }
    } else {
        match stripped {
            Some(s) => s,
            None => if text::begins(p, "/"@) {
                match rest_in_directory(p, cwd) {
                    Some(rest) => text::trim_start_of(rest, CharClass::Slash),
                    None => match file_name {
                        Some(name) => name,
                        None => "out.txt"@,
                    },
                }
            } else {
                without_dot_slash(p)
            },
        }
    };
    if rel.len() == 0 || text::has_match(rel, ".."@) {
        None
    } else {
        Some(rel)
    }
}

/// What follows `cwd` in `p`, where `p` names `cwd` itself or something in it. A directory
/// whose name only starts alike is another one.
pub open spec fn rest_in_directory(p: Seq<char>, cwd: Seq<char>) -> Option<Seq<char>> {
    match text::after_prefix(p, cwd) {
        Some(rest) => if rest.len() == 0 || text::begins(rest, "/"@) || text::finishes(cwd, "/"@) {
            Some(rest)
        } else {
            None
        },
        None => None,
    }
}

/// What follows `cwd` in `p`, where `p` names `cwd` itself or something in it.
fn find_rest_in_directory(p: &str, cwd: &str) -> (rest: Option<String>)
    ensures
        text::opt_view(rest) == rest_in_directory(p@, cwd@),
{
    match strip_prefix(p, cwd) {
        Some(rest) => if rest.as_str().is_empty() || starts_with(rest.as_str(), "/") || ends_with(
            cwd,
            "/",
        ) {
            Some(rest)
        } else {
            None
        },
        None => None,
    }
}

/// `p` without any `./` at its start.
pub open spec fn without_dot_slash(p: Seq<char>) -> Seq<char>
    decreases p.len(),
{
    if p.len() >= 2 && p[0] == '.' && p[1] == '/' {
        without_dot_slash(p.skip(2))
    } else {
        p
    }
}

/// `p` without any `./` at its start.
fn strip_dot_slash(p: &str) -> (rest: String)
    ensures
        rest@ == without_dot_slash(p@),
{
    let s: Vec<char> = chars_of(p);
    let mut i: usize = 0;
    assert(s@.skip(0) =~= s@);
    while i < s.len() && s.len() - i >= 2 && s[i] == '.' && s[i + 1] == '/'
        invariant
            i <= s@.len(),
            without_dot_slash(s@) == without_dot_slash(s@.skip(i as int)),
        decreases s@.len() - i,
    {
        assert(s@.skip(i as int).skip(2) =~= s@.skip(i + 2));
        i += 2;
    }
    let rest: &[char] = slice_subrange(s.as_slice(), i, s.len());
    assert(rest@ =~= s@.skip(i as int));
    text_of(rest)
}

/// The path of a proposed write, relative to the project, for what the platform finds of it.
pub fn write_target(
    raw_path: &str,
    cwd: &str,
    stripped: Option<String>,
    file_name: Option<String>,
) -> (relative: Option<String>)
    ensures
        text::opt_view(relative) == relative_of(
            raw_path@,
            cwd@,
            text::opt_view(stripped),
            text::opt_view(file_name),
        ),
        relative matches Some(r) ==> r@.len() > 0 && !text::has_match(r@, ".."@),
{
    let p: String = trimmed(raw_path);
    let rel: String = if contains(p.as_str(), "/path/to/") || starts_with(p.as_str(), "/path/") {
        match file_name {
            Some(name) => name,
            None => "DOGFOOD-OPENCODE.md".to_owned(),
        }
    } else {
        match stripped {
            Some(s) => s,
            None => if starts_with(p.as_str(), "/") {
                match find_rest_in_directory(p.as_str(), cwd) {
                    Some(rest) => trim_start_class(rest.as_str(), CharClass::Slash),
                    None => match file_name {
                        Some(name) => name,
                        None => "out.txt".to_owned(),
                    },
                }
            } else {
                strip_dot_slash(p.as_str())
            },
        }
    };
    if rel.as_str().is_empty() || contains(rel.as_str(), "..") {
        None
    } else {
        Some(rel)
    }
}

/// Can `relative` be the path of a write, by what a platform can find of it?
pub open spec fn possible_target(
    raw_path: Seq<char>,
    cwd: Seq<char>,
    relative: Option<Seq<char>>,
) -> bool {
    exists|stripped: Option<Seq<char>>, file_name: Option<Seq<char>>|
        paths::rest_found(text::trim(raw_path), cwd, stripped) && paths::name_found(
            text::trim(raw_path),
            file_name,
        ) && relative == #[trigger] relative_of(raw_path, cwd, stripped, file_name)
}

/// The path of a proposed write, relative to the project, as this platform finds it.
pub fn write_relative(raw_path: &str, cwd: &str) -> (relative: Option<String>)
    ensures
        possible_target(raw_path@, cwd@, text::opt_view(relative)),
        relative matches Some(r) ==> r@.len() > 0 && !text::has_match(r@, ".."@),
{
    let p: String = trimmed(raw_path);
    write_target(raw_path, cwd, path_below(p.as_str(), cwd), path_file_name(p.as_str()))
}

/// A write to a file of the project: its path, and the content.
pub struct WriteProposal {
    pub relative: String,
    pub content: String,
}

/// The views of a sequence of proposals.
pub open spec fn proposal_views(proposals: Seq<WriteProposal>) -> Seq<CallPair> {
    proposals.map_values(|p: WriteProposal| (p.relative@, p.content@))
}

/// The first `n` calls that have a target, with their targets.
pub open spec fn targeted_first(
    calls: Seq<CallPair>,
    targets: Seq<Option<Seq<char>>>,
    n: nat,
) -> Seq<CallPair>
    decreases n,
{
    if n == 0 {
        Seq::empty()
    } else {
        let before = targeted_first(calls, targets, (n - 1) as nat);
        match targets[n - 1] {
            Some(t) => before.push((t, calls[n - 1].1)),
            None => before,
        }
    }
}

/// Are the targets possible ones for the calls?
pub open spec fn possible_targets(
    calls: Seq<CallPair>,
    cwd: Seq<char>,
    targets: Seq<Option<Seq<char>>>,
) -> bool {
    &&& targets.len() == calls.len()
    &&& forall|i: int|
        0 <= i < calls.len() ==> possible_target(calls[i].0, cwd, #[trigger] targets[i])
}

/// The writes that a model's output proposes for the project at `cwd`, in order. No
/// proposal names an empty path or one with `..` in it.
pub fn parse_emitted_write_tools(cwd: &str, output: &str) -> (proposals: Vec<WriteProposal>)
    ensures
        exists|targets: Seq<Option<Seq<char>>>| #[trigger]
            possible_targets(calls_of(output@), cwd@, targets) && proposal_views(proposals@)
                == targeted_first(calls_of(output@), targets, calls_of(output@).len()),
        forall|i: int|
            0 <= i < proposals@.len() ==> (#[trigger] proposals@[i]).relative@.len() > 0
                && !text::has_match(proposals@[i].relative@, ".."@),
{
    let calls: Vec<WriteCall> = emitted_write_calls(output);
    let ghost all = call_views(calls@);
    let ghost mut targets: Seq<Option<Seq<char>>> = Seq::empty();
    let mut proposals: Vec<WriteProposal> = Vec::new();
    let mut i: usize = 0;
    assert(proposal_views(proposals@) =~= Seq::empty());
    while i < calls.len()
        invariant
            i <= calls@.len(),
            all == call_views(calls@),
            targets.len() == i,
            forall|k: int| 0 <= k < i ==> possible_target(all[k].0, cwd@, #[trigger] targets[k]),
            proposal_views(proposals@) == targeted_first(all, targets, i as nat),
            forall|k: int|
                0 <= k < proposals@.len() ==> (#[trigger] proposals@[k]).relative@.len() > 0
                    && !text::has_match(proposals@[k].relative@, ".."@),
        decreases calls@.len() - i,
    {
        let call: &WriteCall = &calls[i];
        assert(all[i as int] == call@);
        let relative: Option<String> = write_relative(call.raw_path.as_str(), cwd);
        let ghost grown = targets.push(text::opt_view(relative));
        proof {
            lemma_targeted_prefix(all, targets, grown, i as nat);
            targets = grown;
        }
        if let Some(relative) = relative {
            let ghost before = proposals@;
            let content: String = call.content.clone();
            proposals.push(WriteProposal { relative, content });
            assert(proposal_views(proposals@) =~= proposal_views(before).push(
                (relative@, content@),
            ));
        }
        i += 1;
    }
    assert(possible_targets(all, cwd@, targets));
    proposals
}

/// Targets behind the first `n` do not matter for the first `n` calls.
proof fn lemma_targeted_prefix(
    calls: Seq<CallPair>,
    a: Seq<Option<Seq<char>>>,
    b: Seq<Option<Seq<char>>>,
    n: nat,
)
    requires
        n <= a.len(),
        n <= b.len(),
        forall|k: int| 0 <= k < n ==> a[k] == b[k],
    ensures
        targeted_first(calls, a, n) == targeted_first(calls, b, n),
    decreases n,
{
    if n > 0 {
        lemma_targeted_prefix(calls, a, b, (n - 1) as nat);
        assert(a[n - 1] == b[n - 1]);
    }
}

/// A proposal as the browser gets it: where the file is, what it held and what it shall hold.
pub fn write_proposal_json(
    relative: &str,
    path: &str,
    content: &str,
    previous: &str,
) -> (json: Json)
    ensures
        json@ == JsonView::object().put("relative"@, JsonView::Text(relative@)).put(
            "path"@,
            JsonView::Text(path@),
        ).put("content"@, JsonView::Text(content@)).put("previous"@, JsonView::Text(previous@)),
{
    Json::object().put("relative", Json::text(relative)).put("path", Json::text(path)).put(
        "content",
        Json::text(content),
    ).put("previous", Json::text(previous))
}

// ---------------------------------------------------------------------------
// Laws
// ---------------------------------------------------------------------------

/// A text as it is written between quotes: line ends, tabs, quotes and backslashes escaped.
pub open spec fn escaped(t: Seq<char>) -> Seq<char>
    decreases t.len(),
{
    if t.len() == 0 {
        Seq::empty()
    } else {
        let c = t[0];
        let first = if c == '\n' {
            seq!['\\', 'n']
        } else if c == '\t' {
            seq!['\\', 't']
        } else if c == '\r' {
            seq!['\\', 'r']
        } else if c == '"' || c == '\\' {
            seq!['\\', c]
        } else {
            seq![c]
        };
        first + escaped(t.skip(1))
    }
}

/// Reading a string gives back the text that was written, up to its closing quote; a string
/// that is cut off gives what there is of it.
pub proof fn law_strings_are_read_back(t: Seq<char>, rest: Seq<char>)
    ensures
        string_body(escaped(t) + seq!['"'] + rest) == t,
        string_body(escaped(t)) == t,
    decreases t.len(),
{
    let s = escaped(t) + seq!['"'] + rest;
    if t.len() > 0 {
        let c = t[0];
        let tail = t.skip(1);
        law_strings_are_read_back(tail, rest);
        assert(seq![c] + tail =~= t);
        if c == '\n' || c == '\t' || c == '\r' || c == '"' || c == '\\' {
            assert(s.skip(2) =~= escaped(tail) + seq!['"'] + rest);
            assert(escaped(t).skip(2) =~= escaped(tail));
            assert(unescaped(s[1]) =~= seq![c]);
            assert(s[0] == '\\');
        } else {
            assert(s.skip(1) =~= escaped(tail) + seq!['"'] + rest);
            assert(escaped(t).skip(1) =~= escaped(tail));
            assert(s[0] == c);
        }
    } else {
        assert(s[0] == '"');
    }
}

/// A quote that is escaped for no need is a quote, and an escape that means nothing stays.
pub proof fn law_other_escapes(c: char, rest: Seq<char>)
    ensures
        string_body(seq!['\\', '\''] + rest) == seq!['\''] + string_body(rest),
        c != 'n' && c != 't' && c != 'r' && c != '"' && c != '\\' && c != '\'' ==> string_body(
            seq!['\\', c] + rest,
        ) == seq!['\\', c] + string_body(rest),
{
    assert((seq!['\\', '\''] + rest).skip(2) =~= rest);
    assert((seq!['\\', c] + rest).skip(2) =~= rest);
}

/// The field of an object is found and read, whatever stands before its name and behind its
/// value.
pub proof fn law_loose_field_is_read(
    before: Seq<char>,
    field: Seq<char>,
    gap: Seq<char>,
    t: Seq<char>,
    rest: Seq<char>,
)
    requires
        forall|i: int| 0 <= i < gap.len() ==> text::is_space(#[trigger] gap[i]),
        forall|i: int|
            0 <= i < before.len() ==> !text::matches_at(
                before + ("\""@ + field + "\""@) + (":"@ + gap + "\""@ + escaped(t) + "\""@ + rest),
                "\""@ + field + "\""@,
                i,
            ),
    ensures
        loose_field(
            before + ("\""@ + field + "\""@) + (":"@ + gap + "\""@ + escaped(t) + "\""@ + rest),
            field,
        ) == Some(t),
{
    reveal_strlit("\"");
    reveal_strlit(":");
    assert("\""@ =~= seq!['"']);
    assert(":"@ =~= seq![':']);
    let key = "\""@ + field + "\""@;
    let after = ":"@ + gap + "\""@ + escaped(t) + "\""@ + rest;
    let blob = before + key + after;
    let e = Seq::<char>::empty();
    text::law_holding(before, key, after, e, 0);
    text::lemma_first_match(blob, key, 0);
    let i = text::first_match(blob, key, 0)->Some_0;
    assert(i == before.len()) by {
        if i < before.len() {
            assert(!text::matches_at(blob, key, i));
        }
    }
    assert(blob.skip(i + key.len()) =~= after);
    assert(after.subrange(0, 1) =~= ":"@);
    assert(text::matches_at(after, ":"@, 0));
    text::lemma_first_match(after, ":"@, 0);
    let body = escaped(t) + "\""@ + rest;
    let value = "\""@ + body;
    assert(after.skip(1) =~= gap + value);
    text::law_white_space('"');
    assert(value[0] == '"');
    text::lemma_trim_start_skips(gap, value, CharClass::Space);
    text::law_prefix("\""@, body, e);
    assert(value.skip(1) =~= body);
    law_strings_are_read_back(t, rest);
    if t.len() == 0 {
        text::law_prefix("\""@, rest, e);
        assert(body =~= "\""@ + rest);
    }
}

/// A call of any tool that writes is read: its arguments under either name, the content under
/// either name, the path under each of three.
pub proof fn law_write_calls_are_read(
    v: JsonView,
    args: JsonView,
    p: Seq<char>,
    c: Seq<char>,
)
    requires
        v.text_field("name"@) == Some("write"@) || v.text_field("name"@) == Some("write_file"@)
            || v.text_field("name"@) == Some("create_file"@),
        v.field("arguments"@) == Some(args) || (v.field("arguments"@) is None && v.field("args"@)
            == Some(args)),
        args.text_field("content"@) == Some(c) || (args.field("content"@) is None
            && args.text_field("contents"@) == Some(c)),
        args.text_field("filePath"@) == Some(p) || (args.field("filePath"@) is None && (
        args.text_field("path"@) == Some(p) || (args.field("path"@) is None && args.text_field(
            "file"@,
        ) == Some(p)))),
    ensures
        call_of_json(v) == Some((p, c)),
{
}

/// A call of another tool writes nothing, and neither does one without arguments, without a
/// content or without a path.
pub proof fn law_other_calls_write_nothing(v: JsonView, args: JsonView)
    ensures
        v.text_field("name"@) is None ==> call_of_json(v) is None,
        v.text_field("name"@) matches Some(n) ==> (n != "write"@ && n != "write_file"@ && n
            != "create_file"@ ==> call_of_json(v) is None),
        v.field("arguments"@) is None && v.field("args"@) is None ==> call_of_json(v) is None,
        v.field("arguments"@) == Some(args) && args.field("content"@) is None && args.field(
            "contents"@,
        ) is None ==> call_of_json(v) is None,
        v.field("arguments"@) == Some(args) && args.field("filePath"@) is None && args.field(
            "path"@,
        ) is None && args.field("file"@) is None ==> call_of_json(v) is None,
{
}

/// A text that is no JSON is read loosely: by the first of two names for the path, and the
/// first of two for the content.
pub proof fn law_broken_calls_are_read(blob: Seq<char>, p: Seq<char>, c: Seq<char>)
    requires
        json::parsed_json(repaired(blob)) is Err,
    ensures
        loose_field(blob, "filePath"@) == Some(p) && loose_field(blob, "content"@) == Some(c)
            ==> call_of_text(blob) == Some((p, c)),
        loose_field(blob, "filePath"@) is None && loose_field(blob, "path"@) == Some(p)
            && loose_field(blob, "content"@) == Some(c) ==> call_of_text(blob) == Some((p, c)),
        loose_field(blob, "filePath"@) == Some(p) && loose_field(blob, "content"@) is None
            && loose_field(blob, "contents"@) == Some(c) ==> call_of_text(blob) == Some((p, c)),
        loose_field(blob, "filePath"@) is None && loose_field(blob, "path"@) is None
            ==> call_of_text(blob) is None,
        loose_field(blob, "content"@) is None && loose_field(blob, "contents"@) is None
            ==> call_of_text(blob) is None,
{
}

/// Only the two common mistakes are mended, each where it stands.
pub proof fn law_mending(s: Seq<char>, before: Seq<char>, after: Seq<char>)
    ensures
        !text::has_match(s, "\\'"@) && !text::has_match(s, "\r\n"@) ==> repaired(s) == s,
        !text::has_match(before + "\\'"@ + after, "\r\n"@) && !text::has_match(
            before + "'"@ + after,
            "\r\n"@,
        ) && !text::has_match(after, "\\'"@) && (forall|i: int|
            0 <= i < before.len() ==> !text::matches_at(before + "\\'"@ + after, "\\'"@, i))
            ==> repaired(before + "\\'"@ + after) == before + "'"@ + after,
        !text::has_match(before + "\r\n"@ + after, "\\'"@) && !text::has_match(after, "\r\n"@) && (
        forall|i: int|
            0 <= i < before.len() ==> !text::matches_at(before + "\r\n"@ + after, "\r\n"@, i))
            ==> repaired(before + "\r\n"@ + after) == before + "\n"@ + after,
{
    reveal_strlit("\\'");
    reveal_strlit("\r\n");
    let q = "\\'"@;
    let cr = "\r\n"@;
    if !text::has_match(s, q) {
        text::law_replacing_nothing(s, q, "'"@);
    }
    if !text::has_match(s, cr) {
        text::law_replacing_nothing(s, cr, "\n"@);
    }
    let x = before + q + after;
    if !text::has_match(after, q) && (forall|i: int|
        0 <= i < before.len() ==> !text::matches_at(x, q, i)) {
        text::law_replacing_the_first(before, q, after, "'"@);
        text::law_replacing_nothing(after, q, "'"@);
        if !text::has_match(before + "'"@ + after, cr) {
            text::law_replacing_nothing(before + "'"@ + after, cr, "\n"@);
        }
    }
    let y = before + cr + after;
    if !text::has_match(y, q) && !text::has_match(after, cr) && (forall|i: int|
        0 <= i < before.len() ==> !text::matches_at(y, cr, i)) {
        text::law_replacing_nothing(y, q, "'"@);
        text::law_replacing_the_first(before, cr, after, "\n"@);
        text::law_replacing_nothing(after, cr, "\n"@);
    }
}

/// An object that names a tool of either of the three names looks like a write; one that
/// names none of them, or nothing, does not.
pub proof fn law_what_looks_like_a_write(blob: Seq<char>)
    ensures
        text::has_match(blob, "\"name\""@) ==> {
            &&& text::has_match(blob, "\"write\""@) ==> looks_like_write(blob)
            &&& text::has_match(blob, "\"write_file\""@) ==> looks_like_write(blob)
            &&& text::has_match(blob, "\"create_file\""@) ==> looks_like_write(blob)
        },
        !text::has_match(blob, "\"name\""@) ==> !looks_like_write(blob),
        !text::has_match(blob, "\"write\""@) && !text::has_match(blob, "\"write_file\""@)
            && !text::has_match(blob, "\"create_file\""@) ==> !looks_like_write(blob),
{
}

proof fn lemma_calls_split(a: Seq<Seq<char>>, b: Seq<Seq<char>>, n: nat)
    requires
        n <= b.len(),
    ensures
        calls_first(a + b, a.len() + n) == calls_first(a, a.len()) + calls_first(b, n),
    decreases n,
{
    if n == 0 {
        lemma_calls_prefix(a, b, a.len());
    } else {
        lemma_calls_split(a, b, (n - 1) as nat);
        assert((a + b)[a.len() + n - 1] == b[n - 1]);
        let before = calls_first(a, a.len()) + calls_first(b, (n - 1) as nat);
        if let Some(call) = call_of_text(b[n - 1]) {
            assert(before.push(call) =~= calls_first(a, a.len()) + calls_first(
                b,
                (n - 1) as nat,
            ).push(call));
        }
    }
}

proof fn lemma_calls_prefix(a: Seq<Seq<char>>, b: Seq<Seq<char>>, n: nat)
    requires
        n <= a.len(),
    ensures
        calls_first(a + b, n) == calls_first(a, n),
    decreases n,
{
    if n > 0 {
        lemma_calls_prefix(a, b, (n - 1) as nat);
    }
}

/// The writes of an output are those of its first object, where that is one, and then those
/// of the rest: none is lost, none comes twice, and their order stays.
pub proof fn law_every_write_is_read(a: Seq<char>, o: Seq<char>, b: Seq<char>)
    requires
        !a.contains('{'),
        scan::one_object(o),
    ensures
        calls_of(a) == Seq::<CallPair>::empty(),
        looks_like_write(o) && call_of_text(o) is Some ==> calls_of(a + o + b) == seq![
            call_of_text(o)->Some_0,
        ] + calls_of(b),
        !looks_like_write(o) || call_of_text(o) is None ==> calls_of(a + o + b) == calls_of(b),
{
    scan::law_objects_are_found(a, o, b);
    let rest = scan::objects_from(b, 0);
    lemma_calls_split(seq![o], rest, rest.len());
    reveal_with_fuel(calls_first, 2);
    let first = calls_first(seq![o], 1);
    assert(seq![o][0] == o);
    assert((seq![o] + rest).len() == 1 + rest.len());
    if looks_like_write(o) && call_of_text(o) is Some {
        assert(first =~= seq![call_of_text(o)->Some_0]);
    } else {
        assert(first =~= Seq::<CallPair>::empty());
        assert(first + calls_of(b) =~= calls_of(b));
    }
}

/// A path that starts at no root is taken as it is, without any `./` before it.
pub proof fn law_plain_target(x: Seq<char>, cwd: Seq<char>, name: Option<Seq<char>>)
    requires
        x.len() > 0,
        !text::is_space(x[0]) && !text::is_space(x.last()),
        x[0] != '/' && x[0] != '.',
        !text::has_match(x, ".."@) && !text::has_match(x, "/path/to/"@),
        !text::has_match("./"@ + x, "/path/to/"@),
    ensures
        relative_of(x, cwd, None, name) == Some(x),
        relative_of("./"@ + x, cwd, None, name) == Some(x),
{
    reveal_strlit("/");
    reveal_strlit("./");
    reveal_strlit("/path/");
    let e = Seq::<char>::empty();
    let d = "./"@ + x;
    text::law_white_space('.');
    text::law_trimming(e, x, e, CharClass::Space);
    assert(e + x + e =~= x);
    assert(text::begins(x, "/path/"@) ==> x.subrange(0, 6)[0] == '/');
    assert(text::begins(x, "/"@) ==> x.subrange(0, 1)[0] == '/');
    assert(d[0] == '.' && d[1] == '/' && d.last() == x.last());
    text::law_trimming(e, d, e, CharClass::Space);
    assert(e + d + e =~= d);
    assert(text::begins(d, "/path/"@) ==> d.subrange(0, 6)[0] == '/');
    assert(text::begins(d, "/"@) ==> d.subrange(0, 1)[0] == '/');
    assert(d.skip(2) =~= x);
    assert(without_dot_slash(x) == x);
    assert(without_dot_slash(d) == x);
}

/// A path that starts with the project's directory is taken from there on.
pub proof fn law_target_in_the_project(x: Seq<char>, cwd: Seq<char>, name: Option<Seq<char>>)
    requires
        x.len() > 0,
        !text::is_space(x.last()),
        x[0] != '/',
        !text::has_match(x, ".."@),
        cwd.len() > 0 && cwd[0] == '/',
        !text::has_match(cwd + "/"@ + x, "/path/to/"@) && !text::begins(cwd + "/"@ + x, "/path/"@),
    ensures
        relative_of(cwd + "/"@ + x, cwd, None, name) == Some(x),
{
    reveal_strlit("/");
    let e = Seq::<char>::empty();
    let f = cwd + "/"@ + x;
    text::law_white_space('/');
    assert(f[0] == '/' && f.last() == x.last());
    text::law_trimming(e, f, e, CharClass::Space);
    assert(e + f + e =~= f);
    assert(f.subrange(0, 1) =~= "/"@);
    assert(text::begins(f, "/"@));
    assert(f =~= cwd + ("/"@ + x));
    text::law_prefix(cwd, "/"@ + x, e);
    text::law_prefix("/"@, x, e);
    assert(rest_in_directory(f, cwd) == Some("/"@ + x));
    assert("/"@ =~= seq!['/']);
    text::lemma_trim_start_skips("/"@, x, CharClass::Slash);
}

/// Of a path elsewhere the name alone is taken. A directory whose name only starts like the
/// project's is elsewhere.
pub proof fn law_target_elsewhere(p: Seq<char>, cwd: Seq<char>, name: Seq<char>)
    requires
        p.len() > 0 && p[0] == '/' && !text::is_space(p.last()),
        name.len() > 0 && !text::has_match(name, ".."@),
        cwd.len() > 0 && cwd.last() != '/',
        forall|k: int|
            0 <= k < p.len() && k == cwd.len() && p.take(k) == cwd ==> #[trigger] p[k] != '/',
        p != cwd,
    ensures
        relative_of(p, cwd, None, Some(name)) == Some(name),
{
    reveal_strlit("/");
    let e = Seq::<char>::empty();
    text::law_white_space('/');
    text::law_trimming(e, p, e, CharClass::Space);
    assert(e + p + e =~= p);
    assert(p.subrange(0, 1) =~= "/"@);
    assert(text::begins(p, "/"@));
    assert(rest_in_directory(p, cwd) is None) by {
        if let Some(r) = text::after_prefix(p, cwd) {
            text::law_prefix(cwd, r, p);
            if r.len() == 0 {
                assert(p =~= cwd);
            } else {
                assert(p[cwd.len() as int] == r[0]);
                assert(p.take(cwd.len() as int) =~= cwd);
                if text::begins(r, "/"@) {
                    assert(r.subrange(0, 1)[0] == '/');
                }
            }
            if text::finishes(cwd, "/"@) {
                assert(cwd.subrange(cwd.len() - 1, cwd.len() as int)[0] == cwd.last());
            }
        }
    }
}

/// What the platform finds left of a path is its target; nothing that could leave the project
/// is one, nor is the project itself.
pub proof fn law_target_stays_inside(
    raw: Seq<char>,
    cwd: Seq<char>,
    rest: Seq<char>,
    stripped: Option<Seq<char>>,
    name: Option<Seq<char>>,
)
    ensures
        !text::has_match(text::trim(raw), "/path/to/"@) && !text::begins(
            text::trim(raw),
            "/path/"@,
        ) ==> {
            &&& rest.len() > 0 && !text::has_match(rest, ".."@) ==> relative_of(
                raw,
                cwd,
                Some(rest),
                name,
            ) == Some(rest)
            &&& text::has_match(rest, ".."@) ==> relative_of(raw, cwd, Some(rest), name) is None
        },
        text::has_match(text::trim(raw), "/path/to/"@) && name is Some && name->Some_0.len() > 0
            && !text::has_match(name->Some_0, ".."@) ==> relative_of(raw, cwd, stripped, name)
            == name,
        relative_of(raw, cwd, stripped, name) matches Some(r) ==> r.len() > 0 && !text::has_match(
            r,
            ".."@,
        ),
{
}

/// Calls with targets are proposed and others are not, in order, each with its own content.
pub proof fn law_targeted_calls(
    calls: Seq<CallPair>,
    targets: Seq<Option<Seq<char>>>,
    call: CallPair,
    target: Seq<char>,
)
    requires
        calls.len() == targets.len(),
    ensures
        targeted_first(calls.push(call), targets.push(Some(target)), calls.len() + 1)
            == targeted_first(calls, targets, calls.len()).push((target, call.1)),
        targeted_first(calls.push(call), targets.push(None), calls.len() + 1) == targeted_first(
            calls,
            targets,
            calls.len(),
        ),
        targeted_first(calls, targets, 0) == Seq::<CallPair>::empty(),
{
    lemma_targeted_calls_prefix(calls, calls.push(call), targets, calls.len());
    lemma_targeted_prefix(calls.push(call), targets, targets.push(Some(target)), calls.len());
    lemma_targeted_prefix(calls.push(call), targets, targets.push(None), calls.len());
}

proof fn lemma_targeted_calls_prefix(
    a: Seq<CallPair>,
    b: Seq<CallPair>,
    targets: Seq<Option<Seq<char>>>,
    n: nat,
)
    requires
        n <= a.len(),
        n <= b.len(),
        forall|k: int| 0 <= k < n ==> a[k] == b[k],
    ensures
        targeted_first(a, targets, n) == targeted_first(b, targets, n),
    decreases n,
{
    if n > 0 {
        lemma_targeted_calls_prefix(a, b, targets, (n - 1) as nat);
        assert(a[n - 1] == b[n - 1]);
    }
}

/// Where no name can be found, a write under a directory that only stands for one goes to a
/// file of its own, and so does one elsewhere.
pub proof fn law_nameless_targets(raw: Seq<char>, cwd: Seq<char>, stripped: Option<Seq<char>>)
    ensures
        text::has_match(text::trim(raw), "/path/to/"@) || text::begins(text::trim(raw), "/path/"@)
            ==> relative_of(raw, cwd, stripped, None) == Some("DOGFOOD-OPENCODE.md"@),
        !text::has_match(text::trim(raw), "/path/to/"@) && !text::begins(text::trim(raw), "/path/"@)
            && text::begins(text::trim(raw), "/"@) && rest_in_directory(text::trim(raw), cwd) is None
            ==> relative_of(raw, cwd, None, None) == Some("out.txt"@),
{
    reveal_strlit("DOGFOOD-OPENCODE.md");
    reveal_strlit("out.txt");
    reveal_strlit("..");
    let a = "DOGFOOD-OPENCODE.md"@;
    let b = "out.txt"@;
    assert(a.len() == 19 && b.len() == 7);
    assert forall|i: int| !text::matches_at(a, ".."@, i) by {
        if text::matches_at(a, ".."@, i) {
            assert(a.subrange(i, i + 2)[0] == '.' && a.subrange(i, i + 2)[1] == '.');
            assert(a[i] == '.' && a[i + 1] == '.');
        }
    }
    assert forall|i: int| !text::matches_at(b, ".."@, i) by {
        if text::matches_at(b, ".."@, i) {
            assert(b.subrange(i, i + 2)[0] == '.' && b.subrange(i, i + 2)[1] == '.');
            assert(b[i] == '.' && b[i + 1] == '.');
        }
    }
}

/// A field whose value is no string is none.
pub proof fn law_other_values_are_no_strings(
    before: Seq<char>,
    field: Seq<char>,
    gap: Seq<char>,
    c: char,
    rest: Seq<char>,
)
    requires
        c != '"' && !text::is_space(c),
        forall|i: int| 0 <= i < gap.len() ==> text::is_space(#[trigger] gap[i]),
        forall|i: int|
            0 <= i < before.len() ==> !text::matches_at(
                before + ("\""@ + field + "\""@) + (":"@ + gap + seq![c] + rest),
                "\""@ + field + "\""@,
                i,
            ),
    ensures
        loose_field(before + ("\""@ + field + "\""@) + (":"@ + gap + seq![c] + rest), field) is None,
{
    reveal_strlit("\"");
    reveal_strlit(":");
    assert(":"@ =~= seq![':']);
    let key = "\""@ + field + "\""@;
    let after = ":"@ + gap + seq![c] + rest;
    let blob = before + key + after;
    let e = Seq::<char>::empty();
    text::law_holding(before, key, after, e, 0);
    text::lemma_first_match(blob, key, 0);
    let i = text::first_match(blob, key, 0)->Some_0;
    assert(i == before.len()) by {
        if i < before.len() {
            assert(!text::matches_at(blob, key, i));
        }
    }
    assert(blob.skip(i + key.len()) =~= after);
    assert(after.subrange(0, 1) =~= ":"@);
    assert(text::matches_at(after, ":"@, 0));
    text::lemma_first_match(after, ":"@, 0);
    let value = seq![c] + rest;
    assert(after.skip(1) =~= gap + value);
    text::lemma_trim_start_skips(gap, value, CharClass::Space);
    assert(value[0] == c);
    if text::begins(value, "\""@) {
        assert(value.subrange(0, 1)[0] == value[0]);
    }
}

proof fn lemma_no_return_appears(s: Seq<char>)
    requires
        !s.contains('\r'),
    ensures
        !text::replace_all(s, "\\'"@, "'"@).contains('\r'),
    decreases s.len(),
{
    reveal_strlit("\\'");
    reveal_strlit("'");
    let q = "\\'"@;
    let out = text::replace_all(s, q, "'"@);
    if s.len() > 0 {
        if text::matches_at(s, q, 0) {
            let rest = s.skip(q.len() as int);
            assert forall|k: int| 0 <= k < rest.len() implies rest[k] != '\r' by {
                assert(s.contains(s[k + q.len()]));
            }
            lemma_no_return_appears(rest);
            let tail = text::replace_all(rest, q, "'"@);
            assert(out =~= "'"@ + tail);
            assert forall|k: int| 0 <= k < out.len() implies out[k] != '\r' by {
                if k >= 1 {
                    assert(out[k] == tail[k - 1]);
                    assert(tail.contains(tail[k - 1]));
                } else {
                    assert(out[0] == '\'');
                }
            }
        } else {
            let rest = s.skip(1);
            assert forall|k: int| 0 <= k < rest.len() implies rest[k] != '\r' by {
                assert(s.contains(s[k + 1]));
            }
            lemma_no_return_appears(rest);
            let tail = text::replace_all(rest, q, "'"@);
            assert(out =~= seq![s[0]] + tail);
            assert(s.contains(s[0]));
            assert forall|k: int| 0 <= k < out.len() implies out[k] != '\r' by {
                if k >= 1 {
                    assert(out[k] == tail[k - 1]);
                    assert(tail.contains(tail[k - 1]));
                }
            }
        }
    }
}

proof fn lemma_no_return_no_break(s: Seq<char>)
    requires
        !s.contains('\r'),
    ensures
        !text::has_match(s, "\r\n"@),
{
    reveal_strlit("\r\n");
    assert forall|i: int| !text::matches_at(s, "\r\n"@, i) by {
        if text::matches_at(s, "\r\n"@, i) {
            assert(s.subrange(i, i + 2)[0] == s[i]);
            assert(s.contains(s[i]));
        }
    }
}

/// Both mistakes are mended wherever they stand, not only at the first place.
pub proof fn law_mending_everywhere(before: Seq<char>, after: Seq<char>)
    ensures
        !(before + "\\'"@ + after).contains('\r') && (forall|i: int|
            0 <= i < before.len() ==> !text::matches_at(before + "\\'"@ + after, "\\'"@, i))
            ==> repaired(before + "\\'"@ + after) == before + "'"@ + repaired(after),
        !text::has_match(before + "\r\n"@ + after, "\\'"@) && (forall|i: int|
            0 <= i < before.len() ==> !text::matches_at(before + "\r\n"@ + after, "\r\n"@, i))
            ==> repaired(before + "\r\n"@ + after) == before + "\n"@ + repaired(after),
{
    reveal_strlit("\\'");
    reveal_strlit("\r\n");
    let q = "\\'"@;
    let cr = "\r\n"@;
    let s = before + q + after;
    if !s.contains('\r') && (forall|i: int| 0 <= i < before.len() ==> !text::matches_at(s, q, i)) {
        assert forall|k: int| 0 <= k < after.len() implies after[k] != '\r' by {
            assert(s[before.len() + 2 + k] == after[k]);
            assert(s.contains(s[before.len() + 2 + k]));
        }
        text::law_replacing_the_first(before, q, after, "'"@);
        lemma_no_return_appears(s);
        lemma_no_return_appears(after);
        lemma_no_return_no_break(text::replace_all(s, q, "'"@));
        lemma_no_return_no_break(text::replace_all(after, q, "'"@));
        text::law_replacing_nothing(text::replace_all(s, q, "'"@), cr, "\n"@);
        text::law_replacing_nothing(text::replace_all(after, q, "'"@), cr, "\n"@);
    }
    let t = before + cr + after;
    if !text::has_match(t, q) && (forall|i: int|
        0 <= i < before.len() ==> !text::matches_at(t, cr, i)) {
        assert forall|i: int| !text::matches_at(after, q, i) by {
            if text::matches_at(after, q, i) {
                let at = before.len() + 2 + i;
                assert(t.subrange(at, at + 2) =~= after.subrange(i, i + 2));
                assert(text::matches_at(t, q, at));
            }
        }
        text::law_replacing_nothing(t, q, "'"@);
        text::law_replacing_nothing(after, q, "'"@);
        text::law_replacing_the_first(before, cr, after, "\n"@);
    }
}

/// A tidy path in the project has one possible target, on every platform: what follows the
/// project's directory.
pub proof fn law_one_target_in_the_project(
    x: Seq<char>,
    cwd: Seq<char>,
    relative: Option<Seq<char>>,
)
    requires
        x.len() > 0 && !text::is_space(x.last()),
        !text::has_match(x, ".."@),
        cwd.len() > 0 && cwd[0] == '/' && cwd.last() != '/',
        paths::tidy(cwd),
        paths::tidy(cwd + "/"@ + x),
        !text::has_match(cwd + "/"@ + x, "/path/to/"@) && !text::begins(cwd + "/"@ + x, "/path/"@),
        possible_target(cwd + "/"@ + x, cwd, relative),
    ensures
        relative == Some(x),
{
    reveal_strlit("/");
    let e = Seq::<char>::empty();
    let p = cwd + "/"@ + x;
    text::law_white_space('/');
    assert(p[0] == '/' && p.last() == x.last());
    text::law_trimming(e, p, e, CharClass::Space);
    assert(e + p + e =~= p);
    assert(p.subrange(0, cwd.len() as int + 1) =~= cwd.push('/'));
    assert(text::begins(p, cwd.push('/')));
    assert(p.skip(cwd.len() as int + 1) =~= x);
    assert(p.len() > cwd.len());
    assert(paths::below(p, cwd) == Some(x));
    let (stripped, file_name) = choose|
        stripped: Option<Seq<char>>,
        file_name: Option<Seq<char>>,
    |
        paths::rest_found(text::trim(p), cwd, stripped) && paths::name_found(
            text::trim(p),
            file_name,
        ) && relative == #[trigger] relative_of(p, cwd, stripped, file_name);
    assert(stripped == Some(x));
}

/// No possible target leaves the project, whatever the platform finds.
pub proof fn law_no_target_leaves_the_project(
    raw: Seq<char>,
    cwd: Seq<char>,
    relative: Option<Seq<char>>,
)
    requires
        possible_target(raw, cwd, relative),
    ensures
        relative matches Some(r) ==> r.len() > 0 && !text::has_match(r, ".."@),
{
}

} // verus!

//! The worker's event stream: the text and the tool calls that its chunks add up to.
//!
//! A worker streams text and tool calls in several shapes. Text may stand in an OpenAI
//! delta or in older fields; the arguments of a tool call may come in fragments, or as
//! complete calls without an index. Calls are kept by their index, in whose order they come out.

use crate::digits::{self, number_text};
use crate::json::{self, Json, JsonView};
use crate::text::{self, ends_with, lines, same_text, starts_with, strip_prefix, trimmed};
use std::collections::BTreeMap;
use vstd::prelude::*;

verus! {

// ---------------------------------------------------------------------------
// Tool calls and their slots
// ---------------------------------------------------------------------------

/// A tool call as a mathematical value.
pub struct CallView {
    pub id: Seq<char>,
    pub name: Seq<char>,
    pub arguments: Seq<char>,
}

/// A tool call as far as its fragments have come in.
pub struct ToolCall {
    pub id: String,
    pub name: String,
    pub arguments: String,
}

impl View for ToolCall {
    type V = CallView;

    open spec fn view(&self) -> CallView {
        CallView { id: self.id@, name: self.name@, arguments: self.arguments@ }
    }
}

/// A tool call under its index, as a mathematical value.
pub struct SlotView {
    pub index: usize,
    pub call: CallView,
}

/// The views of calls by their index.
pub open spec fn call_views(calls: Map<usize, ToolCall>) -> Map<usize, CallView> {
    calls.map_values(|c: ToolCall| c@)
}

/// The indices below `n` that have a call, in order.
pub open spec fn indices_below(calls: Map<usize, CallView>, n: nat) -> Seq<usize>
    decreases n,
{
    if n == 0 {
        Seq::empty()
    } else {
        let before = indices_below(calls, (n - 1) as nat);
        let index = (n - 1) as usize;
        if index == n - 1 && calls.contains_key(index) {
            before.push(index)
        } else {
            before
        }
    }
}

/// All indices that have a call, in order.
pub open spec fn indices_of(calls: Map<usize, CallView>) -> Seq<usize> {
    indices_below(calls, usize::MAX as nat + 1)
}

/// The calls with their indices, in order.
pub open spec fn slots_of(calls: Map<usize, CallView>) -> Seq<SlotView> {
    indices_of(calls).map_values(|index: usize| SlotView { index, call: calls[index] })
}

/// Are the slots in the order of their indices, each index once?
pub open spec fn ordered(slots: Seq<SlotView>) -> bool {
    forall|i: int, j: int| 0 <= i < j < slots.len() ==> slots[i].index < slots[j].index
}

/// The call under `index`.
pub open spec fn call_at(calls: Map<usize, CallView>, index: usize) -> Option<CallView> {
    if calls.contains_key(index) {
        Some(calls[index])
    } else {
        None
    }
}

/// The first index whose call has `id`.
pub open spec fn index_of_id(slots: Seq<SlotView>, id: Seq<char>) -> Option<usize>
    decreases slots.len(),
{
    if slots.len() == 0 {
        None
    } else if slots[0].call.id == id {
        Some(slots[0].index)
    } else {
        index_of_id(slots.skip(1), id)
    }
}

/// The index behind the last slot.
pub open spec fn next_index(slots: Seq<SlotView>) -> usize {
    if slots.len() == 0 {
        0
    } else if slots.last().index == usize::MAX {
        usize::MAX
    } else {
        (slots.last().index + 1) as usize
    }
}

/// Are the indices in order, each once?
spec fn ascending(list: Seq<usize>) -> bool {
    forall|i: int, j: int| 0 <= i < j < list.len() ==> list[i] < list[j]
}

proof fn lemma_indices_below(calls: Map<usize, CallView>, n: nat)
    ensures
        ascending(indices_below(calls, n)),
        forall|index: usize| #[trigger]
            indices_below(calls, n).contains(index) <==> index < n && calls.contains_key(index),
    decreases n,
{
    if n > 0 {
        let before = indices_below(calls, (n - 1) as nat);
        let out = indices_below(calls, n);
        lemma_indices_below(calls, (n - 1) as nat);
        assert forall|k: int| 0 <= k < before.len() implies #[trigger] before[k] < n - 1 by {
            assert(before.contains(before[k]));
        }
        assert forall|index: usize| #[trigger] out.contains(index) <==> index < n
            && calls.contains_key(index) by {
            if out.contains(index) {
                let k = choose|k: int| 0 <= k < out.len() && out[k] == index;
                if k < before.len() {
                    assert(before.contains(index));
                }
            }
            if index < n && calls.contains_key(index) {
                if index < n - 1 {
                    assert(before.contains(index));
                    let k = choose|k: int| 0 <= k < before.len() && before[k] == index;
                    assert(out[k] == index);
                } else {
                    assert(out.last() == index);
                }
            }
        }
    }
}

/// Two ascending lists of the same indices are the same.
proof fn lemma_ascending_unique(a: Seq<usize>, b: Seq<usize>)
    requires
        ascending(a),
        ascending(b),
        forall|index: usize| #[trigger] a.contains(index) <==> b.contains(index),
    ensures
        a == b,
    decreases a.len(),
{
    if a.len() == 0 {
        if b.len() > 0 {
            assert(b.contains(b[0]));
            assert(a.contains(b[0]));
        }
    } else {
        assert(a.contains(a[0]));
        assert(b.contains(a[0]));
        assert(b.contains(b[0]));
        assert(a.contains(b[0]));
        let x = a.skip(1);
        let y = b.skip(1);
        assert forall|index: usize| #[trigger] x.contains(index) <==> y.contains(index) by {
            if x.contains(index) {
                let k = choose|k: int| 0 <= k < x.len() && x[k] == index;
                assert(a[k + 1] == index);
                assert(a.contains(index));
                let m = choose|m: int| 0 <= m < b.len() && b[m] == index;
                assert(y[m - 1] == index);
            }
            if y.contains(index) {
                let k = choose|k: int| 0 <= k < y.len() && y[k] == index;
                assert(b[k + 1] == index);
                assert(b.contains(index));
                assert(a.contains(index));
                let m = choose|m: int| 0 <= m < a.len() && a[m] == index;
                assert(x[m - 1] == index);
            }
        }
        lemma_ascending_unique(x, y);
        assert(a =~= seq![a[0]] + x);
        assert(b =~= seq![b[0]] + y);
    }
}

/// The slots are the calls in the order of their indices: each call once, and nothing else.
pub proof fn law_slots_are_the_calls_in_order(calls: Map<usize, CallView>)
    ensures
        ordered(slots_of(calls)),
        forall|k: int|
            0 <= k < slots_of(calls).len() ==> call_at(
                calls,
                (#[trigger] slots_of(calls)[k]).index,
            ) == Some(slots_of(calls)[k].call),
        forall|index: usize| #[trigger]
            call_at(calls, index) is Some ==> exists|k: int|
                0 <= k < slots_of(calls).len() && #[trigger] slots_of(calls)[k].index == index,
{
    let all = indices_of(calls);
    let slots = slots_of(calls);
    lemma_indices_below(calls, usize::MAX as nat + 1);
    assert forall|k: int| 0 <= k < slots.len() implies call_at(calls, (#[trigger] slots[k]).index)
        == Some(slots[k].call) by {
        assert(all.contains(all[k]));
    }
    assert forall|index: usize| #[trigger] call_at(calls, index) is Some implies exists|k: int|
        0 <= k < slots.len() && #[trigger] slots[k].index == index by {
        assert(all.contains(index));
        let k = choose|k: int| 0 <= k < all.len() && all[k] == index;
        assert(slots[k].index == index);
    }
}

// ---------------------------------------------------------------------------
// What a chunk holds
// ---------------------------------------------------------------------------

/// `/choices/0/<part>/<key>` of a chunk.
pub open spec fn choice_field(chunk: JsonView, part: Seq<char>, key: Seq<char>) -> Option<
    JsonView,
> {
    match chunk.field("choices"@) {
        Some(choices) => match choices.zeroth() {
            Some(choice) => match choice.field(part) {
                Some(v) => v.field(key),
                None => None,
            },
            None => None,
        },
        None => None,
    }
}

/// The text of an optional string, or else no text.
pub open spec fn text_or_empty(v: Option<JsonView>) -> Seq<char> {
    match v {
        Some(JsonView::Text(t)) => t,
        _ => Seq::empty(),
    }
}

/// The text that a chunk adds: the first of its known places that holds any.
pub open spec fn chunk_text(chunk: JsonView) -> Seq<char> {
    let delta = text_or_empty(choice_field(chunk, "delta"@, "content"@));
    let message = text_or_empty(choice_field(chunk, "message"@, "content"@));
    let response = text_or_empty(chunk.field("response"@));
    let content = text_or_empty(chunk.field("content"@));
    if delta.len() > 0 {
        delta
    } else if message.len() > 0 {
        message
    } else if response.len() > 0 {
        response
    } else if content.len() > 0 {
        content
    } else {
        text_or_empty(chunk.field("delta"@))
    }
}

/// The elements of an optional array.
pub open spec fn items_of(v: Option<JsonView>) -> Option<Seq<JsonView>> {
    match v {
        Some(v) => v.items(),
        None => None,
    }
}

/// The tool calls that a chunk carries: the first of its known places that is an array.
pub open spec fn chunk_calls(chunk: JsonView) -> Seq<JsonView> {
    match items_of(chunk.field("tool_calls"@)) {
        Some(calls) => calls,
        None => match items_of(choice_field(chunk, "delta"@, "tool_calls"@)) {
            Some(calls) => calls,
            None => match items_of(choice_field(chunk, "message"@, "tool_calls"@)) {
                Some(calls) => calls,
                None => Seq::empty(),
            },
        },
    }
}

/// The part of a raw call that names the function: its `function`, or else the call itself.
pub open spec fn function_of(raw: JsonView) -> JsonView {
    match raw.field("function"@) {
        Some(f) => f,
        None => raw,
    }
}

/// The arguments of a raw call as text; a document that is not a string is printed.
pub open spec fn raw_arguments(raw: JsonView) -> Seq<char> {
    match function_of(raw).field("arguments"@) {
        Some(JsonView::Text(t)) => t,
        Some(v) => json::compact_json(v),
        None => Seq::empty(),
    }
}

/// The id of a raw call, where it has one.
pub open spec fn raw_id(raw: JsonView) -> Option<Seq<char>> {
    match raw.text_field("id"@) {
        Some(id) => if id.len() > 0 {
            Some(id)
        } else {
            None
        },
        None => None,
    }
}

/// The name in a raw call, or no text.
pub open spec fn raw_name(raw: JsonView) -> Seq<char> {
    text_or_empty(function_of(raw).field("name"@))
}

/// Are the arguments a whole JSON object?
pub open spec fn complete(arguments: Seq<char>) -> bool {
    json::parsed_json(text::trim(arguments)) matches Ok(JsonView::Object(_))
}

/// The index that a raw call at `position` of its chunk asks for.
pub open spec fn requested_index(position: usize, raw: JsonView) -> usize {
    match raw.field("index"@) {
        Some(v) => match v.unsigned() {
            Some(n) => if n <= usize::MAX {
                n as usize
            } else {
                position
            },
            None => position,
        },
        None => position,
    }
}

/// Is a raw call another one than the call that sits in the slot it asks for? It is where
/// their ids differ, and where both have complete arguments that are not the same.
pub open spec fn distinct_call(existing: CallView, raw: JsonView) -> bool {
    ||| (raw_id(raw) matches Some(id) && existing.id != id)
    ||| (complete(existing.arguments) && complete(raw_arguments(raw)) && existing.arguments
        != raw_arguments(raw))
}

/// The index for a raw call: that of its id, or else the one it asks for, or a new one
/// where another call sits there.
pub open spec fn slot_for(
    calls: Map<usize, CallView>,
    position: usize,
    raw: JsonView,
) -> usize {
    let known = match raw_id(raw) {
        Some(id) => index_of_id(slots_of(calls), id),
        None => None,
    };
    match known {
        Some(index) => index,
        None => {
            let requested = requested_index(position, raw);
            match call_at(calls, requested) {
                Some(existing) => if distinct_call(existing, raw) {
                    next_index(slots_of(calls))
                } else {
                    requested
                },
                None => requested,
            }
        },
    }
}

/// `previous` with a further piece: a piece that repeats or extends it is not doubled.
pub open spec fn merged_arguments(previous: Seq<char>, piece: Seq<char>) -> Seq<char> {
    if piece.len() == 0 || piece == previous {
        previous
    } else if text::begins(piece, previous) {
        piece
    } else if text::finishes(previous, piece) {
        previous
    } else {
        previous + piece
    }
}

/// A call that has nothing yet.
pub open spec fn fresh_call(index: usize) -> CallView {
    CallView {
        id: "call_rlm_edge_"@ + digits::decimal(index as nat),
        name: Seq::empty(),
        arguments: Seq::empty(),
    }
}

/// `call` with what a raw call adds to it.
pub open spec fn merged_call(call: CallView, raw: JsonView) -> CallView {
    CallView {
        id: match raw_id(raw) {
            Some(id) => id,
            None => call.id,
        },
        name: if raw_name(raw).len() > 0 {
            raw_name(raw)
        } else {
            call.name
        },
        arguments: merged_arguments(call.arguments, raw_arguments(raw)),
    }
}

/// The calls after a raw one was merged into the one at `index`.
pub open spec fn merged(calls: Map<usize, CallView>, index: usize, raw: JsonView) -> Map<
    usize,
    CallView,
> {
    let before = match call_at(calls, index) {
        Some(call) => call,
        None => fresh_call(index),
    };
    calls.insert(index, merged_call(before, raw))
}

/// The calls after the raw ones of one chunk, from the `position`-th on.
pub open spec fn with_calls(
    calls: Map<usize, CallView>,
    raws: Seq<JsonView>,
    position: nat,
) -> Map<usize, CallView>
    decreases raws.len() - position,
{
    if position >= raws.len() {
        calls
    } else {
        let raw = raws[position as int];
        let index = slot_for(calls, position as usize, raw);
        with_calls(merged(calls, index, raw), raws, position + 1)
    }
}

/// What has come of a stream so far.
pub struct StreamView {
    pub content: Seq<char>,
    pub calls: Map<usize, CallView>,
    pub saw_event: bool,
}

/// The data of a line, where it carries any: what follows `data:`, or the line itself.
pub open spec fn line_data(raw_line: Seq<char>) -> Option<Seq<char>> {
    let line = text::trim(raw_line);
    let data = match text::after_prefix(line, "data:"@) {
        Some(rest) => text::trim(rest),
        None => line,
    };
    if line.len() == 0 || line == "data: [DONE]"@ || line == "[DONE]"@ || data.len() == 0 {
        None
    } else {
        Some(data)
    }
}

/// What an error field says: its message, or else the whole of it in print.
pub open spec fn error_detail(error: JsonView) -> Seq<char> {
    match error.text_field("message"@) {
        Some(m) => m,
        None => json::compact_json(error),
    }
}

/// The stream after one line, or why it broke off.
pub open spec fn after_line(st: StreamView, raw_line: Seq<char>) -> Result<StreamView, Seq<char>> {
    match line_data(raw_line) {
        None => Ok(st),
        Some(data) => match json::parsed_json(data) {
            Err(e) => Err("invalid Workers AI stream chunk: "@ + e),
            Ok(chunk) => match chunk.field("error"@) {
                Some(error) => Err(error_detail(error)),
                None => Ok(
                    StreamView {
                        content: st.content + chunk_text(chunk),
                        calls: with_calls(st.calls, chunk_calls(chunk), 0),
                        saw_event: true,
                    },
                ),
            },
        },
    }
}

/// The stream after the lines from the `i`-th on.
pub open spec fn after_lines(st: StreamView, all: Seq<Seq<char>>, i: nat) -> Result<
    StreamView,
    Seq<char>,
>
    decreases all.len() - i,
{
    if i >= all.len() {
        Ok(st)
    } else {
        match after_line(st, all[i as int]) {
            Ok(next) => after_lines(next, all, i + 1),
            Err(e) => Err(e),
        }
    }
}

/// A stream of which nothing has come.
pub open spec fn no_stream() -> StreamView {
    StreamView { content: Seq::empty(), calls: Map::empty(), saw_event: false }
}

/// A slot as the worker would have sent its call in one piece.
pub open spec fn slot_json(slot: SlotView) -> JsonView {
    JsonView::object().put("index"@, JsonView::number(slot.index as nat)).put(
        "id"@,
        JsonView::Text(slot.call.id),
    ).put("type"@, JsonView::Text("function"@)).put(
        "function"@,
        JsonView::object().put("name"@, JsonView::Text(slot.call.name)).put(
            "arguments"@,
            JsonView::Text(slot.call.arguments),
        ),
    )
}

/// The calls of all slots in order.
pub open spec fn slots_json(slots: Seq<SlotView>) -> Seq<JsonView> {
    slots.map_values(|s: SlotView| slot_json(s))
}

/// What a whole payload adds up to, or why it does not.
pub open spec fn stream_completion(payload: Seq<char>) -> Result<JsonView, Seq<char>> {
    match after_lines(no_stream(), text::lines_of(payload), 0) {
        Err(e) => Err(e),
        Ok(st) => if !st.saw_event {
            Err("Workers AI stream contained no JSON events"@)
        } else {
            Ok(
                JsonView::object().put("content"@, JsonView::Text(st.content)).put(
                    "tool_calls"@,
                    JsonView::Array(slots_json(slots_of(st.calls))),
                ),
            )
        },
    }
}

// ---------------------------------------------------------------------------
// Laws of merging
// ---------------------------------------------------------------------------

/// Merging a piece loses nothing of the arguments that were there: they stay at the start.
pub proof fn law_merging_keeps_arguments(previous: Seq<char>, piece: Seq<char>)
    ensures
        text::begins(merged_arguments(previous, piece), previous),
{
    let out = merged_arguments(previous, piece);
    if !text::begins(piece, previous) || piece.len() == 0 || piece == previous {
        assert(out.subrange(0, previous.len() as int) =~= previous);
    }
}

/// Merging the same piece again changes nothing.
pub proof fn law_merging_is_idempotent(previous: Seq<char>, piece: Seq<char>)
    ensures
        merged_arguments(merged_arguments(previous, piece), piece) == merged_arguments(
            previous,
            piece,
        ),
{
    let once = merged_arguments(previous, piece);
    if piece.len() > 0 && once == previous + piece {
        assert(once.subrange(once.len() - piece.len(), once.len() as int) =~= piece);
        assert(text::finishes(once, piece));
        if text::begins(piece, once) {
            assert(piece.len() >= once.len());
            assert(previous =~= Seq::empty());
            assert(once =~= piece);
        }
    }
}

/// A call whose id is not known yet and that asks for an index under which another call sits
/// gets an index of its own, unless there is none left.
pub proof fn law_distinct_calls_stay_apart(
    calls: Map<usize, CallView>,
    position: usize,
    raw: JsonView,
)
    requires
        raw_id(raw) matches Some(id) ==> index_of_id(slots_of(calls), id) is None,
        call_at(calls, requested_index(position, raw)) matches Some(existing) && distinct_call(
            existing,
            raw,
        ),
        !calls.contains_key(usize::MAX),
    ensures
        call_at(calls, slot_for(calls, position, raw)) is None,
{
    let slots = slots_of(calls);
    let requested = requested_index(position, raw);
    law_slots_are_the_calls_in_order(calls);
    let at = choose|k: int| 0 <= k < slots.len() && #[trigger] slots[k].index == requested;
    let last = slots[slots.len() - 1];
    assert(call_at(calls, last.index) == Some(last.call));
    let free = next_index(slots);
    if call_at(calls, free) is Some {
        let k = choose|k: int| 0 <= k < slots.len() && #[trigger] slots[k].index == free;
        assert(slots[k].index <= last.index);
    }
}

/// What a stream adds up to names no error: an error ends the stream instead.
pub proof fn law_completion_names_no_error(payload: Seq<char>)
    ensures
        stream_completion(payload) matches Ok(completion) ==> completion.field("error"@) is None,
{
    reveal_strlit("error");
    reveal_strlit("content");
    reveal_strlit("tool_calls");
    assert("error"@.len() == 5);
    assert("content"@.len() == 7);
    assert("tool_calls"@.len() == 10);
}

// ---------------------------------------------------------------------------
// Reading chunks
// ---------------------------------------------------------------------------

/// `/choices/0/<part>/<key>` of a chunk.
fn choice_part<'a>(chunk: &'a Json, part: &str, key: &str) -> (found: Option<&'a Json>)
    ensures
        json::json_opt(found) == choice_field(chunk@, part@, key@),
{
    match chunk.get("choices") {
        Some(choices) => match choices.zeroth() {
            Some(choice) => match choice.get(part) {
                Some(v) => v.get(key),
                None => None,
            },
            None => None,
        },
        None => None,
    }
}

/// The text of an optional string, or else no text.
fn text_part(v: Option<&Json>) -> (t: String)
    ensures
        t@ == text_or_empty(json::json_opt(v)),
{
    match v {
        Some(v) => match v.as_text() {
            Some(t) => t.clone(),
            None => String::new(),
        },
        None => String::new(),
    }
}

/// The text that a chunk adds.
pub fn edge_stream_text(chunk: &Json) -> (added: String)
    ensures
        added@ == chunk_text(chunk@),
{
    let delta: String = text_part(choice_part(chunk, "delta", "content"));
    let message: String = text_part(choice_part(chunk, "message", "content"));
    let response: String = text_part(chunk.get("response"));
    let content: String = text_part(chunk.get("content"));
    if !delta.as_str().is_empty() {
        delta
    } else if !message.as_str().is_empty() {
        message
    } else if !response.as_str().is_empty() {
        response
    } else if !content.as_str().is_empty() {
        content
    } else {
        text_part(chunk.get("delta"))
    }
}

/// The elements of an optional array.
fn items_part<'a>(v: Option<&'a Json>) -> (items: Option<&'a Vec<Json>>)
    ensures
        match items {
            Some(v2) => items_of(json::json_opt(v)) == Some(json::json_views(v2@)),
            None => items_of(json::json_opt(v)) is None,
        },
{
    match v {
        Some(v) => v.as_items(),
        None => None,
    }
}

/// Copies of all documents of a vector.
fn duplicates(items: &Vec<Json>) -> (copies: Vec<Json>)
    ensures
        json::json_views(copies@) == json::json_views(items@),
{
    let mut copies: Vec<Json> = Vec::new();
    let mut i: usize = 0;
    while i < items.len()
        invariant
            i <= items@.len(),
            json::json_views(copies@) == json::json_views(items@).take(i as int),
        decreases items@.len() - i,
    {
        let copy: Json = items[i].duplicate();
        proof {
            json::lemma_json_views_push(copies@, copy);
            assert(json::json_views(items@).take(i + 1) =~= json::json_views(items@).take(
                i as int,
            ).push(items@[i as int]@));
        }
        copies.push(copy);
        i += 1;
    }
    assert(json::json_views(items@).take(i as int) =~= json::json_views(items@));
    copies
}

/// The tool calls that a chunk carries.
pub fn edge_stream_tool_calls(chunk: &Json) -> (calls: Vec<Json>)
    ensures
        json::json_views(calls@) == chunk_calls(chunk@),
{
    let found: Option<&Vec<Json>> = match items_part(chunk.get("tool_calls")) {
        Some(calls) => Some(calls),
        None => match items_part(choice_part(chunk, "delta", "tool_calls")) {
            Some(calls) => Some(calls),
            None => items_part(choice_part(chunk, "message", "tool_calls")),
        },
    };
    match found {
        Some(calls) => duplicates(calls),
        None => {
            let none: Vec<Json> = Vec::new();
            assert(json::json_views(none@) =~= Seq::empty());
            none
        },
    }
}

/// The part of a raw call that names the function.
fn function_part<'a>(raw: &'a Json) -> (function: &'a Json)
    ensures
        function@ == function_of(raw@),
{
    match raw.get("function") {
        Some(f) => f,
        None => raw,
    }
}

/// The arguments of a raw call as text.
pub fn edge_stream_tool_call_arguments(raw: &Json) -> (arguments: String)
    ensures
        arguments@ == raw_arguments(raw@),
{
    match function_part(raw).get("arguments") {
        Some(Json::Text(t)) => t.clone(),
        Some(v) => v.compact(),
        None => String::new(),
    }
}

/// The id of a raw call, where it has one.
pub fn edge_stream_tool_call_id(raw: &Json) -> (id: Option<String>)
    ensures
        text::opt_view(id) == raw_id(raw@),
{
    match raw.text_at("id") {
        Some(id) => if id.as_str().is_empty() {
            None
        } else {
            Some(id)
        },
        None => None,
    }
}

/// Are the arguments a whole JSON object?
pub fn is_complete_tool_arguments(arguments: &str) -> (whole: bool)
    ensures
        whole == complete(arguments@),
{
    match Json::parse(trimmed(arguments).as_str()) {
        Ok(Json::Object(_)) => true,
        Ok(_) => false,
        Err(_) => false,
    }
}

// ---------------------------------------------------------------------------
// Keeping slots
// ---------------------------------------------------------------------------

/// All indices that have a call, in order.
fn indices(calls: &BTreeMap<usize, ToolCall>) -> (list: Vec<usize>)
    ensures
        list@ == indices_of(call_views(calls@)),
{
    broadcast use vstd::laws_cmp::group_laws_cmp;

    let mut list: Vec<usize> = Vec::new();
    let iter = calls.iter();
    let ghost all = vstd::std_specs::iter::IteratorSpec::remaining(&iter);
    let ghost keys = all.map_values(|entry: (&usize, &ToolCall)| *entry.0);
    assert(vstd::std_specs::btree::increasing_seq(keys));
    for entry in it: iter
        invariant
            it.seq() == all,
            list@.len() == it.index(),
            forall|k: int| 0 <= k < list@.len() ==> #[trigger] list@[k] == *all[k].0,
    {
        list.push(*entry.0);
    }
    proof {
        let views = call_views(calls@);
        assert(list@ =~= keys);
        assert forall|i: int, j: int| 0 <= i < j < keys.len() implies keys[i] < keys[j] by {
            assert(vstd::std_specs::cmp::OrdSpec::cmp_spec(&keys[i], &keys[j]) is Less);
        }
        lemma_all_indices(views);
        assert forall|index: usize| #[trigger] list@.contains(index) <==> indices_of(
            views,
        ).contains(index) by {
            if calls@.contains_key(index) {
                let call = calls@[index];
                assert(all.contains((&index, &call)));
                let k = choose|k: int| 0 <= k < all.len() && all[k] == (&index, &call);
                assert(list@[k] == index);
            }
            if list@.contains(index) {
                let k = choose|k: int| 0 <= k < list@.len() && list@[k] == index;
                assert(calls@.contains_key(*all[k].0));
            }
        }
        lemma_ascending_unique(list@, indices_of(views));
    }
    list
}

/// The indices that have a call are in order, each once, and nothing else is among them.
proof fn lemma_all_indices(calls: Map<usize, CallView>)
    ensures
        ascending(indices_of(calls)),
        forall|index: usize| #[trigger]
            indices_of(calls).contains(index) <==> calls.contains_key(index),
{
    lemma_indices_below(calls, usize::MAX as nat + 1);
}

/// The index behind the last call.
pub fn next_edge_stream_tool_index(calls: &BTreeMap<usize, ToolCall>) -> (index: usize)
    ensures
        index == next_index(slots_of(call_views(calls@))),
{
    let list: Vec<usize> = indices(calls);
    if list.len() == 0 {
        return 0;
    }
    list[list.len() - 1].saturating_add(1)
}

/// The call under `index`.
fn find_call<'a>(calls: &'a BTreeMap<usize, ToolCall>, index: usize) -> (call: Option<
    &'a ToolCall,
>)
    ensures
        match call {
            Some(c) => call_at(call_views(calls@), index) == Some(c@),
            None => call_at(call_views(calls@), index) is None,
        },
{
    broadcast use vstd::laws_cmp::group_laws_cmp;

    calls.get(&index)
}

/// The first index whose call has `id`.
fn find_id(calls: &BTreeMap<usize, ToolCall>, id: &str) -> (index: Option<usize>)
    ensures
        index == index_of_id(slots_of(call_views(calls@)), id@),
{
    let list: Vec<usize> = indices(calls);
    let ghost views = call_views(calls@);
    let ghost all = slots_of(views);
    let mut i: usize = 0;
    assert(all.skip(0) =~= all);
    while i < list.len()
        invariant
            views == call_views(calls@),
            all == slots_of(views),
            list@ == indices_of(views),
            i <= list@.len(),
            index_of_id(all, id@) == index_of_id(all.skip(i as int), id@),
        decreases list@.len() - i,
    {
        proof {
            law_slots_are_the_calls_in_order(views);
            assert(all[i as int].index == list@[i as int]);
            assert(all.skip(i as int)[0] == all[i as int]);
            assert(all.skip(i as int).skip(1) =~= all.skip(i + 1));
        }
        if let Some(call) = find_call(calls, list[i]) {
            if same_text(call.id.as_str(), id) {
                return Some(list[i]);
            }
        }
        i += 1;
    }
    None
}

/// The index for a raw call at `position` of its chunk.
pub fn edge_stream_tool_call_index(
    calls: &BTreeMap<usize, ToolCall>,
    position: usize,
    raw: &Json,
) -> (index: usize)
    ensures
        index == slot_for(call_views(calls@), position, raw@),
{
    let id: Option<String> = edge_stream_tool_call_id(raw);
    if let Some(id) = &id {
        if let Some(index) = find_id(calls, id.as_str()) {
            return index;
        }
    }
    let requested: usize = match raw.get("index") {
        Some(v) => match v.as_unsigned() {
            Some(n) => if n <= usize::MAX as u64 {
                n as usize
            } else {
                position
            },
            None => position,
        },
        None => position,
    };
    match find_call(calls, requested) {
        None => requested,
        Some(existing) => {
            let incoming: String = edge_stream_tool_call_arguments(raw);
            let other_id: bool = match &id {
                Some(id) => !same_text(existing.id.as_str(), id.as_str()),
                None => false,
            };
            let other_arguments: bool = is_complete_tool_arguments(existing.arguments.as_str())
                && is_complete_tool_arguments(incoming.as_str()) && !same_text(
                existing.arguments.as_str(),
                incoming.as_str(),
            );
            if other_id || other_arguments {
                next_edge_stream_tool_index(calls)
            } else {
                requested
            }
        },
    }
}

/// Puts `call` under `index`.
fn set_call(calls: &mut BTreeMap<usize, ToolCall>, index: usize, call: ToolCall)
    ensures
        call_views(final(calls)@) == call_views(old(calls)@).insert(index, call@),
{
    broadcast use vstd::laws_cmp::group_laws_cmp;

    let ghost before = call_views(calls@);
    calls.insert(index, call);
    assert(call_views(calls@) =~= before.insert(index, call@));
}

/// Merges a raw call into the one at `index`.
pub fn merge_edge_stream_tool_call(
    calls: &mut BTreeMap<usize, ToolCall>,
    index: usize,
    raw: &Json,
)
    ensures
        call_views(final(calls)@) == merged(call_views(old(calls)@), index, raw@),
{
    let function: &Json = function_part(raw);
    let name: String = text_part(function.get("name"));
    let piece: String = edge_stream_tool_call_arguments(raw);
    let (old_id, old_name, previous): (String, String, String) = match find_call(calls, index) {
        Some(call) => (call.id.clone(), call.name.clone(), call.arguments.clone()),
        None => {
            let id: String = "call_rlm_edge_".to_owned();
            (id.concat(number_text(index as u128).as_str()), String::new(), String::new())
        },
    };
    let id: String = match edge_stream_tool_call_id(raw) {
        Some(id) => id,
        None => old_id,
    };
    let name: String = if name.as_str().is_empty() {
        old_name
    } else {
        name
    };
    let arguments: String = if piece.as_str().is_empty() || same_text(
        piece.as_str(),
        previous.as_str(),
    ) {
        previous
    } else if starts_with(piece.as_str(), previous.as_str()) {
        piece
    } else if ends_with(previous.as_str(), piece.as_str()) {
        previous
    } else {
        previous.concat(piece.as_str())
    };
    let call: ToolCall = ToolCall { id, name, arguments };
    set_call(calls, index, call);
}

// ---------------------------------------------------------------------------
// The whole stream
// ---------------------------------------------------------------------------

/// Merges the raw calls of one chunk.
fn merge_calls(calls: &mut BTreeMap<usize, ToolCall>, raws: &Vec<Json>)
    ensures
        call_views(final(calls)@) == with_calls(
            call_views(old(calls)@),
            json::json_views(raws@),
            0,
        ),
{
    let ghost before = call_views(calls@);
    let ghost all = json::json_views(raws@);
    let mut position: usize = 0;
    while position < raws.len()
        invariant
            position <= raws@.len(),
            all == json::json_views(raws@),
            with_calls(before, all, 0) == with_calls(call_views(calls@), all, position as nat),
        decreases raws@.len() - position,
    {
        let index: usize = edge_stream_tool_call_index(calls, position, &raws[position]);
        merge_edge_stream_tool_call(calls, index, &raws[position]);
        position += 1;
    }
}

/// One call as a JSON document.
fn call_to_json(index: usize, call: &ToolCall) -> (json: Json)
    ensures
        json@ == slot_json((SlotView { index, call: call@ })),
{
    Json::object().put("index", Json::Unsigned(index as u64)).put(
        "id",
        Json::text(call.id.as_str()),
    ).put("type", Json::text("function")).put(
        "function",
        Json::object().put("name", Json::text(call.name.as_str())).put(
            "arguments",
            Json::text(call.arguments.as_str()),
        ),
    )
}

/// All calls as JSON documents, in order.
fn calls_to_json(calls: &BTreeMap<usize, ToolCall>) -> (items: Vec<Json>)
    ensures
        json::json_views(items@) == slots_json(slots_of(call_views(calls@))),
{
    let list: Vec<usize> = indices(calls);
    let ghost views = call_views(calls@);
    let ghost slots = slots_of(views);
    let ghost all = slots_json(slots);
    let mut items: Vec<Json> = Vec::new();
    let mut i: usize = 0;
    while i < list.len()
        invariant
            i <= list@.len(),
            views == call_views(calls@),
            slots == slots_of(views),
            all == slots_json(slots),
            list@ == indices_of(views),
            json::json_views(items@) == all.take(i as int),
        decreases list@.len() - i,
    {
        proof {
            law_slots_are_the_calls_in_order(views);
            assert(slots[i as int].index == list@[i as int]);
            assert(call_at(views, slots[i as int].index) == Some(slots[i as int].call));
        }
        if let Some(call) = find_call(calls, list[i]) {
            let item: Json = call_to_json(list[i], call);
            proof {
                json::lemma_json_views_push(items@, item);
                assert(all.take(i + 1) =~= all.take(i as int).push(slot_json(slots[i as int])));
            }
            items.push(item);
        }
        i += 1;
    }
    assert(all.take(i as int) =~= all);
    items
}

/// What a worker's stream adds up to: its text and its tool calls, or why there is none.
pub fn edge_stream_completion(payload: &str) -> (completion: Result<Json, String>)
    ensures
        match completion {
            Ok(json) => stream_completion(payload@) == Ok::<JsonView, Seq<char>>(json@),
            Err(e) => stream_completion(payload@) == Err::<JsonView, Seq<char>>(e@),
        },
{
    let all: Vec<String> = lines(payload);
    let ghost views = text::views(all@);
    let mut content: String = String::new();
    let mut calls: BTreeMap<usize, ToolCall> = BTreeMap::new();
    let mut saw_event: bool = false;
    let mut i: usize = 0;
    assert(call_views(calls@) =~= Map::empty());
    while i < all.len()
        invariant
            i <= all@.len(),
            views == text::views(all@),
            views == text::lines_of(payload@),
            after_lines(no_stream(), views, 0) == after_lines(
                (StreamView { content: content@, calls: call_views(calls@), saw_event }),
                views,
                i as nat,
            ),
        decreases all@.len() - i,
    {
        let ghost st = StreamView { content: content@, calls: call_views(calls@), saw_event };
        assert(views[i as int] == all@[i as int]@);
        let line: String = trimmed(all[i].as_str());
        i += 1;
        let data: String = match strip_prefix(line.as_str(), "data:") {
            Some(rest) => trimmed(rest.as_str()),
            None => line.clone(),
        };
        if line.as_str().is_empty() || same_text(line.as_str(), "data: [DONE]") || same_text(
            line.as_str(),
            "[DONE]",
        ) || data.as_str().is_empty() {
            continue ;
        }
        let chunk: Json = match Json::parse(data.as_str()) {
            Ok(chunk) => chunk,
            Err(e) => {
                let message: String = "invalid Workers AI stream chunk: ".to_owned();
                return Err(message.concat(e.as_str()));
            },
        };
        if let Some(error) = chunk.get("error") {
            return Err(
                match error.text_at("message") {
                    Some(m) => m,
                    None => error.compact(),
                },
            );
        }
        saw_event = true;
        content.append(edge_stream_text(&chunk).as_str());
        let raws: Vec<Json> = edge_stream_tool_calls(&chunk);
        merge_calls(&mut calls, &raws);
    }
    if !saw_event {
        return Err("Workers AI stream contained no JSON events".to_owned());
    }
    let items: Vec<Json> = calls_to_json(&calls);
    proof {
        json::lemma_array_view(items);
    }
    Ok(Json::object().put("content", Json::Text(content)).put("tool_calls", Json::Array(items)))
}

// ---------------------------------------------------------------------------
// What a stream adds up to
// ---------------------------------------------------------------------------

proof fn lemma_after_more_lines(
    st: StreamView,
    a: Seq<Seq<char>>,
    b: Seq<Seq<char>>,
    i: nat,
)
    requires
        i <= b.len(),
    ensures
        after_lines(st, a + b, a.len() + i) == after_lines(st, b, i),
    decreases b.len() - i,
{
    if i < b.len() {
        assert((a + b)[(a.len() + i) as int] == b[i as int]);
        if let Ok(next) = after_line(st, b[i as int]) {
            lemma_after_more_lines(next, a, b, i + 1);
        }
    }
}

proof fn lemma_after_both(st: StreamView, a: Seq<Seq<char>>, b: Seq<Seq<char>>, i: nat)
    requires
        i <= a.len(),
    ensures
        after_lines(st, a + b, i) == (match after_lines(st, a, i) {
            Ok(middle) => after_lines(middle, b, 0),
            Err(e) => Err(e),
        }),
    decreases a.len() - i,
{
    if i < a.len() {
        assert((a + b)[i as int] == a[i as int]);
        if let Ok(next) = after_line(st, a[i as int]) {
            lemma_after_both(next, a, b, i + 1);
        }
    } else {
        lemma_after_more_lines(st, a, b, 0);
    }
}

/// What a stream adds does not depend on what came before it.
proof fn lemma_content_is_added(
    s: StreamView,
    t: StreamView,
    before: Seq<char>,
    all: Seq<Seq<char>>,
    i: nat,
)
    requires
        s.content == before + t.content,
        t.saw_event ==> s.saw_event,
    ensures
        after_lines(s, all, i) is Ok <==> after_lines(t, all, i) is Ok,
        after_lines(s, all, i) is Err ==> after_lines(s, all, i)->Err_0 == after_lines(
            t,
            all,
            i,
        )->Err_0,
        after_lines(s, all, i) is Ok ==> after_lines(s, all, i)->Ok_0.content == before
            + after_lines(t, all, i)->Ok_0.content && (after_lines(t, all, i)->Ok_0.saw_event
            ==> after_lines(s, all, i)->Ok_0.saw_event) && (s.saw_event ==> after_lines(
            s,
            all,
            i,
        )->Ok_0.saw_event),
    decreases all.len() - i,
{
    if i < all.len() {
        let x = after_line(s, all[i as int]);
        let y = after_line(t, all[i as int]);
        if let Ok(u) = x {
            let v = y->Ok_0;
            if let Some(data) = line_data(all[i as int]) {
                let chunk = json::parsed_json(data)->Ok_0;
                assert(before + t.content + chunk_text(chunk) =~= before + (t.content + chunk_text(
                    chunk,
                )));
            }
            lemma_content_is_added(u, v, before, all, i + 1);
        }
    }
}

/// The text of a stream is the text of all its chunks, one behind another: that of two
/// payloads in a row is that of the first and then that of the second.
pub proof fn law_stream_text_adds_up(p: Seq<char>, q: Seq<char>)
    requires
        p.len() > 0 ==> p.last() == '\n',
        stream_completion(p) is Ok,
        stream_completion(q) is Ok,
    ensures
        stream_completion(p + q) is Ok,
        stream_completion(p)->Ok_0.text_field("content"@) is Some,
        stream_completion(q)->Ok_0.text_field("content"@) is Some,
        stream_completion(p + q)->Ok_0.text_field("content"@) == Some(
            stream_completion(p)->Ok_0.text_field("content"@)->Some_0 + stream_completion(
                q,
            )->Ok_0.text_field("content"@)->Some_0,
        ),
{
    let a = text::lines_of(p);
    let b = text::lines_of(q);
    text::law_lines_of_two_texts(p, q);
    lemma_after_both(no_stream(), a, b, 0);
    let middle = after_lines(no_stream(), a, 0)->Ok_0;
    assert(middle.content =~= middle.content + no_stream().content);
    lemma_content_is_added(middle, no_stream(), middle.content, b, 0);
    lemma_completion_fields();
}

proof fn lemma_completion_fields()
    ensures
        "content"@ != "tool_calls"@,
{
    reveal_strlit("content");
    reveal_strlit("tool_calls");
    assert("content"@.len() == 7);
    assert("tool_calls"@.len() == 10);
}

/// A payload that fails fails whatever follows it, and in the same words.
pub proof fn law_failed_stream_stays_failed(p: Seq<char>, q: Seq<char>)
    requires
        p.len() > 0 ==> p.last() == '\n',
        after_lines(no_stream(), text::lines_of(p), 0) is Err,
    ensures
        stream_completion(p + q) == stream_completion(p),
        stream_completion(p) is Err,
{
    text::law_lines_of_two_texts(p, q);
    lemma_after_both(no_stream(), text::lines_of(p), text::lines_of(q), 0);
}

/// One line of data gives what its chunk holds: its text, or the error that it names. What is
/// no document is an error too.
pub proof fn law_one_line_stream(line: Seq<char>)
    requires
        !line.contains('\n'),
        line_data(line) is Some,
    ensures
        match json::parsed_json(line_data(line)->Some_0) {
            Err(_) => stream_completion(line) is Err,
            Ok(chunk) => match chunk.field("error"@) {
                Some(error) => match error.text_field("message"@) {
                    Some(m) => stream_completion(line) == Err::<JsonView, Seq<char>>(m),
                    None => stream_completion(line) is Err,
                },
                None => stream_completion(line) is Ok && stream_completion(line)->Ok_0.text_field(
                    "content"@,
                ) == Some(chunk_text(chunk)),
            },
        },
{
    text::law_first_line(line, Seq::empty());
    let all = text::lines_of(line);
    assert(line.len() > 0) by {
        if line.len() == 0 {
            assert(text::trim(line) =~= Seq::empty());
        }
    }
    reveal_with_fuel(after_lines, 3);
    assert(all[0] == line);
    lemma_completion_fields();
    if let Ok(chunk) = json::parsed_json(line_data(line)->Some_0) {
        assert(Seq::<char>::empty() + chunk_text(chunk) =~= chunk_text(chunk));
    }
}

/// The data of a line is what follows `data:`, without the white space around it, or the line
/// itself; what says that the stream is done is none, and neither is a blank line.
pub proof fn law_line_data(d: Seq<char>)
    requires
        d.len() > 0,
        !text::is_space(d[0]),
        !text::is_space(d.last()),
        d != "[DONE]"@,
    ensures
        line_data("data: "@ + d) == Some(d),
        !text::begins(d, "data:"@) ==> line_data(d) == Some(d),
        line_data("data: [DONE]"@) is None,
        line_data("[DONE]"@) is None,
        line_data(Seq::empty()) is None,
        line_data("data:"@) is None,
{
    reveal_strlit("data: ");
    reveal_strlit("data:");
    reveal_strlit("[DONE]");
    reveal_strlit("data: [DONE]");
    let e = Seq::<char>::empty();
    let line = "data: "@ + d;
    text::law_trimming(e, line, e, text::CharClass::Space);
    assert(e + line + e =~= line);
    text::law_trimming(e, d, e, text::CharClass::Space);
    assert(e + d + e =~= d);
    let rest = seq![' '] + d;
    assert(line =~= "data:"@ + rest);
    text::law_prefix("data:"@, rest, line);
    text::law_trimming(seq![' '], d, e, text::CharClass::Space);
    assert(seq![' '] + d + e =~= rest);
    assert(line != "data: [DONE]"@) by {
        if line == "data: [DONE]"@ {
            assert(d =~= line.skip(6));
            assert("[DONE]"@ =~= "data: [DONE]"@.skip(6));
        }
    }
    assert(line != "[DONE]"@) by {
        assert(line[0] == 'd');
        assert("[DONE]"@[0] == '[');
    }
    text::law_trimming(e, "data: [DONE]"@, e, text::CharClass::Space);
    assert(e + "data: [DONE]"@ + e =~= "data: [DONE]"@);
    text::law_trimming(e, "[DONE]"@, e, text::CharClass::Space);
    assert(e + "[DONE]"@ + e =~= "[DONE]"@);
    text::law_trimming(e, "data:"@, e, text::CharClass::Space);
    assert(e + "data:"@ + e =~= "data:"@);
    text::law_prefix("data:"@, e, e);
    assert("data:"@ + e =~= "data:"@);
    assert(text::trim(e) =~= e);
    if !text::begins(d, "data:"@) {
        assert(d != "data: [DONE]"@) by {
            text::law_prefix("data:"@, " [DONE]"@, e);
            reveal_strlit(" [DONE]");
            assert("data:"@ + " [DONE]"@ =~= "data: [DONE]"@);
        }
    }
}

/// A chunk in the shape of OpenAI, with one thing in its delta or its message.
pub open spec fn choice_chunk(part: Seq<char>, key: Seq<char>, value: JsonView) -> JsonView {
    JsonView::object().put(
        "choices"@,
        JsonView::Array(seq![JsonView::object().put(part, JsonView::object().put(key, value))]),
    )
}

proof fn lemma_chunk_names()
    ensures
        "choices"@ != "response"@,
        "choices"@ != "content"@,
        "choices"@ != "delta"@,
        "choices"@ != "tool_calls"@,
        "choices"@ != "error"@,
        "response"@ != "content"@,
        "response"@ != "delta"@,
        "content"@ != "delta"@,
        "delta"@ != "message"@,
        "tool_calls"@ != "content"@,
{
    reveal_strlit("choices");
    reveal_strlit("response");
    reveal_strlit("content");
    reveal_strlit("delta");
    reveal_strlit("message");
    reveal_strlit("tool_calls");
    reveal_strlit("error");
    assert("choices"@.len() == 7);
    assert("choices"@[0] == 'c' && "choices"@[1] == 'h');
    assert("response"@.len() == 8);
    assert("content"@.len() == 7);
    assert("content"@[1] == 'o');
    assert("delta"@.len() == 5);
    assert("message"@.len() == 7);
    assert("tool_calls"@.len() == 10);
    assert("error"@.len() == 5);
}

/// The text of a chunk is found in each of the places in which a worker may put it.
pub proof fn law_chunk_text_places(t: Seq<char>)
    ensures
        chunk_text(choice_chunk("delta"@, "content"@, JsonView::Text(t))) == t,
        chunk_text(choice_chunk("message"@, "content"@, JsonView::Text(t))) == t,
        chunk_text(JsonView::object().put("response"@, JsonView::Text(t))) == t,
        chunk_text(JsonView::object().put("content"@, JsonView::Text(t))) == t,
        chunk_text(JsonView::object().put("delta"@, JsonView::Text(t))) == t,
        chunk_text(JsonView::object()) == Seq::<char>::empty(),
{
    lemma_chunk_names();
    let e = Seq::<char>::empty();
    assert(t.len() == 0 ==> t =~= e);
}

/// The tool calls of a chunk are found in each of the places in which a worker may put them.
pub proof fn law_chunk_call_places(calls: Seq<JsonView>)
    ensures
        chunk_calls(JsonView::object().put("tool_calls"@, JsonView::Array(calls))) == calls,
        chunk_calls(choice_chunk("delta"@, "tool_calls"@, JsonView::Array(calls))) == calls,
        chunk_calls(choice_chunk("message"@, "tool_calls"@, JsonView::Array(calls))) == calls,
        chunk_calls(JsonView::object()) == Seq::<JsonView>::empty(),
{
    lemma_chunk_names();
}

/// A raw call in the shape of OpenAI.
pub open spec fn raw_call(id: Seq<char>, name: Seq<char>, arguments: JsonView) -> JsonView {
    JsonView::object().put("id"@, JsonView::Text(id)).put(
        "function"@,
        JsonView::object().put("name"@, JsonView::Text(name)).put("arguments"@, arguments),
    )
}

/// A raw call has the id, the name and the arguments that it says, the arguments as text
/// where they are one and printed where they are not. A call may also say them without a
/// `function` around them; an empty id is none.
pub proof fn law_raw_call_is_read(
    id: Seq<char>,
    name: Seq<char>,
    arguments: Seq<char>,
    document: JsonView,
)
    requires
        document.text() is None,
    ensures
        id.len() > 0 ==> raw_id(raw_call(id, name, JsonView::Text(arguments))) == Some(id),
        id.len() == 0 ==> raw_id(raw_call(id, name, JsonView::Text(arguments))) is None,
        raw_name(raw_call(id, name, JsonView::Text(arguments))) == name,
        raw_arguments(raw_call(id, name, JsonView::Text(arguments))) == arguments,
        raw_arguments(raw_call(id, name, document)) == json::compact_json(document),
        raw_name(JsonView::object().put("name"@, JsonView::Text(name))) == name,
        raw_arguments(JsonView::object().put("arguments"@, JsonView::Text(arguments)))
            == arguments,
        raw_arguments(JsonView::object()) == Seq::<char>::empty(),
{
    reveal_strlit("id");
    reveal_strlit("function");
    reveal_strlit("name");
    reveal_strlit("arguments");
    assert("id"@.len() == 2);
    assert("function"@.len() == 8);
    assert("name"@.len() == 4);
    assert("arguments"@.len() == 9);
}

/// Merging a raw call touches no other call. A call that was not there yet gets the id, the
/// name and the arguments of the raw one.
pub proof fn law_merging_touches_one_call(
    calls: Map<usize, CallView>,
    index: usize,
    raw: JsonView,
    other: usize,
)
    ensures
        other != index ==> call_at(merged(calls, index, raw), other) == call_at(calls, other),
        call_at(merged(calls, index, raw), index) is Some,
        (raw_id(raw) matches Some(id) ==> merged(calls, index, raw)[index].id == id),
        raw_name(raw).len() > 0 ==> merged(calls, index, raw)[index].name == raw_name(raw),
        call_at(calls, index) is None ==> merged(calls, index, raw)[index].arguments
            == raw_arguments(raw),
        call_at(calls, index) matches Some(call) ==> {
            &&& text::begins(merged(calls, index, raw)[index].arguments, call.arguments)
            &&& raw_id(raw) is None ==> merged(calls, index, raw)[index].id == call.id
            &&& raw_name(raw).len() == 0 ==> merged(calls, index, raw)[index].name == call.name
        },
{
    let e = Seq::<char>::empty();
    if let Some(call) = call_at(calls, index) {
        law_merging_keeps_arguments(call.arguments, raw_arguments(raw));
    } else {
        let piece = raw_arguments(raw);
        assert(piece.subrange(0, 0) =~= e);
        assert(piece.len() == 0 ==> piece =~= e);
    }
}

/// A fragment that neither repeats, extends nor ends what is there is put behind it; one that
/// extends it takes its place.
pub proof fn law_fragments_are_joined(previous: Seq<char>, piece: Seq<char>, more: Seq<char>)
    ensures
        !text::begins(piece, previous) && !text::finishes(previous, piece) ==> merged_arguments(
            previous,
            piece,
        ) == previous + piece,
        merged_arguments(previous, previous + more) == previous + more,
        merged_arguments(previous, Seq::empty()) == previous,
{
    text::law_prefix(previous, more, previous);
    assert(more.len() == 0 ==> previous + more =~= previous);
    if piece.len() == 0 {
        assert(previous + piece =~= previous);
    }
    if piece == previous {
        assert(piece.subrange(0, previous.len() as int) =~= previous);
    }
    if previous + more == Seq::<char>::empty() {
        assert(previous =~= Seq::<char>::empty());
    }
}

/// A raw call without a known id goes to the index that it says, or else to its place in the
/// chunk, where no call sits there.
pub proof fn law_free_index_is_taken(
    calls: Map<usize, CallView>,
    position: usize,
    raw: JsonView,
    n: u64,
)
    requires
        raw_id(raw) matches Some(id) ==> index_of_id(slots_of(calls), id) is None,
        n <= usize::MAX,
    ensures
        raw.field("index"@) is None && call_at(calls, position) is None ==> slot_for(
            calls,
            position,
            raw,
        ) == position,
        raw.field("index"@) == Some(JsonView::Number(json::NumberView::Unsigned(n))) && call_at(
            calls,
            n as usize,
        ) is None ==> slot_for(calls, position, raw) == n as usize,
{
}

proof fn lemma_index_of_id(slots: Seq<SlotView>, id: Seq<char>, k: int)
    requires
        0 <= k < slots.len(),
        slots[k].call.id == id,
        forall|i: int| 0 <= i < k ==> (#[trigger] slots[i]).call.id != id,
    ensures
        index_of_id(slots, id) == Some(slots[k].index),
    decreases slots.len(),
{
    if k > 0 {
        let rest = slots.skip(1);
        assert(slots[0].call.id != id);
        assert forall|i: int| 0 <= i < k - 1 implies (#[trigger] rest[i]).call.id != id by {
            assert(slots[i + 1].call.id != id);
        }
        lemma_index_of_id(rest, id, k - 1);
    }
}

/// A raw call whose id is known goes to the call with that id, whatever index it says.
pub proof fn law_known_id_leads_back(
    calls: Map<usize, CallView>,
    position: usize,
    raw: JsonView,
    index: usize,
)
    requires
        call_at(calls, index) matches Some(call) && raw_id(raw) == Some(call.id),
        forall|other: usize|
            other != index && #[trigger] calls.contains_key(other) ==> calls[other].id
                != calls[index].id,
    ensures
        slot_for(calls, position, raw) == index,
{
    let slots = slots_of(calls);
    law_slots_are_the_calls_in_order(calls);
    let k = choose|k: int| 0 <= k < slots.len() && #[trigger] slots[k].index == index;
    assert(call_at(calls, slots[k].index) == Some(slots[k].call));
    assert forall|i: int| 0 <= i < k implies (#[trigger] slots[i]).call.id != calls[index].id by {
        assert(call_at(calls, slots[i].index) == Some(slots[i].call));
        assert(slots[i].index < slots[k].index);
        assert(calls.contains_key(slots[i].index));
    }
    lemma_index_of_id(slots, calls[index].id, k);
}

/// The tool calls of a stream come out as their slots do, in order, each with its id, its name
/// and its arguments.
pub proof fn law_calls_come_out(slots: Seq<SlotView>, i: int)
    requires
        0 <= i < slots.len(),
    ensures
        slots_json(slots).len() == slots.len(),
        slots_json(slots)[i].text_field("id"@) == Some(slots[i].call.id),
        slots_json(slots)[i].field("index"@) == Some(JsonView::number(slots[i].index as nat)),
        slots_json(slots)[i].field("function"@) matches Some(f) && f.text_field("name"@) == Some(
            slots[i].call.name,
        ) && f.text_field("arguments"@) == Some(slots[i].call.arguments),
{
    reveal_strlit("index");
    reveal_strlit("id");
    reveal_strlit("type");
    reveal_strlit("function");
    reveal_strlit("name");
    reveal_strlit("arguments");
    assert("index"@.len() == 5);
    assert("id"@.len() == 2);
    assert("type"@.len() == 4);
    assert("type"@[0] == 't');
    assert("function"@.len() == 8);
    assert("name"@.len() == 4);
    assert("arguments"@.len() == 9);
}

/// The calls of a stream whose only chunk carries them are the chunk's calls, merged one by
/// one into none.
pub proof fn law_one_chunk_calls(line: Seq<char>, raw: JsonView)
    requires
        !line.contains('\n'),
        line_data(line) is Some,
        json::parsed_json(line_data(line)->Some_0) is Ok,
        json::parsed_json(line_data(line)->Some_0)->Ok_0.field("error"@) is None,
        chunk_calls(json::parsed_json(line_data(line)->Some_0)->Ok_0) == seq![raw],
        raw.field("index"@) is None,
    ensures
        stream_completion(line) is Ok,
        stream_completion(line)->Ok_0.field("tool_calls"@) is Some,
        stream_completion(line)->Ok_0.field("tool_calls"@)->Some_0.items() is Some,
        stream_completion(line)->Ok_0.field("tool_calls"@)->Some_0.items()->Some_0.len() == 1,
        stream_completion(line)->Ok_0.field("tool_calls"@)->Some_0.items()->Some_0[0].field(
            "function"@,
        ) matches Some(f) && f.text_field("name"@) == Some(raw_name(raw)) && f.text_field(
            "arguments"@,
        ) == Some(raw_arguments(raw)),
        (raw_id(raw) matches Some(id) ==> stream_completion(line)->Ok_0.field(
            "tool_calls"@,
        )->Some_0.items()->Some_0[0].text_field("id"@) == Some(id)),
{
    text::law_first_line(line, Seq::empty());
    let all = text::lines_of(line);
    assert(line.len() > 0) by {
        if line.len() == 0 {
            assert(text::trim(line) =~= Seq::empty());
        }
    }
    reveal_with_fuel(after_lines, 3);
    assert(all[0] == line);
    lemma_completion_fields();
    let none = Map::<usize, CallView>::empty();
    let raws = seq![raw];
    law_slots_are_the_calls_in_order(none);
    let empty = slots_of(none);
    assert(empty.len() == 0) by {
        if empty.len() > 0 {
            assert(call_at(none, empty[0].index) == Some(empty[0].call));
        }
    }
    law_free_index_is_taken(none, 0, raw, 0);
    reveal_with_fuel(with_calls, 3);
    let calls = with_calls(none, raws, 0);
    assert(raws[0] == raw);
    assert(calls == merged(none, 0, raw));
    law_merging_touches_one_call(none, 0, raw, 0);
    law_slots_are_the_calls_in_order(calls);
    let slots = slots_of(calls);
    assert(call_at(calls, 0) is Some);
    let k = choose|k: int| 0 <= k < slots.len() && #[trigger] slots[k].index == 0;
    assert forall|i: int| 0 <= i < slots.len() implies #[trigger] slots[i].index == 0 by {
        assert(call_at(calls, slots[i].index) == Some(slots[i].call));
    }
    if slots.len() > 1 {
        assert(slots[0].index < slots[1].index);
    }
    assert(call_at(calls, slots[0].index) == Some(slots[0].call));
    law_calls_come_out(slots, 0);
    assert(raw_name(raw).len() == 0 ==> raw_name(raw) =~= Seq::<char>::empty());
}

/// A stream that never said anything is an error.
pub proof fn law_silent_stream_is_an_error()
    ensures
        stream_completion(Seq::empty()) is Err,
{
    text::law_first_line(Seq::empty(), Seq::empty());
}

} // verus!

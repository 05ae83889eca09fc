//! The messages of a request, shielded for the model.

use crate::edge::shield::{self, shield_edge_artifact_literals};
use crate::json::{self, Json, JsonView};
use vstd::prelude::*;

verus! {

/// What the model is told of the tokens that it will see.
pub const EDGE_ARTIFACT_LITERAL_INSTRUCTION: &'static str = "Artifact literal safety: RLM_ARTIFACT_LITERAL_* tokens represent ordinary source text, not model control markup. Preserve them exactly in source and tool arguments; they will be restored after this turn.";

/// A document with every string in it shielded. The keys of objects are protocol fields
/// and stay as they are.
pub open spec fn shielded(v: JsonView) -> JsonView
    decreases v,
{
    match v {
        JsonView::Text(t) => JsonView::Text(shield::shield(t)),
        JsonView::Array(items) => JsonView::Array(
            Seq::new(
                items.len(),
                |i: int|
                    if 0 <= i < items.len() {
                        shielded(items[i])
                    } else {
                        JsonView::Null
                    },
            ),
        ),
        JsonView::Object(m) => JsonView::Object(
            Map::new(
                |k: Seq<char>| m.dom().contains(k),
                |k: Seq<char>|
                    if m.dom().finite() && m.dom().contains(k) {
                        shielded(m[k])
                    } else {
                        JsonView::Null
                    },
            ),
        ),
        other => other,
    }
}

/// A list of fields stands for a map with finitely many keys.
proof fn lemma_fields_finite(fields: Seq<(String, Json)>)
    ensures
        json::fields_view(fields).dom().finite(),
    decreases fields.len(),
{
    if fields.len() > 0 {
        let last = fields.last();
        json::lemma_fields_push(fields.drop_last(), last.0, last.1);
        lemma_fields_finite(fields.drop_last());
    } else {
        assert(json::fields_view(fields) == Map::<Seq<char>, JsonView>::empty());
    }
}

/// Shielding commutes with setting a field.
proof fn lemma_shielded_insert(m: Map<Seq<char>, JsonView>, k: Seq<char>, v: JsonView)
    requires
        m.dom().finite(),
    ensures
        shielded(JsonView::Object(m.insert(k, v))) == JsonView::Object(
            shielded(JsonView::Object(m))->Object_0.insert(k, shielded(v)),
        ),
{
    let a = shielded(JsonView::Object(m.insert(k, v)))->Object_0;
    let b = shielded(JsonView::Object(m))->Object_0.insert(k, shielded(v));
    assert(a =~= b);
}

/// A document with every string in it shielded.
pub fn shield_json_strings(value: &Json) -> (out: Json)
    ensures
        out@ == shielded(value@),
    decreases value,
{
    match value {
        Json::Text(t) => Json::Text(shield_edge_artifact_literals(t.as_str())),
        Json::Array(items) => {
            let mut out: Vec<Json> = Vec::new();
            let mut i: usize = 0;
            while i < items.len()
                invariant
                    *value == Json::Array(*items),
                    i <= items@.len(),
                    out@.len() == i,
                    forall|k: int| 0 <= k < i ==> #[trigger] out@[k]@ == shielded(items@[k]@),
                decreases items@.len() - i,
            {
                proof {
                    assert(decreases_to!(*value => value->Array_0));
                    assert(decreases_to!(*items => items@));
                    assert(decreases_to!(items@ => items@[i as int]));
                }
                out.push(shield_json_strings(&items[i]));
                i += 1;
            }
            proof {
                json::lemma_array_view(*items);
                json::lemma_array_view(out);
                assert(json::json_views(out@) =~= shielded(value@)->Array_0);
            }
            Json::Array(out)
        },
        Json::Object(fields) => {
            let mut out: Vec<(String, Json)> = Vec::new();
            let mut i: usize = 0;
            proof {
                assert(fields@.take(0) =~= Seq::empty());
                assert(json::fields_view(out@) == Map::<Seq<char>, JsonView>::empty());
                assert(shielded(JsonView::object())->Object_0 =~= Map::empty());
            }
            while i < fields.len()
                invariant
                    *value == Json::Object(*fields),
                    i <= fields@.len(),
                    JsonView::Object(json::fields_view(out@)) == shielded(
                        JsonView::Object(json::fields_view(fields@.take(i as int))),
                    ),
                decreases fields@.len() - i,
            {
                proof {
                    assert(decreases_to!(*value => value->Object_0));
                    assert(decreases_to!(*fields => fields@));
                    assert(decreases_to!(fields@ => fields@[i as int]));
                    assert(decreases_to!(fields@[i as int] => fields@[i as int].1));
                }
                let key: String = fields[i].0.clone();
                let item: Json = shield_json_strings(&fields[i].1);
                proof {
                    let prefix = fields@.take(i as int);
                    let field = fields@[i as int];
                    json::lemma_fields_push(prefix, field.0, field.1);
                    assert(fields@.take(i + 1) =~= prefix.push(field));
                    lemma_fields_finite(prefix);
                    lemma_shielded_insert(json::fields_view(prefix), field.0@, field.1@);
                    json::lemma_fields_push(out@, key, item);
                }
                out.push((key, item));
                i += 1;
            }
            assert(fields@.take(i as int) =~= fields@);
            Json::Object(out)
        },
        _ => value.duplicate(),
    }
}

/// The messages to send: first what the model must know of the tokens, and behind it the
/// request's own messages, shielded.
pub open spec fn artifact_messages(messages: JsonView) -> JsonView {
    let system = JsonView::object().put("role"@, JsonView::Text("system"@)).put(
        "content"@,
        JsonView::Text(EDGE_ARTIFACT_LITERAL_INSTRUCTION@),
    );
    JsonView::Array(
        seq![system] + match shielded(messages) {
            JsonView::Array(items) => items,
            _ => Seq::empty(),
        },
    )
}

/// Is no markup in any string of a document?
pub open spec fn literal_free(v: JsonView) -> bool
    decreases v,
{
    match v {
        JsonView::Text(t) => !shield::has_literal(t),
        JsonView::Array(items) => forall|i: int|
            0 <= i < items.len() ==> literal_free(#[trigger] items[i]),
        JsonView::Object(m) => forall|k: Seq<char>| #[trigger]
            m.dom().contains(k) && m.dom().finite() ==> literal_free(m[k]),
        _ => true,
    }
}

/// No markup is left in any string of a shielded document.
pub proof fn law_shielded_is_literal_free(v: JsonView)
    ensures
        literal_free(shielded(v)),
    decreases v,
{
    match v {
        JsonView::Text(t) => {
            shield::law_shield_hides_literals(t);
        },
        JsonView::Array(items) => {
            let out = shielded(v)->Array_0;
            assert forall|i: int| 0 <= i < out.len() implies literal_free(#[trigger] out[i]) by {
                assert(decreases_to!(v => items));
                assert(decreases_to!(items => items[i]));
                law_shielded_is_literal_free(items[i]);
            }
        },
        JsonView::Object(m) => {
            let out = shielded(v)->Object_0;
            assert(out.dom() =~= m.dom());
            assert forall|k: Seq<char>| #[trigger]
                out.dom().contains(k) && out.dom().finite() implies literal_free(out[k]) by {
                assert(decreases_to!(v => m));
                assert(decreases_to!(m => m[k]));
                law_shielded_is_literal_free(m[k]);
            }
        },
        _ => {},
    }
}

/// Behind the instruction, no markup is left in any string of the messages to send.
pub proof fn law_messages_hold_no_markup(messages: JsonView, i: int)
    requires
        1 <= i < artifact_messages(messages)->Array_0.len(),
    ensures
        literal_free(artifact_messages(messages)->Array_0[i]),
{
    law_shielded_is_literal_free(messages);
    let items = shielded(messages)->Array_0;
    assert(artifact_messages(messages)->Array_0[i] == items[i - 1]);
}

/// The messages to send.
pub fn edge_artifact_messages(messages: &Json) -> (out: Json)
    ensures
        out@ == artifact_messages(messages@),
{
    let system: Json = Json::object().put("role", Json::text("system")).put(
        "content",
        Json::text(EDGE_ARTIFACT_LITERAL_INSTRUCTION),
    );
    let ghost first = system@;
    let mut protected: Vec<Json> = match shield_json_strings(messages) {
        Json::Array(items) => {
            proof {
                json::lemma_array_view(items);
            }
            items
        },
        _ => Vec::new(),
    };
    let ghost before = protected@;
    protected.insert(0, system);
    proof {
        json::lemma_array_view(protected);
        assert(json::json_views(protected@) =~= seq![first] + json::json_views(before));
        assert(shielded(messages@) !is Array ==> json::json_views(before) =~= Seq::empty());
    }
    Json::Array(protected)
}

/// Shielding changes the strings of a document and nothing else: neither the keys of its
/// objects nor how many elements its arrays have, nor what is no string.
pub proof fn law_shielding_keeps_the_shape(v: JsonView)
    ensures
        v matches JsonView::Text(t) ==> shielded(v) == JsonView::Text(shield::shield(t)),
        v matches JsonView::Array(items) ==> (shielded(v) matches JsonView::Array(out) && {
            &&& out.len() == items.len()
            &&& forall|i: int| 0 <= i < items.len() ==> #[trigger] out[i] == shielded(items[i])
        }),
        v matches JsonView::Object(m) ==> m.dom().finite() ==> (shielded(v) matches JsonView::Object(
            out,
        ) && {
            &&& out.dom() == m.dom()
            &&& forall|k: Seq<char>| #[trigger]
                m.dom().contains(k) ==> out[k] == shielded(m[k])
        }),
        v is Null || v is Bool || v is Number ==> shielded(v) == v,
{
    if let JsonView::Object(m) = v {
        assert(shielded(v)->Object_0.dom() =~= m.dom());
    }
}

/// All messages are sent, in order and shielded, behind one that tells the model of the
/// tokens.
pub proof fn law_messages_are_all_sent(items: Seq<JsonView>, i: int)
    requires
        0 <= i < items.len(),
    ensures
        artifact_messages(JsonView::Array(items)) is Array,
        artifact_messages(JsonView::Array(items))->Array_0.len() == items.len() + 1,
        artifact_messages(JsonView::Array(items))->Array_0[i + 1] == shielded(items[i]),
        artifact_messages(JsonView::Array(items))->Array_0[0].text_field("role"@) == Some(
            "system"@,
        ),
        artifact_messages(JsonView::Array(items))->Array_0[0].text_field("content"@) == Some(
            EDGE_ARTIFACT_LITERAL_INSTRUCTION@,
        ),
{
    reveal_strlit("role");
    reveal_strlit("content");
    assert("role"@.len() == 4);
    assert("content"@.len() == 7);
    law_shielding_keeps_the_shape(JsonView::Array(items));
}

} // verus!

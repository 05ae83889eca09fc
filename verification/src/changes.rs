//! Which files of a project changed between two looks at it.

use crate::json::{self, Json, JsonView};
use crate::order::{self, comes_before};
use crate::text::same_text;
use crate::textmap::TextMap;
use vstd::prelude::*;

verus! {

/// The text of the file `name`; a file that is not there has none.
pub open spec fn file_text(files: TextMap<String>, name: Seq<char>) -> Seq<char> {
    if files.has(name) {
        files.at(name)@
    } else {
        Seq::empty()
    }
}

/// Does the file `name` differ between the two?
pub open spec fn differs(
    before: TextMap<String>,
    after: TextMap<String>,
    name: Seq<char>,
) -> bool {
    file_text(before, name) != file_text(after, name)
}

/// A file that changed: its name, what it held and what it holds.
pub struct FileChange {
    pub relative: String,
    pub previous: String,
    pub content: String,
}

/// Is the file `name` among the changes?
pub open spec fn listed(changes: Seq<FileChange>, name: Seq<char>) -> bool {
    exists|i: int| 0 <= i < changes.len() && (#[trigger] changes[i]).relative@ == name
}

/// Are the changes in the order of their names, each name once?
pub open spec fn in_order(changes: Seq<FileChange>) -> bool {
    forall|i: int, j: int|
        0 <= i < j < changes.len() ==> order::text_less(
            (#[trigger] changes[i]).relative@,
            (#[trigger] changes[j]).relative@,
        )
}

/// Does every change tell what its file held and holds?
pub open spec fn truthful(
    changes: Seq<FileChange>,
    before: TextMap<String>,
    after: TextMap<String>,
) -> bool {
    forall|i: int|
        0 <= i < changes.len() ==> {
            &&& differs(before, after, (#[trigger] changes[i]).relative@)
            &&& changes[i].previous@ == file_text(before, changes[i].relative@)
            &&& changes[i].content@ == file_text(after, changes[i].relative@)
        }
}

/// A key that lies between two neighbours of a map is not in it.
proof fn lemma_between(map: TextMap<String>, j: int, name: Seq<char>)
    requires
        map.wf(),
        0 <= j <= map.entries().len(),
        forall|k: int| 0 <= k < j ==> order::text_less(#[trigger] map.keys()[k], name),
        j < map.entries().len() ==> order::text_less(name, map.keys()[j]),
    ensures
        !map.has(name),
{
    assert forall|k: int| 0 <= k < map.keys().len() implies map.keys()[k] != name by {
        order::lemma_text_less_asymmetric(name, name);
        if k < j {
            assert(order::text_less(map.keys()[k], name));
        } else if k > j {
            assert(order::text_less(map.keys()[j], map.keys()[k]));
            order::lemma_text_less_transitive(name, map.keys()[j], map.keys()[k]);
        }
    }
}

/// The files that changed, in the order of their names: all that differ and no others.
#[verifier::rlimit(40)]
pub fn changed_files(before: &TextMap<String>, after: &TextMap<String>) -> (changes: Vec<
    FileChange,
>)
    ensures
        in_order(changes@),
        truthful(changes@, *before, *after),
        forall|name: Seq<char>| #[trigger]
            listed(changes@, name) <==> differs(*before, *after, name),
{
    proof {
        use_type_invariant(before);
        use_type_invariant(after);
    }
    let mut out: Vec<FileChange> = Vec::new();
    let mut i: usize = 0;
    let mut j: usize = 0;
    let n: usize = before.len();
    let m: usize = after.len();
    while i < n || j < m
        invariant
            before.wf(),
            after.wf(),
            n == before.entries().len(),
            m == after.entries().len(),
            i <= n,
            j <= m,
            in_order(out@),
            truthful(out@, *before, *after),
            forall|k: int|
                0 <= k < i && differs(*before, *after, #[trigger] before.keys()[k]) ==> listed(
                    out@,
                    before.keys()[k],
                ),
            forall|k: int|
                0 <= k < j && differs(*before, *after, #[trigger] after.keys()[k]) ==> listed(
                    out@,
                    after.keys()[k],
                ),
            forall|o: int|
                0 <= o < out@.len() ==> (i < n ==> order::text_less(
                    (#[trigger] out@[o]).relative@,
                    before.keys()[i as int],
                )) && (j < m ==> order::text_less(out@[o].relative@, after.keys()[j as int])),
            forall|k: int|
                0 <= k < i && j < m ==> order::text_less(
                    #[trigger] before.keys()[k],
                    after.keys()[j as int],
                ),
            forall|k: int|
                0 <= k < j && i < n ==> order::text_less(
                    #[trigger] after.keys()[k],
                    before.keys()[i as int],
                ),
        decreases (n - i) + (m - j),
    {
        let ghost done = out@;
        let ghost i0 = i;
        let ghost j0 = j;
        proof {
            if i < n {
                before.lemma_at(i as int);
            }
            if j < m {
                after.lemma_at(j as int);
            }
            if i < n && j < m {
                order::lemma_text_less_total(before.keys()[i as int], after.keys()[j as int]);
                order::lemma_text_less_asymmetric(before.keys()[i as int], after.keys()[j as int]);
            }
        }
        let first: bool = i < n && (j >= m || comes_before(
            before.entry(i).0.as_str(),
            after.entry(j).0.as_str(),
        ));
        let second: bool = !first && (i >= n || comes_before(
            after.entry(j).0.as_str(),
            before.entry(i).0.as_str(),
        ));
        let (relative, previous, content): (String, String, String) = if first {
            let (name, held) = before.entry(i);
            proof {
                lemma_between(*after, j as int, name@);
            }
            i += 1;
            (name.clone(), held.clone(), String::new())
        } else if second {
            let (name, holds) = after.entry(j);
            proof {
                lemma_between(*before, i as int, name@);
            }
            j += 1;
            (name.clone(), String::new(), holds.clone())
        } else {
            let (name, held) = before.entry(i);
            let (_, holds) = after.entry(j);
            i += 1;
            j += 1;
            (name.clone(), held.clone(), holds.clone())
        };
        let ghost name = relative@;
        proof {
            assert(previous@ == file_text(*before, name));
            assert(content@ == file_text(*after, name));
            // What comes later in either map comes behind this name.
            if i < n {
                assert(order::text_less(name, before.keys()[i as int])) by {
                    if i > i0 {
                        assert(order::text_less(before.keys()[i0 as int], before.keys()[i as int]));
                    }
                }
            }
            if j < m {
                assert(order::text_less(name, after.keys()[j as int])) by {
                    if j > j0 {
                        assert(order::text_less(after.keys()[j0 as int], after.keys()[j as int]));
                    }
                }
            }
            assert forall|o: int| 0 <= o < done.len() implies order::text_less(
                (#[trigger] done[o]).relative@,
                name,
            ) && (i < n ==> order::text_less(done[o].relative@, before.keys()[i as int])) && (j < m
                ==> order::text_less(done[o].relative@, after.keys()[j as int])) by {
                if i < n {
                    order::lemma_text_less_transitive(
                        done[o].relative@,
                        name,
                        before.keys()[i as int],
                    );
                }
                if j < m {
                    order::lemma_text_less_transitive(
                        done[o].relative@,
                        name,
                        after.keys()[j as int],
                    );
                }
            }
            assert forall|k: int| 0 <= k < i && j < m implies order::text_less(
                #[trigger] before.keys()[k],
                after.keys()[j as int],
            ) by {
                if k < i0 && j > j0 {
                    order::lemma_text_less_transitive(
                        before.keys()[k],
                        after.keys()[j0 as int],
                        after.keys()[j as int],
                    );
                }
            }
            assert forall|k: int| 0 <= k < j && i < n implies order::text_less(
                #[trigger] after.keys()[k],
                before.keys()[i as int],
            ) by {
                if k < j0 && i > i0 {
                    order::lemma_text_less_transitive(
                        after.keys()[k],
                        before.keys()[i0 as int],
                        before.keys()[i as int],
                    );
                }
            }
        }
        if !same_text(previous.as_str(), content.as_str()) {
            out.push(FileChange { relative, previous, content });
            assert(out@[done.len() as int].relative@ == name);
        }
        proof {
            assert forall|other: Seq<char>| listed(done, other) implies #[trigger] listed(
                out@,
                other,
            ) by {
                let o = choose|o: int|
                    0 <= o < done.len() && (#[trigger] done[o]).relative@ == other;
                assert(out@[o] == done[o]);
            }
        }
    }
    assert forall|name: Seq<char>| #[trigger] listed(out@, name) <==> differs(
        *before,
        *after,
        name,
    ) by {
        if differs(*before, *after, name) {
            if before.has(name) {
                let k = before.keys().index_of(name);
                assert(before.keys()[k] == name);
            } else if after.has(name) {
                let k = after.keys().index_of(name);
                assert(after.keys()[k] == name);
            }
        }
    }
    out
}

/// A change as the browser gets it.
pub open spec fn change_json(change: FileChange) -> JsonView {
    JsonView::object().put("relative"@, JsonView::Text(change.relative@)).put(
        "path"@,
        JsonView::Text(change.relative@),
    ).put("previous"@, JsonView::Text(change.previous@)).put(
        "content"@,
        JsonView::Text(change.content@),
    )
}

/// Changes as the browser gets them.
pub fn changes_json(changes: &Vec<FileChange>) -> (items: Vec<Json>)
    ensures
        json::json_views(items@) == changes@.map_values(|c: FileChange| change_json(c)),
{
    let ghost all = changes@.map_values(|c: FileChange| change_json(c));
    let mut items: Vec<Json> = Vec::new();
    let mut i: usize = 0;
    while i < changes.len()
        invariant
            i <= changes@.len(),
            all == changes@.map_values(|c: FileChange| change_json(c)),
            json::json_views(items@) == all.take(i as int),
        decreases changes@.len() - i,
    {
        let c: &FileChange = &changes[i];
        let item: Json = Json::object().put("relative", Json::text(c.relative.as_str())).put(
            "path",
            Json::text(c.relative.as_str()),
        ).put("previous", Json::text(c.previous.as_str())).put(
            "content",
            Json::text(c.content.as_str()),
        );
        proof {
            json::lemma_json_views_push(items@, item);
            assert(all.take(i + 1) =~= all.take(i as int).push(change_json(*c)));
        }
        items.push(item);
        i += 1;
    }
    assert(all.take(i as int) =~= all);
    items
}

// ---------------------------------------------------------------------------
// Laws
// ---------------------------------------------------------------------------

/// A file changed where its text did: a new one with a text, one with a text that is gone, and
/// one that both sides have with two texts. It makes no difference which side is looked at
/// first.
pub proof fn law_what_a_change_is(before: TextMap<String>, after: TextMap<String>, name: Seq<char>)
    ensures
        before.has(name) && after.has(name) ==> (differs(before, after, name) <==> before.at(name)@
            != after.at(name)@),
        !before.has(name) && after.has(name) ==> (differs(before, after, name) <==> after.at(
            name,
        )@.len() > 0),
        before.has(name) && !after.has(name) ==> (differs(before, after, name) <==> before.at(
            name,
        )@.len() > 0),
        !before.has(name) && !after.has(name) ==> !differs(before, after, name),
        differs(before, after, name) <==> differs(after, before, name),
{
    if after.has(name) && after.at(name)@.len() == 0 {
        assert(after.at(name)@ =~= Seq::<char>::empty());
    }
    if before.has(name) && before.at(name)@.len() == 0 {
        assert(before.at(name)@ =~= Seq::<char>::empty());
    }
}

/// A change is told whole: where the file is, what it held and what it holds.
pub proof fn law_change_is_told(change: FileChange)
    ensures
        change_json(change).text_field("relative"@) == Some(change.relative@),
        change_json(change).text_field("path"@) == Some(change.relative@),
        change_json(change).text_field("previous"@) == Some(change.previous@),
        change_json(change).text_field("content"@) == Some(change.content@),
{
    lemma_change_names();
}

proof fn lemma_change_names()
    ensures
        "relative"@ != "path"@,
        "relative"@ != "previous"@,
        "relative"@ != "content"@,
        "path"@ != "previous"@,
        "path"@ != "content"@,
        "previous"@ != "content"@,
{
    reveal_strlit("relative");
    reveal_strlit("path");
    reveal_strlit("previous");
    reveal_strlit("content");
    assert("relative"@.len() == 8);
    assert("path"@.len() == 4);
    assert("previous"@.len() == 8);
    assert("content"@.len() == 7);
    assert("relative"@[0] == 'r');
    assert("previous"@[0] == 'p');
}

/// A list tells of a file where one of its entries does, is truthful where each entry is, and
/// is in order where each entry comes behind those before it.
pub proof fn law_lists_of_changes(
    changes: Seq<FileChange>,
    last: FileChange,
    name: Seq<char>,
    before: TextMap<String>,
    after: TextMap<String>,
)
    ensures
        listed(changes.push(last), name) <==> listed(changes, name) || last.relative@ == name,
        !listed(Seq::empty(), name),
        truthful(changes.push(last), before, after) <==> truthful(changes, before, after) && differs(
            before,
            after,
            last.relative@,
        ) && last.previous@ == file_text(before, last.relative@) && last.content@ == file_text(
            after,
            last.relative@,
        ),
        in_order(changes.push(last)) <==> in_order(changes) && forall|i: int|
            0 <= i < changes.len() ==> order::text_less(
                (#[trigger] changes[i]).relative@,
                last.relative@,
            ),
{
    let all = changes.push(last);
    assert(all[changes.len() as int] == last);
    assert forall|i: int| 0 <= i < changes.len() implies #[trigger] changes[i] == all[i] by {}
    if listed(changes, name) {
        let i = choose|i: int| 0 <= i < changes.len() && (#[trigger] changes[i]).relative@ == name;
        assert(all[i].relative@ == name);
    }
    if listed(all, name) {
        let i = choose|i: int| 0 <= i < all.len() && (#[trigger] all[i]).relative@ == name;
        if i < changes.len() {
            assert(changes[i].relative@ == name);
        }
    }
    if in_order(all) {
        assert forall|i: int, j: int| 0 <= i < j < changes.len() implies order::text_less(
            (#[trigger] changes[i]).relative@,
            (#[trigger] changes[j]).relative@,
        ) by {
            assert(order::text_less(all[i].relative@, all[j].relative@));
        }
        assert forall|i: int| 0 <= i < changes.len() implies order::text_less(
            (#[trigger] changes[i]).relative@,
            last.relative@,
        ) by {
            assert(order::text_less(all[i].relative@, all[changes.len() as int].relative@));
        }
    }
    if truthful(all, before, after) {
        assert forall|i: int| 0 <= i < changes.len() implies {
            &&& differs(before, after, (#[trigger] changes[i]).relative@)
            &&& changes[i].previous@ == file_text(before, changes[i].relative@)
            &&& changes[i].content@ == file_text(after, changes[i].relative@)
        } by {
            assert(differs(before, after, all[i].relative@));
        }
        assert(differs(before, after, all[changes.len() as int].relative@));
    }
}

} // verus!

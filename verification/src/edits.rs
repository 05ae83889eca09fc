//! Edits: search-and-replace hunks, grouped by file and applied all or none.

use crate::digits::{self, number_text};
use crate::order;
use crate::text::{self, contains, lines, replaced_once, same_text, trimmed};
use crate::textmap::TextMap;
use vstd::prelude::*;

verus! {

/// One hunk: what to search for and what to put in its place. `file` names the file that
/// it is for, where that is not the default one of its batch.
pub struct Edit {
    pub file: Option<String>,
    pub search: String,
    pub replace: String,
}

/// A hunk as a mathematical value.
pub struct EditView {
    pub file: Option<Seq<char>>,
    pub search: Seq<char>,
    pub replace: Seq<char>,
}

impl View for Edit {
    type V = EditView;

    open spec fn view(&self) -> EditView {
        EditView {
            file: text::opt_view(self.file),
            search: self.search@,
            replace: self.replace@,
        }
    }
}

/// The views of a sequence of hunks.
pub open spec fn edit_views(edits: Seq<Edit>) -> Seq<EditView> {
    edits.map_values(|e: Edit| e@)
}

impl Edit {
    /// A second hunk like this one.
    pub fn duplicate(&self) -> (copy: Edit)
        ensures
            copy@ == self@,
    {
        let file: Option<String> = match &self.file {
            Some(f) => Some(f.clone()),
            None => None,
        };
        Edit { file, search: self.search.clone(), replace: self.replace.clone() }
    }
}

/// An optional text, or no text.
pub open spec fn text_or_none(t: Option<Seq<char>>) -> Seq<char> {
    match t {
        Some(t) => t,
        None => Seq::empty(),
    }
}

/// The hunks of a request: its batch where it has any, or else the one hunk that it names.
pub open spec fn hunks_of(
    search: Option<Seq<char>>,
    replace: Option<Seq<char>>,
    batch: Option<Seq<EditView>>,
) -> Seq<EditView> {
    let one = EditView { file: None, search: text_or_none(search), replace: text_or_none(replace) };
    match batch {
        Some(all) => if all.len() > 0 {
            all
        } else {
            seq![one]
        },
        None => seq![one],
    }
}

/// The hunks of a request: its batch where it has any, or else the one hunk that it names.
pub fn edit_list(
    search: Option<String>,
    replace: Option<String>,
    edits: Option<Vec<Edit>>,
) -> (list: Vec<Edit>)
    ensures
        edit_views(list@) == hunks_of(
            text::opt_view(search),
            text::opt_view(replace),
            match edits {
                Some(e) => Some(edit_views(e@)),
                None => None,
            },
        ),
        edits matches Some(e) && e@.len() > 0 ==> list == edits->0,
        !(edits matches Some(e) && e@.len() > 0) ==> edit_views(list@) == seq![
            EditView {
                file: None,
                search: text_or_none(text::opt_view(search)),
                replace: text_or_none(text::opt_view(replace)),
            },
        ],
        list@.len() > 0,
{
    if let Some(e) = edits {
        if e.len() > 0 {
            return e;
        }
    }
    let search: String = match search {
        Some(s) => s,
        None => String::new(),
    };
    let replace: String = match replace {
        Some(r) => r,
        None => String::new(),
    };
    let mut list: Vec<Edit> = Vec::new();
    list.push(Edit { file: None, search, replace });
    assert(edit_views(list@) =~= seq![list@[0]@]);
    list
}

// ---------------------------------------------------------------------------
// Grouping
// ---------------------------------------------------------------------------

/// The file that a hunk is for.
pub open spec fn target_of(edit: EditView, default: Seq<char>) -> Seq<char> {
    match edit.file {
        Some(f) => f,
        None => default,
    }
}

/// The first `n` hunks that are for `file`, in their order.
pub open spec fn group_first(
    edits: Seq<EditView>,
    default: Seq<char>,
    file: Seq<char>,
    n: nat,
) -> Seq<EditView>
    decreases n,
{
    if n == 0 {
        Seq::empty()
    } else {
        let before = group_first(edits, default, file, (n - 1) as nat);
        if target_of(edits[n - 1], default) == file {
            before.push(edits[n - 1])
        } else {
            before
        }
    }
}

/// The hunks that are for `file`, in their order.
pub open spec fn group_of(
    edits: Seq<EditView>,
    default: Seq<char>,
    file: Seq<char>,
) -> Seq<EditView> {
    group_first(edits, default, file, edits.len())
}

/// The hunks for one file.
pub struct EditGroup {
    pub file: String,
    pub edits: Vec<Edit>,
}

/// The files of a sequence of groups.
pub open spec fn group_files(groups: Seq<EditGroup>) -> Seq<Seq<char>> {
    groups.map_values(|g: EditGroup| g.file@)
}

/// A copy of the file that a hunk is for.
fn target(edit: &Edit, default: &str) -> (file: String)
    ensures
        file@ == target_of(edit@, default@),
{
    match &edit.file {
        Some(f) => f.clone(),
        None => default.to_owned(),
    }
}

/// The hunks that are for `file`, in their order.
fn collect_group(edits: &Vec<Edit>, default: &str, file: &str) -> (group: Vec<Edit>)
    ensures
        edit_views(group@) == group_of(edit_views(edits@), default@, file@),
{
    let ghost all = edit_views(edits@);
    let mut group: Vec<Edit> = Vec::new();
    let mut i: usize = 0;
    assert(edit_views(group@) =~= Seq::empty());
    while i < edits.len()
        invariant
            i <= edits@.len(),
            all == edit_views(edits@),
            edit_views(group@) == group_first(all, default@, file@, i as nat),
        decreases edits@.len() - i,
    {
        assert(all[i as int] == edits@[i as int]@);
        if same_text(target(&edits[i], default).as_str(), file) {
            let ghost before = group@;
            let copy: Edit = edits[i].duplicate();
            group.push(copy);
            assert(edit_views(group@) =~= edit_views(before).push(copy@));
        }
        i += 1;
    }
    group
}

/// A file that is the target of a hunk has a group with something in it.
proof fn lemma_group_nonempty(
    edits: Seq<EditView>,
    default: Seq<char>,
    file: Seq<char>,
    n: nat,
    i: int,
)
    requires
        n <= edits.len(),
        0 <= i < n,
        target_of(edits[i], default) == file,
    ensures
        group_first(edits, default, file, n).len() > 0,
    decreases n,
{
    if i < n - 1 {
        lemma_group_nonempty(edits, default, file, (n - 1) as nat, i);
    }
}

/// The hunks grouped by their files, in the order of the files' names. Every hunk is in
/// the group of its file, in its order, and every group has something in it.
pub fn group_edits_by_file(default: &str, edits: &Vec<Edit>) -> (groups: Vec<EditGroup>)
    ensures
        order::strictly_sorted(group_files(groups@)),
        forall|i: int|
            0 <= i < groups@.len() ==> edit_views((#[trigger] groups@[i]).edits@) == group_of(
                edit_views(edits@),
                default@,
                groups@[i].file@,
            ) && groups@[i].edits@.len() > 0,
        forall|i: int|
            0 <= i < edits@.len() ==> group_files(groups@).contains(
                target_of((#[trigger] edits@[i])@, default@),
            ),
{
    let ghost all = edit_views(edits@);
    let mut files: TextMap<bool> = TextMap::new();
    let mut i: usize = 0;
    while i < edits.len()
        invariant
            i <= edits@.len(),
            all == edit_views(edits@),
            files.wf(),
            forall|k: int| 0 <= k < i ==> files.has(target_of(#[trigger] all[k], default@)),
            forall|f: Seq<char>| #[trigger]
                files.has(f) ==> exists|k: int|
                    0 <= k < i && target_of(#[trigger] all[k], default@) == f,
        decreases edits@.len() - i,
    {
        let f: String = target(&edits[i], default);
        assert(all[i as int] == edits@[i as int]@);
        let ghost before = files;
        files.set(f, true);
        proof {
            assert forall|k: int| 0 <= k < i + 1 implies files.has(
                target_of(#[trigger] all[k], default@),
            ) by {
                if k < i {
                    assert(before.has(target_of(all[k], default@)));
                }
            }
            assert forall|g: Seq<char>| #[trigger] files.has(g) implies exists|k: int|
                0 <= k < i + 1 && target_of(#[trigger] all[k], default@) == g by {
                if g != f@ {
                    assert(before.has(g));
                    let k = choose|k: int|
                        0 <= k < i && target_of(#[trigger] all[k], default@) == g;
                    assert(target_of(all[k], default@) == g);
                } else {
                    assert(target_of(all[i as int], default@) == g);
                }
            }
        }
        i += 1;
    }
    let mut groups: Vec<EditGroup> = Vec::new();
    let mut j: usize = 0;
    let n: usize = files.len();
    while j < n
        invariant
            n == files.entries().len(),
            j <= n,
            files.wf(),
            all == edit_views(edits@),
            forall|f: Seq<char>| #[trigger]
                files.has(f) ==> exists|k: int|
                    0 <= k < all.len() && target_of(#[trigger] all[k], default@) == f,
            groups@.len() == j,
            forall|k: int|
                0 <= k < j ==> (#[trigger] groups@[k]).file@ == files.keys()[k] && edit_views(
                    groups@[k].edits@,
                ) == group_of(all, default@, groups@[k].file@) && groups@[k].edits@.len() > 0,
        decreases n - j,
    {
        let (f, _) = files.entry(j);
        let group: Vec<Edit> = collect_group(edits, default, f.as_str());
        proof {
            files.lemma_at(j as int);
            let k = choose|k: int| 0 <= k < all.len() && target_of(#[trigger] all[k], default@) == f@;
            lemma_group_nonempty(all, default@, f@, all.len(), k);
            assert(edit_views(group@).len() == group@.len());
        }
        groups.push(EditGroup { file: f.clone(), edits: group });
        j += 1;
    }
    proof {
        assert(group_files(groups@) =~= files.keys());
        assert forall|k: int| 0 <= k < edits@.len() implies group_files(groups@).contains(
            target_of((#[trigger] edits@[k])@, default@),
        ) by {
            assert(all[k] == edits@[k]@);
            assert(files.has(target_of(all[k], default@)));
        }
    }
    groups
}

// ---------------------------------------------------------------------------
// Applying
// ---------------------------------------------------------------------------

/// `out` after the `n`-th hunk. A hunk without a search text writes a file that is still
/// empty; any other replaces the first place where its search text stands.
pub open spec fn apply_one(out: Seq<char>, edit: EditView, n: nat) -> Result<
    Seq<char>,
    Seq<char>,
> {
    if edit.search.len() == 0 {
        if out.len() == 0 {
            Ok(edit.replace)
        } else {
            Err("hunk "@ + digits::decimal(n) + ": empty search on a non-empty file"@)
        }
    } else if !text::has_match(out, edit.search) {
        Err(
            "hunk "@ + digits::decimal(n) + " search not found: "@ + text::lines_of(
                edit.search,
            )[0],
        )
    } else {
        Ok(text::replace_first(out, edit.search, edit.replace))
    }
}

/// `content` after the first `n` hunks, or what the first one says that does not apply.
pub open spec fn apply_first(content: Seq<char>, edits: Seq<EditView>, n: nat) -> Result<
    Seq<char>,
    Seq<char>,
>
    decreases n,
{
    if n == 0 {
        Ok(content)
    } else {
        match apply_first(content, edits, (n - 1) as nat) {
            Ok(out) => apply_one(out, edits[n - 1], n),
            Err(e) => Err(e),
        }
    }
}

/// A hunk that does not apply fails the batch, whatever follows it.
pub proof fn law_one_failure_fails_the_batch(
    content: Seq<char>,
    edits: Seq<EditView>,
    n: nat,
    m: nat,
)
    requires
        n <= m,
        apply_first(content, edits, n) is Err,
    ensures
        apply_first(content, edits, m) == apply_first(content, edits, n),
    decreases m,
{
    if n < m {
        law_one_failure_fails_the_batch(content, edits, n, (m - 1) as nat);
    }
}

/// Hunks that follow do not matter to what the first ones come to.
proof fn lemma_apply_prefix(
    content: Seq<char>,
    first: Seq<EditView>,
    second: Seq<EditView>,
    n: nat,
)
    requires
        n <= first.len(),
    ensures
        apply_first(content, first + second, n) == apply_first(content, first, n),
    decreases n,
{
    if n > 0 {
        lemma_apply_prefix(content, first, second, (n - 1) as nat);
    }
}

/// What a batch comes to is what its second half makes of what its first half made, but
/// for the number of a hunk in what is told of it.
spec fn follows(whole: Result<Seq<char>, Seq<char>>, part: Result<Seq<char>, Seq<char>>) -> bool {
    match part {
        Ok(out) => whole == Ok::<Seq<char>, Seq<char>>(out),
        Err(_) => whole is Err,
    }
}

proof fn lemma_apply_suffix(
    content: Seq<char>,
    first: Seq<EditView>,
    second: Seq<EditView>,
    middle: Seq<char>,
    k: nat,
)
    requires
        k <= second.len(),
        apply_first(content, first, first.len()) == Ok::<Seq<char>, Seq<char>>(middle),
    ensures
        follows(
            apply_first(content, first + second, first.len() + k),
            apply_first(middle, second, k),
        ),
    decreases k,
{
    if k == 0 {
        lemma_apply_prefix(content, first, second, first.len());
    } else {
        lemma_apply_suffix(content, first, second, middle, (k - 1) as nat);
        assert((first + second)[first.len() + k - 1] == second[k - 1]);
    }
}

/// A batch applies as its two halves in turn: where the first half does not apply the batch
/// says what it says; where it does, the batch gives what the second half makes of its
/// result, and applies if and only if the second half does.
pub proof fn law_batch_is_its_halves_in_turn(
    content: Seq<char>,
    first: Seq<EditView>,
    second: Seq<EditView>,
)
    ensures
        match apply_first(content, first, first.len()) {
            Err(e) => apply_first(content, first + second, (first + second).len()) == Err::<
                Seq<char>,
                Seq<char>,
            >(e),
            Ok(middle) => match apply_first(middle, second, second.len()) {
                Ok(out) => apply_first(content, first + second, (first + second).len()) == Ok::<
                    Seq<char>,
                    Seq<char>,
                >(out),
                Err(_) => apply_first(content, first + second, (first + second).len()) is Err,
            },
        },
{
    match apply_first(content, first, first.len()) {
        Err(_) => {
            lemma_apply_prefix(content, first, second, first.len());
            law_one_failure_fails_the_batch(
                content,
                first + second,
                first.len(),
                (first + second).len(),
            );
        },
        Ok(middle) => {
            lemma_apply_suffix(content, first, second, middle, second.len());
        },
    }
}

/// A text with something in it has a first line.
proof fn lemma_first_line(s: Seq<char>)
    requires
        s.len() > 0,
    ensures
        text::lines_of(s).len() > 0,
{
}

/// `out` after the `n`-th hunk.
fn apply_hunk(out: String, edit: &Edit, n: usize) -> (next: Result<String, String>)
    ensures
        text::result_view(next) == apply_one(out@, edit@, n as nat),
{
    if edit.search.as_str().is_empty() {
        if out.as_str().is_empty() {
            return Ok(edit.replace.clone());
        }
        let mut message: String = "hunk ".to_owned();
        message.append(number_text(n as u128).as_str());
        message.append(": empty search on a non-empty file");
        return Err(message);
    }
    if !contains(out.as_str(), edit.search.as_str()) {
        let all: Vec<String> = lines(edit.search.as_str());
        proof {
            lemma_first_line(edit.search@);
            assert(text::views(all@).len() == all@.len());
            assert(text::views(all@)[0] == all@[0]@);
        }
        let mut message: String = "hunk ".to_owned();
        message.append(number_text(n as u128).as_str());
        message.append(" search not found: ");
        message.append(all[0].as_str());
        return Err(message);
    }
    Ok(replaced_once(out.as_str(), edit.search.as_str(), edit.replace.as_str()))
}

/// `content` after all hunks, in order, or what the first one says that does not apply:
/// then none is applied.
pub fn apply_edits(content: &str, edits: &Vec<Edit>) -> (patched: Result<String, String>)
    ensures
        text::result_view(patched) == apply_first(content@, edit_views(edits@), edits@.len()),
{
    let ghost all = edit_views(edits@);
    let mut out: String = content.to_owned();
    let mut i: usize = 0;
    while i < edits.len()
        invariant
            i <= edits@.len(),
            all == edit_views(edits@),
            apply_first(content@, all, i as nat) == Ok::<Seq<char>, Seq<char>>(out@),
        decreases edits@.len() - i,
    {
        assert(all[i as int] == edits@[i as int]@);
        match apply_hunk(out, &edits[i], i + 1) {
            Ok(next) => {
                out = next;
            },
            Err(e) => {
                proof {
                    law_one_failure_fails_the_batch(content@, all, (i + 1) as nat, all.len());
                }
                return Err(e);
            },
        }
        i += 1;
    }
    Ok(out)
}

// ---------------------------------------------------------------------------
// Patching several files
// ---------------------------------------------------------------------------

/// A file and the text that it shall hold.
pub struct Patched {
    pub file: String,
    pub content: String,
}

/// The first `n` groups applied to the texts of their files, or what the first hunk says
/// that does not apply.
pub open spec fn patched_first(
    groups: Seq<EditGroup>,
    originals: Seq<String>,
    n: nat,
) -> Result<Seq<(Seq<char>, Seq<char>)>, Seq<char>>
    decreases n,
{
    if n == 0 {
        Ok(Seq::empty())
    } else {
        match patched_first(groups, originals, (n - 1) as nat) {
            Err(e) => Err(e),
            Ok(before) => {
                let g = groups[n - 1];
                match apply_first(originals[n - 1]@, edit_views(g.edits@), g.edits@.len()) {
                    Ok(t) => Ok(before.push((g.file@, t))),
                    Err(e) => Err(e),
                }
            },
        }
    }
}

/// The views of patched files.
pub open spec fn patched_views(files: Seq<Patched>) -> Seq<(Seq<char>, Seq<char>)> {
    files.map_values(|p: Patched| (p.file@, p.content@))
}

proof fn lemma_patched_stops(groups: Seq<EditGroup>, originals: Seq<String>, n: nat, m: nat)
    requires
        n <= m,
        patched_first(groups, originals, n) is Err,
    ensures
        patched_first(groups, originals, m) == patched_first(groups, originals, n),
    decreases m,
{
    if n < m {
        lemma_patched_stops(groups, originals, n, (m - 1) as nat);
    }
}

/// The text of the `i`-th file with its group applied.
pub open spec fn patched_text(
    groups: Seq<EditGroup>,
    originals: Seq<String>,
    i: int,
) -> Result<Seq<char>, Seq<char>> {
    apply_first(originals[i]@, edit_views(groups[i].edits@), groups[i].edits@.len())
}

/// Either every file is patched, each with its own edits, or none is: one file whose edits
/// do not apply fails them all.
pub proof fn law_all_files_or_none(
    groups: Seq<EditGroup>,
    originals: Seq<String>,
    n: nat,
    i: int,
)
    requires
        0 <= i < n,
    ensures
        patched_text(groups, originals, i) is Err ==> patched_first(groups, originals, n) is Err,
        patched_first(groups, originals, n) matches Ok(files) ==> {
            &&& files.len() == n
            &&& files[i].0 == groups[i].file@
            &&& patched_text(groups, originals, i) == Ok::<Seq<char>, Seq<char>>(files[i].1)
        },
    decreases n,
{
    if i < n - 1 {
        law_all_files_or_none(groups, originals, (n - 1) as nat, i);
    } else if n > 1 {
        law_all_files_or_none(groups, originals, (n - 1) as nat, 0);
    }
}

/// All groups applied to the texts of their files, or what the first hunk says that does
/// not apply. Nothing is to be written before this has succeeded for every file.
pub fn patch_files(groups: &Vec<EditGroup>, originals: &Vec<String>) -> (patched: Result<
    Vec<Patched>,
    String,
>)
    requires
        groups@.len() == originals@.len(),
    ensures
        match patched {
            Ok(files) => patched_first(groups@, originals@, groups@.len()) == Ok::<
                Seq<(Seq<char>, Seq<char>)>,
                Seq<char>,
            >(patched_views(files@)),
            Err(e) => patched_first(groups@, originals@, groups@.len()) == Err::<
                Seq<(Seq<char>, Seq<char>)>,
                Seq<char>,
            >(e@),
        },
{
    let mut files: Vec<Patched> = Vec::new();
    let mut i: usize = 0;
    assert(patched_views(files@) =~= Seq::empty());
    while i < groups.len()
        invariant
            groups@.len() == originals@.len(),
            i <= groups@.len(),
            patched_first(groups@, originals@, i as nat) == Ok::<
                Seq<(Seq<char>, Seq<char>)>,
                Seq<char>,
            >(patched_views(files@)),
        decreases groups@.len() - i,
    {
        match apply_edits(originals[i].as_str(), &groups[i].edits) {
            Ok(content) => {
                let ghost before = files@;
                files.push(Patched { file: groups[i].file.clone(), content });
                assert(patched_views(files@) =~= patched_views(before).push(
                    (groups@[i as int].file@, content@),
                ));
            },
            Err(e) => {
                proof {
                    lemma_patched_stops(groups@, originals@, (i + 1) as nat, groups@.len());
                }
                return Err(e);
            },
        }
        i += 1;
    }
    Ok(files)
}

/// The message of the commit that lands a change: the given one, or else a plain one.
pub open spec fn message_of(message: Option<Seq<char>>) -> Seq<char> {
    match message {
        Some(m) => if text::trim(m).len() > 0 {
            m
        } else {
            "rlm: landed refactor"@
        },
        None => "rlm: landed refactor"@,
    }
}

/// The message of the commit that lands a change: the given one, or else a plain one.
pub fn commit_message(message: Option<String>) -> (out: String)
    ensures
        out@ == message_of(text::opt_view(message)),
        out@ == (match text::opt_view(message) {
            Some(m) => if text::trim(m).len() > 0 {
                m
            } else {
                "rlm: landed refactor"@
            },
            None => "rlm: landed refactor"@,
        }),
{
    if let Some(m) = message {
        if !trimmed(m.as_str()).as_str().is_empty() {
            return m;
        }
    }
    "rlm: landed refactor".to_owned()
}

// ---------------------------------------------------------------------------
// What a hunk does
// ---------------------------------------------------------------------------

/// One hunk puts its replacement, whatever that is, in the place where its search text first
/// stands, and changes nothing else.
pub proof fn law_hunk_replaces_the_first_place(
    before: Seq<char>,
    after: Seq<char>,
    edit: EditView,
)
    requires
        edit.search.len() > 0,
        forall|i: int|
            0 <= i < before.len() ==> !text::matches_at(
                before + edit.search + after,
                edit.search,
                i,
            ),
    ensures
        apply_first(before + edit.search + after, seq![edit], 1) == Ok::<Seq<char>, Seq<char>>(
            before + edit.replace + after,
        ),
{
    let s = before + edit.search + after;
    text::law_replacing_the_first(before, edit.search, after, edit.replace);
    text::law_holding(before, edit.search, after, Seq::empty(), 0);
    reveal_with_fuel(apply_first, 2);
    assert(seq![edit][0] == edit);
}

/// A hunk whose search text stands nowhere does not apply, and neither does one that would
/// write over what is there without looking for anything. One without a search text writes
/// an empty file.
pub proof fn law_hunk_that_does_not_fit(content: Seq<char>, edit: EditView)
    ensures
        edit.search.len() > 0 && !text::has_match(content, edit.search) ==> apply_first(
            content,
            seq![edit],
            1,
        ) is Err,
        edit.search.len() == 0 && content.len() > 0 ==> apply_first(content, seq![edit], 1) is Err,
        edit.search.len() == 0 && content.len() == 0 ==> apply_first(content, seq![edit], 1) == Ok::<
            Seq<char>,
            Seq<char>,
        >(edit.replace),
        apply_first(content, Seq::empty(), 0) == Ok::<Seq<char>, Seq<char>>(content),
{
    reveal_with_fuel(apply_first, 2);
    assert(seq![edit][0] == edit);
}

/// The hunks of two lists that are for a file are those of the first and those of the second.
pub proof fn law_groups_of_two_lists(
    a: Seq<EditView>,
    b: Seq<EditView>,
    default: Seq<char>,
    file: Seq<char>,
)
    ensures
        group_of(a + b, default, file) == group_of(a, default, file) + group_of(b, default, file),
{
    lemma_group_prefix(a, b, default, file, a.len());
    lemma_group_suffix(a, b, default, file, b.len());
}

proof fn lemma_group_prefix(
    a: Seq<EditView>,
    b: Seq<EditView>,
    default: Seq<char>,
    file: Seq<char>,
    n: nat,
)
    requires
        n <= a.len(),
    ensures
        group_first(a + b, default, file, n) == group_first(a, default, file, n),
    decreases n,
{
    if n > 0 {
        lemma_group_prefix(a, b, default, file, (n - 1) as nat);
    }
}

proof fn lemma_group_suffix(
    a: Seq<EditView>,
    b: Seq<EditView>,
    default: Seq<char>,
    file: Seq<char>,
    n: nat,
)
    requires
        n <= b.len(),
    ensures
        group_first(a + b, default, file, a.len() + n) == group_of(a, default, file) + group_first(
            b,
            default,
            file,
            n,
        ),
    decreases n,
{
    if n == 0 {
        lemma_group_prefix(a, b, default, file, a.len());
        assert(group_of(a, default, file) + Seq::<EditView>::empty() =~= group_of(
            a,
            default,
            file,
        ));
    } else {
        lemma_group_suffix(a, b, default, file, (n - 1) as nat);
        assert((a + b)[a.len() + n - 1] == b[n - 1]);
        let before = group_first(b, default, file, (n - 1) as nat);
        assert((group_of(a, default, file) + before).push(b[n - 1]) =~= group_of(a, default, file)
            + before.push(b[n - 1]));
    }
}

/// A hunk is for the file that it names, or for the given one where it names none, and for no
/// other.
pub proof fn law_hunk_goes_to_its_file(edit: EditView, default: Seq<char>, file: Seq<char>)
    ensures
        edit.file == Some(file) ==> group_of(seq![edit], default, file) == seq![edit],
        edit.file is None && default == file ==> group_of(seq![edit], default, file) == seq![edit],
        (edit.file matches Some(f) && f != file) ==> group_of(seq![edit], default, file).len() == 0,
        edit.file is None && default != file ==> group_of(seq![edit], default, file).len() == 0,
{
    reveal_with_fuel(group_first, 2);
    assert(seq![edit][0] == edit);
    assert(Seq::<EditView>::empty().push(edit) =~= seq![edit]);
}

/// A batch is taken whole and as it is. Without one, what is searched for and what is put in
/// its place make the one hunk, for the file that the request names; what is left out is the
/// empty text.
pub proof fn law_hunks_of_a_request(
    search: Seq<char>,
    replace: Seq<char>,
    batch: Seq<EditView>,
)
    ensures
        batch.len() > 0 ==> hunks_of(Some(search), Some(replace), Some(batch)) == batch,
        batch.len() == 0 ==> hunks_of(Some(search), Some(replace), Some(batch)) == hunks_of(
            Some(search),
            Some(replace),
            None,
        ),
        hunks_of(Some(search), Some(replace), None).len() == 1,
        hunks_of(Some(search), Some(replace), None)[0] == (EditView {
            file: None,
            search,
            replace,
        }),
        hunks_of(Some(search), None, None)[0] == (EditView {
            file: None,
            search,
            replace: Seq::empty(),
        }),
        hunks_of(None, Some(replace), None)[0].search.len() == 0,
{
}

/// A commit has the message that was given, word for word, unless that is only white space.
pub proof fn law_commit_message(message: Seq<char>, blank: Seq<char>)
    requires
        message.len() > 0 && !text::is_space(message[0]) && !text::is_space(message.last()),
        forall|i: int| 0 <= i < blank.len() ==> text::is_space(#[trigger] blank[i]),
    ensures
        message_of(Some(message)) == message,
        message_of(Some(blank + message)) == blank + message,
        message_of(Some(blank)) == message_of(None),
        message_of(None).len() > 0,
{
    let e = Seq::<char>::empty();
    text::law_trimming(blank, message, e, text::CharClass::Space);
    text::law_trimming(e, message, e, text::CharClass::Space);
    assert(blank + message + e =~= blank + message);
    assert(e + message + e =~= message);
    text::lemma_trim_start_skips(blank, e, text::CharClass::Space);
    assert(blank + e =~= blank);
    reveal_strlit("rlm: landed refactor");
}

} // verus!

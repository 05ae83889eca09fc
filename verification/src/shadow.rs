//! Shadows: disposable copies of a project in which changes are tried.
//!
//! A shadow is a git worktree at the project's last commit, with the working tree laid
//! over it: what was edited or added since is copied in, and what was deleted is dropped.

use crate::bytes::{self, lossy_text};
use crate::digits::{self, number_text};
use crate::text::{self, lines, no_texts, push_text, trimmed};
use vstd::prelude::*;

verus! {

/// The directories that a shadow shares with the project by a link: copying them would
/// take too long.
pub const LINKED_DIRECTORIES: [&'static str; 3] = ["node_modules", ".venv", "venv"];

/// The files that are copied though git does not know them.
pub const COPIED_FILES: [&'static str; 2] = [".env", ".env.local"];

/// The name of the shadow that process `pid` makes at `now_ms`.
pub fn shadow_name(pid: u32, now_ms: u128) -> (name: String)
    ensures
        name@ == "rlm-shadow-"@ + digits::decimal(pid as nat) + "-"@ + digits::decimal(
            now_ms as nat,
        ),
{
    let mut name: String = "rlm-shadow-".to_owned();
    name.append(number_text(pid as u128).as_str());
    name.append("-");
    name.append(number_text(now_ms).as_str());
    name
}

/// The arguments of the `git` that makes a shadow.
pub fn worktree_add_args(project: &str, shadow: &str) -> (args: Vec<String>)
    ensures
        text::views(args@) == seq![
            "-C"@,
            project@,
            "worktree"@,
            "add"@,
            "--detach"@,
            shadow@,
            "HEAD"@,
        ],
{
    let mut args: Vec<String> = no_texts();
    push_text(&mut args, "-C");
    push_text(&mut args, project);
    push_text(&mut args, "worktree");
    push_text(&mut args, "add");
    push_text(&mut args, "--detach");
    push_text(&mut args, shadow);
    push_text(&mut args, "HEAD");
    args
}

/// The arguments of the `git` that removes a shadow.
pub fn worktree_remove_args(project: &str, shadow: &str) -> (args: Vec<String>)
    ensures
        text::views(args@) == seq!["-C"@, project@, "worktree"@, "remove"@, "--force"@, shadow@],
{
    let mut args: Vec<String> = no_texts();
    push_text(&mut args, "-C");
    push_text(&mut args, project);
    push_text(&mut args, "worktree");
    push_text(&mut args, "remove");
    push_text(&mut args, "--force");
    push_text(&mut args, shadow);
    args
}

/// The arguments of the `git` that forgets shadows whose directories are gone: those of runs
/// that crashed or were interrupted.
pub fn worktree_prune_args(project: &str) -> (args: Vec<String>)
    ensures
        text::views(args@) == seq!["-C"@, project@, "worktree"@, "prune"@],
{
    let mut args: Vec<String> = no_texts();
    push_text(&mut args, "-C");
    push_text(&mut args, project);
    push_text(&mut args, "worktree");
    push_text(&mut args, "prune");
    args
}

/// The arguments of the `git` that lists what differs from the last commit.
pub fn changed_args(project: &str) -> (args: Vec<String>)
    ensures
        text::views(args@) == seq!["-C"@, project@, "diff"@, "HEAD"@, "--name-only"@],
{
    let mut args: Vec<String> = no_texts();
    push_text(&mut args, "-C");
    push_text(&mut args, project);
    push_text(&mut args, "diff");
    push_text(&mut args, "HEAD");
    push_text(&mut args, "--name-only");
    args
}

/// The arguments of the `git` that lists the files it does not track and does not ignore.
pub fn untracked_args(project: &str) -> (args: Vec<String>)
    ensures
        text::views(args@) == seq!["-C"@, project@, "ls-files"@, "--others"@, "--exclude-standard"@],
{
    let mut args: Vec<String> = no_texts();
    push_text(&mut args, "-C");
    push_text(&mut args, project);
    push_text(&mut args, "ls-files");
    push_text(&mut args, "--others");
    push_text(&mut args, "--exclude-standard");
    args
}

/// The arguments of the `git` that lists all files of a project, tracked or not, with a
/// zero byte behind each.
pub fn project_files_args(root: &str) -> (args: Vec<String>)
    ensures
        text::views(args@) == seq![
            "-C"@,
            root@,
            "ls-files"@,
            "-z"@,
            "--cached"@,
            "--others"@,
            "--exclude-standard"@,
        ],
{
    let mut args: Vec<String> = no_texts();
    push_text(&mut args, "-C");
    push_text(&mut args, root);
    push_text(&mut args, "ls-files");
    push_text(&mut args, "-z");
    push_text(&mut args, "--cached");
    push_text(&mut args, "--others");
    push_text(&mut args, "--exclude-standard");
    args
}

/// What is told where `git` made no shadow.
pub fn worktree_failure(stderr: &[u8]) -> (message: String)
    ensures
        message@ == "git worktree add failed (shadow verify needs a git repo): "@
            + bytes::lossy_utf8(stderr@),
{
    let message: String = "git worktree add failed (shadow verify needs a git repo): ".to_owned();
    message.concat(lossy_text(stderr).as_str())
}

/// The paths on the first `n` lines, trimmed, without the empty ones.
pub open spec fn paths_first(all: Seq<Seq<char>>, n: nat) -> Seq<Seq<char>>
    decreases n,
{
    if n == 0 {
        Seq::empty()
    } else {
        let before = paths_first(all, (n - 1) as nat);
        let path = text::trim(all[n - 1]);
        if path.len() > 0 {
            before.push(path)
        } else {
            before
        }
    }
}

/// The paths that a list names, one on each line.
pub open spec fn paths_in(list: Seq<char>) -> Seq<Seq<char>> {
    paths_first(text::lines_of(list), text::lines_of(list).len())
}

/// The paths that a list names, one on each line.
pub fn paths_of_text(list: &str) -> (paths: Vec<String>)
    ensures
        text::views(paths@) == paths_in(list@),
{
    let all: Vec<String> = lines(list);
    let ghost views = text::views(all@);
    let mut paths: Vec<String> = no_texts();
    let mut i: usize = 0;
    while i < all.len()
        invariant
            i <= all@.len(),
            views == text::views(all@),
            text::views(paths@) == paths_first(views, i as nat),
        decreases all@.len() - i,
    {
        assert(views[i as int] == all@[i as int]@);
        let path: String = trimmed(all[i].as_str());
        if !path.as_str().is_empty() {
            push_text(&mut paths, path.as_str());
        }
        i += 1;
    }
    paths
}

/// The paths that `git` printed, one on each line.
pub fn listed_paths(output: &[u8]) -> (paths: Vec<String>)
    ensures
        text::views(paths@) == paths_in(bytes::lossy_utf8(output@)),
{
    paths_of_text(lossy_text(output).as_str())
}

/// What is done to lay one file of the working tree over a shadow.
#[derive(Clone, Copy, PartialEq, Eq, Structural, Debug)]
pub enum Overlay {
    /// Copy it from the project.
    Copy,
    /// Remove it: the project no longer has it.
    Remove,
}

/// What is done about a tracked file that differs from the last commit.
pub open spec fn overlay_of(exists: bool) -> Overlay {
    if exists {
        Overlay::Copy
    } else {
        Overlay::Remove
    }
}

/// The views of a plan.
pub open spec fn plan_views(plan: Seq<(String, Overlay)>) -> Seq<(Seq<char>, Overlay)> {
    plan.map_values(|p: (String, Overlay)| (p.0@, p.1))
}

/// What is done to lay the working tree over a shadow, file by file.
pub open spec fn overlays_of(
    changed: Seq<(String, bool)>,
    untracked: Seq<String>,
) -> Seq<(Seq<char>, Overlay)> {
    changed.map_values(|c: (String, bool)| (c.0@, overlay_of(c.1))) + untracked.map_values(
        |p: String| (p@, Overlay::Copy),
    )
}

/// What is done to lay the working tree over a shadow: a changed file is copied where the
/// project still has it and removed where it does not, and an untracked one is copied.
pub fn overlay_plan(changed: &Vec<(String, bool)>, untracked: &Vec<String>) -> (plan: Vec<
    (String, Overlay),
>)
    ensures
        plan_views(plan@) == overlays_of(changed@, untracked@),
        plan_views(plan@) == changed@.map_values(|c: (String, bool)| (c.0@, overlay_of(c.1)))
            + untracked@.map_values(|p: String| (p@, Overlay::Copy)),
{
    let ghost first = changed@.map_values(|c: (String, bool)| (c.0@, overlay_of(c.1)));
    let ghost second = untracked@.map_values(|p: String| (p@, Overlay::Copy));
    let mut plan: Vec<(String, Overlay)> = Vec::new();
    let mut i: usize = 0;
    assert(plan_views(plan@) =~= first.take(0));
    while i < changed.len()
        invariant
            i <= changed@.len(),
            first == changed@.map_values(|c: (String, bool)| (c.0@, overlay_of(c.1))),
            plan_views(plan@) == first.take(i as int),
        decreases changed@.len() - i,
    {
        let overlay: Overlay = if changed[i].1 {
            Overlay::Copy
        } else {
            Overlay::Remove
        };
        let ghost before = plan@;
        plan.push((changed[i].0.clone(), overlay));
        assert(plan_views(plan@) =~= plan_views(before).push(
            (changed@[i as int].0@, overlay_of(changed@[i as int].1)),
        ));
        assert(first.take(i + 1) =~= first.take(i as int).push(first[i as int]));
        i += 1;
    }
    assert(first.take(i as int) =~= first);
    let mut j: usize = 0;
    assert(first + second.take(0) =~= first);
    while j < untracked.len()
        invariant
            j <= untracked@.len(),
            second == untracked@.map_values(|p: String| (p@, Overlay::Copy)),
            plan_views(plan@) == first + second.take(j as int),
        decreases untracked@.len() - j,
    {
        let ghost before = plan@;
        plan.push((untracked[j].clone(), Overlay::Copy));
        assert(plan_views(plan@) =~= plan_views(before).push(
            (untracked@[j as int]@, Overlay::Copy),
        ));
        assert(first + second.take(j + 1) =~= (first + second.take(j as int)).push(
            second[j as int],
        ));
        j += 1;
    }
    assert(second.take(j as int) =~= second);
    plan
}

// ---------------------------------------------------------------------------
// Laws
// ---------------------------------------------------------------------------

proof fn lemma_paths_split(a: Seq<Seq<char>>, b: Seq<Seq<char>>, n: nat)
    requires
        n <= b.len(),
    ensures
        paths_first(a + b, a.len() + n) == paths_first(a, a.len()) + paths_first(b, n),
    decreases n,
{
    if n == 0 {
        lemma_paths_prefix(a, b, a.len());
    } else {
        lemma_paths_split(a, b, (n - 1) as nat);
        assert((a + b)[a.len() + n - 1] == b[n - 1]);
        let path = text::trim(b[n - 1]);
        let before = paths_first(a, a.len()) + paths_first(b, (n - 1) as nat);
        assert(before.push(path) =~= paths_first(a, a.len()) + paths_first(
            b,
            (n - 1) as nat,
        ).push(path));
    }
}

proof fn lemma_paths_prefix(a: Seq<Seq<char>>, b: Seq<Seq<char>>, n: nat)
    requires
        n <= a.len(),
    ensures
        paths_first(a + b, n) == paths_first(a, n),
    decreases n,
{
    if n > 0 {
        lemma_paths_prefix(a, b, (n - 1) as nat);
    }
}

/// The paths of two lists in a row are those of the first and those of the second.
pub proof fn law_lists_add_up(p: Seq<char>, q: Seq<char>)
    requires
        p.len() > 0 ==> p.last() == '\n',
    ensures
        paths_in(p + q) == paths_in(p) + paths_in(q),
{
    text::law_lines_of_two_texts(p, q);
    lemma_paths_split(text::lines_of(p), text::lines_of(q), text::lines_of(q).len());
}

/// A path on a line of its own is listed, without the white space around it; a blank line
/// lists none.
pub proof fn law_one_path_a_line(a: Seq<char>, path: Seq<char>, b: Seq<char>)
    requires
        forall|i: int| 0 <= i < a.len() ==> text::is_space(#[trigger] a[i]),
        forall|i: int| 0 <= i < b.len() ==> text::is_space(#[trigger] b[i]),
        path.len() > 0 && !text::is_space(path[0]) && !text::is_space(path.last()),
        !(a + path + b).contains('\n'),
        !a.contains('\n'),
    ensures
        paths_in(a + path + b) == seq![path],
        paths_in(a) == Seq::<Seq<char>>::empty(),
        paths_in(Seq::empty()) == Seq::<Seq<char>>::empty(),
{
    let e = Seq::<char>::empty();
    text::law_first_line(a + path + b, e);
    text::law_first_line(a, e);
    text::law_trimming(a, path, b, text::CharClass::Space);
    text::lemma_trim_start_skips(a, e, text::CharClass::Space);
    assert(a + e =~= a);
    reveal_with_fuel(paths_first, 2);
    assert(text::lines_of(a + path + b)[0] == a + path + b);
    assert(paths_in(a + path + b) =~= seq![path]);
    if a.len() > 0 {
        assert(text::lines_of(a)[0] == a);
    } else {
        assert(a =~= e);
    }
}

/// What the project still has is copied into its shadow, and what it dropped is removed there.
pub proof fn law_shadow_follows_the_project()
    ensures
        overlay_of(true) == Overlay::Copy,
        overlay_of(false) == Overlay::Remove,
{
}

/// Every file that differs from the last commit is laid over the shadow, and every file that
/// git does not track: what the project has is copied, what it dropped is removed, and nothing
/// else is touched.
pub proof fn law_working_tree_is_laid_over(
    changed: Seq<(String, bool)>,
    untracked: Seq<String>,
    i: int,
    j: int,
)
    ensures
        0 <= i < changed.len() && changed[i].1 ==> overlays_of(changed, untracked).contains(
            (changed[i].0@, Overlay::Copy),
        ),
        0 <= i < changed.len() && !changed[i].1 ==> overlays_of(changed, untracked).contains(
            (changed[i].0@, Overlay::Remove),
        ),
        0 <= j < untracked.len() ==> overlays_of(changed, untracked).contains(
            (untracked[j]@, Overlay::Copy),
        ),
        overlays_of(changed, untracked).len() == changed.len() + untracked.len(),
{
    let all = overlays_of(changed, untracked);
    if 0 <= i < changed.len() {
        assert(all[i] == (changed[i].0@, overlay_of(changed[i].1)));
    }
    if 0 <= j < untracked.len() {
        assert(all[changed.len() + j] == (untracked[j]@, Overlay::Copy));
    }
}

} // verus!

//! Files that change together: what a project's history says of their coupling.
//!
//! Two files are coupled where at least three commits changed both. Commits that change
//! one source file, or more than twenty-five, tell nothing.

use crate::bytes::{self, lossy_text};
use crate::json::{self, Json, JsonView};
use crate::order::{self, comes_before};
use crate::project::{self, is_code_file};
use crate::text::{self, lines, no_texts, push_text, same_text, split_on, trimmed};
use crate::textmap::TextMap;
use vstd::prelude::*;

verus! {

// ---------------------------------------------------------------------------
// What the history says
// ---------------------------------------------------------------------------

/// The character that separates the commits of a history.
pub const COMMIT_MARK: char = '\u{1}';

/// The source files among the first `n` lines of a commit.
pub open spec fn files_first(all: Seq<Seq<char>>, n: nat) -> Seq<Seq<char>>
    decreases n,
{
    if n == 0 {
        Seq::empty()
    } else {
        let before = files_first(all, (n - 1) as nat);
        let name = text::trim(all[n - 1]);
        if name.len() > 0 && project::is_code(name) {
            before.push(name)
        } else {
            before
        }
    }
}

/// The source files that a commit changed.
pub open spec fn commit_files(block: Seq<char>) -> Seq<Seq<char>> {
    files_first(text::lines_of(block), text::lines_of(block).len())
}

/// Two files as a pair in which the order in which they were named does not matter.
pub open spec fn pair_of(a: Seq<char>, b: Seq<char>) -> (Seq<char>, Seq<char>) {
    if order::text_less(a, b) {
        (a, b)
    } else {
        (b, a)
    }
}

/// The pairs of the `i`-th file with those behind it, up to the `j`-th. A name that stands
/// there twice makes no pair with itself.
pub open spec fn row(files: Seq<Seq<char>>, i: int, j: int) -> Seq<(Seq<char>, Seq<char>)>
    decreases j,
{
    if j <= i + 1 || j <= 0 {
        Seq::empty()
    } else {
        let before = row(files, i, j - 1);
        if files[i] == files[j - 1] {
            before
        } else {
            before.push(pair_of(files[i], files[j - 1]))
        }
    }
}

/// The pairs of the first `i` files with those behind each.
pub open spec fn rows(files: Seq<Seq<char>>, i: int) -> Seq<(Seq<char>, Seq<char>)>
    decreases i,
{
    if i <= 0 {
        Seq::empty()
    } else {
        rows(files, i - 1) + row(files, i - 1, files.len() as int)
    }
}

/// The pairs of files that a commit changed together.
pub open spec fn commit_pairs(block: Seq<char>) -> Seq<(Seq<char>, Seq<char>)> {
    let files = commit_files(block);
    if 2 <= files.len() <= 25 {
        rows(files, files.len() as int)
    } else {
        Seq::empty()
    }
}

/// The pairs of the first `n` commits.
pub open spec fn pairs_first(blocks: Seq<Seq<char>>, n: nat) -> Seq<(Seq<char>, Seq<char>)>
    decreases n,
{
    if n == 0 {
        Seq::empty()
    } else {
        pairs_first(blocks, (n - 1) as nat) + commit_pairs(blocks[n - 1])
    }
}

/// All pairs of files that a history shows to have changed together, once for each commit.
pub open spec fn history_pairs(history: Seq<char>) -> Seq<(Seq<char>, Seq<char>)> {
    let blocks = text::split_of(history, COMMIT_MARK);
    pairs_first(blocks, blocks.len())
}

/// How often a pair stands in a list.
pub open spec fn times(
    pairs: Seq<(Seq<char>, Seq<char>)>,
    p: (Seq<char>, Seq<char>),
) -> nat
    decreases pairs.len(),
{
    if pairs.len() == 0 {
        0
    } else {
        times(pairs.drop_last(), p) + if pairs.last() == p {
            1nat
        } else {
            0nat
        }
    }
}

/// Are two files coupled, by what the history shows?
pub open spec fn coupled(history: Seq<char>, a: Seq<char>, b: Seq<char>) -> bool {
    times(history_pairs(history), pair_of(a, b)) >= 3
}

/// Coupling goes both ways.
pub proof fn law_coupling_is_symmetric(history: Seq<char>, a: Seq<char>, b: Seq<char>)
    ensures
        coupled(history, a, b) == coupled(history, b, a),
{
    order::lemma_text_less_total(a, b);
    order::lemma_text_less_asymmetric(a, b);
}

/// No file is coupled with itself.
pub proof fn law_no_file_is_coupled_with_itself(history: Seq<char>, a: Seq<char>)
    ensures
        !coupled(history, a, a),
{
    if coupled(history, a, a) {
        lemma_pairs_are_ordered(history, pair_of(a, a));
    }
}

proof fn lemma_times_push(
    pairs: Seq<(Seq<char>, Seq<char>)>,
    last: (Seq<char>, Seq<char>),
    p: (Seq<char>, Seq<char>),
)
    ensures
        times(pairs.push(last), p) == times(pairs, p) + if last == p {
            1nat
        } else {
            0nat
        },
{
    assert(pairs.push(last).drop_last() =~= pairs);
}

// ---------------------------------------------------------------------------
// Counting
// ---------------------------------------------------------------------------

/// How often each pair occurred, up to three: by the first file, then by the second.
type Counts = TextMap<TextMap<u8>>;

spec fn count_in(counts: Counts, p: (Seq<char>, Seq<char>)) -> nat {
    if counts.has(p.0) && counts.at(p.0).has(p.1) {
        counts.at(p.0).at(p.1) as nat
    } else {
        0
    }
}

/// `n`, or three where it is more.
spec fn at_most_three(n: nat) -> nat {
    if n < 3 {
        n
    } else {
        3
    }
}

/// Do the counts say how often each pair stands in the list?
spec fn counts_show(counts: Counts, pairs: Seq<(Seq<char>, Seq<char>)>) -> bool {
    forall|p: (Seq<char>, Seq<char>)| #[trigger]
        count_in(counts, p) == at_most_three(times(pairs, p))
}

/// Counts one more occurrence of a pair.
fn count_pair(counts: &mut Counts, a: String, b: String, Ghost(done): Ghost<Seq<(Seq<char>, Seq<char>)>>)
    requires
        counts_show(*old(counts), done),
    ensures
        counts_show(*final(counts), done.push((a@, b@))),
{
    let ghost before = *counts;
    let ghost pair = (a@, b@);
    let mut inner: TextMap<u8> = match counts.remove(a.as_str()) {
        Some(m) => m,
        None => TextMap::new(),
    };
    let ghost old_inner = inner;
    let c: u8 = match inner.get(b.as_str()) {
        Some(c) => *c,
        None => 0,
    };
    assert(c as nat == count_in(before, pair));
    let next: u8 = if c < 3 {
        c + 1
    } else {
        3
    };
    inner.set(b, next);
    counts.set(a, inner);
    proof {
        assert forall|p: (Seq<char>, Seq<char>)| #[trigger]
            count_in(*counts, p) == at_most_three(times(done.push(pair), p)) by {
            lemma_times_push(done, pair, p);
            assert(count_in(before, p) == at_most_three(times(done, p)));
            assert(count_in(before, pair) == at_most_three(times(done, pair)));
            if p.0 == pair.0 {
                if p.1 == pair.1 {
                    assert(p == pair);
                } else {
                    assert(inner.has(p.1) == old_inner.has(p.1));
                }
            } else {
                assert(counts.has(p.0) == before.has(p.0));
            }
        }
    }
}

/// The source files that a commit changed.
fn read_commit(block: &str) -> (files: Vec<String>)
    ensures
        text::views(files@) == commit_files(block@),
{
    let all: Vec<String> = lines(block);
    let ghost views = text::views(all@);
    let mut files: Vec<String> = no_texts();
    let mut i: usize = 0;
    while i < all.len()
        invariant
            i <= all@.len(),
            views == text::views(all@),
            text::views(files@) == files_first(views, i as nat),
        decreases all@.len() - i,
    {
        assert(views[i as int] == all@[i as int]@);
        let name: String = trimmed(all[i].as_str());
        if !name.as_str().is_empty() && is_code_file(name.as_str()) {
            push_text(&mut files, name.as_str());
        }
        i += 1;
    }
    files
}

/// Counts the pairs of one commit.
fn count_commit(counts: &mut Counts, block: &str, Ghost(done): Ghost<Seq<(Seq<char>, Seq<char>)>>)
    requires
        counts_show(*old(counts), done),
    ensures
        counts_show(*final(counts), done + commit_pairs(block@)),
{
    let files: Vec<String> = read_commit(block);
    let ghost all = text::views(files@);
    assert(all.len() == files@.len());
    assert(done + Seq::<(Seq<char>, Seq<char>)>::empty() =~= done);
    if files.len() < 2 || files.len() > 25 {
        return;
    }
    let n: usize = files.len();
    let mut i: usize = 0;
    while i < n
        invariant
            n == files@.len(),
            all == text::views(files@),
            i <= n,
            counts_show(*counts, done + rows(all, i as int)),
        decreases n - i,
    {
        let mut j: usize = i + 1;
        assert(done + rows(all, i as int) + row(all, i as int, i + 1) =~= done + rows(
            all,
            i as int,
        ));
        while j < n
            invariant
                n == files@.len(),
                all == text::views(files@),
                i < n,
                i < j <= n,
                counts_show(*counts, done + rows(all, i as int) + row(all, i as int, j as int)),
            decreases n - j,
        {
            assert(all[i as int] == files@[i as int]@);
            assert(all[j as int] == files@[j as int]@);
            let ghost so_far = done + rows(all, i as int) + row(all, i as int, j as int);
            if !same_text(files[i].as_str(), files[j].as_str()) {
                let (a, b): (String, String) = if comes_before(
                    files[i].as_str(),
                    files[j].as_str(),
                ) {
                    (files[i].clone(), files[j].clone())
                } else {
                    (files[j].clone(), files[i].clone())
                };
                count_pair(counts, a, b, Ghost(so_far));
                assert(so_far.push((a@, b@)) =~= done + rows(all, i as int) + row(
                    all,
                    i as int,
                    j + 1,
                ));
            }
            j += 1;
        }
        assert(done + rows(all, i as int) + row(all, i as int, n as int) =~= done + rows(
            all,
            i + 1,
        ));
        i += 1;
    }
}

/// Counts the pairs of a whole history.
fn count_history(history: &str) -> (counts: Counts)
    ensures
        counts_show(counts, history_pairs(history@)),
{
    let blocks: Vec<String> = split_on(history, COMMIT_MARK);
    let ghost views = text::views(blocks@);
    let mut counts: Counts = TextMap::new();
    let mut i: usize = 0;
    while i < blocks.len()
        invariant
            i <= blocks@.len(),
            views == text::views(blocks@),
            counts_show(counts, pairs_first(views, i as nat)),
        decreases blocks@.len() - i,
    {
        assert(views[i as int] == blocks@[i as int]@);
        count_commit(&mut counts, blocks[i].as_str(), Ghost(pairs_first(views, i as nat)));
        i += 1;
    }
    counts
}

// ---------------------------------------------------------------------------
// The coupled files
// ---------------------------------------------------------------------------

/// A file, and those that it is coupled with.
pub struct Coupling {
    pub file: String,
    pub partners: Vec<String>,
}

/// The files of a sequence of couplings.
pub open spec fn coupled_files(couplings: Seq<Coupling>) -> Seq<Seq<char>> {
    couplings.map_values(|c: Coupling| c.file@)
}

/// Those of the first `n` files that `file` is coupled with.
pub open spec fn partners_first(
    history: Seq<char>,
    files: Seq<Seq<char>>,
    file: Seq<char>,
    n: nat,
) -> Seq<Seq<char>>
    decreases n,
{
    if n == 0 {
        Seq::empty()
    } else {
        let before = partners_first(history, files, file, (n - 1) as nat);
        let other = files[n - 1];
        if !coupled(history, file, other) {
            before
        } else {
            before.push(other)
        }
    }
}

/// Has a file any partner?
pub open spec fn has_partner(history: Seq<char>, file: Seq<char>) -> bool {
    exists|other: Seq<char>| coupled(history, file, other)
}

/// Are two files coupled, by the counts?
fn counted_as_coupled(counts: &Counts, a: &str, b: &str, Ghost(history): Ghost<Seq<char>>) -> (yes:
    bool)
    requires
        counts_show(*counts, history_pairs(history)),
    ensures
        yes == coupled(history, a@, b@),
{
    let (x, y): (&str, &str) = if comes_before(a, b) {
        (a, b)
    } else {
        (b, a)
    };
    assert(count_in(*counts, (x@, y@)) == at_most_three(times(history_pairs(history), (x@, y@))));
    match counts.get(x) {
        Some(inner) => match inner.get(y) {
            Some(c) => *c >= 3,
            None => false,
        },
        None => false,
    }
}

/// Where the `k`-th file and `b` are counted as coupled, both are marked.
spec fn pair_marked(counts: Counts, files: TextMap<bool>, k: int, b: Seq<char>) -> bool {
    count_in(counts, (counts.keys()[k], b)) >= 3 ==> files.has(counts.keys()[k]) && files.has(b)
}

/// All files that have a partner, in order.
fn files_with_partners(counts: &Counts, Ghost(history): Ghost<Seq<char>>) -> (files: TextMap<bool>)
    requires
        counts_show(*counts, history_pairs(history)),
    ensures
        forall|f: Seq<char>| #[trigger] files.has(f) <==> has_partner(history, f),
{
    let mut files: TextMap<bool> = TextMap::new();
    let n: usize = counts.len();
    let mut i: usize = 0;
    while i < n
        invariant
            n == counts.entries().len(),
            i <= n,
            counts_show(*counts, history_pairs(history)),
            forall|f: Seq<char>| #[trigger] files.has(f) ==> has_partner(history, f),
            forall|k: int, b: Seq<char>|
                0 <= k < i ==> #[trigger] pair_marked(*counts, files, k, b),
        decreases n - i,
    {
        let (a, inner) = counts.entry(i);
        proof {
            use_type_invariant(counts);
            counts.lemma_at(i as int);
        }
        let m: usize = inner.len();
        let mut j: usize = 0;
        while j < m
            invariant
                m == inner.entries().len(),
                j <= m,
                i < n,
                n == counts.entries().len(),
                a@ == counts.keys()[i as int],
                counts.has(a@),
                counts.at(a@) == *inner,
                counts_show(*counts, history_pairs(history)),
                forall|f: Seq<char>| #[trigger] files.has(f) ==> has_partner(history, f),
                forall|k: int, b: Seq<char>|
                    0 <= k < i ==> #[trigger] pair_marked(*counts, files, k, b),
                forall|k: int|
                    0 <= k < j && inner.at(#[trigger] inner.keys()[k]) >= 3 ==> files.has(a@)
                        && files.has(inner.keys()[k]),
            decreases m - j,
        {
            let (b, c) = inner.entry(j);
            proof {
                use_type_invariant(inner);
                inner.lemma_at(j as int);
            }
            if *c >= 3 {
                let ghost before = files;
                files.set(a.clone(), true);
                let ghost middle = files;
                files.set(b.clone(), true);
                proof {
                    lemma_counted_pair(*counts, history, a@, b@);
                    assert forall|f: Seq<char>| before.has(f) implies files.has(f) by {
                        assert(middle.has(f));
                    }
                    assert forall|f: Seq<char>| #[trigger] files.has(f) implies has_partner(
                        history,
                        f,
                    ) by {
                        if f != a@ && f != b@ {
                            assert(middle.has(f));
                            assert(before.has(f));
                        }
                    }
                    assert(files.has(a@)) by {
                        assert(middle.has(a@));
                    }
                    assert forall|k: int, x: Seq<char>| 0 <= k < i implies #[trigger] pair_marked(
                        *counts,
                        files,
                        k,
                        x,
                    ) by {
                        assert(pair_marked(*counts, before, k, x));
                    }
                }
            }
            j += 1;
        }
        proof {
            assert forall|k: int, b: Seq<char>| 0 <= k < i + 1 implies #[trigger] pair_marked(
                *counts,
                files,
                k,
                b,
            ) by {
                if k == i && count_in(*counts, (a@, b)) >= 3 {
                    let x = inner.keys().index_of(b);
                    assert(inner.keys()[x] == b);
                    assert(inner.at(inner.keys()[x]) >= 3);
                }
            }
        }
        i += 1;
    }
    assert forall|f: Seq<char>| has_partner(history, f) implies #[trigger] files.has(f) by {
        let g = choose|g: Seq<char>| coupled(history, f, g);
        let p = pair_of(f, g);
        assert(count_in(*counts, p) == at_most_three(times(history_pairs(history), p)));
        assert(counts.has(p.0));
        let k = counts.keys().index_of(p.0);
        assert(counts.keys()[k] == p.0);
        assert(pair_marked(*counts, files, k, p.1));
        assert(files.has(p.0) && files.has(p.1));
    }
    files
}

/// A pair that is counted three times couples both of its files.
proof fn lemma_counted_pair(counts: Counts, history: Seq<char>, a: Seq<char>, b: Seq<char>)
    requires
        counts_show(counts, history_pairs(history)),
        count_in(counts, (a, b)) >= 3,
    ensures
        has_partner(history, a),
        has_partner(history, b),
{
    let pairs = history_pairs(history);
    assert(count_in(counts, (a, b)) == at_most_three(times(pairs, (a, b))));
    lemma_pairs_are_ordered(history, (a, b));
    order::lemma_text_less_total(a, b);
    order::lemma_text_less_asymmetric(a, b);
    assert(pair_of(a, b) == (a, b));
    assert(coupled(history, a, b));
    law_coupling_is_symmetric(history, a, b);
    assert(coupled(history, b, a));
}

/// Every pair of a history is one that [`pair_of`] makes.
proof fn lemma_pairs_are_ordered(history: Seq<char>, p: (Seq<char>, Seq<char>))
    requires
        times(history_pairs(history), p) > 0,
    ensures
        pair_of(p.0, p.1) == p,
        p.0 != p.1,
{
    let blocks = text::split_of(history, COMMIT_MARK);
    lemma_pairs_first_ordered(blocks, blocks.len(), p);
}

proof fn lemma_times_add(
    x: Seq<(Seq<char>, Seq<char>)>,
    y: Seq<(Seq<char>, Seq<char>)>,
    p: (Seq<char>, Seq<char>),
)
    ensures
        times(x + y, p) == times(x, p) + times(y, p),
    decreases y.len(),
{
    if y.len() == 0 {
        assert(x + y =~= x);
    } else {
        lemma_times_add(x, y.drop_last(), p);
        assert((x + y).drop_last() =~= x + y.drop_last());
    }
}

proof fn lemma_pairs_first_ordered(blocks: Seq<Seq<char>>, n: nat, p: (Seq<char>, Seq<char>))
    requires
        times(pairs_first(blocks, n), p) > 0,
    ensures
        pair_of(p.0, p.1) == p,
        p.0 != p.1,
    decreases n,
{
    if n > 0 {
        let before = pairs_first(blocks, (n - 1) as nat);
        let here = commit_pairs(blocks[n - 1]);
        lemma_times_add(before, here, p);
        if times(before, p) > 0 {
            lemma_pairs_first_ordered(blocks, (n - 1) as nat, p);
        } else {
            let files = commit_files(blocks[n - 1]);
            lemma_rows_ordered(files, files.len() as int, p);
        }
    }
}

proof fn lemma_rows_ordered(files: Seq<Seq<char>>, i: int, p: (Seq<char>, Seq<char>))
    requires
        times(rows(files, i), p) > 0,
    ensures
        pair_of(p.0, p.1) == p,
        p.0 != p.1,
    decreases i,
{
    if i > 0 {
        lemma_times_add(rows(files, i - 1), row(files, i - 1, files.len() as int), p);
        if times(rows(files, i - 1), p) > 0 {
            lemma_rows_ordered(files, i - 1, p);
        } else {
            lemma_row_ordered(files, i - 1, files.len() as int, p);
        }
    }
}

proof fn lemma_row_ordered(files: Seq<Seq<char>>, i: int, j: int, p: (Seq<char>, Seq<char>))
    requires
        times(row(files, i, j), p) > 0,
    ensures
        pair_of(p.0, p.1) == p,
        p.0 != p.1,
    decreases j,
{
    if j > i + 1 && j > 0 {
        let last = pair_of(files[i], files[j - 1]);
        lemma_times_push(row(files, i, j - 1), last, p);
        if last == p && files[i] != files[j - 1] {
            order::lemma_text_less_total(files[i], files[j - 1]);
            order::lemma_text_less_asymmetric(files[i], files[j - 1]);
        } else {
            lemma_row_ordered(files, i, j - 1, p);
        }
    }
}

/// The coupled files of a history, in order, each with its partners, in order.
pub fn cochange_of(history: &str) -> (couplings: Vec<Coupling>)
    ensures
        order::strictly_sorted(coupled_files(couplings@)),
        forall|f: Seq<char>| #[trigger]
            coupled_files(couplings@).contains(f) <==> has_partner(history@, f),
        forall|i: int|
            0 <= i < couplings@.len() ==> text::views((#[trigger] couplings@[i]).partners@)
                == partners_first(
                history@,
                coupled_files(couplings@),
                couplings@[i].file@,
                couplings@.len(),
            ),
{
    let counts: Counts = count_history(history);
    let files: TextMap<bool> = files_with_partners(&counts, Ghost(history@));
    let ghost keys = files.keys();
    let n: usize = files.len();
    let mut couplings: Vec<Coupling> = Vec::new();
    let mut i: usize = 0;
    while i < n
        invariant
            n == files.entries().len(),
            i <= n,
            keys == files.keys(),
            counts_show(counts, history_pairs(history@)),
            couplings@.len() == i,
            forall|k: int|
                0 <= k < i ==> (#[trigger] couplings@[k]).file@ == keys[k] && text::views(
                    couplings@[k].partners@,
                ) == partners_first(history@, keys, keys[k], n as nat),
        decreases n - i,
    {
        let (file, _) = files.entry(i);
        proof {
            use_type_invariant(&files);
            files.lemma_at(i as int);
        }
        let mut partners: Vec<String> = no_texts();
        let mut j: usize = 0;
        while j < n
            invariant
                n == files.entries().len(),
                i < n,
                j <= n,
                keys == files.keys(),
                file@ == keys[i as int],
                counts_show(counts, history_pairs(history@)),
                text::views(partners@) == partners_first(history@, keys, file@, j as nat),
            decreases n - j,
        {
            let (other, _) = files.entry(j);
            proof {
                use_type_invariant(&files);
                files.lemma_at(j as int);
            }
            if counted_as_coupled(&counts, file.as_str(), other.as_str(), Ghost(history@)) {
                push_text(&mut partners, other.as_str());
            }
            j += 1;
        }
        couplings.push(Coupling { file: file.clone(), partners });
        i += 1;
    }
    proof {
        use_type_invariant(&files);
        assert(coupled_files(couplings@) =~= keys);
        assert forall|f: Seq<char>| #[trigger] coupled_files(couplings@).contains(f) <==> has_partner(
            history@,
            f,
        ) by {
            assert(files.has(f) <==> has_partner(history@, f));
        }
    }
    couplings
}

/// Where to look for a history: the project that is asked for, or nothing where that is no
/// git repository.
pub fn cochange_root(project_path: Option<String>, is_git: bool) -> (root: Result<
    Option<String>,
    String,
>)
    ensures
        match project_path {
            None => root matches Err(e) && e@ == "git_cochange: no project path"@,
            Some(p) => if is_git {
                root == Ok::<Option<String>, String>(Some(p))
            } else {
                root == Ok::<Option<String>, String>(None)
            },
        },
{
    match project_path {
        None => Err("git_cochange: no project path".to_owned()),
        Some(p) => if is_git {
            Ok(Some(p))
        } else {
            Ok(None)
        },
    }
}

/// The arguments of the `git` that prints a history: of the last 1500 commits, without
/// merges, the changed files, with a mark before each commit.
pub fn cochange_args(root: &str) -> (args: Vec<String>)
    ensures
        text::views(args@) == seq![
            "-C"@,
            root@,
            "log"@,
            "--no-merges"@,
            "--name-only"@,
            "--pretty=format:%x01"@,
            "-n"@,
            "1500"@,
        ],
{
    let mut args: Vec<String> = no_texts();
    push_text(&mut args, "-C");
    push_text(&mut args, root);
    push_text(&mut args, "log");
    push_text(&mut args, "--no-merges");
    push_text(&mut args, "--name-only");
    push_text(&mut args, "--pretty=format:%x01");
    push_text(&mut args, "-n");
    push_text(&mut args, "1500");
    args
}

/// The coupled files of a history, by what `git log` printed.
pub fn git_cochange_inner(output: &[u8]) -> (couplings: Vec<Coupling>)
    ensures
        order::strictly_sorted(coupled_files(couplings@)),
        forall|f: Seq<char>| #[trigger]
            coupled_files(couplings@).contains(f) <==> has_partner(
                bytes::lossy_utf8(output@),
                f,
            ),
        forall|i: int|
            0 <= i < couplings@.len() ==> text::views((#[trigger] couplings@[i]).partners@)
                == partners_first(
                bytes::lossy_utf8(output@),
                coupled_files(couplings@),
                couplings@[i].file@,
                couplings@.len(),
            ),
{
    let history: String = lossy_text(output);
    cochange_of(history.as_str())
}

/// The map of the first `n` couplings.
pub open spec fn couplings_json(couplings: Seq<Coupling>, n: nat) -> JsonView
    decreases n,
{
    if n == 0 {
        JsonView::object()
    } else {
        let c = couplings[n - 1];
        couplings_json(couplings, (n - 1) as nat).put(
            c.file@,
            JsonView::Array(text::views(c.partners@).map_values(|t: Seq<char>| JsonView::Text(t))),
        )
    }
}

/// An array of strings.
fn text_array(texts: &Vec<String>) -> (array: Json)
    ensures
        array@ == JsonView::Array(
            text::views(texts@).map_values(|t: Seq<char>| JsonView::Text(t)),
        ),
{
    let ghost all = text::views(texts@).map_values(|t: Seq<char>| JsonView::Text(t));
    let mut items: Vec<Json> = Vec::new();
    let mut i: usize = 0;
    while i < texts.len()
        invariant
            i <= texts@.len(),
            all == text::views(texts@).map_values(|t: Seq<char>| JsonView::Text(t)),
            json::json_views(items@) == all.take(i as int),
        decreases texts@.len() - i,
    {
        let item: Json = Json::text(texts[i].as_str());
        proof {
            json::lemma_json_views_push(items@, item);
            assert(all.take(i + 1) =~= all.take(i as int).push(JsonView::Text(texts@[i as int]@)));
        }
        items.push(item);
        i += 1;
    }
    proof {
        assert(all.take(i as int) =~= all);
        json::lemma_array_view(items);
    }
    Json::Array(items)
}

/// What the browser is told of the coupled files.
pub fn cochange_json(couplings: &Vec<Coupling>) -> (json: Json)
    ensures
        json@ == JsonView::object().put(
            "pairs"@,
            couplings_json(couplings@, couplings@.len()),
        ),
{
    let mut pairs: Json = Json::object();
    let mut i: usize = 0;
    while i < couplings.len()
        invariant
            i <= couplings@.len(),
            pairs@ == couplings_json(couplings@, i as nat),
        decreases couplings@.len() - i,
    {
        pairs = pairs.put(couplings[i].file.as_str(), text_array(&couplings[i].partners));
        i += 1;
    }
    Json::object().put("pairs", pairs)
}

// ---------------------------------------------------------------------------
// What couples two files
// ---------------------------------------------------------------------------

/// Does a commit that tells something name both files? It does where it names from two to
/// twenty-five source files, and these two among them.
pub open spec fn names_both(block: Seq<char>, a: Seq<char>, b: Seq<char>) -> bool {
    &&& 2 <= commit_files(block).len() <= 25
    &&& commit_files(block).contains(a)
    &&& commit_files(block).contains(b)
}

/// How many of the first `n` commits name both files.
pub open spec fn commits_naming(
    blocks: Seq<Seq<char>>,
    a: Seq<char>,
    b: Seq<char>,
    n: nat,
) -> nat
    decreases n,
{
    if n == 0 {
        0
    } else if names_both(blocks[n - 1], a, b) {
        commits_naming(blocks, a, b, (n - 1) as nat) + 1
    } else {
        commits_naming(blocks, a, b, (n - 1) as nat)
    }
}

proof fn lemma_same_pair(x: Seq<char>, y: Seq<char>, a: Seq<char>, b: Seq<char>)
    requires
        x != y,
        a != b,
    ensures
        pair_of(x, y) == pair_of(a, b) <==> (x == a && y == b) || (x == b && y == a),
{
    order::lemma_text_less_total(x, y);
    order::lemma_text_less_total(a, b);
    order::lemma_text_less_asymmetric(x, y);
    order::lemma_text_less_asymmetric(a, b);
}

/// A row holds the pair of its file with any other one that stands in it.
proof fn lemma_row_holds(
    files: Seq<Seq<char>>,
    i: int,
    j: int,
    k: int,
    a: Seq<char>,
    b: Seq<char>,
)
    requires
        0 <= i < k < j <= files.len(),
        a != b,
        (files[i] == a && files[k] == b) || (files[i] == b && files[k] == a),
    ensures
        times(row(files, i, j), pair_of(a, b)) >= 1,
    decreases j,
{
    let p = pair_of(a, b);
    let before = row(files, i, j - 1);
    lemma_times_push(before, pair_of(files[i], files[j - 1]), p);
    if k == j - 1 {
        lemma_same_pair(files[i], files[k], a, b);
    } else {
        lemma_row_holds(files, i, j - 1, k, a, b);
    }
}

proof fn lemma_rows_hold(
    files: Seq<Seq<char>>,
    n: int,
    i: int,
    k: int,
    a: Seq<char>,
    b: Seq<char>,
)
    requires
        0 <= i < k < files.len(),
        i < n <= files.len(),
        a != b,
        (files[i] == a && files[k] == b) || (files[i] == b && files[k] == a),
    ensures
        times(rows(files, n), pair_of(a, b)) >= 1,
    decreases n,
{
    let p = pair_of(a, b);
    lemma_times_add(rows(files, n - 1), row(files, n - 1, files.len() as int), p);
    if i == n - 1 {
        lemma_row_holds(files, i, files.len() as int, k, a, b);
    } else {
        lemma_rows_hold(files, n - 1, i, k, a, b);
    }
}

proof fn lemma_commit_holds(block: Seq<char>, a: Seq<char>, b: Seq<char>)
    requires
        names_both(block, a, b),
        a != b,
    ensures
        times(commit_pairs(block), pair_of(a, b)) >= 1,
{
    let files = commit_files(block);
    let i = choose|i: int| 0 <= i < files.len() && files[i] == a;
    let k = choose|k: int| 0 <= k < files.len() && files[k] == b;
    if i < k {
        lemma_rows_hold(files, files.len() as int, i, k, a, b);
    } else {
        lemma_rows_hold(files, files.len() as int, k, i, a, b);
    }
}

proof fn lemma_times_contains(
    pairs: Seq<(Seq<char>, Seq<char>)>,
    p: (Seq<char>, Seq<char>),
)
    requires
        times(pairs, p) > 0,
    ensures
        pairs.contains(p),
    decreases pairs.len(),
{
    if pairs.last() == p {
        assert(pairs[pairs.len() - 1] == p);
    } else {
        lemma_times_contains(pairs.drop_last(), p);
        let k = choose|k: int| 0 <= k < pairs.drop_last().len() && pairs.drop_last()[k] == p;
        assert(pairs[k] == p);
    }
}

/// Every two different files of a commit of up to twenty-five are paired, wherever they stand
/// in it, and it does not matter which of them is named first. A larger commit pairs nothing.
pub proof fn law_commit_pairs_every_two_files(block: Seq<char>, i: int, j: int)
    requires
        0 <= i < j < commit_files(block).len(),
    ensures
        commit_files(block).len() <= 25 && commit_files(block)[i] != commit_files(block)[j]
            ==> commit_pairs(block).contains(
            pair_of(commit_files(block)[i], commit_files(block)[j]),
        ) && commit_pairs(block).contains(
            pair_of(commit_files(block)[j], commit_files(block)[i]),
        ),
        commit_files(block).len() > 25 ==> commit_pairs(block).len() == 0,
{
    let files = commit_files(block);
    if files.len() <= 25 && files[i] != files[j] {
        lemma_commit_holds(block, files[i], files[j]);
        lemma_commit_holds(block, files[j], files[i]);
        lemma_times_contains(commit_pairs(block), pair_of(files[i], files[j]));
        lemma_times_contains(commit_pairs(block), pair_of(files[j], files[i]));
    }
}

proof fn lemma_naming_counts(blocks: Seq<Seq<char>>, n: nat, a: Seq<char>, b: Seq<char>)
    requires
        n <= blocks.len(),
        a != b,
    ensures
        times(pairs_first(blocks, n), pair_of(a, b)) >= commits_naming(blocks, a, b, n),
    decreases n,
{
    if n > 0 {
        lemma_naming_counts(blocks, (n - 1) as nat, a, b);
        lemma_times_add(
            pairs_first(blocks, (n - 1) as nat),
            commit_pairs(blocks[n - 1]),
            pair_of(a, b),
        );
        if names_both(blocks[n - 1], a, b) {
            lemma_commit_holds(blocks[n - 1], a, b);
        }
    }
}

/// Two different files are coupled where three commits or more name both.
pub proof fn law_three_commits_couple(history: Seq<char>, a: Seq<char>, b: Seq<char>)
    requires
        a != b,
        commits_naming(
            text::split_of(history, '\u{1}'),
            a,
            b,
            text::split_of(history, '\u{1}').len(),
        ) >= 3,
    ensures
        coupled(history, a, b),
        coupled(history, b, a),
{
    let blocks = text::split_of(history, '\u{1}');
    lemma_naming_counts(blocks, blocks.len(), a, b);
    law_coupling_is_symmetric(history, a, b);
}

/// A row holds a pair as often as the other file stands in it.
proof fn lemma_row_exact(
    files: Seq<Seq<char>>,
    i: int,
    j: int,
    a: Seq<char>,
    b: Seq<char>,
)
    requires
        0 <= i,
        j <= files.len(),
        a != b,
        files.no_duplicates(),
    ensures
        times(row(files, i, j), pair_of(a, b)) <= 1,
        times(row(files, i, j), pair_of(a, b)) == 1 ==> i + 1 < j && exists|k: int|
            i < k < j && ((files[i] == a && #[trigger] files[k] == b) || (files[i] == b && files[k]
                == a)),
    decreases j,
{
    if j > i + 1 {
        let p = pair_of(a, b);
        let before = row(files, i, j - 1);
        lemma_row_exact(files, i, j - 1, a, b);
        lemma_times_push(before, pair_of(files[i], files[j - 1]), p);
        assert(files[i] != files[j - 1]);
        lemma_same_pair(files[i], files[j - 1], a, b);
        if pair_of(files[i], files[j - 1]) == p && times(before, p) == 1 {
            let k = choose|k: int|
                i < k < j - 1 && ((files[i] == a && #[trigger] files[k] == b) || (files[i] == b
                    && files[k] == a));
            assert(files[k] == files[j - 1]);
        }
        if pair_of(files[i], files[j - 1]) == p {
            assert(files[j - 1] == b || files[j - 1] == a);
        }
    }
}

proof fn lemma_rows_exact(files: Seq<Seq<char>>, n: int, a: Seq<char>, b: Seq<char>)
    requires
        0 <= n <= files.len(),
        a != b,
        files.no_duplicates(),
    ensures
        times(rows(files, n), pair_of(a, b)) <= 1,
        times(rows(files, n), pair_of(a, b)) == 1 ==> exists|i: int, k: int|
            0 <= i < n && i < k < files.len() && ((#[trigger] files[i] == a && #[trigger] files[k]
                == b) || (files[i] == b && files[k] == a)),
    decreases n,
{
    if n > 0 {
        let p = pair_of(a, b);
        lemma_rows_exact(files, n - 1, a, b);
        lemma_row_exact(files, n - 1, files.len() as int, a, b);
        lemma_times_add(rows(files, n - 1), row(files, n - 1, files.len() as int), p);
        if times(row(files, n - 1, files.len() as int), p) == 1 {
            let k = choose|k: int|
                n - 1 < k < files.len() && ((files[n - 1] == a && #[trigger] files[k] == b) || (
                files[n - 1] == b && files[k] == a));
            if times(rows(files, n - 1), p) == 1 {
                let (i, m) = choose|i: int, m: int|
                    0 <= i < n - 1 && i < m < files.len() && ((#[trigger] files[i] == a
                        && #[trigger] files[m] == b) || (files[i] == b && files[m] == a));
                assert(files[i] != files[n - 1]);
                assert(files[i] == files[k]);
                assert(files[m] == files[n - 1]);
            }
            assert(files[n - 1] == a || files[n - 1] == b);
        }
    }
}

proof fn lemma_naming_counts_exactly(
    blocks: Seq<Seq<char>>,
    n: nat,
    a: Seq<char>,
    b: Seq<char>,
)
    requires
        n <= blocks.len(),
        a != b,
        forall|k: int| 0 <= k < blocks.len() ==> commit_files(#[trigger] blocks[k]).no_duplicates(),
    ensures
        times(pairs_first(blocks, n), pair_of(a, b)) == commits_naming(blocks, a, b, n),
    decreases n,
{
    if n > 0 {
        let block = blocks[n - 1];
        let files = commit_files(block);
        lemma_naming_counts_exactly(blocks, (n - 1) as nat, a, b);
        lemma_times_add(
            pairs_first(blocks, (n - 1) as nat),
            commit_pairs(block),
            pair_of(a, b),
        );
        lemma_rows_exact(files, files.len() as int, a, b);
        if names_both(block, a, b) {
            lemma_commit_holds(block, a, b);
        } else if 2 <= files.len() <= 25 {
            if times(rows(files, files.len() as int), pair_of(a, b)) == 1 {
                let (i, m) = choose|i: int, m: int|
                    0 <= i < files.len() && i < m < files.len() && ((#[trigger] files[i] == a
                        && #[trigger] files[m] == b) || (files[i] == b && files[m] == a));
                assert(files.contains(files[i]) && files.contains(files[m]));
            }
        }
    }
}

/// Where no commit names a file twice, two different files are coupled exactly where three
/// commits or more name both.
pub proof fn law_coupling_counts_commits(history: Seq<char>, a: Seq<char>, b: Seq<char>)
    requires
        a != b,
        forall|k: int|
            0 <= k < text::split_of(history, '\u{1}').len() ==> commit_files(
                #[trigger] text::split_of(history, '\u{1}')[k],
            ).no_duplicates(),
    ensures
        coupled(history, a, b) <==> commits_naming(
            text::split_of(history, '\u{1}'),
            a,
            b,
            text::split_of(history, '\u{1}').len(),
        ) >= 3,
{
    let blocks = text::split_of(history, '\u{1}');
    lemma_naming_counts_exactly(blocks, blocks.len(), a, b);
}

proof fn lemma_files_first(all: Seq<Seq<char>>, n: nat, name: Seq<char>)
    requires
        n <= all.len(),
    ensures
        files_first(all, n).contains(name) <==> name.len() > 0 && project::is_code(name)
            && exists|k: int| 0 <= k < n && text::trim(#[trigger] all[k]) == name,
    decreases n,
{
    if n > 0 {
        let before = files_first(all, (n - 1) as nat);
        let out = files_first(all, n);
        lemma_files_first(all, (n - 1) as nat, name);
        if out.contains(name) {
            let k = choose|k: int| 0 <= k < out.len() && out[k] == name;
            if k < before.len() {
                assert(before.contains(name));
            } else {
                assert(text::trim(all[n - 1]) == name);
            }
        }
        if name.len() > 0 && project::is_code(name) {
            if exists|k: int| 0 <= k < n && text::trim(#[trigger] all[k]) == name {
                let k = choose|k: int| 0 <= k < n && text::trim(#[trigger] all[k]) == name;
                if k < n - 1 {
                    let m = choose|m: int| 0 <= m < before.len() && before[m] == name;
                    assert(out[m] == name);
                } else {
                    assert(out.last() == name);
                }
            }
        }
    }
}

/// The files of a commit are the source files that its lines name, and nothing else.
pub proof fn law_commit_files(block: Seq<char>, name: Seq<char>)
    ensures
        commit_files(block).contains(name) <==> name.len() > 0 && project::is_code(name)
            && exists|k: int|
            0 <= k < text::lines_of(block).len() && text::trim(#[trigger] text::lines_of(block)[k])
                == name,
{
    lemma_files_first(text::lines_of(block), text::lines_of(block).len(), name);
}

/// The partners of a file are those of the listed files that it is coupled with.
pub proof fn law_partners_are_the_coupled(
    history: Seq<char>,
    files: Seq<Seq<char>>,
    file: Seq<char>,
    n: nat,
    other: Seq<char>,
)
    requires
        n <= files.len(),
    ensures
        partners_first(history, files, file, n).contains(other) <==> coupled(history, file, other)
            && exists|k: int| 0 <= k < n && #[trigger] files[k] == other,
    decreases n,
{
    if n > 0 {
        let before = partners_first(history, files, file, (n - 1) as nat);
        let out = partners_first(history, files, file, n);
        law_partners_are_the_coupled(history, files, file, (n - 1) as nat, other);
        if out.contains(other) {
            let k = choose|k: int| 0 <= k < out.len() && out[k] == other;
            if k < before.len() {
                assert(before.contains(other));
            } else {
                assert(files[n - 1] == other);
            }
        }
        if coupled(history, file, other) {
            if exists|k: int| 0 <= k < n && #[trigger] files[k] == other {
                let k = choose|k: int| 0 <= k < n && #[trigger] files[k] == other;
                if k < n - 1 {
                    let m = choose|m: int| 0 <= m < before.len() && before[m] == other;
                    assert(out[m] == other);
                } else {
                    assert(out.last() == other);
                }
            }
        }
    }
}

/// A file has a partner where it is coupled with any, and only there.
pub proof fn law_coupled_files_have_partners(history: Seq<char>, a: Seq<char>, b: Seq<char>)
    ensures
        coupled(history, a, b) ==> has_partner(history, a) && has_partner(history, b),
        (forall|other: Seq<char>| !coupled(history, a, other)) ==> !has_partner(history, a),
{
    law_coupling_is_symmetric(history, a, b);
}

/// Every coupled file is told with its partners, all of them and in order, and no other file.
pub proof fn law_couplings_are_told(couplings: Seq<Coupling>, i: int, other: Seq<char>)
    requires
        0 <= i < couplings.len(),
        forall|a: int, b: int|
            0 <= a < b < couplings.len() ==> (#[trigger] couplings[a]).file@ != (
            #[trigger] couplings[b]).file@,
    ensures
        couplings_json(couplings, couplings.len()).field(couplings[i].file@) == Some(
            JsonView::Array(
                text::views(couplings[i].partners@).map_values(|t: Seq<char>| JsonView::Text(t)),
            ),
        ),
        (forall|k: int| 0 <= k < couplings.len() ==> (#[trigger] couplings[k]).file@ != other)
            ==> couplings_json(couplings, couplings.len()).field(other) is None,
{
    lemma_couplings_told(couplings, couplings.len(), i, other);
}

proof fn lemma_couplings_told(couplings: Seq<Coupling>, n: nat, i: int, other: Seq<char>)
    requires
        n <= couplings.len(),
        forall|a: int, b: int|
            0 <= a < b < couplings.len() ==> (#[trigger] couplings[a]).file@ != (
            #[trigger] couplings[b]).file@,
    ensures
        couplings_json(couplings, n) is Object,
        0 <= i < n ==> couplings_json(couplings, n).field(couplings[i].file@) == Some(
            JsonView::Array(
                text::views(couplings[i].partners@).map_values(|t: Seq<char>| JsonView::Text(t)),
            ),
        ),
        (forall|k: int| 0 <= k < n ==> (#[trigger] couplings[k]).file@ != other)
            ==> couplings_json(couplings, n).field(other) is None,
    decreases n,
{
    if n > 0 {
        lemma_couplings_told(couplings, (n - 1) as nat, i, other);
        assert(couplings[n - 1] == couplings[n - 1]);
    }
}

} // verus!

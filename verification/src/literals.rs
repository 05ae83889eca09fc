//! Finding exact literals in source files.

use crate::paths::{self, path_extension};
use crate::text::{self, contains, lowered, no_texts, push_text, replaced, same_text, trimmed};
use vstd::prelude::*;

verus! {

/// How many files are scanned at most.
pub const LITERAL_SCAN_FILE_LIMIT: usize = 12_000;

/// How many bytes a file may have that is scanned.
pub const LITERAL_SCAN_MAX_FILE_BYTES: u64 = 2_000_000;

/// The extensions of the files that are scanned.
pub const LITERAL_EXTENSIONS: [&'static str; 17] = [
    "ts",
    "tsx",
    "js",
    "jsx",
    "mjs",
    "cjs",
    "py",
    "rs",
    "go",
    "java",
    "kt",
    "rb",
    "php",
    "cs",
    "swift",
    "vue",
    "svelte",
];

/// The directories that are not gone into.
pub const SKIPPED_DIRECTORIES: [&'static str; 13] = [
    ".git",
    "node_modules",
    "dist",
    "build",
    "coverage",
    ".next",
    ".nuxt",
    ".cache",
    "target",
    "vendor",
    ".venv",
    "venv",
    "__pycache__",
];

/// Is this, in whatever case, the extension of a file that is scanned?
pub open spec fn scanned_extension(ext: Seq<char>) -> bool {
    exists|i: int| 0 <= i < 17 && text::lower(ext) == #[trigger] LITERAL_EXTENSIONS@[i]@
}

/// Is this the name of a directory that is not gone into?
pub open spec fn skipped(name: Seq<char>) -> bool {
    exists|i: int| 0 <= i < 13 && name == #[trigger] SKIPPED_DIRECTORIES@[i]@
}

/// Is this, in whatever case, the extension of a file that is scanned?
pub fn is_scanned_extension(ext: &str) -> (scanned: bool)
    ensures
        scanned == scanned_extension(ext@),
{
    let low: String = lowered(ext);
    let mut i: usize = 0;
    while i < 17
        invariant
            i <= 17,
            low@ == text::lower(ext@),
            forall|k: int| 0 <= k < i ==> low@ != #[trigger] LITERAL_EXTENSIONS@[k]@,
        decreases 17 - i,
    {
        if same_text(low.as_str(), LITERAL_EXTENSIONS[i]) {
            assert(low@ == LITERAL_EXTENSIONS@[i as int]@);
            return true;
        }
        i += 1;
    }
    false
}

/// Is a file scanned whose path has this extension, or none?
pub open spec fn scanned_by(ext: Option<Seq<char>>) -> bool {
    ext matches Some(e) && scanned_extension(e)
}

/// Is a file scanned, by the extension that this platform finds in its path?
pub fn literal_source_file(path: &str) -> (scanned: bool)
    ensures
        exists|ext: Option<Seq<char>>|
            paths::extension_found(path@, ext) && scanned == #[trigger] scanned_by(ext),
{
    let found: Option<String> = path_extension(path);
    let scanned: bool = match &found {
        Some(ext) => is_scanned_extension(ext.as_str()),
        None => false,
    };
    assert(scanned == scanned_by(text::opt_view(found)));
    scanned
}

/// Are `found` source files enough for a scan?
pub fn literal_scan_full(found: usize) -> (full: bool)
    ensures
        full == (found >= LITERAL_SCAN_FILE_LIMIT),
{
    found >= LITERAL_SCAN_FILE_LIMIT
}

/// Is a file of this many bytes read in a scan?
pub fn literal_scan_reads(bytes: u64) -> (reads: bool)
    ensures
        reads == (bytes <= LITERAL_SCAN_MAX_FILE_BYTES),
{
    bytes <= LITERAL_SCAN_MAX_FILE_BYTES
}

/// Is this the name of a directory that is not gone into?
pub fn skip_literal_scan_dir(name: &str) -> (skip: bool)
    ensures
        skip == skipped(name@),
{
    let mut i: usize = 0;
    while i < 13
        invariant
            i <= 13,
            forall|k: int| 0 <= k < i ==> name@ != #[trigger] SKIPPED_DIRECTORIES@[k]@,
        decreases 13 - i,
    {
        if same_text(name, SKIPPED_DIRECTORIES[i]) {
            assert(name@ == SKIPPED_DIRECTORIES@[i as int]@);
            return true;
        }
        i += 1;
    }
    false
}

/// A text in the form in which literals are compared: `\/` is `/`, and case does not matter.
pub open spec fn comparable(s: Seq<char>) -> Seq<char> {
    text::lower(text::replace_all(s, "\\/"@, "/"@))
}

/// A text in the form in which literals are compared.
fn to_comparable(s: &str) -> (out: String)
    ensures
        out@ == comparable(s@),
{
    proof {
        reveal_strlit("\\/");
    }
    lowered(replaced(s, "\\/", "/").as_str())
}

/// The first `n` literals in comparable form, without those that are only white space.
pub open spec fn wanted_first(literals: Seq<Seq<char>>, n: nat) -> Seq<Seq<char>>
    decreases n,
{
    if n == 0 {
        Seq::empty()
    } else {
        let before = wanted_first(literals, (n - 1) as nat);
        let form = comparable(text::trim(literals[n - 1]));
        if form.len() > 0 {
            before.push(form)
        } else {
            before
        }
    }
}

/// The literals to look for, in comparable form, without those that are only white space.
pub fn wanted_literals(literals: &Vec<String>) -> (wanted: Vec<String>)
    ensures
        text::views(wanted@) == wanted_first(text::views(literals@), literals@.len()),
{
    let ghost all = text::views(literals@);
    let mut wanted: Vec<String> = no_texts();
    let mut i: usize = 0;
    while i < literals.len()
        invariant
            i <= literals@.len(),
            all == text::views(literals@),
            text::views(wanted@) == wanted_first(all, i as nat),
        decreases literals@.len() - i,
    {
        assert(all[i as int] == literals@[i as int]@);
        let form: String = to_comparable(trimmed(literals[i].as_str()).as_str());
        if !form.as_str().is_empty() {
            push_text(&mut wanted, form.as_str());
        }
        i += 1;
    }
    wanted
}

/// How many of the first `n` literals stand in a text.
pub open spec fn hits_first(form: Seq<char>, wanted: Seq<Seq<char>>, n: nat) -> nat
    decreases n,
{
    if n == 0 {
        0
    } else {
        hits_first(form, wanted, (n - 1) as nat) + if text::has_match(form, wanted[n - 1]) {
            1nat
        } else {
            0nat
        }
    }
}

/// How many of the literals stand in a source.
pub open spec fn hits_of(source: Seq<char>, wanted: Seq<Seq<char>>) -> nat {
    hits_first(comparable(source), wanted, wanted.len())
}

/// A file, and how many of the literals stand in it.
pub struct LiteralTarget {
    pub path: String,
    pub hits: usize,
}

/// What is found in one source file: its path, with forward slashes, and how many of the
/// literals stand in it; nothing where none does.
pub fn literal_target(relative: &str, source: &str, wanted: &Vec<String>) -> (target: Option<
    LiteralTarget,
>)
    ensures
        match target {
            Some(t) => {
                &&& t.hits == hits_of(source@, text::views(wanted@))
                &&& 1 <= t.hits <= wanted@.len()
                &&& t.path@ == text::replace_all(relative@, "\\"@, "/"@)
            },
            None => hits_of(source@, text::views(wanted@)) == 0,
        },
{
    let form: String = to_comparable(source);
    let ghost all = text::views(wanted@);
    let mut hits: usize = 0;
    let mut i: usize = 0;
    while i < wanted.len()
        invariant
            i <= wanted@.len(),
            all == text::views(wanted@),
            form@ == comparable(source@),
            hits <= i,
            hits == hits_first(form@, all, i as nat),
        decreases wanted@.len() - i,
    {
        assert(all[i as int] == wanted@[i as int]@);
        if contains(form.as_str(), wanted[i].as_str()) {
            hits += 1;
        }
        i += 1;
    }
    assert(all.len() == wanted@.len());
    if hits == 0 {
        return None;
    }
    proof {
        reveal_strlit("\\");
    }
    Some(LiteralTarget { path: replaced(relative, "\\", "/"), hits })
}

// ---------------------------------------------------------------------------
// Laws
// ---------------------------------------------------------------------------

/// Files of these languages are scanned, whatever the case of their extension, and files
/// without an extension are not.
pub proof fn law_scanned_extensions(ext: Seq<char>)
    ensures
        (text::lower(ext) == "ts"@ || text::lower(ext) == "tsx"@ || text::lower(ext) == "js"@
            || text::lower(ext) == "jsx"@ || text::lower(ext) == "mjs"@
            || text::lower(ext) == "cjs"@ || text::lower(ext) == "py"@ || text::lower(ext) == "rs"@
            || text::lower(ext) == "go"@ || text::lower(ext) == "java"@ || text::lower(ext) == "kt"@
            || text::lower(ext) == "rb"@ || text::lower(ext) == "php"@ || text::lower(ext) == "cs"@
            || text::lower(ext) == "swift"@ || text::lower(ext) == "vue"@
            || text::lower(ext) == "svelte"@) <==> scanned_extension(ext),
        scanned_extension(ext) ==> scanned_by(Some(ext)),
        !scanned_extension(ext) ==> !scanned_by(Some(ext)),
        !scanned_by(None),
{
    let all = LITERAL_EXTENSIONS@;
    assert(all[0]@ == "ts"@ && all[1]@ == "tsx"@ && all[2]@ == "js"@ && all[3]@ == "jsx"@
        && all[4]@ == "mjs"@ && all[5]@ == "cjs"@ && all[6]@ == "py"@ && all[7]@ == "rs"@
        && all[8]@ == "go"@ && all[9]@ == "java"@ && all[10]@ == "kt"@ && all[11]@ == "rb"@
        && all[12]@ == "php"@ && all[13]@ == "cs"@ && all[14]@ == "swift"@ && all[15]@ == "vue"@
        && all[16]@ == "svelte"@);
}

/// Directories of these names are not gone into, and all others are.
pub proof fn law_skipped_directories(name: Seq<char>)
    ensures
        (name == ".git"@ || name == "node_modules"@ || name == "dist"@ || name == "build"@
            || name == "coverage"@ || name == ".next"@ || name == ".nuxt"@ || name == ".cache"@
            || name == "target"@ || name == "vendor"@ || name == ".venv"@ || name == "venv"@
            || name == "__pycache__"@) <==> skipped(name),
{
    let all = SKIPPED_DIRECTORIES@;
    assert(all[0]@ == ".git"@ && all[1]@ == "node_modules"@ && all[2]@ == "dist"@
        && all[3]@ == "build"@ && all[4]@ == "coverage"@ && all[5]@ == ".next"@
        && all[6]@ == ".nuxt"@ && all[7]@ == ".cache"@ && all[8]@ == "target"@
        && all[9]@ == "vendor"@ && all[10]@ == ".venv"@ && all[11]@ == "venv"@
        && all[12]@ == "__pycache__"@);
}

/// Case does not matter where literals are compared, and neither does whether a slash is
/// escaped.
pub proof fn law_comparing_literals(a: Seq<char>, b: Seq<char>, before: Seq<char>, after: Seq<char>)
    ensures
        !text::has_match(a, "\\/"@) && !text::has_match(b, "\\/"@) && text::lower(a) == text::lower(
            b,
        ) ==> comparable(a) == comparable(b),
        !text::has_match(a, "\\/"@) ==> comparable(a) == text::lower(a),
        !text::has_match(after, "\\/"@) && (forall|i: int|
            0 <= i < before.len() ==> !text::matches_at(before + "\\/"@ + after, "\\/"@, i))
            ==> comparable(before + "\\/"@ + after) == text::lower(before + "/"@ + after),
{
    reveal_strlit("\\/");
    let slash = "\\/"@;
    if !text::has_match(a, slash) {
        text::law_replacing_nothing(a, slash, "/"@);
    }
    if !text::has_match(b, slash) {
        text::law_replacing_nothing(b, slash, "/"@);
    }
    if !text::has_match(after, slash) && (forall|i: int|
        0 <= i < before.len() ==> !text::matches_at(before + slash + after, slash, i)) {
        text::law_replacing_the_first(before, slash, after, "/"@);
        text::law_replacing_nothing(after, slash, "/"@);
    }
}

proof fn lemma_wanted_prefix(literals: Seq<Seq<char>>, last: Seq<char>, n: nat)
    requires
        n <= literals.len(),
    ensures
        wanted_first(literals.push(last), n) == wanted_first(literals, n),
    decreases n,
{
    if n > 0 {
        lemma_wanted_prefix(literals, last, (n - 1) as nat);
        assert(literals.push(last)[n - 1] == literals[n - 1]);
    }
}

/// Every literal is looked for, without the white space around it; one of white space alone
/// is not.
pub proof fn law_wanted_literals(
    literals: Seq<Seq<char>>,
    a: Seq<char>,
    literal: Seq<char>,
    b: Seq<char>,
)
    requires
        forall|i: int| 0 <= i < a.len() ==> text::is_space(#[trigger] a[i]),
        forall|i: int| 0 <= i < b.len() ==> text::is_space(#[trigger] b[i]),
        literal.len() > 0 && !text::is_space(literal[0]) && !text::is_space(literal.last()),
        !text::has_match(literal, "\\/"@),
    ensures
        wanted_first(literals.push(a + literal + b), literals.len() + 1) == wanted_first(
            literals,
            literals.len(),
        ).push(text::lower(literal)),
        wanted_first(literals.push(a), literals.len() + 1) == wanted_first(
            literals,
            literals.len(),
        ),
        wanted_first(literals, 0) == Seq::<Seq<char>>::empty(),
{
    let e = Seq::<char>::empty();
    lemma_wanted_prefix(literals, a + literal + b, literals.len());
    lemma_wanted_prefix(literals, a, literals.len());
    text::law_trimming(a, literal, b, text::CharClass::Space);
    text::lemma_trim_start_skips(a, e, text::CharClass::Space);
    assert(a + e =~= a);
    law_comparing_literals(literal, e, e, e);
    text::law_lower_case(literal, 0);
    reveal_strlit("\\/");
    assert(!text::has_match(e, "\\/"@));
    text::law_replacing_nothing(e, "\\/"@, "/"@);
    assert(comparable(e) =~= e);
}

proof fn lemma_hits_split(form: Seq<char>, a: Seq<Seq<char>>, b: Seq<Seq<char>>, n: nat)
    requires
        n <= b.len(),
    ensures
        hits_first(form, a + b, a.len() + n) == hits_first(form, a, a.len()) + hits_first(
            form,
            b,
            n,
        ),
    decreases n,
{
    if n == 0 {
        lemma_hits_prefix(form, a, b, a.len());
    } else {
        lemma_hits_split(form, a, b, (n - 1) as nat);
        assert((a + b)[a.len() + n - 1] == b[n - 1]);
    }
}

proof fn lemma_hits_prefix(form: Seq<char>, a: Seq<Seq<char>>, b: Seq<Seq<char>>, n: nat)
    requires
        n <= a.len(),
    ensures
        hits_first(form, a + b, n) == hits_first(form, a, n),
    decreases n,
{
    if n > 0 {
        lemma_hits_prefix(form, a, b, (n - 1) as nat);
    }
}

/// The hits of two lists of literals are those of the one and those of the other, and one
/// literal is one hit where the source holds it, in whatever case, and none where it does not.
pub proof fn law_hits_add_up(
    source: Seq<char>,
    a: Seq<Seq<char>>,
    b: Seq<Seq<char>>,
    literal: Seq<char>,
)
    ensures
        hits_of(source, a + b) == hits_of(source, a) + hits_of(source, b),
        text::has_match(comparable(source), literal) ==> hits_of(source, seq![literal]) == 1,
        !text::has_match(comparable(source), literal) ==> hits_of(source, seq![literal]) == 0,
{
    lemma_hits_split(comparable(source), a, b, b.len());
    reveal_with_fuel(hits_first, 2);
    assert(seq![literal][0] == literal);
}

/// A literal that stands in a source is found there.
pub proof fn law_literal_is_found(before: Seq<char>, literal: Seq<char>, after: Seq<char>)
    requires
        !text::has_match(before + literal + after, "\\/"@),
    ensures
        hits_of(before + literal + after, seq![text::lower(literal)]) == 1,
{
    let s = before + literal + after;
    let e = Seq::<char>::empty();
    law_comparing_literals(s, s, e, e);
    text::law_holding(text::lower(before), text::lower(literal), text::lower(after), e, 0);
    assert(text::lower(s) =~= text::lower(before) + text::lower(literal) + text::lower(after));
    law_hits_add_up(s, Seq::empty(), Seq::empty(), text::lower(literal));
}

} // verus!

//! What the output of test runners and linters says: how many failures, and which.

use crate::digits::{self, parse_number};
use crate::text::{
    self, chars_of, contains, count_matches, find_chars, join, lines, lowered, no_texts, same_text,
    starts_with, trim_end_chars, trim_start_class, trimmed, words, CharClass,
};
use vstd::prelude::*;
use vstd::slice::slice_subrange;

verus! {

// ---------------------------------------------------------------------------
// Terminal colours
// ---------------------------------------------------------------------------

/// The character that begins a terminal's escape sequence.
pub const ESCAPE: char = '\u{1b}';

/// `s` without the sequences that colour it: from an escape up to the next `m`, or to the
/// end where there is none.
pub open spec fn plain(s: Seq<char>) -> Seq<char>
    decreases s.len(),
{
    if s.len() == 0 {
        s
    } else if s[0] == ESCAPE {
        after_m(s.skip(1))
    } else {
        seq![s[0]] + plain(s.skip(1))
    }
}

/// What is left of a text whose start, up to an `m`, belongs to a colour sequence.
pub open spec fn after_m(s: Seq<char>) -> Seq<char>
    decreases s.len(),
{
    if s.len() == 0 {
        s
    } else if s[0] == 'm' {
        plain(s.skip(1))
    } else {
        after_m(s.skip(1))
    }
}

/// `s` without the sequences that colour it.
pub fn strip_ansi(s: &str) -> (out: String)
    ensures
        out@ == plain(s@),
{
    let c: Vec<char> = chars_of(s);
    let mut out: String = String::new();
    let mut i: usize = 0;
    let mut inside: bool = false;
    assert(c@.skip(0) =~= c@);
    assert(out@ + plain(c@) =~= plain(c@));
    while i < c.len()
        invariant
            i <= c@.len(),
            out@ + (if inside {
                after_m(c@.skip(i as int))
            } else {
                plain(c@.skip(i as int))
            }) == plain(c@),
        decreases c@.len() - i,
    {
        let ghost rest = c@.skip(i as int);
        let ghost before = out@;
        assert(rest.skip(1) =~= c@.skip(i + 1));
        if inside {
            if c[i] == 'm' {
                inside = false;
            }
        } else if c[i] == ESCAPE {
            inside = true;
        } else {
            out.push(c[i]);
            assert(before.push(rest[0]) + plain(c@.skip(i + 1)) =~= before + (seq![rest[0]] + plain(
                c@.skip(i + 1),
            )));
        }
        i += 1;
    }
    assert(out@ + c@.skip(i as int) =~= out@);
    out
}

/// A stripped text holds no escape.
pub proof fn law_plain_has_no_escape(s: Seq<char>)
    ensures
        !plain(s).contains(ESCAPE),
        !after_m(s).contains(ESCAPE),
    decreases s.len(),
{
    if s.len() > 0 {
        law_plain_has_no_escape(s.skip(1));
        if s[0] != ESCAPE {
            let rest = plain(s.skip(1));
            let out = seq![s[0]] + rest;
            if out.contains(ESCAPE) {
                let k = choose|k: int| 0 <= k < out.len() && out[k] == ESCAPE;
                assert(k > 0);
                assert(rest[k - 1] == ESCAPE);
            }
        }
    }
}

/// A text without an escape stays as it is.
pub proof fn law_plain_keeps_plain_text(s: Seq<char>)
    requires
        !s.contains(ESCAPE),
    ensures
        plain(s) == s,
    decreases s.len(),
{
    if s.len() > 0 {
        assert(s.contains(s[0]));
        assert forall|k: int| 0 <= k < s.skip(1).len() implies s.skip(1)[k] != ESCAPE by {
            assert(s.contains(s[k + 1]));
        }
        law_plain_keeps_plain_text(s.skip(1));
        assert(seq![s[0]] + s.skip(1) =~= s);
    }
}

/// Stripping a second time changes nothing.
pub proof fn law_plain_is_idempotent(s: Seq<char>)
    ensures
        plain(plain(s)) == plain(s),
{
    law_plain_has_no_escape(s);
    law_plain_keeps_plain_text(plain(s));
}

// ---------------------------------------------------------------------------
// Counting
// ---------------------------------------------------------------------------

/// Does a line speak of an error, in whatever case?
pub open spec fn error_line(line: Seq<char>) -> bool {
    text::has_match(text::lower(line), "error"@)
}

/// How many of the first `n` lines speak of an error.
pub open spec fn error_lines_first(all: Seq<Seq<char>>, n: nat) -> nat
    decreases n,
{
    if n == 0 {
        0
    } else {
        error_lines_first(all, (n - 1) as nat) + if error_line(all[n - 1]) {
            1nat
        } else {
            0nat
        }
    }
}

/// How many errors a linter's output tells of: those that `tsc` marks, or else the lines
/// that speak of an error.
pub open spec fn errors_in(output: Seq<char>) -> nat {
    let clean = plain(output);
    let marked = text::count_of(clean, "error TS"@);
    if marked > 0 {
        marked
    } else {
        error_lines_first(text::lines_of(clean), text::lines_of(clean).len())
    }
}

/// Does a line speak of an error?
fn is_error_line(line: &str) -> (found: bool)
    ensures
        found == error_line(line@),
{
    contains(lowered(line).as_str(), "error")
}

/// How many errors a linter's output tells of.
pub fn count_errors(output: &str) -> (n: usize)
    ensures
        n == errors_in(output@),
{
    let clean: String = strip_ansi(output);
    let marked: usize = count_matches(clean.as_str(), "error TS");
    if marked > 0 {
        return marked;
    }
    let all: Vec<String> = lines(clean.as_str());
    let ghost views = text::views(all@);
    let mut n: usize = 0;
    let mut i: usize = 0;
    while i < all.len()
        invariant
            i <= all@.len(),
            views == text::views(all@),
            n <= i,
            n == error_lines_first(views, i as nat),
        decreases all@.len() - i,
    {
        assert(views[i as int] == all@[i as int]@);
        if is_error_line(all[i].as_str()) {
            n += 1;
        }
        i += 1;
    }
    n
}

/// The digits at the end of `s`.
pub open spec fn last_digits(s: Seq<char>) -> Seq<char>
    decreases s.len(),
{
    if s.len() > 0 && text::is_digit(s.last()) {
        last_digits(s.drop_last()).push(s.last())
    } else {
        Seq::empty()
    }
}

/// The number before the word at position `i`: the digits behind which only white space stands.
pub open spec fn number_before(s: Seq<char>, i: int) -> Option<nat> {
    digits::number_of(
        last_digits(text::trim_end_of(s.take(i), CharClass::Space)),
        i64::MAX as nat,
    )
}

/// The first number that stands before a `failed`, from position `from` on.
pub open spec fn failed_from(s: Seq<char>, from: int) -> Option<nat>
    decreases s.len() + 7 - from,
{
    match text::first_match(s, "failed"@, from) {
        None => None,
        Some(i) => if from <= i <= s.len() {
            match number_before(s, i) {
                Some(n) => Some(n),
                None => failed_from(s, i + 6),
            }
        } else {
            None
        },
    }
}

/// Does a trimmed line tell of a failing test or file?
pub open spec fn failure_line(t: Seq<char>) -> bool {
    ||| text::begins(t, "×"@)
    ||| text::begins(t, "✗"@)
    ||| text::begins(t, "✕"@)
    ||| text::begins(t, "❯"@)
    ||| text::begins(t, "FAIL"@)
    ||| text::has_match(t, "--- FAIL"@)
}

/// Does a line of an output without colours tell of a failing test or file?
pub open spec fn tells_failure(clean: Seq<char>) -> bool {
    exists|i: int|
        0 <= i < text::lines_of(clean).len() && failure_line(
            text::trim(#[trigger] text::lines_of(clean)[i]),
        )
}

/// Does a line of a runner's output tell of a failing test or file?
pub open spec fn failure_told(output: Seq<char>) -> bool {
    tells_failure(plain(output))
}

/// Does a trimmed line tell of a failing test or file?
fn is_failure_line(t: &str) -> (failing: bool)
    ensures
        failing == failure_line(t@),
{
    starts_with(t, "×") || starts_with(t, "✗") || starts_with(t, "✕") || starts_with(t, "❯")
        || starts_with(t, "FAIL") || contains(t, "--- FAIL")
}

/// Does a line of an output without colours tell of a failing test or file?
fn find_failure(clean: &str) -> (found: bool)
    ensures
        found == tells_failure(clean@),
{
    let all: Vec<String> = lines(clean);
    let ghost views = text::views(all@);
    let mut i: usize = 0;
    while i < all.len()
        invariant
            i <= all@.len(),
            views == text::views(all@),
            views == text::lines_of(clean@),
            forall|k: int| 0 <= k < i ==> !failure_line(text::trim(#[trigger] views[k])),
        decreases all@.len() - i,
    {
        assert(views[i as int] == all@[i as int]@);
        if is_failure_line(trimmed(all[i].as_str()).as_str()) {
            return true;
        }
        i += 1;
    }
    false
}

/// Does a line of a runner's output tell of a failing test or file?
pub fn tells_of_failure(output: &str) -> (told: bool)
    ensures
        told == failure_told(output@),
{
    find_failure(strip_ansi(output).as_str())
}

/// Does an output show that tests passed? It does where it says `passed` or what `cargo`
/// says of a suite, and where `ok` is a word of it and no line tells of a failure.
pub open spec fn shows_success(clean: Seq<char>) -> bool {
    ||| text::has_match(clean, "passed"@)
    ||| (text::words_of(clean).contains("ok"@) && !tells_failure(clean))
    ||| text::has_match(clean, "test result: ok"@)
}

/// How many failures a runner's output tells of: the first number before a `failed`, or
/// else none where it shows success; where it says neither, it is unknown.
pub open spec fn failures_in(output: Seq<char>) -> Option<nat> {
    let clean = plain(output);
    match failed_from(clean, 0) {
        Some(n) => Some(n),
        None => if shows_success(clean) {
            Some(0)
        } else {
            None
        },
    }
}

/// The digits at the end of a slice.
fn read_last_digits<'a>(s: &'a [char]) -> (d: &'a [char])
    ensures
        d@ == last_digits(s@),
{
    let mut i: usize = s.len();
    assert(s@.take(i as int) =~= s@);
    assert(last_digits(s@) =~= last_digits(s@.take(i as int)) + s@.subrange(i as int, i as int));
    while i > 0 && '0' <= s[i - 1] && s[i - 1] <= '9'
        invariant
            i <= s@.len(),
            last_digits(s@) == last_digits(s@.take(i as int)) + s@.skip(i as int),
        decreases i,
    {
        let ghost t = s@.take(i as int);
        assert(t.drop_last() =~= s@.take(i - 1));
        assert(last_digits(t) == last_digits(s@.take(i - 1)).push(s@[i - 1]));
        assert(last_digits(s@.take(i - 1)).push(s@[i - 1]) + s@.skip(i as int) =~= last_digits(
            s@.take(i - 1),
        ) + s@.skip(i - 1));
        i -= 1;
    }
    let d: &[char] = slice_subrange(s, i, s.len());
    assert(d@ =~= s@.skip(i as int));
    assert(last_digits(s@.take(i as int)) + s@.skip(i as int) =~= s@.skip(i as int));
    d
}

/// How many failures a runner's output tells of.
pub fn parse_failed(output: &str) -> (failed: Option<i64>)
    ensures
        match failed {
            Some(n) => n >= 0 && failures_in(output@) == Some(n as nat),
            None => failures_in(output@) is None,
        },
{
    let clean: String = strip_ansi(output);
    let s: Vec<char> = chars_of(clean.as_str());
    let word: Vec<char> = chars_of("failed");
    proof {
        reveal_strlit("failed");
    }
    let mut from: usize = 0;
    let mut done: bool = false;
    while !done
        invariant
            s@ == plain(output@),
            word@ == "failed"@,
            word@.len() == 6,
            from <= s@.len(),
            !done ==> failed_from(s@, 0) == failed_from(s@, from as int),
            done ==> failed_from(s@, 0) is None,
        decreases
                s@.len() - from,
                if done {
                    0int
                } else {
                    1int
                },
    {
        match find_chars(s.as_slice(), word.as_slice(), from) {
            None => {
                done = true;
            },
            Some(i) => {
                proof {
                    text::lemma_first_match(s@, word@, from as int);
                    assert(text::matches_at(s@, word@, i as int));
                    assert(s@.subrange(0, i as int) =~= s@.take(i as int));
                }
                let before: &[char] = trim_end_chars(
                    slice_subrange(s.as_slice(), 0, i),
                    CharClass::Space,
                );
                if let Some(n) = parse_number(read_last_digits(before), i64::MAX as u64) {
                    return Some(n as i64);
                }
                from = i + 6;
            },
        }
    }
    if contains(clean.as_str(), "passed") || contains(clean.as_str(), "test result: ok") {
        return Some(0);
    }
    let all: Vec<String> = words(clean.as_str());
    if holds_text(&all, "ok") && !find_failure(clean.as_str()) {
        return Some(0);
    }
    None
}

// ---------------------------------------------------------------------------
// Which tests fail
// ---------------------------------------------------------------------------

/// Is `t` in the list?
pub fn holds_text(list: &Vec<String>, t: &str) -> (held: bool)
    ensures
        held == text::views(list@).contains(t@),
{
    let ghost all = text::views(list@);
    let mut i: usize = 0;
    while i < list.len()
        invariant
            i <= list@.len(),
            all == text::views(list@),
            forall|k: int| 0 <= k < i ==> #[trigger] all[k] != t@,
        decreases list@.len() - i,
    {
        assert(all[i as int] == list@[i as int]@);
        if same_text(list[i].as_str(), t) {
            return true;
        }
        i += 1;
    }
    false
}

/// `s` without its digits.
pub open spec fn without_digits(s: Seq<char>) -> Seq<char>
    decreases s.len(),
{
    if s.len() == 0 {
        s
    } else if text::is_digit(s.last()) {
        without_digits(s.drop_last())
    } else {
        without_digits(s.drop_last()).push(s.last())
    }
}

/// The fingerprint of a failing line: its words without digits, so that timings and
/// counts do not matter. One of four bytes or fewer is none.
pub open spec fn fingerprint_of(line: Seq<char>) -> Option<Seq<char>> {
    let t = text::trim(line);
    let norm = text::join_of(text::words_of(without_digits(t)), " "@);
    if failure_line(t) && vstd::utf8::encode_utf8(norm).len() > 4 {
        Some(norm)
    } else {
        None
    }
}

/// `list` with `t` behind it, where it is not in it yet.
pub open spec fn with_text(list: Seq<Seq<char>>, t: Seq<char>) -> Seq<Seq<char>> {
    if list.contains(t) {
        list
    } else {
        list.push(t)
    }
}

/// The fingerprints of the first `n` lines, each one once.
pub open spec fn fingerprints_first(all: Seq<Seq<char>>, n: nat) -> Seq<Seq<char>>
    decreases n,
{
    if n == 0 {
        Seq::empty()
    } else {
        let before = fingerprints_first(all, (n - 1) as nat);
        match fingerprint_of(all[n - 1]) {
            Some(f) => with_text(before, f),
            None => before,
        }
    }
}

/// The fingerprints of a runner's output, each one once.
pub open spec fn fingerprints_in(output: Seq<char>) -> Seq<Seq<char>> {
    let all = text::lines_of(plain(output));
    fingerprints_first(all, all.len())
}

proof fn lemma_fingerprint_line(all: Seq<Seq<char>>, n: nat)
    requires
        n <= all.len(),
        fingerprints_first(all, n).len() > 0,
    ensures
        exists|i: int| 0 <= i < n && failure_line(text::trim(#[trigger] all[i])),
    decreases n,
{
    if fingerprint_of(all[n - 1]) is None {
        lemma_fingerprint_line(all, (n - 1) as nat);
    } else {
        assert(failure_line(text::trim(all[n - 1])));
    }
}

/// An output with a fingerprint has a line that tells of a failure.
pub proof fn lemma_fingerprint_tells_failure(output: Seq<char>)
    requires
        fingerprints_in(output).len() > 0,
    ensures
        failure_told(output),
{
    let all = text::lines_of(plain(output));
    lemma_fingerprint_line(all, all.len());
}

/// `t` without its digits.
fn drop_digits(t: &str) -> (out: String)
    ensures
        out@ == without_digits(t@),
{
    let s: Vec<char> = chars_of(t);
    let mut out: String = String::new();
    let mut i: usize = 0;
    assert(s@.take(0) =~= Seq::empty());
    while i < s.len()
        invariant
            i <= s@.len(),
            out@ == without_digits(s@.take(i as int)),
        decreases s@.len() - i,
    {
        assert(s@.take(i + 1).drop_last() =~= s@.take(i as int));
        if !('0' <= s[i] && s[i] <= '9') {
            out.push(s[i]);
        }
        i += 1;
    }
    assert(s@.take(i as int) =~= s@);
    out
}

/// The fingerprint of a failing line.
fn line_fingerprint(line: &str) -> (fingerprint: Option<String>)
    ensures
        text::opt_view(fingerprint) == fingerprint_of(line@),
{
    let t: String = trimmed(line);
    if !is_failure_line(t.as_str()) {
        return None;
    }
    let parts: Vec<String> = words(drop_digits(t.as_str()).as_str());
    let norm: String = join(&parts, " ");
    if norm.as_str().as_bytes().len() > 4 {
        Some(norm)
    } else {
        None
    }
}

/// The fingerprints of a runner's output: what fails, each failure once. Comparing them
/// shows a new failure even where the number of failures stays the same.
pub fn failure_fingerprints(output: &str) -> (fingerprints: Vec<String>)
    ensures
        text::views(fingerprints@) == fingerprints_in(output@),
{
    let all: Vec<String> = lines(strip_ansi(output).as_str());
    let ghost views = text::views(all@);
    let mut found: Vec<String> = no_texts();
    let mut i: usize = 0;
    while i < all.len()
        invariant
            i <= all@.len(),
            views == text::views(all@),
            text::views(found@) == fingerprints_first(views, i as nat),
        decreases all@.len() - i,
    {
        assert(views[i as int] == all@[i as int]@);
        if let Some(f) = line_fingerprint(all[i].as_str()) {
            if !holds_text(&found, f.as_str()) {
                proof {
                    text::lemma_views_push(found@, f);
                }
                found.push(f);
            }
        }
        i += 1;
    }
    found
}

/// The first `n` texts of `after` that are not in `before`.
pub open spec fn new_first(
    after: Seq<Seq<char>>,
    before: Seq<Seq<char>>,
    n: nat,
) -> Seq<Seq<char>>
    decreases n,
{
    if n == 0 {
        Seq::empty()
    } else {
        let rest = new_first(after, before, (n - 1) as nat);
        if before.contains(after[n - 1]) {
            rest
        } else {
            rest.push(after[n - 1])
        }
    }
}

/// The texts of `after` that are not in `before`.
pub open spec fn new_among(after: Seq<Seq<char>>, before: Seq<Seq<char>>) -> Seq<Seq<char>> {
    new_first(after, before, after.len())
}

/// The texts of `after` that are not in `before`.
pub fn new_texts(after: &Vec<String>, before: &Vec<String>) -> (fresh: Vec<String>)
    ensures
        text::views(fresh@) == new_among(text::views(after@), text::views(before@)),
{
    let ghost all = text::views(after@);
    let mut fresh: Vec<String> = no_texts();
    let mut i: usize = 0;
    while i < after.len()
        invariant
            i <= after@.len(),
            all == text::views(after@),
            text::views(fresh@) == new_first(all, text::views(before@), i as nat),
        decreases after@.len() - i,
    {
        assert(all[i as int] == after@[i as int]@);
        if !holds_text(before, after[i].as_str()) {
            let t: String = after[i].clone();
            proof {
                text::lemma_views_push(fresh@, t);
            }
            fresh.push(t);
        }
        i += 1;
    }
    fresh
}

proof fn lemma_new_first(after: Seq<Seq<char>>, before: Seq<Seq<char>>, n: nat)
    requires
        n <= after.len(),
    ensures
        forall|t: Seq<char>|
            #![trigger new_first(after, before, n).contains(t)]
            new_first(after, before, n).contains(t) <==> !before.contains(t) && exists|i: int|
                0 <= i < n && #[trigger] after[i] == t,
    decreases n,
{
    let out = new_first(after, before, n);
    if n > 0 {
        let rest = new_first(after, before, (n - 1) as nat);
        lemma_new_first(after, before, (n - 1) as nat);
        let last = after[n - 1];
        assert forall|t: Seq<char>|
            #![trigger out.contains(t)]
            out.contains(t) <==> !before.contains(t) && exists|i: int|
                0 <= i < n && #[trigger] after[i] == t by {
            if out.contains(t) {
                let k = choose|k: int| 0 <= k < out.len() && out[k] == t;
                if k < rest.len() {
                    assert(rest[k] == t);
                    assert(rest.contains(t));
                } else {
                    assert(last == t);
                }
            }
            if !before.contains(t) && exists|i: int| 0 <= i < n && #[trigger] after[i] == t {
                let i = choose|i: int| 0 <= i < n && #[trigger] after[i] == t;
                if i < n - 1 {
                    assert(rest.contains(t));
                    let k = choose|k: int| 0 <= k < rest.len() && rest[k] == t;
                    assert(out[k] == t);
                } else {
                    assert(out[out.len() - 1] == t);
                }
            }
        }
    }
}

/// What is new is what is there now and was not there before.
pub proof fn law_new_among(after: Seq<Seq<char>>, before: Seq<Seq<char>>, t: Seq<char>)
    ensures
        new_among(after, before).contains(t) <==> after.contains(t) && !before.contains(t),
{
    lemma_new_first(after, before, after.len());
}

/// Nothing is new where nothing changed.
pub proof fn law_nothing_new_among_the_same(list: Seq<Seq<char>>)
    ensures
        new_among(list, list).len() == 0,
{
    let out = new_among(list, list);
    if out.len() > 0 {
        assert(out.contains(out[0]));
        law_new_among(list, list, out[0]);
    }
}

// ---------------------------------------------------------------------------
// Digits do not matter
// ---------------------------------------------------------------------------

/// Do two texts differ in nothing but which digits stand where digits stand?
pub open spec fn same_but_digits(a: Seq<char>, b: Seq<char>) -> bool {
    a.len() == b.len() && forall|i: int|
        0 <= i < a.len() ==> #[trigger] a[i] == b[i] || (text::is_digit(a[i]) && text::is_digit(
            b[i],
        ))
}

/// Do two lists of texts differ in nothing but digits?
spec fn all_same_but_digits(a: Seq<Seq<char>>, b: Seq<Seq<char>>) -> bool {
    a.len() == b.len() && forall|i: int|
        0 <= i < a.len() ==> same_but_digits(#[trigger] a[i], b[i])
}

proof fn lemma_same_part(a: Seq<char>, b: Seq<char>, i: int, j: int)
    requires
        same_but_digits(a, b),
        0 <= i <= j <= a.len(),
    ensures
        same_but_digits(a.subrange(i, j), b.subrange(i, j)),
{
    assert forall|k: int| 0 <= k < j - i implies #[trigger] a.subrange(i, j)[k] == b.subrange(
        i,
        j,
    )[k] || (text::is_digit(a.subrange(i, j)[k]) && text::is_digit(b.subrange(i, j)[k])) by {
        assert(a[i + k] == b[i + k] || (text::is_digit(a[i + k]) && text::is_digit(b[i + k])));
    }
}

proof fn lemma_same_skip(a: Seq<char>, b: Seq<char>, n: int)
    requires
        same_but_digits(a, b),
        0 <= n <= a.len(),
    ensures
        same_but_digits(a.skip(n), b.skip(n)),
{
    lemma_same_part(a, b, n, a.len() as int);
    assert(a.skip(n) =~= a.subrange(n, a.len() as int));
    assert(b.skip(n) =~= b.subrange(n, b.len() as int));
}

proof fn lemma_same_take(a: Seq<char>, b: Seq<char>, n: int)
    requires
        same_but_digits(a, b),
        0 <= n <= a.len(),
    ensures
        same_but_digits(a.take(n), b.take(n)),
{
    lemma_same_part(a, b, 0, n);
    assert(a.take(n) =~= a.subrange(0, n));
    assert(b.take(n) =~= b.subrange(0, n));
}

proof fn lemma_same_plain(a: Seq<char>, b: Seq<char>)
    requires
        same_but_digits(a, b),
    ensures
        same_but_digits(plain(a), plain(b)),
        same_but_digits(after_m(a), after_m(b)),
    decreases a.len(),
{
    if a.len() > 0 {
        lemma_same_skip(a, b, 1);
        lemma_same_plain(a.skip(1), b.skip(1));
        assert(a[0] == b[0] || (text::is_digit(a[0]) && text::is_digit(b[0])));
        if a[0] != ESCAPE {
            let x = plain(a.skip(1));
            let y = plain(b.skip(1));
            let p = seq![a[0]] + x;
            let q = seq![b[0]] + y;
            assert forall|k: int| 0 <= k < p.len() implies #[trigger] p[k] == q[k] || (
            text::is_digit(p[k]) && text::is_digit(q[k])) by {
                if k > 0 {
                    assert(x[k - 1] == y[k - 1] || (text::is_digit(x[k - 1]) && text::is_digit(
                        y[k - 1],
                    )));
                }
            }
        }
    }
}

proof fn lemma_same_run(a: Seq<char>, b: Seq<char>, c: char)
    requires
        same_but_digits(a, b),
        !text::is_digit(c),
    ensures
        text::run_before(a, c) == text::run_before(b, c),
        text::run_before(a, c) <= a.len(),
    decreases a.len(),
{
    if a.len() > 0 {
        lemma_same_skip(a, b, 1);
        assert(a[0] == b[0] || (text::is_digit(a[0]) && text::is_digit(b[0])));
        lemma_same_run(a.skip(1), b.skip(1), c);
    }
}

proof fn lemma_same_lines(a: Seq<char>, b: Seq<char>)
    requires
        same_but_digits(a, b),
    ensures
        all_same_but_digits(text::lines_of(a), text::lines_of(b)),
    decreases a.len(),
{
    lemma_same_run(a, b, '\n');
    let n = text::run_before(a, '\n') as int;
    if a.len() > 0 && n < a.len() {
        lemma_same_take(a, b, n);
        lemma_same_skip(a, b, n + 1);
        lemma_same_lines(a.skip(n + 1), b.skip(n + 1));
        let s = a.take(n);
        let t = b.take(n);
        if n > 0 {
            assert(s[n - 1] == t[n - 1] || (text::is_digit(s[n - 1]) && text::is_digit(t[n - 1])));
            lemma_same_take(s, t, n - 1);
            assert(s.drop_last() =~= s.take(n - 1));
            assert(t.drop_last() =~= t.take(n - 1));
        }
        let p = text::lines_of(a);
        let q = text::lines_of(b);
        assert forall|k: int| 0 <= k < p.len() implies same_but_digits(#[trigger] p[k], q[k]) by {
            if k > 0 {
                assert(p[k] == text::lines_of(a.skip(n + 1))[k - 1]);
                assert(q[k] == text::lines_of(b.skip(n + 1))[k - 1]);
            }
        }
    }
}

proof fn lemma_same_trim_start(a: Seq<char>, b: Seq<char>)
    requires
        same_but_digits(a, b),
    ensures
        same_but_digits(
            text::trim_start_of(a, CharClass::Space),
            text::trim_start_of(b, CharClass::Space),
        ),
    decreases a.len(),
{
    if a.len() > 0 {
        assert(a[0] == b[0] || (text::is_digit(a[0]) && text::is_digit(b[0])));
        lemma_same_skip(a, b, 1);
        lemma_same_trim_start(a.skip(1), b.skip(1));
    }
}

proof fn lemma_same_trim_end(a: Seq<char>, b: Seq<char>)
    requires
        same_but_digits(a, b),
    ensures
        same_but_digits(
            text::trim_end_of(a, CharClass::Space),
            text::trim_end_of(b, CharClass::Space),
        ),
    decreases a.len(),
{
    if a.len() > 0 {
        let n = a.len() - 1;
        assert(a[n] == b[n] || (text::is_digit(a[n]) && text::is_digit(b[n])));
        lemma_same_take(a, b, n);
        assert(a.drop_last() =~= a.take(n));
        assert(b.drop_last() =~= b.take(n));
        lemma_same_trim_end(a.drop_last(), b.drop_last());
    }
}

/// A text without digits stands in both at the same places.
proof fn lemma_same_match(a: Seq<char>, b: Seq<char>, pat: Seq<char>, i: int)
    requires
        same_but_digits(a, b),
        forall|k: int| 0 <= k < pat.len() ==> !text::is_digit(#[trigger] pat[k]),
    ensures
        text::matches_at(a, pat, i) == text::matches_at(b, pat, i),
{
    if 0 <= i && i + pat.len() <= a.len() {
        let x = a.subrange(i, i + pat.len());
        let y = b.subrange(i, i + pat.len());
        lemma_same_part(a, b, i, i + pat.len());
        if x == pat {
            assert forall|k: int| 0 <= k < pat.len() implies y[k] == pat[k] by {
                assert(x[k] == y[k] || (text::is_digit(x[k]) && text::is_digit(y[k])));
                assert(!text::is_digit(pat[k]));
            }
            assert(y =~= pat);
        }
        if y == pat {
            assert forall|k: int| 0 <= k < pat.len() implies x[k] == pat[k] by {
                assert(x[k] == y[k] || (text::is_digit(x[k]) && text::is_digit(y[k])));
                assert(!text::is_digit(pat[k]));
            }
            assert(x =~= pat);
        }
    }
}

proof fn lemma_same_failure_line(a: Seq<char>, b: Seq<char>)
    requires
        same_but_digits(a, b),
    ensures
        failure_line(a) == failure_line(b),
{
    reveal_strlit("×");
    reveal_strlit("✗");
    reveal_strlit("✕");
    reveal_strlit("❯");
    reveal_strlit("FAIL");
    reveal_strlit("--- FAIL");
    lemma_same_match(a, b, "×"@, 0);
    lemma_same_match(a, b, "✗"@, 0);
    lemma_same_match(a, b, "✕"@, 0);
    lemma_same_match(a, b, "❯"@, 0);
    lemma_same_match(a, b, "FAIL"@, 0);
    let pat = "--- FAIL"@;
    assert forall|i: int| text::matches_at(a, pat, i) == text::matches_at(b, pat, i) by {
        lemma_same_match(a, b, pat, i);
    }
    if text::has_match(a, pat) {
        let i = choose|i: int| text::matches_at(a, pat, i);
        assert(text::matches_at(b, pat, i));
    }
    if text::has_match(b, pat) {
        let i = choose|i: int| text::matches_at(b, pat, i);
        assert(text::matches_at(a, pat, i));
    }
}

proof fn lemma_same_without_digits(a: Seq<char>, b: Seq<char>)
    requires
        same_but_digits(a, b),
    ensures
        without_digits(a) == without_digits(b),
    decreases a.len(),
{
    if a.len() > 0 {
        let n = a.len() - 1;
        assert(a[n] == b[n] || (text::is_digit(a[n]) && text::is_digit(b[n])));
        lemma_same_take(a, b, n);
        assert(a.drop_last() =~= a.take(n));
        assert(b.drop_last() =~= b.take(n));
        lemma_same_without_digits(a.drop_last(), b.drop_last());
    } else {
        assert(a =~= b);
    }
}

proof fn lemma_same_fingerprint(a: Seq<char>, b: Seq<char>)
    requires
        same_but_digits(a, b),
    ensures
        fingerprint_of(a) == fingerprint_of(b),
{
    lemma_same_trim_start(a, b);
    lemma_same_trim_end(
        text::trim_start_of(a, CharClass::Space),
        text::trim_start_of(b, CharClass::Space),
    );
    lemma_same_failure_line(text::trim(a), text::trim(b));
    lemma_same_without_digits(text::trim(a), text::trim(b));
}

proof fn lemma_same_fingerprints(a: Seq<Seq<char>>, b: Seq<Seq<char>>, n: nat)
    requires
        all_same_but_digits(a, b),
        n <= a.len(),
    ensures
        fingerprints_first(a, n) == fingerprints_first(b, n),
    decreases n,
{
    if n > 0 {
        lemma_same_fingerprints(a, b, (n - 1) as nat);
        lemma_same_fingerprint(a[n - 1], b[n - 1]);
    }
}

/// Two outputs that differ only in their digits (counts, timings, line numbers) have the
/// same fingerprints.
pub proof fn law_fingerprints_ignore_digits(a: Seq<char>, b: Seq<char>)
    requires
        same_but_digits(a, b),
    ensures
        fingerprints_in(a) == fingerprints_in(b),
{
    lemma_same_plain(a, b);
    lemma_same_lines(plain(a), plain(b));
    lemma_same_fingerprints(
        text::lines_of(plain(a)),
        text::lines_of(plain(b)),
        text::lines_of(plain(a)).len(),
    );
}

/// Does a text hold no digit?
pub open spec fn digitless(s: Seq<char>) -> bool {
    forall|i: int| 0 <= i < s.len() ==> !text::is_digit(#[trigger] s[i])
}

proof fn lemma_without_digits(s: Seq<char>)
    ensures
        digitless(without_digits(s)),
    decreases s.len(),
{
    if s.len() > 0 {
        lemma_without_digits(s.drop_last());
    }
}

proof fn lemma_digitless_words(s: Seq<char>, i: int)
    requires
        digitless(s),
        0 <= i < text::words_of(s).len(),
    ensures
        digitless(text::words_of(s)[i]),
    decreases s.len(),
{
    if text::is_space(s[0]) {
        assert(digitless(s.skip(1)));
        lemma_digitless_words(s.skip(1), i);
    } else {
        text::lemma_word_len_bound(s);
        let n = text::word_len(s) as int;
        let rest = s.skip(n);
        if i > 0 {
            assert(digitless(rest));
            lemma_digitless_words(rest, i - 1);
            assert(text::words_of(s)[i] == text::words_of(rest)[i - 1]);
        } else {
            assert(text::words_of(s)[0] == s.take(n));
        }
    }
}

proof fn lemma_digitless_join(parts: Seq<Seq<char>>, sep: Seq<char>)
    requires
        digitless(sep),
        forall|i: int| 0 <= i < parts.len() ==> digitless(#[trigger] parts[i]),
    ensures
        digitless(text::join_of(parts, sep)),
    decreases parts.len(),
{
    if parts.len() > 1 {
        assert forall|i: int| 0 <= i < parts.drop_last().len() implies digitless(
            #[trigger] parts.drop_last()[i],
        ) by {
            assert(digitless(parts[i]));
        }
        lemma_digitless_join(parts.drop_last(), sep);
        assert(digitless(parts[parts.len() - 1]));
    } else if parts.len() == 1 {
        assert(digitless(parts[0]));
    }
}

proof fn lemma_digitless_fingerprints(all: Seq<Seq<char>>, n: nat, i: int)
    requires
        n <= all.len(),
        0 <= i < fingerprints_first(all, n).len(),
    ensures
        digitless(fingerprints_first(all, n)[i]),
    decreases n,
{
    let before = fingerprints_first(all, (n - 1) as nat);
    if i < before.len() {
        lemma_digitless_fingerprints(all, (n - 1) as nat, i);
    } else {
        let bare = without_digits(text::trim(all[n - 1]));
        let parts = text::words_of(bare);
        lemma_without_digits(text::trim(all[n - 1]));
        assert forall|k: int| 0 <= k < parts.len() implies digitless(#[trigger] parts[k]) by {
            lemma_digitless_words(bare, k);
        }
        reveal_strlit(" ");
        lemma_digitless_join(parts, " "@);
    }
}

/// No fingerprint holds a digit.
pub proof fn law_fingerprints_hold_no_digit(output: Seq<char>, i: int)
    requires
        0 <= i < fingerprints_in(output).len(),
    ensures
        digitless(fingerprints_in(output)[i]),
{
    let all = text::lines_of(plain(output));
    lemma_digitless_fingerprints(all, all.len(), i);
}

// ---------------------------------------------------------------------------
// Which lines a linter complains in
// ---------------------------------------------------------------------------

/// A line without the position that it starts with, so that a line that only moved is
/// taken for the same.
pub open spec fn unnumbered(line: Seq<char>) -> Seq<char> {
    text::trim_start_of(text::trim(line), CharClass::Numbering)
}

/// The error lines among the first `n`, without their positions, each one once.
pub open spec fn error_set_first(all: Seq<Seq<char>>, n: nat) -> Seq<Seq<char>>
    decreases n,
{
    if n == 0 {
        Seq::empty()
    } else {
        let before = error_set_first(all, (n - 1) as nat);
        if error_line(all[n - 1]) {
            with_text(before, unnumbered(all[n - 1]))
        } else {
            before
        }
    }
}

/// The error lines of a linter's output, without their positions, each one once.
pub open spec fn error_set_in(output: Seq<char>) -> Seq<Seq<char>> {
    let all = text::lines_of(plain(output));
    error_set_first(all, all.len())
}

/// The error lines among the first `n` that are not in `baseline`, trimmed.
pub open spec fn new_errors_first(
    all: Seq<Seq<char>>,
    baseline: Seq<Seq<char>>,
    n: nat,
) -> Seq<Seq<char>>
    decreases n,
{
    if n == 0 {
        Seq::empty()
    } else {
        let before = new_errors_first(all, baseline, (n - 1) as nat);
        if error_line(all[n - 1]) && !baseline.contains(unnumbered(all[n - 1])) {
            before.push(text::trim(all[n - 1]))
        } else {
            before
        }
    }
}

/// The error lines of a linter's output that are not in `baseline`, one under another.
pub open spec fn new_errors_in(output: Seq<char>, baseline: Seq<Seq<char>>) -> Seq<char> {
    let all = text::lines_of(plain(output));
    text::join_of(new_errors_first(all, baseline, all.len()), "\n"@)
}

/// The error lines of a linter's output, without their positions, each one once.
pub fn check_error_set(output: &str) -> (set: Vec<String>)
    ensures
        text::views(set@) == error_set_in(output@),
{
    let all: Vec<String> = lines(strip_ansi(output).as_str());
    let ghost views = text::views(all@);
    let mut set: Vec<String> = no_texts();
    let mut i: usize = 0;
    while i < all.len()
        invariant
            i <= all@.len(),
            views == text::views(all@),
            text::views(set@) == error_set_first(views, i as nat),
        decreases all@.len() - i,
    {
        assert(views[i as int] == all@[i as int]@);
        if is_error_line(all[i].as_str()) {
            let norm: String = trim_start_class(
                trimmed(all[i].as_str()).as_str(),
                CharClass::Numbering,
            );
            if !holds_text(&set, norm.as_str()) {
                proof {
                    text::lemma_views_push(set@, norm);
                }
                set.push(norm);
            }
        }
        i += 1;
    }
    set
}

/// The error lines of a linter's output that are not in `baseline`: those that a change
/// brought in, in their own words.
pub fn new_check_errors(after: &str, baseline: &Vec<String>) -> (report: String)
    ensures
        report@ == new_errors_in(after@, text::views(baseline@)),
{
    let all: Vec<String> = lines(strip_ansi(after).as_str());
    let ghost views = text::views(all@);
    let mut fresh: Vec<String> = no_texts();
    let mut i: usize = 0;
    while i < all.len()
        invariant
            i <= all@.len(),
            views == text::views(all@),
            text::views(fresh@) == new_errors_first(views, text::views(baseline@), i as nat),
        decreases all@.len() - i,
    {
        assert(views[i as int] == all@[i as int]@);
        if is_error_line(all[i].as_str()) {
            let t: String = trimmed(all[i].as_str());
            let norm: String = trim_start_class(t.as_str(), CharClass::Numbering);
            if !holds_text(baseline, norm.as_str()) {
                proof {
                    text::lemma_views_push(fresh@, t);
                }
                fresh.push(t);
            }
        }
        i += 1;
    }
    join(&fresh, "\n")
}

proof fn lemma_error_set_covers(all: Seq<Seq<char>>, n: nat, i: int)
    requires
        n <= all.len(),
        0 <= i < n,
        error_line(all[i]),
    ensures
        error_set_first(all, n).contains(unnumbered(all[i])),
    decreases n,
{
    let before = error_set_first(all, (n - 1) as nat);
    let out = error_set_first(all, n);
    if i < n - 1 {
        lemma_error_set_covers(all, (n - 1) as nat, i);
        let k = choose|k: int| 0 <= k < before.len() && before[k] == unnumbered(all[i]);
        assert(out[k] == unnumbered(all[i]));
    } else if !before.contains(unnumbered(all[i])) {
        assert(out[out.len() - 1] == unnumbered(all[i]));
    }
}

/// A linter that says what it said before has nothing new to say.
pub proof fn law_same_output_has_no_new_errors(output: Seq<char>)
    ensures
        new_errors_in(output, error_set_in(output)).len() == 0,
{
    let all = text::lines_of(plain(output));
    lemma_no_new_errors(all, all.len());
}

/// A line that speaks of an error is not blank.
proof fn lemma_error_line_is_not_blank(line: Seq<char>)
    requires
        error_line(line),
    ensures
        text::trim(line).len() > 0,
{
    reveal_strlit("error");
    let low = text::lower(line);
    let i = choose|i: int| text::matches_at(low, "error"@, i);
    assert(low.subrange(i, i + 5)[0] == 'e');
    assert(low[i] == text::lower_char(line[i]));
    assert(line.contains(line[i]));
    text::lemma_trim_keeps(line, line[i]);
}

/// The new errors are none where each error line among the first `n` is in the baseline.
proof fn lemma_new_errors_none(all: Seq<Seq<char>>, baseline: Seq<Seq<char>>, n: nat)
    requires
        n <= all.len(),
    ensures
        new_errors_first(all, baseline, n).len() == 0 <==> forall|i: int|
            0 <= i < n && error_line(#[trigger] all[i]) ==> baseline.contains(unnumbered(all[i])),
        new_errors_first(all, baseline, n).len() > 0 ==> new_errors_first(
            all,
            baseline,
            n,
        ).last().len() > 0,
    decreases n,
{
    if n > 0 {
        lemma_new_errors_none(all, baseline, (n - 1) as nat);
        if error_line(all[n - 1]) {
            lemma_error_line_is_not_blank(all[n - 1]);
        }
    }
}

/// The error set of the first `n` lines holds nothing but error lines of them.
proof fn lemma_error_set_within(all: Seq<Seq<char>>, n: nat, t: Seq<char>)
    requires
        n <= all.len(),
        error_set_first(all, n).contains(t),
    ensures
        exists|i: int| 0 <= i < n && error_line(#[trigger] all[i]) && unnumbered(all[i]) == t,
    decreases n,
{
    if n > 0 {
        let before = error_set_first(all, (n - 1) as nat);
        if before.contains(t) {
            lemma_error_set_within(all, (n - 1) as nat, t);
        } else {
            assert(error_line(all[n - 1]));
            assert(unnumbered(all[n - 1]) == t);
        }
    }
}

/// There are no new errors exactly where every error of the output is one of the baseline.
pub proof fn law_no_new_errors_within_baseline(output: Seq<char>, baseline: Seq<Seq<char>>)
    ensures
        new_errors_in(output, baseline).len() == 0 <==> forall|t: Seq<char>| #[trigger]
            error_set_in(output).contains(t) ==> baseline.contains(t),
{
    let all = text::lines_of(plain(output));
    let n = all.len();
    let fresh = new_errors_first(all, baseline, n);
    lemma_new_errors_none(all, baseline, n);
    if fresh.len() > 0 {
        assert(text::join_of(fresh, "\n"@).len() >= fresh.last().len());
    }
    if fresh.len() == 0 {
        assert forall|t: Seq<char>| #[trigger] error_set_in(output).contains(t) implies baseline.contains(
            t,
        ) by {
            lemma_error_set_within(all, n, t);
        }
    }
    if forall|t: Seq<char>| #[trigger] error_set_in(output).contains(t) ==> baseline.contains(t) {
        assert forall|i: int| 0 <= i < n && error_line(#[trigger] all[i]) implies baseline.contains(
            unnumbered(all[i]),
        ) by {
            lemma_error_set_covers(all, n, i);
            assert(error_set_in(output).contains(unnumbered(all[i])));
        }
    }
}

proof fn lemma_no_new_errors(all: Seq<Seq<char>>, n: nat)
    requires
        n <= all.len(),
    ensures
        new_errors_first(all, error_set_first(all, all.len()), n) == Seq::<Seq<char>>::empty(),
    decreases n,
{
    if n > 0 {
        lemma_no_new_errors(all, (n - 1) as nat);
        if error_line(all[n - 1]) {
            lemma_error_set_covers(all, all.len(), n - 1);
        }
    }
}

// ---------------------------------------------------------------------------
// What an output says
// ---------------------------------------------------------------------------

proof fn lemma_last_digits(a: Seq<char>, d: Seq<char>)
    requires
        a.len() > 0 ==> !text::is_digit(a.last()),
        forall|i: int| 0 <= i < d.len() ==> text::is_digit(#[trigger] d[i]),
    ensures
        last_digits(a + d) == d,
    decreases d.len(),
{
    let s = a + d;
    if d.len() > 0 {
        assert(s.drop_last() =~= a + d.drop_last());
        assert(s.last() == d.last());
        lemma_last_digits(a, d.drop_last());
        assert(d =~= d.drop_last().push(d.last()));
    } else {
        assert(s =~= a);
    }
}

/// The number that stands before the first `failed` is the number of failures, whatever
/// white space stands between them and whatever else the output says.
pub proof fn law_number_before_failed(
    before: Seq<char>,
    n: nat,
    gap: Seq<char>,
    after: Seq<char>,
)
    requires
        n <= i64::MAX,
        before.len() > 0 ==> !text::is_digit(before.last()),
        forall|i: int| 0 <= i < gap.len() ==> text::is_space(#[trigger] gap[i]),
        !(before + digits::decimal(n) + gap + "failed"@ + after).contains(ESCAPE),
        forall|i: int|
            0 <= i < (before + digits::decimal(n) + gap).len() ==> !text::matches_at(
                before + digits::decimal(n) + gap + "failed"@ + after,
                "failed"@,
                i,
            ),
    ensures
        failures_in(before + digits::decimal(n) + gap + "failed"@ + after) == Some(n),
{
    let head = before + digits::decimal(n) + gap;
    let s = head + "failed"@ + after;
    law_plain_keeps_plain_text(s);
    text::law_holding(head, "failed"@, after, Seq::empty(), 0);
    text::lemma_first_match(s, "failed"@, 0);
    let i = text::first_match(s, "failed"@, 0)->Some_0;
    assert(i == head.len()) by {
        if i < head.len() {
            assert(!text::matches_at(s, "failed"@, i));
        }
    }
    assert(s.take(i) =~= head);
    digits::law_decimal_is_read_back(n);
    let d = digits::decimal(n);
    assert(text::is_digit(d[d.len() - 1]));
    lemma_trim_gap(before + d, gap);
    lemma_last_digits(before, d);
}

proof fn lemma_trim_gap(s: Seq<char>, gap: Seq<char>)
    requires
        s.len() > 0,
        text::is_digit(s.last()),
        forall|i: int| 0 <= i < gap.len() ==> text::is_space(#[trigger] gap[i]),
    ensures
        text::trim_end_of(s + gap, CharClass::Space) == s,
    decreases gap.len(),
{
    if gap.len() > 0 {
        assert((s + gap).drop_last() =~= s + gap.drop_last());
        assert((s + gap).last() == gap.last());
        lemma_trim_gap(s, gap.drop_last());
    } else {
        assert(s + gap =~= s);
    }
}

/// Without a `failed` in it, an output tells of no failure where it says `passed`, where it
/// says what cargo says of a suite, and where `ok` is a word of it and no line tells of a
/// failure. Otherwise it tells nothing.
pub proof fn law_output_without_failed(s: Seq<char>)
    requires
        !s.contains(ESCAPE),
        !text::has_match(s, "failed"@),
    ensures
        text::has_match(s, "passed"@) ==> failures_in(s) == Some(0nat),
        text::has_match(s, "test result: ok"@) ==> failures_in(s) == Some(0nat),
        text::words_of(s).contains("ok"@) && !failure_told(s) ==> failures_in(s) == Some(0nat),
        !text::has_match(s, "passed"@) && !text::has_match(s, "test result: ok"@)
            && !text::words_of(s).contains("ok"@) ==> failures_in(s) is None,
{
    law_plain_keeps_plain_text(s);
    text::lemma_first_match(s, "failed"@, 0);
}

/// A line tells of a failure where it begins with one of five marks, or holds what Go says of
/// a failing test.
pub proof fn law_failure_lines(rest: Seq<char>, start: Seq<char>)
    ensures
        failure_line("×"@ + rest),
        failure_line("✗"@ + rest),
        failure_line("✕"@ + rest),
        failure_line("❯"@ + rest),
        failure_line("FAIL"@ + rest),
        failure_line(start + "--- FAIL"@ + rest),
{
    let e = Seq::<char>::empty();
    text::law_prefix("×"@, rest, e);
    text::law_prefix("✗"@, rest, e);
    text::law_prefix("✕"@, rest, e);
    text::law_prefix("❯"@, rest, e);
    text::law_prefix("FAIL"@, rest, e);
    text::law_holding(start, "--- FAIL"@, rest, e, 0);
}

/// An output tells of a failure exactly where one of its lines does.
pub proof fn law_failure_is_told_by_a_line(s: Seq<char>, i: int)
    requires
        !s.contains(ESCAPE),
        0 <= i < text::lines_of(s).len(),
    ensures
        failure_line(text::trim(text::lines_of(s)[i])) ==> failure_told(s),
        (forall|k: int|
            0 <= k < text::lines_of(s).len() ==> !failure_line(
                text::trim(#[trigger] text::lines_of(s)[k]),
            )) ==> !failure_told(s),
{
    law_plain_keeps_plain_text(s);
}

proof fn lemma_fingerprint_kept(all: Seq<Seq<char>>, n: nat, i: int)
    requires
        n <= all.len(),
        0 <= i < n,
        fingerprint_of(all[i]) is Some,
    ensures
        fingerprints_first(all, n).contains(fingerprint_of(all[i])->Some_0),
    decreases n,
{
    let before = fingerprints_first(all, (n - 1) as nat);
    let out = fingerprints_first(all, n);
    let f = fingerprint_of(all[i])->Some_0;
    if i < n - 1 {
        lemma_fingerprint_kept(all, (n - 1) as nat, i);
        let k = choose|k: int| 0 <= k < before.len() && before[k] == f;
        assert(out[k] == f);
    } else if !before.contains(f) {
        assert(out.last() == f);
    }
}

proof fn lemma_fingerprint_found(all: Seq<Seq<char>>, n: nat, f: Seq<char>)
    requires
        n <= all.len(),
        fingerprints_first(all, n).contains(f),
    ensures
        exists|i: int| 0 <= i < n && #[trigger] fingerprint_of(all[i]) == Some(f),
    decreases n,
{
    if n > 0 {
        let before = fingerprints_first(all, (n - 1) as nat);
        if before.contains(f) {
            lemma_fingerprint_found(all, (n - 1) as nat, f);
        } else {
            assert(fingerprint_of(all[n - 1]) == Some(f));
        }
    }
}

/// The fingerprints of an output are those of its lines, and nothing else.
pub proof fn law_fingerprints_of_lines(output: Seq<char>, f: Seq<char>)
    ensures
        fingerprints_in(output).contains(f) <==> exists|i: int|
            0 <= i < text::lines_of(plain(output)).len() && #[trigger] fingerprint_of(
                text::lines_of(plain(output))[i],
            ) == Some(f),
{
    let all = text::lines_of(plain(output));
    if fingerprints_in(output).contains(f) {
        lemma_fingerprint_found(all, all.len(), f);
    }
    if exists|i: int| 0 <= i < all.len() && #[trigger] fingerprint_of(all[i]) == Some(f) {
        let i = choose|i: int| 0 <= i < all.len() && #[trigger] fingerprint_of(all[i]) == Some(f);
        lemma_fingerprint_kept(all, all.len(), i);
    }
}

/// A line has a fingerprint only where it tells of a failure. Where it does, and is one word
/// without digits of five ASCII characters or more, that is its fingerprint.
pub proof fn law_fingerprint_of_a_word(line: Seq<char>)
    ensures
        !failure_line(text::trim(line)) ==> fingerprint_of(line) is None,
        ({
            let t = text::trim(line);
            failure_line(t) && t.len() > 4 && digitless(t) && vstd::utf8::is_ascii_chars(t) && (
            forall|i: int| 0 <= i < t.len() ==> !text::is_space(#[trigger] t[i]))
        }) ==> fingerprint_of(line) == Some(text::trim(line)),
{
    let t = text::trim(line);
    if failure_line(t) && t.len() > 4 && digitless(t) && vstd::utf8::is_ascii_chars(t) && (forall|
        i: int,
    |
        0 <= i < t.len() ==> !text::is_space(#[trigger] t[i])) {
        lemma_digitless_stays(t);
        text::law_words(t, ' ', Seq::empty());
        text::law_joining(Seq::empty(), t, " "@);
        vstd::utf8::is_ascii_chars_encode_utf8(t);
    }
}

proof fn lemma_digits_leave(a: Seq<char>, b: Seq<char>)
    ensures
        without_digits(a + b) == without_digits(a) + without_digits(b),
    decreases b.len(),
{
    if b.len() > 0 {
        assert((a + b).drop_last() =~= a + b.drop_last());
        assert((a + b).last() == b.last());
        lemma_digits_leave(a, b.drop_last());
    } else {
        assert(a + b =~= a);
    }
}

/// Two failing lines that differ only in a digit have one fingerprint.
pub proof fn law_fingerprint_knows_no_digits(a: Seq<char>, digit: char, b: Seq<char>)
    requires
        text::is_digit(digit),
        text::trim(a + seq![digit] + b) == a + seq![digit] + b,
        text::trim(a + b) == a + b,
        failure_line(a + seq![digit] + b),
        failure_line(a + b),
    ensures
        fingerprint_of(a + seq![digit] + b) == fingerprint_of(a + b),
{
    lemma_digits_leave(a + seq![digit], b);
    lemma_digits_leave(a, seq![digit]);
    lemma_digits_leave(a, b);
    assert(seq![digit].drop_last() =~= Seq::<char>::empty());
    assert(without_digits(seq![digit]) =~= Seq::<char>::empty()) by {
        reveal_with_fuel(without_digits, 2);
    }
}

proof fn lemma_digitless_stays(s: Seq<char>)
    requires
        digitless(s),
    ensures
        without_digits(s) == s,
    decreases s.len(),
{
    if s.len() > 0 {
        lemma_digitless_stays(s.drop_last());
        assert(!text::is_digit(s[s.len() - 1]));
        assert(s =~= s.drop_last().push(s.last()));
    }
}

proof fn lemma_error_lines_split(a: Seq<Seq<char>>, b: Seq<Seq<char>>, n: nat)
    requires
        n <= b.len(),
    ensures
        error_lines_first(a + b, a.len()) == error_lines_first(a, a.len()),
        error_lines_first(a + b, a.len() + n) == error_lines_first(a, a.len()) + error_lines_first(
            b,
            n,
        ),
    decreases n,
{
    if n == 0 {
        lemma_error_lines_prefix(a, b, a.len());
    } else {
        lemma_error_lines_split(a, b, (n - 1) as nat);
        assert((a + b)[a.len() + n - 1] == b[n - 1]);
    }
}

proof fn lemma_error_lines_prefix(a: Seq<Seq<char>>, b: Seq<Seq<char>>, n: nat)
    requires
        n <= a.len(),
    ensures
        error_lines_first(a + b, n) == error_lines_first(a, n),
    decreases n,
{
    if n > 0 {
        lemma_error_lines_prefix(a, b, (n - 1) as nat);
    }
}

/// Where `tsc` marks nothing, each line that speaks of an error is one: the errors of two
/// outputs in a row are those of the first and those of the second.
pub proof fn law_error_lines_add_up(p: Seq<char>, q: Seq<char>)
    requires
        p.len() > 0 ==> p.last() == '\n',
        !p.contains(ESCAPE),
        !q.contains(ESCAPE),
        !text::has_match(p + q, "error TS"@),
        !text::has_match(p, "error TS"@),
        !text::has_match(q, "error TS"@),
    ensures
        errors_in(p + q) == errors_in(p) + errors_in(q),
{
    assert(!(p + q).contains(ESCAPE)) by {
        if (p + q).contains(ESCAPE) {
            let k = choose|k: int| 0 <= k < (p + q).len() && (p + q)[k] == ESCAPE;
            if k < p.len() {
                assert(p[k] == ESCAPE);
            } else {
                assert(q[k - p.len()] == ESCAPE);
            }
        }
    }
    law_plain_keeps_plain_text(p);
    law_plain_keeps_plain_text(q);
    law_plain_keeps_plain_text(p + q);
    text::law_replacing_nothing(p, "error TS"@, Seq::empty());
    text::law_replacing_nothing(q, "error TS"@, Seq::empty());
    text::law_replacing_nothing(p + q, "error TS"@, Seq::empty());
    text::law_lines_of_two_texts(p, q);
    let a = text::lines_of(p);
    let b = text::lines_of(q);
    lemma_error_lines_split(a, b, b.len());
}

/// A line by itself is one error where it holds the word in lower case, and none where it
/// does not in whatever case; each mark of `tsc` is one error.
pub proof fn law_errors_of_a_line(line: Seq<char>)
    requires
        line.len() > 0,
        !line.contains('\n'),
        !line.contains(ESCAPE),
    ensures
        !text::has_match(line, "error TS"@) && text::has_match(text::lower(line), "error"@)
            ==> errors_in(line) == 1,
        !text::has_match(line, "error TS"@) && !text::has_match(text::lower(line), "error"@)
            ==> errors_in(line) == 0,
        text::count_of(line, "error TS"@) > 0 ==> errors_in(line) == text::count_of(
            line,
            "error TS"@,
        ),
{
    law_plain_keeps_plain_text(line);
    text::law_first_line(line, Seq::empty());
    if !text::has_match(line, "error TS"@) {
        text::law_replacing_nothing(line, "error TS"@, Seq::empty());
    }
    reveal_with_fuel(error_lines_first, 2);
    assert(text::lines_of(line)[0] == line);
}

/// The error set of an output holds each line that speaks of an error, without its position,
/// and nothing else.
pub proof fn law_error_set_of_lines(output: Seq<char>, t: Seq<char>)
    ensures
        error_set_in(output).contains(t) <==> exists|i: int|
            0 <= i < text::lines_of(plain(output)).len() && error_line(
                #[trigger] text::lines_of(plain(output))[i],
            ) && unnumbered(text::lines_of(plain(output))[i]) == t,
{
    let all = text::lines_of(plain(output));
    if error_set_in(output).contains(t) {
        lemma_error_set_within(all, all.len(), t);
    }
    if exists|i: int|
        0 <= i < all.len() && error_line(#[trigger] all[i]) && unnumbered(all[i]) == t {
        let i = choose|i: int|
            0 <= i < all.len() && error_line(#[trigger] all[i]) && unnumbered(all[i]) == t;
        lemma_error_set_covers(all, all.len(), i);
    }
}

/// The position before a complaint, in digits, colons and spaces, does not matter.
pub proof fn law_positions_do_not_matter(position: Seq<char>, complaint: Seq<char>)
    requires
        forall|i: int|
            0 <= i < position.len() ==> text::is_digit(#[trigger] position[i]) || position[i] == ':'
                || position[i] == ' ',
        position.len() > 0 ==> position[0] != ' ',
        complaint.len() > 0,
        !text::is_digit(complaint[0]) && complaint[0] != ':' && !text::is_space(complaint[0]),
        !text::is_space(complaint.last()),
    ensures
        unnumbered(position + complaint) == complaint,
{
    let e = Seq::<char>::empty();
    let s = position + complaint;
    assert(s[0] == (if position.len() > 0 {
        position[0]
    } else {
        complaint[0]
    }));
    text::law_trimming(e, s, e, CharClass::Space);
    assert(e + s + e =~= s);
    text::lemma_trim_start_skips(position, complaint, CharClass::Numbering);
}

proof fn lemma_joined_part(parts: Seq<Seq<char>>, sep: Seq<char>, i: int)
    requires
        0 <= i < parts.len(),
    ensures
        text::has_match(text::join_of(parts, sep), parts[i]),
    decreases parts.len(),
{
    let e = Seq::<char>::empty();
    if parts.len() == 1 {
        text::law_holding(e, parts[0], e, e, 0);
        assert(e + parts[0] + e =~= parts[0]);
    } else {
        let front = parts.drop_last();
        if i == parts.len() - 1 {
            text::law_holding(text::join_of(front, sep) + sep, parts[i], e, e, 0);
            assert(text::join_of(front, sep) + sep + parts[i] + e =~= text::join_of(parts, sep));
        } else {
            lemma_joined_part(front, sep, i);
            let s = text::join_of(front, sep);
            let whole = text::join_of(parts, sep);
            let k = choose|k: int| text::matches_at(s, front[i], k);
            assert(whole.subrange(k, k + front[i].len()) =~= s.subrange(k, k + front[i].len()));
            assert(text::matches_at(whole, parts[i], k));
        }
    }
}

proof fn lemma_new_error_kept(
    all: Seq<Seq<char>>,
    baseline: Seq<Seq<char>>,
    n: nat,
    i: int,
)
    requires
        n <= all.len(),
        0 <= i < n,
        error_line(all[i]),
        !baseline.contains(unnumbered(all[i])),
    ensures
        new_errors_first(all, baseline, n).contains(text::trim(all[i])),
    decreases n,
{
    let before = new_errors_first(all, baseline, (n - 1) as nat);
    let out = new_errors_first(all, baseline, n);
    if i < n - 1 {
        lemma_new_error_kept(all, baseline, (n - 1) as nat, i);
        let k = choose|k: int| 0 <= k < before.len() && before[k] == text::trim(all[i]);
        assert(out[k] == text::trim(all[i]));
    } else {
        assert(out.last() == text::trim(all[i]));
    }
}

/// Every error that was not there before is told, in its own words.
pub proof fn law_new_errors_are_told(output: Seq<char>, baseline: Seq<Seq<char>>, i: int)
    requires
        0 <= i < text::lines_of(plain(output)).len(),
        error_line(text::lines_of(plain(output))[i]),
        !baseline.contains(unnumbered(text::lines_of(plain(output))[i])),
    ensures
        text::has_match(
            new_errors_in(output, baseline),
            text::trim(text::lines_of(plain(output))[i]),
        ),
{
    let all = text::lines_of(plain(output));
    let fresh = new_errors_first(all, baseline, all.len());
    lemma_new_error_kept(all, baseline, all.len(), i);
    let k = choose|k: int| 0 <= k < fresh.len() && fresh[k] == text::trim(all[i]);
    lemma_joined_part(fresh, "\n"@, k);
}

/// A colour sequence is taken out, and what stands before and behind it stays.
pub proof fn law_colours_are_taken_out(a: Seq<char>, code: Seq<char>, b: Seq<char>)
    requires
        !a.contains(ESCAPE),
        !code.contains('m'),
    ensures
        plain(a + seq![ESCAPE] + code + seq!['m'] + b) == a + plain(b),
    decreases a.len(),
{
    let s = a + seq![ESCAPE] + code + seq!['m'] + b;
    if a.len() > 0 {
        let rest = a.skip(1);
        assert(a.contains(a[0]));
        assert forall|k: int| 0 <= k < rest.len() implies rest[k] != ESCAPE by {
            assert(a.contains(a[k + 1]));
        }
        law_colours_are_taken_out(rest, code, b);
        assert(s.skip(1) =~= rest + seq![ESCAPE] + code + seq!['m'] + b);
        assert(seq![a[0]] + (rest + plain(b)) =~= a + plain(b));
    } else {
        assert(s.skip(1) =~= code + seq!['m'] + b);
        lemma_after_m(code, b);
        assert(a + plain(b) =~= plain(b));
    }
}

proof fn lemma_after_m(code: Seq<char>, b: Seq<char>)
    requires
        !code.contains('m'),
    ensures
        after_m(code + seq!['m'] + b) == plain(b),
    decreases code.len(),
{
    let s = code + seq!['m'] + b;
    if code.len() > 0 {
        let rest = code.skip(1);
        assert(code.contains(code[0]));
        assert forall|k: int| 0 <= k < rest.len() implies rest[k] != 'm' by {
            assert(code.contains(code[k + 1]));
        }
        lemma_after_m(rest, b);
        assert(s.skip(1) =~= rest + seq!['m'] + b);
    } else {
        assert(s.skip(1) =~= b);
    }
}

/// A `failed` without a number before it is passed over: the next one that has a number
/// counts.
pub proof fn law_failed_without_a_number(
    a: Seq<char>,
    mid: Seq<char>,
    n: nat,
    gap: Seq<char>,
    after: Seq<char>,
)
    requires
        n <= i64::MAX,
        ({
            let t = text::trim_end_of(a, CharClass::Space);
            t.len() > 0 ==> !text::is_digit(t.last())
        }),
        mid.len() > 0 ==> !text::is_digit(mid.last()),
        forall|i: int| 0 <= i < gap.len() ==> text::is_space(#[trigger] gap[i]),
        ({
            let head = a + "failed"@ + mid + digits::decimal(n) + gap;
            let s = head + "failed"@ + after;
            &&& !s.contains(ESCAPE)
            &&& forall|i: int| 0 <= i < a.len() ==> !text::matches_at(s, "failed"@, i)
            &&& forall|i: int|
                a.len() + 6 <= i < head.len() ==> !text::matches_at(s, "failed"@, i)
        }),
    ensures
        failures_in(a + "failed"@ + mid + digits::decimal(n) + gap + "failed"@ + after) == Some(n),
{
    reveal_strlit("failed");
    let word = "failed"@;
    assert(word.len() == 6 && word[5] == 'd');
    let d = digits::decimal(n);
    let start = a + word + mid;
    let head = start + d + gap;
    let s = head + word + after;
    let e = Seq::<char>::empty();
    law_plain_keeps_plain_text(s);
    text::lemma_first_match(s, word, 0);
    assert(s.subrange(a.len() as int, a.len() as int + 6) =~= word);
    assert(text::matches_at(s, word, a.len() as int));
    let first = text::first_match(s, word, 0)->Some_0;
    assert(first == a.len()) by {
        if first < a.len() {
            assert(!text::matches_at(s, word, first));
        }
    }
    assert(s.take(first) =~= a);
    assert(number_before(s, first) is None);
    let from = first + 6;
    text::law_holding(head, word, after, e, 0);
    text::lemma_first_match(s, word, from);
    let i = text::first_match(s, word, from)->Some_0;
    assert(i == head.len()) by {
        if i < head.len() {
            assert(!text::matches_at(s, word, i));
        }
    }
    assert(s.take(i) =~= head);
    digits::law_decimal_is_read_back(n);
    assert(text::is_digit(d[d.len() - 1]));
    lemma_trim_gap(start + d, gap);
    assert(!text::is_digit(start.last())) by {
        if mid.len() > 0 {
            assert(start.last() == mid.last());
        } else {
            assert(start.last() == word[5]);
        }
    }
    lemma_last_digits(start, d);
    assert(failed_from(s, from) == Some(n));
    assert(failed_from(s, 0) == Some(n));
}

/// A line that starts with none of the five marks and does not hold what Go says of a failing
/// test tells of no failure, wherever else a mark stands in it.
pub proof fn law_other_lines_tell_no_failure(t: Seq<char>)
    requires
        !text::begins(t, "×"@),
        !text::begins(t, "✗"@),
        !text::begins(t, "✕"@),
        !text::begins(t, "❯"@),
        !text::begins(t, "FAIL"@),
        !text::has_match(t, "--- FAIL"@),
    ensures
        !failure_line(t),
        fingerprint_of(t) matches Some(_) ==> text::trim(t) != t,
{
}

} // verus!

//! Text as a sequence of characters: searching, trimming, splitting and joining.
//!
//! Every function here works on the characters of a text (its view), so a contract
//! elsewhere in the library can speak of a text without speaking of its encoding.

use vstd::prelude::*;
use vstd::slice::slice_subrange;

verus! {

/// `String::push` appends the given character to the end of the string.
pub assume_specification[ String::push ](s: &mut String, c: char)
    ensures
        final(s)@ == old(s)@.push(c),
;

// ---------------------------------------------------------------------------
// Characters
// ---------------------------------------------------------------------------

/// The characters with the Unicode property White_Space.
pub open spec fn is_space(c: char) -> bool {
    ||| '\u{9}' <= c <= '\u{d}'
    ||| c == '\u{20}'
    ||| c == '\u{85}'
    ||| c == '\u{a0}'
    ||| c == '\u{1680}'
    ||| '\u{2000}' <= c <= '\u{200a}'
    ||| c == '\u{2028}'
    ||| c == '\u{2029}'
    ||| c == '\u{202f}'
    ||| c == '\u{205f}'
    ||| c == '\u{3000}'
}

/// The decimal digits `0` to `9`.
pub open spec fn is_digit(c: char) -> bool {
    '0' <= c <= '9'
}

/// A set of characters that can be trimmed away from the ends of a text.
#[derive(Clone, Copy, PartialEq, Eq, Structural, Debug)]
pub enum CharClass {
    /// White space.
    Space,
    /// `/`.
    Slash,
    /// `/` and `\`.
    AnySlash,
    /// `"`.
    DoubleQuote,
    /// `'`.
    SingleQuote,
    /// Digits, `:` and the blank: what leads a line that starts with its position.
    Numbering,
}

impl CharClass {
    /// Does the class hold `c`?
    pub open spec fn has(self, c: char) -> bool {
        match self {
            CharClass::Space => is_space(c),
            CharClass::Slash => c == '/',
            CharClass::AnySlash => c == '/' || c == '\\',
            CharClass::DoubleQuote => c == '"',
            CharClass::SingleQuote => c == '\'',
            CharClass::Numbering => is_digit(c) || c == ':' || c == ' ',
        }
    }

    /// Does the class hold `c`?
    pub fn holds(self, c: char) -> (held: bool)
        ensures
            held == self.has(c),
    {
        match self {
            CharClass::Space => ('\u{9}' <= c && c <= '\u{d}') || c == '\u{20}' || c == '\u{85}'
                || c == '\u{a0}' || c == '\u{1680}' || ('\u{2000}' <= c && c <= '\u{200a}')
                || c == '\u{2028}' || c == '\u{2029}' || c == '\u{202f}' || c == '\u{205f}'
                || c == '\u{3000}',
            CharClass::Slash => c == '/',
            CharClass::AnySlash => c == '/' || c == '\\',
            CharClass::DoubleQuote => c == '"',
            CharClass::SingleQuote => c == '\'',
            CharClass::Numbering => ('0' <= c && c <= '9') || c == ':' || c == ' ',
        }
    }
}

/// `c`, with `A` to `Z` turned into `a` to `z`.
pub open spec fn lower_char(c: char) -> char {
    if 'A' <= c <= 'Z' {
        (c as u32 + 32) as char
    } else {
        c
    }
}

/// `s` with `A` to `Z` turned into `a` to `z`.
pub open spec fn lower(s: Seq<char>) -> Seq<char> {
    s.map_values(|c: char| lower_char(c))
}

// ---------------------------------------------------------------------------
// From text to characters and back
// ---------------------------------------------------------------------------

/// The characters of `text`, in order.
pub fn chars_of(text: &str) -> (chars: Vec<char>)
    ensures
        chars@ == text@,
{
    let mut chars: Vec<char> = Vec::new();
    for c in it: text.chars()
        invariant
            chars@ == it.seq().take(it.index() as int),
            it.seq() == text@,
    {
        chars.push(c);
    }
    chars
}

/// The text made of `chars`.
pub fn text_of(chars: &[char]) -> (text: String)
    ensures
        text@ == chars@,
{
    let mut text: String = String::new();
    let mut i: usize = 0;
    while i < chars.len()
        invariant
            i <= chars.len(),
            text@ == chars@.take(i as int),
        decreases chars.len() - i,
    {
        text.push(chars[i]);
        i += 1;
    }
    assert(chars@.take(chars@.len() as int) =~= chars@);
    text
}

/// The views of `texts`, in order.
pub open spec fn views(texts: Seq<String>) -> Seq<Seq<char>> {
    texts.map_values(|t: String| t@)
}

/// Are the two texts the same?
pub fn same_text(a: &str, b: &str) -> (same: bool)
    ensures
        same == (a@ == b@),
{
    let x: Vec<char> = chars_of(a);
    let y: Vec<char> = chars_of(b);
    same_chars(x.as_slice(), y.as_slice())
}

/// Are the two slices the same?
pub fn same_chars(a: &[char], b: &[char]) -> (same: bool)
    ensures
        same == (a@ == b@),
{
    if a.len() != b.len() {
        return false;
    }
    let mut i: usize = 0;
    while i < a.len()
        invariant
            a.len() == b.len(),
            i <= a.len(),
            forall|k: int| 0 <= k < i ==> a@[k] == b@[k],
        decreases a.len() - i,
    {
        if a[i] != b[i] {
            assert(a@[i as int] != b@[i as int]);
            return false;
        }
        i += 1;
    }
    assert(a@ =~= b@);
    true
}

// ---------------------------------------------------------------------------
// Searching
// ---------------------------------------------------------------------------

/// Does `pat` stand in `s` at position `i`?
pub open spec fn matches_at(s: Seq<char>, pat: Seq<char>, i: int) -> bool {
    0 <= i && i + pat.len() <= s.len() && s.subrange(i, i + pat.len()) == pat
}

/// Does `pat` stand anywhere in `s`?
pub open spec fn has_match(s: Seq<char>, pat: Seq<char>) -> bool {
    exists|i: int| matches_at(s, pat, i)
}

/// Does `s` begin with `pat`?
pub open spec fn begins(s: Seq<char>, pat: Seq<char>) -> bool {
    matches_at(s, pat, 0)
}

/// Does `s` end with `pat`?
pub open spec fn finishes(s: Seq<char>, pat: Seq<char>) -> bool {
    matches_at(s, pat, s.len() - pat.len())
}

/// The first position from `from` on at which `pat` stands in `s`.
pub open spec fn first_match(s: Seq<char>, pat: Seq<char>, from: int) -> Option<int>
    decreases s.len() + 1 - from,
{
    if from < 0 || from + pat.len() > s.len() {
        None
    } else if matches_at(s, pat, from) {
        Some(from)
    } else {
        first_match(s, pat, from + 1)
    }
}

/// What [`first_match`] finds is a match with none before it; it fails only where there is none.
pub proof fn lemma_first_match(s: Seq<char>, pat: Seq<char>, from: int)
    requires
        0 <= from,
    ensures
        match first_match(s, pat, from) {
            Some(i) => from <= i && matches_at(s, pat, i) && forall|k: int|
                from <= k < i ==> !matches_at(s, pat, k),
            None => forall|k: int| from <= k ==> !matches_at(s, pat, k),
        },
    decreases s.len() + 1 - from,
{
    if from + pat.len() > s.len() {
    } else if matches_at(s, pat, from) {
    } else {
        lemma_first_match(s, pat, from + 1);
    }
}

/// Does `pat` stand in `s` at position `i`?
pub fn chars_match_at(s: &[char], pat: &[char], i: usize) -> (found: bool)
    ensures
        found == matches_at(s@, pat@, i as int),
{
    if i > s.len() || pat.len() > s.len() - i {
        return false;
    }
    let part: &[char] = slice_subrange(s, i, i + pat.len());
    same_chars(part, pat)
}

/// The first position from `from` on at which `pat` stands in `s`.
pub fn find_chars(s: &[char], pat: &[char], from: usize) -> (found: Option<usize>)
    ensures
        match found {
            Some(i) => first_match(s@, pat@, from as int) == Some(i as int),
            None => first_match(s@, pat@, from as int) is None,
        },
{
    let mut i: usize = from;
    while i <= s.len() && pat.len() <= s.len() - i
        invariant
            first_match(s@, pat@, from as int) == first_match(s@, pat@, i as int),
        decreases s.len() - i,
    {
        if chars_match_at(s, pat, i) {
            return Some(i);
        }
        if i == s.len() {
            assert(first_match(s@, pat@, i + 1) is None);
            return None;
        }
        i += 1;
    }
    None
}

/// Does `pat` stand anywhere in `text`?
pub fn contains(text: &str, pat: &str) -> (found: bool)
    ensures
        found == has_match(text@, pat@),
{
    let s: Vec<char> = chars_of(text);
    let p: Vec<char> = chars_of(pat);
    let found = find_chars(s.as_slice(), p.as_slice(), 0);
    proof {
        lemma_first_match(s@, p@, 0);
    }
    found.is_some()
}

/// Does `text` begin with `pat`?
pub fn starts_with(text: &str, pat: &str) -> (found: bool)
    ensures
        found == begins(text@, pat@),
{
    let s: Vec<char> = chars_of(text);
    let p: Vec<char> = chars_of(pat);
    chars_match_at(s.as_slice(), p.as_slice(), 0)
}

/// Does `text` end with `pat`?
pub fn ends_with(text: &str, pat: &str) -> (found: bool)
    ensures
        found == finishes(text@, pat@),
{
    let s: Vec<char> = chars_of(text);
    let p: Vec<char> = chars_of(pat);
    if p.len() > s.len() {
        return false;
    }
    chars_match_at(s.as_slice(), p.as_slice(), s.len() - p.len())
}

/// What follows `pat` at the start of `s`, where `s` begins with it.
pub open spec fn after_prefix(s: Seq<char>, pat: Seq<char>) -> Option<Seq<char>> {
    if begins(s, pat) {
        Some(s.skip(pat.len() as int))
    } else {
        None
    }
}

/// The view of an optional text.
pub open spec fn opt_view(text: Option<String>) -> Option<Seq<char>> {
    match text {
        Some(t) => Some(t@),
        None => None,
    }
}

/// The view of a result of texts.
pub open spec fn result_view(r: Result<String, String>) -> Result<Seq<char>, Seq<char>> {
    match r {
        Ok(t) => Ok(t@),
        Err(e) => Err(e@),
    }
}

/// What follows `pat` at the start of `text`, where `text` begins with it.
pub fn strip_prefix(text: &str, pat: &str) -> (rest: Option<String>)
    ensures
        opt_view(rest) == after_prefix(text@, pat@),
{
    let s: Vec<char> = chars_of(text);
    let p: Vec<char> = chars_of(pat);
    if chars_match_at(s.as_slice(), p.as_slice(), 0) {
        let rest: &[char] = slice_subrange(s.as_slice(), p.len(), s.len());
        assert(rest@ =~= s@.skip(p@.len() as int));
        Some(text_of(rest))
    } else {
        None
    }
}

// ---------------------------------------------------------------------------
// Trimming and cutting
// ---------------------------------------------------------------------------

/// `s` without the characters of `class` at its start.
pub open spec fn trim_start_of(s: Seq<char>, class: CharClass) -> Seq<char>
    decreases s.len(),
{
    if s.len() > 0 && class.has(s[0]) {
        trim_start_of(s.skip(1), class)
    } else {
        s
    }
}

/// `s` without the characters of `class` at its end.
pub open spec fn trim_end_of(s: Seq<char>, class: CharClass) -> Seq<char>
    decreases s.len(),
{
    if s.len() > 0 && class.has(s.last()) {
        trim_end_of(s.drop_last(), class)
    } else {
        s
    }
}

/// `s` without the characters of `class` at either end.
pub open spec fn trim_of(s: Seq<char>, class: CharClass) -> Seq<char> {
    trim_end_of(trim_start_of(s, class), class)
}

/// `s` without the white space at either end.
pub open spec fn trim(s: Seq<char>) -> Seq<char> {
    trim_of(s, CharClass::Space)
}

/// Trimming at the start keeps every character that is not of the class.
proof fn lemma_trim_start_keeps(s: Seq<char>, class: CharClass, c: char)
    requires
        s.contains(c),
        !class.has(c),
    ensures
        trim_start_of(s, class).contains(c),
    decreases s.len(),
{
    let i = choose|i: int| 0 <= i < s.len() && s[i] == c;
    if class.has(s[0]) {
        assert(s.skip(1)[i - 1] == c);
        lemma_trim_start_keeps(s.skip(1), class, c);
    }
}

/// Trimming at the end keeps every character that is not of the class.
proof fn lemma_trim_end_keeps(s: Seq<char>, class: CharClass, c: char)
    requires
        s.contains(c),
        !class.has(c),
    ensures
        trim_end_of(s, class).contains(c),
    decreases s.len(),
{
    let i = choose|i: int| 0 <= i < s.len() && s[i] == c;
    if class.has(s.last()) {
        assert(s.drop_last()[i] == c);
        lemma_trim_end_keeps(s.drop_last(), class, c);
    }
}

/// Trimming keeps every character that is not white space.
pub proof fn lemma_trim_keeps(s: Seq<char>, c: char)
    requires
        s.contains(c),
        !is_space(c),
    ensures
        trim(s).contains(c),
{
    lemma_trim_start_keeps(s, CharClass::Space, c);
    lemma_trim_end_keeps(trim_start_of(s, CharClass::Space), CharClass::Space, c);
}

/// `chars` without the characters of `class` at its start.
pub fn trim_start_chars<'a>(chars: &'a [char], class: CharClass) -> (rest: &'a [char])
    ensures
        rest@ == trim_start_of(chars@, class),
{
    let mut i: usize = 0;
    assert(chars@.skip(0) =~= chars@);
    while i < chars.len() && class.holds(chars[i])
        invariant
            i <= chars.len(),
            trim_start_of(chars@, class) == trim_start_of(chars@.skip(i as int), class),
        decreases chars.len() - i,
    {
        assert(chars@.skip(i as int).skip(1) =~= chars@.skip(i + 1));
        i += 1;
    }
    let rest: &[char] = slice_subrange(chars, i, chars.len());
    assert(rest@ =~= chars@.skip(i as int));
    rest
}

/// `chars` without the characters of `class` at its end.
pub fn trim_end_chars<'a>(chars: &'a [char], class: CharClass) -> (rest: &'a [char])
    ensures
        rest@ == trim_end_of(chars@, class),
{
    let mut n: usize = chars.len();
    assert(chars@.take(n as int) =~= chars@);
    while n > 0 && class.holds(chars[n - 1])
        invariant
            n <= chars.len(),
            trim_end_of(chars@, class) == trim_end_of(chars@.take(n as int), class),
        decreases n,
    {
        assert(chars@.take(n as int).drop_last() =~= chars@.take(n - 1));
        n -= 1;
    }
    let rest: &[char] = slice_subrange(chars, 0, n);
    assert(rest@ =~= chars@.take(n as int));
    rest
}

/// `text` without the characters of `class` at its start.
pub fn trim_start_class(text: &str, class: CharClass) -> (rest: String)
    ensures
        rest@ == trim_start_of(text@, class),
{
    let s: Vec<char> = chars_of(text);
    text_of(trim_start_chars(s.as_slice(), class))
}

/// `text` without the characters of `class` at its end.
pub fn trim_end_class(text: &str, class: CharClass) -> (rest: String)
    ensures
        rest@ == trim_end_of(text@, class),
{
    let s: Vec<char> = chars_of(text);
    text_of(trim_end_chars(s.as_slice(), class))
}

/// `text` without the characters of `class` at either end.
pub fn trim_class(text: &str, class: CharClass) -> (rest: String)
    ensures
        rest@ == trim_of(text@, class),
{
    let s: Vec<char> = chars_of(text);
    text_of(trim_end_chars(trim_start_chars(s.as_slice(), class), class))
}

/// `text` without the white space at either end.
pub fn trimmed(text: &str) -> (rest: String)
    ensures
        rest@ == trim(text@),
{
    trim_class(text, CharClass::Space)
}

/// The first `n` characters of `s`, or all of it where it has fewer.
pub open spec fn head_of(s: Seq<char>, n: nat) -> Seq<char> {
    if s.len() <= n {
        s
    } else {
        s.take(n as int)
    }
}

/// The last `n` characters of `s`, or all of it where it has fewer.
pub open spec fn tail_of(s: Seq<char>, n: nat) -> Seq<char> {
    if s.len() <= n {
        s
    } else {
        s.skip(s.len() - n)
    }
}

/// The first `n` characters of `text`, or all of it where it has fewer.
pub fn head(text: &str, n: usize) -> (part: String)
    ensures
        part@ == head_of(text@, n as nat),
{
    let s: Vec<char> = chars_of(text);
    if s.len() <= n {
        return text_of(s.as_slice());
    }
    let part: &[char] = slice_subrange(s.as_slice(), 0, n);
    assert(part@ =~= s@.take(n as int));
    text_of(part)
}

/// The last `n` characters of `text`, or all of it where it has fewer.
pub fn tail(text: &str, n: usize) -> (part: String)
    ensures
        part@ == tail_of(text@, n as nat),
{
    let s: Vec<char> = chars_of(text);
    if s.len() <= n {
        return text_of(s.as_slice());
    }
    let part: &[char] = slice_subrange(s.as_slice(), s.len() - n, s.len());
    assert(part@ =~= s@.skip(s@.len() - n));
    text_of(part)
}

// ---------------------------------------------------------------------------
// Replacing and counting
// ---------------------------------------------------------------------------

/// `s` with every occurrence of `pat` replaced, from the left and without overlaps.
pub open spec fn replace_all(s: Seq<char>, pat: Seq<char>, by: Seq<char>) -> Seq<char>
    decreases s.len(),
{
    if s.len() == 0 {
        s
    } else if pat.len() > 0 && matches_at(s, pat, 0) {
        by + replace_all(s.skip(pat.len() as int), pat, by)
    } else {
        seq![s[0]] + replace_all(s.skip(1), pat, by)
    }
}

/// `s` with the first occurrence of `pat` replaced.
pub open spec fn replace_first(s: Seq<char>, pat: Seq<char>, by: Seq<char>) -> Seq<char> {
    match first_match(s, pat, 0) {
        Some(i) => s.take(i) + by + s.skip(i + pat.len()),
        None => s,
    }
}

/// How many occurrences of `pat` `s` holds, counted from the left and without overlaps.
pub open spec fn count_of(s: Seq<char>, pat: Seq<char>) -> nat
    decreases s.len(),
{
    if s.len() == 0 || pat.len() == 0 {
        0
    } else if matches_at(s, pat, 0) {
        1 + count_of(s.skip(pat.len() as int), pat)
    } else {
        count_of(s.skip(1), pat)
    }
}

/// `text` with every occurrence of `pat` replaced, from the left and without overlaps.
pub fn replaced(text: &str, pat: &str, by: &str) -> (out: String)
    requires
        pat@.len() > 0,
    ensures
        out@ == replace_all(text@, pat@, by@),
{
    let s: Vec<char> = chars_of(text);
    let p: Vec<char> = chars_of(pat);
    let mut out: String = String::new();
    let mut i: usize = 0;
    assert(s@.skip(0) =~= s@);
    assert(out@ + replace_all(s@, p@, by@) =~= replace_all(s@, p@, by@));
    while i < s.len()
        invariant
            i <= s.len(),
            p@.len() > 0,
            out@ + replace_all(s@.skip(i as int), p@, by@) == replace_all(s@, p@, by@),
        decreases s.len() - i,
    {
        let ghost rest = s@.skip(i as int);
        let ghost before = out@;
        let hit = chars_match_at(s.as_slice(), p.as_slice(), i);
        assert(hit == matches_at(rest, p@, 0)) by {
            if i + p@.len() <= s@.len() {
                assert(rest.subrange(0, p@.len() as int) =~= s@.subrange(i as int, i + p@.len()));
            }
        }
        if hit {
            out.append(by);
            assert(rest.skip(p@.len() as int) =~= s@.skip(i + p@.len()));
            assert(before + by@ + replace_all(s@.skip(i + p@.len()), p@, by@)
                =~= before + (by@ + replace_all(s@.skip(i + p@.len()), p@, by@)));
            i += p.len();
        } else {
            out.push(s[i]);
            assert(rest.skip(1) =~= s@.skip(i + 1));
            assert(before.push(s@[i as int]) + replace_all(s@.skip(i + 1), p@, by@)
                =~= before + (seq![rest[0]] + replace_all(s@.skip(i + 1), p@, by@)));
            i += 1;
        }
    }
    assert(out@ + replace_all(s@.skip(i as int), p@, by@) =~= out@);
    out
}

/// `text` with the first occurrence of `pat` replaced.
pub fn replaced_once(text: &str, pat: &str, by: &str) -> (out: String)
    ensures
        out@ == replace_first(text@, pat@, by@),
{
    let s: Vec<char> = chars_of(text);
    let p: Vec<char> = chars_of(pat);
    match find_chars(s.as_slice(), p.as_slice(), 0) {
        Some(i) => {
            proof {
                lemma_first_match(s@, p@, 0);
                assert(matches_at(s@, p@, i as int));
            }
            let mut out: String = text_of(slice_subrange(s.as_slice(), 0, i));
            out.append(by);
            let n: usize = s.len();
            let rest: String = text_of(slice_subrange(s.as_slice(), i + p.len(), n));
            out.append(rest.as_str());
            assert(s@.subrange(0, i as int) =~= s@.take(i as int));
            assert(s@.subrange(i + p@.len(), s@.len() as int) =~= s@.skip(i + p@.len()));
            out
        },
        None => text_of(s.as_slice()),
    }
}

/// How many occurrences of `pat` `text` holds, counted from the left and without overlaps.
pub fn count_matches(text: &str, pat: &str) -> (n: usize)
    ensures
        n == count_of(text@, pat@),
        n <= text@.len(),
{
    let s: Vec<char> = chars_of(text);
    let p: Vec<char> = chars_of(pat);
    if p.len() == 0 {
        return 0;
    }
    let mut n: usize = 0;
    let mut i: usize = 0;
    assert(s@.skip(0) =~= s@);
    while i < s.len()
        invariant
            i <= s.len(),
            n <= i,
            p@.len() > 0,
            n + count_of(s@.skip(i as int), p@) == count_of(s@, p@),
        decreases s.len() - i,
    {
        let ghost rest = s@.skip(i as int);
        let hit = chars_match_at(s.as_slice(), p.as_slice(), i);
        assert(hit == matches_at(rest, p@, 0)) by {
            if i + p@.len() <= s@.len() {
                assert(rest.subrange(0, p@.len() as int) =~= s@.subrange(i as int, i + p@.len()));
            }
        }
        if hit {
            assert(rest.skip(p@.len() as int) =~= s@.skip(i + p@.len()));
            n += 1;
            i += p.len();
        } else {
            assert(rest.skip(1) =~= s@.skip(i + 1));
            i += 1;
        }
    }
    n
}

// ---------------------------------------------------------------------------
// Splitting and joining
// ---------------------------------------------------------------------------

/// How many characters stand in `s` before the first `c`.
pub open spec fn run_before(s: Seq<char>, c: char) -> nat
    decreases s.len(),
{
    if s.len() == 0 || s[0] == c {
        0
    } else {
        1 + run_before(s.skip(1), c)
    }
}

/// `n` is [`run_before`] where no `c` stands before `n`, and one stands there or `s` ends.
pub proof fn lemma_run_before(s: Seq<char>, c: char, n: int)
    requires
        0 <= n <= s.len(),
        forall|k: int| 0 <= k < n ==> s[k] != c,
        n < s.len() ==> s[n] == c,
    ensures
        run_before(s, c) == n,
    decreases s.len(),
{
    if n > 0 {
        assert forall|k: int| 0 <= k < n - 1 implies s.skip(1)[k] != c by {
            assert(s[k + 1] != c);
        }
        lemma_run_before(s.skip(1), c, n - 1);
    }
}

/// The first position from `from` on at which `c` stands, or the length.
pub fn find_char(s: &[char], c: char, from: usize) -> (at: usize)
    requires
        from <= s@.len(),
    ensures
        from <= at <= s@.len(),
        at == from + run_before(s@.skip(from as int), c),
        at < s@.len() ==> s@[at as int] == c,
        forall|k: int| from <= k < at ==> s@[k] != c,
{
    let mut at: usize = from;
    while at < s.len() && s[at] != c
        invariant
            from <= at <= s@.len(),
            forall|k: int| from <= k < at ==> s@[k] != c,
        decreases s.len() - at,
    {
        at += 1;
    }
    proof {
        lemma_run_before(s@.skip(from as int), c, at - from);
    }
    at
}

/// The pieces of `s` between the occurrences of `c`: one more than there are of `c`.
pub open spec fn split_of(s: Seq<char>, c: char) -> Seq<Seq<char>>
    decreases s.len(),
{
    let n = run_before(s, c) as int;
    if n >= s.len() {
        seq![s]
    } else {
        seq![s.take(n)] + split_of(s.skip(n + 1), c)
    }
}

/// `s` without a carriage return at its end.
pub open spec fn without_cr(s: Seq<char>) -> Seq<char> {
    if s.len() > 0 && s.last() == '\r' {
        s.drop_last()
    } else {
        s
    }
}

/// The lines of `s`: a line ends at `\n` or `\r\n`, and the last one may lack its end.
pub open spec fn lines_of(s: Seq<char>) -> Seq<Seq<char>>
    decreases s.len(),
{
    let n = run_before(s, '\n') as int;
    if s.len() == 0 {
        Seq::empty()
    } else if n >= s.len() {
        seq![s]
    } else {
        seq![without_cr(s.take(n))] + lines_of(s.skip(n + 1))
    }
}

/// How many characters stand in `s` before the first white space.
pub open spec fn word_len(s: Seq<char>) -> nat
    decreases s.len(),
{
    if s.len() == 0 || is_space(s[0]) {
        0
    } else {
        1 + word_len(s.skip(1))
    }
}

/// A word is no longer than the text it stands in.
pub proof fn lemma_word_len_bound(s: Seq<char>)
    ensures
        word_len(s) <= s.len(),
    decreases s.len(),
{
    if s.len() > 0 && !is_space(s[0]) {
        lemma_word_len_bound(s.skip(1));
    }
}

/// The words of `s`: its longest parts without white space, in order.
pub open spec fn words_of(s: Seq<char>) -> Seq<Seq<char>>
    decreases s.len(),
{
    if s.len() == 0 {
        Seq::empty()
    } else if is_space(s[0]) {
        words_of(s.skip(1))
    } else {
        proof {
            lemma_word_len_bound(s);
        }
        seq![s.take(word_len(s) as int)] + words_of(s.skip(word_len(s) as int))
    }
}

/// `parts` in order, with `sep` between each two of them.
pub open spec fn join_of(parts: Seq<Seq<char>>, sep: Seq<char>) -> Seq<char>
    decreases parts.len(),
{
    if parts.len() == 0 {
        Seq::empty()
    } else if parts.len() == 1 {
        parts[0]
    } else {
        join_of(parts.drop_last(), sep) + sep + parts.last()
    }
}

/// The views of a vector that one text was pushed to.
pub proof fn lemma_views_push(texts: Seq<String>, t: String)
    ensures
        views(texts.push(t)) == views(texts).push(t@),
{
    assert(views(texts.push(t)) =~= views(texts).push(t@));
}

/// The first text from the `i`-th on that is flagged.
pub open spec fn flagged_from(list: Seq<(String, bool)>, i: nat) -> Option<Seq<char>>
    decreases list.len() - i,
{
    if i >= list.len() {
        None
    } else if list[i as int].1 {
        Some(list[i as int].0@)
    } else {
        flagged_from(list, i + 1)
    }
}

/// The first text that is flagged.
pub fn find_flagged(list: &Vec<(String, bool)>) -> (found: Option<String>)
    ensures
        opt_view(found) == flagged_from(list@, 0),
{
    let mut i: usize = 0;
    while i < list.len()
        invariant
            i <= list@.len(),
            flagged_from(list@, 0) == flagged_from(list@, i as nat),
        decreases list@.len() - i,
    {
        if list[i].1 {
            return Some(list[i].0.clone());
        }
        i += 1;
    }
    None
}

/// Appends a text to a list.
pub fn push_text(texts: &mut Vec<String>, t: &str)
    ensures
        views(final(texts)@) == views(old(texts)@).push(t@),
{
    let owned: String = t.to_owned();
    proof {
        lemma_views_push(texts@, owned);
    }
    texts.push(owned);
}

/// A list without texts.
pub fn no_texts() -> (texts: Vec<String>)
    ensures
        views(texts@) == Seq::<Seq<char>>::empty(),
{
    let texts: Vec<String> = Vec::new();
    assert(views(texts@) =~= Seq::empty());
    texts
}

/// The pieces of `text` between the occurrences of `c`.
pub fn split_on(text: &str, c: char) -> (pieces: Vec<String>)
    ensures
        views(pieces@) == split_of(text@, c),
        pieces@.len() >= 1,
{
    let s: Vec<char> = chars_of(text);
    let mut pieces: Vec<String> = Vec::new();
    let mut start: usize = 0;
    let mut done: bool = false;
    assert(s@.skip(0) =~= s@);
    assert(views(pieces@) + split_of(s@, c) =~= split_of(s@, c));
    while !done
        invariant
            start <= s@.len(),
            !done ==> views(pieces@) + split_of(s@.skip(start as int), c) == split_of(s@, c),
            done ==> views(pieces@) == split_of(s@, c) && pieces@.len() >= 1,
        decreases s@.len() - start, if done { 0int } else { 1int },
    {
        let at: usize = find_char(s.as_slice(), c, start);
        let piece: String = text_of(slice_subrange(s.as_slice(), start, at));
        let ghost rest = s@.skip(start as int);
        let ghost before = views(pieces@);
        proof {
            lemma_views_push(pieces@, piece);
            assert(piece@ =~= rest.take(at - start));
        }
        pieces.push(piece);
        if at < s.len() {
            assert(rest.skip(at - start + 1) =~= s@.skip(at + 1));
            assert(before.push(rest.take(at - start)) + split_of(s@.skip(at + 1), c)
                =~= before + (seq![rest.take(at - start)] + split_of(s@.skip(at + 1), c)));
            start = at + 1;
        } else {
            assert(rest.take(at - start) =~= rest);
            assert(before.push(rest) =~= before + seq![rest]);
            done = true;
        }
    }
    pieces
}

/// The lines of `text`.
pub fn lines(text: &str) -> (all: Vec<String>)
    ensures
        views(all@) == lines_of(text@),
{
    let s: Vec<char> = chars_of(text);
    let mut all: Vec<String> = Vec::new();
    let mut start: usize = 0;
    assert(s@.skip(0) =~= s@);
    assert(views(all@) + lines_of(s@) =~= lines_of(s@));
    while start < s.len()
        invariant
            start <= s@.len(),
            views(all@) + lines_of(s@.skip(start as int)) == lines_of(s@),
        decreases s@.len() - start,
    {
        let at: usize = find_char(s.as_slice(), '\n', start);
        let ghost rest = s@.skip(start as int);
        let ghost before = views(all@);
        let mut end: usize = at;
        if at < s.len() && at > start && s[at - 1] == '\r' {
            end = at - 1;
        }
        let line: String = text_of(slice_subrange(s.as_slice(), start, end));
        proof {
            lemma_views_push(all@, line);
        }
        all.push(line);
        if at < s.len() {
            assert(line@ =~= without_cr(rest.take(at - start)));
            assert(rest.skip(at - start + 1) =~= s@.skip(at + 1));
            assert(before.push(line@) + lines_of(s@.skip(at + 1))
                =~= before + (seq![line@] + lines_of(s@.skip(at + 1))));
            start = at + 1;
        } else {
            assert(line@ =~= rest);
            assert(before.push(rest) + lines_of(s@.skip(at as int)) =~= before + seq![rest]);
            start = at;
        }
    }
    assert(views(all@) + lines_of(s@.skip(start as int)) =~= views(all@));
    all
}

/// `n` is [`word_len`] where no white space stands before `n`, and some stands there or `s` ends.
proof fn lemma_word_len(s: Seq<char>, n: int)
    requires
        0 <= n <= s.len(),
        forall|k: int| 0 <= k < n ==> !is_space(s[k]),
        n < s.len() ==> is_space(s[n]),
    ensures
        word_len(s) == n,
    decreases s.len(),
{
    if n > 0 {
        assert forall|k: int| 0 <= k < n - 1 implies !is_space(s.skip(1)[k]) by {
            assert(!is_space(s[k + 1]));
        }
        lemma_word_len(s.skip(1), n - 1);
    }
}

/// The words of `text`: its longest parts without white space, in order.
pub fn words(text: &str) -> (all: Vec<String>)
    ensures
        views(all@) == words_of(text@),
{
    let s: Vec<char> = chars_of(text);
    let mut all: Vec<String> = Vec::new();
    let mut i: usize = 0;
    assert(s@.skip(0) =~= s@);
    assert(views(all@) + words_of(s@) =~= words_of(s@));
    while i < s.len()
        invariant
            i <= s@.len(),
            views(all@) + words_of(s@.skip(i as int)) == words_of(s@),
        decreases s@.len() - i,
    {
        let ghost rest = s@.skip(i as int);
        if CharClass::Space.holds(s[i]) {
            assert(rest.skip(1) =~= s@.skip(i + 1));
            i += 1;
        } else {
            let mut at: usize = i;
            while at < s.len() && !CharClass::Space.holds(s[at])
                invariant
                    i <= at <= s@.len(),
                    forall|k: int| i <= k < at ==> !is_space(s@[k]),
                decreases s.len() - at,
            {
                at += 1;
            }
            assert(at > i);
            let ghost before = views(all@);
            let word: String = text_of(slice_subrange(s.as_slice(), i, at));
            proof {
                assert forall|k: int| 0 <= k < at - i implies !is_space(rest[k]) by {
                    assert(!is_space(s@[i + k]));
                }
                lemma_word_len(rest, at - i);
                lemma_views_push(all@, word);
                assert(word@ =~= rest.take(at - i));
                assert(rest.skip(at - i) =~= s@.skip(at as int));
                assert(before.push(word@) + words_of(s@.skip(at as int))
                    =~= before + (seq![word@] + words_of(s@.skip(at as int))));
            }
            all.push(word);
            i = at;
        }
    }
    assert(views(all@) + words_of(s@.skip(i as int)) =~= views(all@));
    all
}

/// `parts` in order, with `sep` between each two of them.
pub fn join(parts: &Vec<String>, sep: &str) -> (out: String)
    ensures
        out@ == join_of(views(parts@), sep@),
{
    let mut out: String = String::new();
    let mut i: usize = 0;
    while i < parts.len()
        invariant
            i <= parts.len(),
            out@ == join_of(views(parts@).take(i as int), sep@),
        decreases parts.len() - i,
    {
        assert(views(parts@).take(i + 1).drop_last() =~= views(parts@).take(i as int));
        if i > 0 {
            out.append(sep);
        }
        out.append(parts[i].as_str());
        i += 1;
    }
    assert(views(parts@).take(i as int) =~= views(parts@));
    out
}

/// `text` with `A` to `Z` turned into `a` to `z`.
pub fn lowered(text: &str) -> (out: String)
    ensures
        out@ == lower(text@),
{
    let s: Vec<char> = chars_of(text);
    let mut out: String = String::new();
    let mut i: usize = 0;
    while i < s.len()
        invariant
            i <= s@.len(),
            out@ == lower(s@.take(i as int)),
        decreases s@.len() - i,
    {
        let c: char = s[i];
        if 'A' <= c && c <= 'Z' {
            let code: u8 = c as u8;
            out.push((code + 32) as char);
        } else {
            out.push(c);
        }
        assert(out@ =~= lower(s@.take(i + 1)));
        i += 1;
    }
    assert(s@.take(i as int) =~= s@);
    out
}

// ---------------------------------------------------------------------------
// Laws of text
// ---------------------------------------------------------------------------

/// A text without an occurrence of `pat` stays as it is.
pub proof fn law_replacing_nothing(s: Seq<char>, pat: Seq<char>, by: Seq<char>)
    requires
        !has_match(s, pat),
    ensures
        replace_all(s, pat, by) == s,
        replace_first(s, pat, by) == s,
        count_of(s, pat) == 0,
    decreases s.len(),
{
    lemma_first_match(s, pat, 0);
    if s.len() > 0 {
        assert(!matches_at(s, pat, 0));
        assert forall|i: int| !matches_at(s.skip(1), pat, i) by {
            if matches_at(s.skip(1), pat, i) {
                assert(s.subrange(i + 1, i + 1 + pat.len()) =~= s.skip(1).subrange(
                    i,
                    i + pat.len(),
                ));
                assert(matches_at(s, pat, i + 1));
            }
        }
        law_replacing_nothing(s.skip(1), pat, by);
        assert(seq![s[0]] + s.skip(1) =~= s);
    }
}

/// Where `pat` first stands behind `before`, replacing it puts `by` there: once, or there and
/// wherever else it stands in what follows.
pub proof fn law_replacing_the_first(
    before: Seq<char>,
    pat: Seq<char>,
    after: Seq<char>,
    by: Seq<char>,
)
    requires
        pat.len() > 0,
        forall|i: int| 0 <= i < before.len() ==> !matches_at(before + pat + after, pat, i),
    ensures
        replace_first(before + pat + after, pat, by) == before + by + after,
        replace_all(before + pat + after, pat, by) == before + by + replace_all(after, pat, by),
        count_of(before + pat + after, pat) == 1 + count_of(after, pat),
    decreases before.len(),
{
    let s = before + pat + after;
    let n = before.len() as int;
    assert(s.subrange(n, n + pat.len()) =~= pat);
    assert(matches_at(s, pat, n));
    lemma_first_match(s, pat, 0);
    let i = first_match(s, pat, 0)->Some_0;
    assert(i == n) by {
        if i < n {
            assert(!matches_at(s, pat, i));
        }
    }
    assert(s.take(n) + by + s.skip(n + pat.len()) =~= before + by + after);
    if n == 0 {
        assert(s.skip(pat.len() as int) =~= after);
        assert(before + by =~= by);
    } else {
        let rest = before.skip(1);
        let t = rest + pat + after;
        assert(s.skip(1) =~= t);
        assert forall|k: int| 0 <= k < rest.len() implies !matches_at(t, pat, k) by {
            if matches_at(t, pat, k) {
                assert(s.subrange(k + 1, k + 1 + pat.len()) =~= t.subrange(k, k + pat.len()));
                assert(matches_at(s, pat, k + 1));
            }
        }
        law_replacing_the_first(rest, pat, after, by);
        assert(!matches_at(s, pat, 0));
        assert(seq![s[0]] + (rest + by + replace_all(after, pat, by)) =~= before + by + replace_all(
            after,
            pat,
            by,
        ));
    }
}

/// Spaces, tabs and line ends are white space; nothing that shows in ASCII is.
pub proof fn law_white_space(c: char)
    ensures
        is_space(' '),
        is_space('\t'),
        is_space('\n'),
        is_space('\r'),
        '!' <= c <= '~' ==> !is_space(c),
{
}

/// White space is what Unicode calls so: six characters of ASCII, two of Latin-1, the spaces
/// of general punctuation, and the two that stand elsewhere.
pub proof fn law_white_space_of_unicode(c: char)
    ensures
        c <= '\u{7f}' ==> (is_space(c) <==> c == '\t' || c == '\n' || c == '\u{b}' || c == '\u{c}'
            || c == '\r' || c == ' '),
        '\u{7f}' < c <= '\u{ff}' ==> (is_space(c) <==> c == '\u{85}' || c == '\u{a0}'),
        '\u{ff}' < c < '\u{2000}' ==> (is_space(c) <==> c == '\u{1680}'),
        '\u{2000}' <= c <= '\u{200a}' ==> is_space(c),
        '\u{200a}' < c <= '\u{206f}' ==> (is_space(c) <==> c == '\u{2028}' || c == '\u{2029}' || c
            == '\u{202f}' || c == '\u{205f}'),
        c > '\u{206f}' ==> (is_space(c) <==> c == '\u{3000}'),
{
}

/// Characters of the class before a text that starts with none are trimmed away.
pub proof fn lemma_trim_start_skips(a: Seq<char>, s: Seq<char>, class: CharClass)
    requires
        forall|i: int| 0 <= i < a.len() ==> class.has(#[trigger] a[i]),
        s.len() > 0 ==> !class.has(s[0]),
    ensures
        trim_start_of(a + s, class) == s,
    decreases a.len(),
{
    if a.len() > 0 {
        assert((a + s).skip(1) =~= a.skip(1) + s);
        assert forall|i: int| 0 <= i < a.skip(1).len() implies class.has(
            #[trigger] a.skip(1)[i],
        ) by {
            assert(class.has(a[i + 1]));
        }
        lemma_trim_start_skips(a.skip(1), s, class);
    } else {
        assert(a + s =~= s);
    }
}

proof fn lemma_trim_end_skips(s: Seq<char>, b: Seq<char>, class: CharClass)
    requires
        forall|i: int| 0 <= i < b.len() ==> class.has(#[trigger] b[i]),
        s.len() > 0 ==> !class.has(s.last()),
    ensures
        trim_end_of(s + b, class) == s,
    decreases b.len(),
{
    if b.len() > 0 {
        assert((s + b).drop_last() =~= s + b.drop_last());
        assert((s + b).last() == b.last());
        lemma_trim_end_skips(s, b.drop_last(), class);
    } else {
        assert(s + b =~= s);
    }
}

/// Trimming takes away exactly the characters of the class at both ends.
pub proof fn law_trimming(a: Seq<char>, t: Seq<char>, b: Seq<char>, class: CharClass)
    requires
        forall|i: int| 0 <= i < a.len() ==> class.has(#[trigger] a[i]),
        forall|i: int| 0 <= i < b.len() ==> class.has(#[trigger] b[i]),
        t.len() > 0 && !class.has(t[0]) && !class.has(t.last()),
    ensures
        trim_of(a + t + b, class) == t,
        trim_start_of(a + t, class) == t,
        trim_end_of(t + b, class) == t,
        class == CharClass::Space ==> trim(a + t + b) == t,
{
    assert(a + t + b =~= a + (t + b));
    lemma_trim_start_skips(a, t + b, class);
    lemma_trim_start_skips(a, t, class);
    lemma_trim_end_skips(t, b, class);
}

proof fn lemma_run_before_first(a: Seq<char>, c: char, b: Seq<char>)
    requires
        !a.contains(c),
    ensures
        run_before(a + seq![c] + b, c) == a.len(),
        run_before(a, c) == a.len(),
{
    let s = a + seq![c] + b;
    assert forall|k: int| 0 <= k < a.len() implies s[k] != c && a[k] != c by {
        assert(a.contains(a[k]));
    }
    lemma_run_before(s, c, a.len() as int);
    lemma_run_before(a, c, a.len() as int);
}

/// A text ends its first line at the first line break, whichever of the two kinds that is.
pub proof fn law_first_line(a: Seq<char>, b: Seq<char>)
    requires
        !a.contains('\n'),
    ensures
        a.len() > 0 ==> lines_of(a) == seq![a],
        lines_of(Seq::empty()) == Seq::<Seq<char>>::empty(),
        (a.len() == 0 || a.last() != '\r') ==> lines_of(a + seq!['\n'] + b) == seq![a] + lines_of(
            b,
        ),
        lines_of(a + seq!['\r'] + seq!['\n'] + b) == seq![a] + lines_of(b),
{
    lemma_run_before_first(a, '\n', b);
    let s = a + seq!['\n'] + b;
    assert(s.take(a.len() as int) =~= a);
    assert(s.skip((a.len() + 1) as int) =~= b);
    let r = a + seq!['\r'];
    assert forall|k: int| 0 <= k < r.len() implies r[k] != '\n' by {
        if k < a.len() {
            assert(a.contains(a[k]));
        }
    }
    lemma_run_before_first(r, '\n', b);
    let t = r + seq!['\n'] + b;
    assert(t.take(r.len() as int) =~= r);
    assert(t.skip((r.len() + 1) as int) =~= b);
    assert(r.drop_last() =~= a);
}

/// The lines of a text behind a whole line are those of the line and those of the text.
pub proof fn law_lines_of_two_texts(p: Seq<char>, q: Seq<char>)
    requires
        p.len() > 0 ==> p.last() == '\n',
    ensures
        lines_of(p + q) == lines_of(p) + lines_of(q),
    decreases p.len(),
{
    if p.len() == 0 {
        assert(p + q =~= q);
        assert(lines_of(p) + lines_of(q) =~= lines_of(q));
    } else {
        let s = p + q;
        let n = run_before(p, '\n') as int;
        lemma_run_before_bound(p, '\n');
        assert(n < p.len()) by {
            if n >= p.len() {
                assert(p[p.len() - 1] == '\n');
            }
        }
        assert forall|k: int| 0 <= k < n implies s[k] != '\n' by {
            assert(p[k] != '\n');
        }
        lemma_run_before(s, '\n', n);
        let rest = p.skip(n + 1);
        assert(s.take(n) =~= p.take(n));
        assert(s.skip(n + 1) =~= rest + q);
        law_lines_of_two_texts(rest, q);
        assert(seq![without_cr(p.take(n))] + (lines_of(rest) + lines_of(q)) =~= (seq![
            without_cr(p.take(n)),
        ] + lines_of(rest)) + lines_of(q));
    }
}

proof fn lemma_run_before_bound(s: Seq<char>, c: char)
    ensures
        run_before(s, c) <= s.len(),
        forall|k: int| 0 <= k < run_before(s, c) ==> s[k] != c,
        run_before(s, c) < s.len() ==> s[run_before(s, c) as int] == c,
    decreases s.len(),
{
    if s.len() > 0 && s[0] != c {
        lemma_run_before_bound(s.skip(1), c);
        assert forall|k: int| 0 <= k < run_before(s, c) implies s[k] != c by {
            if k > 0 {
                assert(s.skip(1)[k - 1] != c);
            }
        }
    }
}

/// A text is split at each occurrence of a character, and only there.
pub proof fn law_splitting(a: Seq<char>, c: char, b: Seq<char>)
    requires
        !a.contains(c),
    ensures
        split_of(a, c) == seq![a],
        split_of(a + seq![c] + b, c) == seq![a] + split_of(b, c),
{
    lemma_run_before_first(a, c, b);
    let s = a + seq![c] + b;
    assert(s.take(a.len() as int) =~= a);
    assert(s.skip((a.len() + 1) as int) =~= b);
}

/// Words are what stands between white space.
pub proof fn law_words(w: Seq<char>, c: char, rest: Seq<char>)
    requires
        w.len() > 0,
        forall|i: int| 0 <= i < w.len() ==> !is_space(#[trigger] w[i]),
        is_space(c),
    ensures
        words_of(w) == seq![w],
        words_of(seq![c] + rest) == words_of(rest),
        words_of(w + seq![c] + rest) == seq![w] + words_of(rest),
{
    let s = w + seq![c] + rest;
    lemma_word_len(s, w.len() as int);
    lemma_word_len(w, w.len() as int);
    assert(s.take(w.len() as int) =~= w);
    assert(w.take(w.len() as int) =~= w);
    assert(w.skip(w.len() as int) =~= Seq::empty());
    assert(words_of(Seq::<char>::empty()) =~= Seq::<Seq<char>>::empty());
    let tail = s.skip(w.len() as int);
    assert(tail =~= seq![c] + rest);
    assert((seq![c] + rest).skip(1) =~= rest);
    assert(seq![w] + Seq::<Seq<char>>::empty() =~= seq![w]);
}

/// Joining puts what separates the parts between each two of them, and nothing else.
pub proof fn law_joining(parts: Seq<Seq<char>>, last: Seq<char>, sep: Seq<char>)
    ensures
        join_of(Seq::empty(), sep) == Seq::<char>::empty(),
        join_of(seq![last], sep) == last,
        parts.len() > 0 ==> join_of(parts.push(last), sep) == join_of(parts, sep) + sep + last,
{
    assert(parts.push(last).drop_last() =~= parts);
}

/// The start and the end of a text have as many characters as asked for, where it has them.
pub proof fn law_start_and_end(a: Seq<char>, b: Seq<char>)
    ensures
        head_of(a + b, a.len()) == a,
        tail_of(a + b, b.len()) == b,
        head_of(a, a.len() + b.len()) == a,
        tail_of(b, a.len() + b.len()) == b,
{
    assert((a + b).take(a.len() as int) =~= a);
    assert((a + b).skip(a.len() as int) =~= b);
    assert(a + b =~= a || b.len() > 0);
    assert(a + b =~= b || a.len() > 0);
}

/// Lower case changes the capital letters of ASCII and no other ASCII character, and keeps
/// the length.
pub proof fn law_lower_case(s: Seq<char>, i: int)
    requires
        0 <= i < s.len(),
    ensures
        lower(s).len() == s.len(),
        'A' <= s[i] <= 'Z' ==> lower(s)[i] as u32 == s[i] as u32 + 32,
        s[i] <= '\u{7f}' && !('A' <= s[i] <= 'Z') ==> lower(s)[i] == s[i],
{
}

/// What follows a prefix is the rest of the text; a text that does not begin so has none.
pub proof fn law_prefix(pat: Seq<char>, rest: Seq<char>, other: Seq<char>)
    ensures
        after_prefix(pat + rest, pat) == Some(rest),
        begins(pat + rest, pat),
        finishes(rest + pat, pat),
        after_prefix(other, pat) matches Some(r) ==> other == pat + r,
{
    assert((pat + rest).subrange(0, pat.len() as int) =~= pat);
    assert((pat + rest).skip(pat.len() as int) =~= rest);
    assert((rest + pat).subrange(rest.len() as int, (rest + pat).len() as int) =~= pat);
    if let Some(r) = after_prefix(other, pat) {
        assert(other =~= other.subrange(0, pat.len() as int) + other.skip(pat.len() as int));
    }
}

/// The first flagged entry is found: one whose flag is set and before which none is.
pub proof fn law_first_flagged(list: Seq<(String, bool)>, i: int)
    requires
        0 <= i <= list.len(),
        forall|k: int| 0 <= k < i ==> !(#[trigger] list[k]).1,
    ensures
        i < list.len() && list[i].1 ==> flagged_from(list, 0) == Some(list[i].0@),
        i == list.len() ==> flagged_from(list, 0) is None,
{
    lemma_flagged_skips(list, i, 0);
}

proof fn lemma_flagged_skips(list: Seq<(String, bool)>, i: int, from: int)
    requires
        0 <= from <= i <= list.len(),
        forall|k: int| 0 <= k < i ==> !(#[trigger] list[k]).1,
    ensures
        flagged_from(list, from as nat) == flagged_from(list, i as nat),
    decreases i - from,
{
    if from < i {
        assert(!list[from].1);
        lemma_flagged_skips(list, i, from + 1);
    }
}

/// A text holds another exactly where it is made of what stands before it, the other text
/// itself and what stands behind it.
pub proof fn law_holding(a: Seq<char>, pat: Seq<char>, b: Seq<char>, s: Seq<char>, i: int)
    ensures
        has_match(a + pat + b, pat),
        matches_at(a + pat + b, pat, a.len() as int),
        matches_at(s, pat, i) ==> s == s.take(i) + pat + s.skip(i + pat.len()),
{
    let t = a + pat + b;
    assert(t.subrange(a.len() as int, (a.len() + pat.len()) as int) =~= pat);
    assert(matches_at(t, pat, a.len() as int));
    if matches_at(s, pat, i) {
        assert(s =~= s.take(i) + s.subrange(i, i + pat.len()) + s.skip(i + pat.len()));
    }
}

} // verus!

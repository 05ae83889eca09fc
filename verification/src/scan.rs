//! Finding JSON objects in running text.
//!
//! An object runs from a `{` to the `}` that closes it. Braces inside strings do not
//! count: source code that a model writes into a string is full of them.

use crate::text::chars_of;
use vstd::prelude::*;

verus! {

/// Where a scan stands: how many braces are open, whether it is inside a string, and
/// whether the next symbol of the string is escaped.
pub struct Scan {
    pub depth: int,
    pub in_str: bool,
    pub escape: bool,
}

/// The scan after one more symbol.
pub open spec fn step(st: Scan, b: u8) -> Scan {
    if st.in_str {
        if st.escape {
            Scan { escape: false, ..st }
        } else if b == 92 {
            Scan { escape: true, ..st }
        } else if b == 34 {
            Scan { in_str: false, ..st }
        } else {
            st
        }
    } else if b == 34 {
        Scan { in_str: true, ..st }
    } else if b == 123 {
        Scan { depth: st.depth + 1, ..st }
    } else if b == 125 {
        Scan { depth: st.depth - 1, ..st }
    } else {
        st
    }
}

/// The scan of the symbols from `start` up to `n`.
pub open spec fn scan_to(b: Seq<u8>, start: int, n: int) -> Scan
    decreases n - start,
{
    if n <= start {
        Scan { depth: 0, in_str: false, escape: false }
    } else {
        step(scan_to(b, start, n - 1), b[n - 1])
    }
}

/// The first `{` from `i` on.
pub open spec fn brace_from(b: Seq<u8>, i: int) -> Option<int>
    decreases b.len() - i,
{
    if i < 0 || i >= b.len() {
        None
    } else if b[i] == 123 {
        Some(i)
    } else {
        brace_from(b, i + 1)
    }
}

/// The first end from `n` on at which as many braces have closed as have opened since `start`.
pub open spec fn close_from(b: Seq<u8>, start: int, n: int) -> Option<int>
    decreases b.len() + 1 - n,
{
    if n > b.len() {
        None
    } else if scan_to(b, start, n).depth == 0 {
        Some(n)
    } else {
        close_from(b, start, n + 1)
    }
}

/// Where the first object from `from` on starts and ends.
pub open spec fn object_from(b: Seq<u8>, from: int) -> Option<(int, int)> {
    match brace_from(b, from) {
        Some(start) => match close_from(b, start, start + 1) {
            Some(end) => Some((start, end)),
            None => None,
        },
        None => None,
    }
}

proof fn lemma_brace_from(b: Seq<u8>, i: int)
    requires
        0 <= i,
    ensures
        brace_from(b, i) matches Some(s) ==> i <= s < b.len() && b[s] == 123,
    decreases b.len() - i,
{
    if i < b.len() && b[i] != 123 {
        lemma_brace_from(b, i + 1);
    }
}

/// Until the braces are balanced, at least one is open.
proof fn lemma_close_from(b: Seq<u8>, start: int, n: int)
    requires
        0 <= start < n,
        start < b.len(),
        b[start] == 123,
        n <= b.len() + 1,
        forall|k: int| start < k < n ==> scan_to(b, start, k).depth >= 1,
    ensures
        close_from(b, start, n) matches Some(e) ==> {
            &&& n <= e <= b.len()
            &&& b[e - 1] == 125
            &&& scan_to(b, start, e).depth == 0
            &&& forall|k: int| start < k < e ==> scan_to(b, start, k).depth >= 1
        },
    decreases b.len() + 1 - n,
{
    if n <= b.len() {
        if n == start + 1 {
            assert(scan_to(b, start, start).depth == 0);
            assert(scan_to(b, start, n).depth == 1);
        } else {
            assert(scan_to(b, start, n - 1).depth >= 1);
        }
        if scan_to(b, start, n).depth == 0 {
            assert(b[n - 1] == 125);
        } else {
            lemma_close_from(b, start, n + 1);
        }
    }
}

/// What stands in a string opens and closes nothing.
pub proof fn law_strings_hide_braces(st: Scan, b: u8)
    requires
        st.in_str,
    ensures
        step(st, b).depth == st.depth,
{
}

/// An object starts with `{`, ends with `}` and lies behind the place where the search
/// began. Its braces are balanced at its end, and not before.
pub proof fn law_object_from(b: Seq<u8>, from: int)
    requires
        0 <= from,
    ensures
        object_from(b, from) matches Some((s, e)) ==> {
            &&& from <= s < e <= b.len()
            &&& b[s] == 123
            &&& b[e - 1] == 125
            &&& scan_to(b, s, e).depth == 0
            &&& forall|k: int| s < k < e ==> scan_to(b, s, k).depth >= 1
        },
{
    lemma_brace_from(b, from);
    if let Some(s) = brace_from(b, from) {
        lemma_close_from(b, s, s + 1);
    }
}

/// Where the first object from `from` on starts and ends.
pub fn next_object(b: &[u8], from: usize) -> (found: Option<(usize, usize)>)
    ensures
        match found {
            Some((s, e)) => {
                &&& object_from(b@, from as int) == Some((s as int, e as int))
                &&& from <= s < e <= b@.len()
                &&& b@[s as int] == 123
                &&& b@[e - 1] == 125
            },
            None => object_from(b@, from as int) is None,
        },
{
    let mut i: usize = from;
    while i < b.len() && b[i] != 123
        invariant
            brace_from(b@, from as int) == brace_from(b@, i as int),
        decreases b.len() - i,
    {
        i += 1;
    }
    if i >= b.len() {
        return None;
    }
    let start: usize = i;
    let mut depth: usize = 0;
    let mut in_str: bool = false;
    let mut escape: bool = false;
    while i < b.len()
        invariant
            start <= i <= b@.len(),
            start < b@.len(),
            b@[start as int] == 123,
            brace_from(b@, from as int) == Some(start as int),
            scan_to(b@, start as int, i as int) == (Scan { depth: depth as int, in_str, escape }),
            depth <= i - start,
            i > start ==> depth >= 1,
            close_from(b@, start as int, start + 1) == close_from(
                b@,
                start as int,
                if i == start {
                    start + 1
                } else {
                    i as int
                },
            ),
        decreases b.len() - i,
    {
        let c: u8 = b[i];
        i += 1;
        if in_str {
            if escape {
                escape = false;
            } else if c == 92 {
                escape = true;
            } else if c == 34 {
                in_str = false;
            }
        } else if c == 34 {
            in_str = true;
        } else if c == 123 {
            depth += 1;
        } else if c == 125 {
            depth -= 1;
            if depth == 0 {
                proof {
                    law_object_from(b@, from as int);
                }
                return Some((start, i));
            }
        }
    }
    assert(close_from(b@, start as int, i + 1) is None);
    None
}

/// Where the first JSON object of `text` from byte `from` on starts and ends, in bytes.
pub fn next_json_object(text: &str, from: usize) -> (found: Option<(usize, usize)>)
    ensures
        match found {
            Some((s, e)) => {
                &&& object_from(vstd::utf8::encode_utf8(text@), from as int) == Some((s as int, e as int))
                &&& from <= s < e <= vstd::utf8::encode_utf8(text@).len()
                &&& vstd::utf8::encode_utf8(text@)[s as int] == 123
                &&& vstd::utf8::encode_utf8(text@)[e - 1] == 125
            },
            None => object_from(vstd::utf8::encode_utf8(text@), from as int) is None,
        },
{
    next_object(text.as_bytes(), from)
}

/// What a scan sees of a character: its code where it is ASCII, else nothing that counts.
pub open spec fn symbol(c: char) -> u8 {
    if c as u32 <= 127 {
        c as u8
    } else {
        0
    }
}

/// What a scan sees of a text.
pub open spec fn symbols(s: Seq<char>) -> Seq<u8> {
    s.map_values(|c: char| symbol(c))
}

/// The objects of a text from position `from` on, one after another.
pub open spec fn objects_from(s: Seq<char>, from: int) -> Seq<Seq<char>>
    decreases s.len() - from,
{
    match object_from(symbols(s), from) {
        Some((b, e)) => if from < e <= s.len() {
            seq![s.subrange(b, e)] + objects_from(s, e)
        } else {
            Seq::empty()
        },
        None => Seq::empty(),
    }
}

/// The objects of a text, one after another.
pub fn json_objects(text: &str) -> (objects: Vec<String>)
    ensures
        crate::text::views(objects@) == objects_from(text@, 0),
{
    let s: Vec<char> = chars_of(text);
    let mut b: Vec<u8> = Vec::new();
    let mut i: usize = 0;
    while i < s.len()
        invariant
            i <= s@.len(),
            b@ == symbols(s@.take(i as int)),
        decreases s@.len() - i,
    {
        let c: char = s[i];
        b.push(
            if c as u32 <= 127 {
                c as u8
            } else {
                0
            },
        );
        assert(b@ =~= symbols(s@.take(i + 1)));
        i += 1;
    }
    assert(s@.take(i as int) =~= s@);
    let mut objects: Vec<String> = Vec::new();
    let mut from: usize = 0;
    let mut done: bool = false;
    assert(crate::text::views(objects@) + objects_from(s@, 0) =~= objects_from(s@, 0));
    while !done
        invariant
            b@ == symbols(s@),
            b@.len() == s@.len(),
            from <= s@.len(),
            !done ==> crate::text::views(objects@) + objects_from(s@, from as int) == objects_from(
                s@,
                0,
            ),
            done ==> crate::text::views(objects@) == objects_from(s@, 0),
        decreases
                s@.len() - from,
                if done {
                    0int
                } else {
                    1int
                },
    {
        let ghost before = crate::text::views(objects@);
        match next_object(b.as_slice(), from) {
            Some((start, end)) => {
                let object: String = crate::text::text_of(
                    vstd::slice::slice_subrange(s.as_slice(), start, end),
                );
                proof {
                    crate::text::lemma_views_push(objects@, object);
                    assert(before.push(object@) + objects_from(s@, end as int) =~= before + (
                    seq![object@] + objects_from(s@, end as int)));
                }
                objects.push(object);
                from = end;
            },
            None => {
                assert(before + objects_from(s@, from as int) =~= before);
                done = true;
            },
        }
    }
    objects
}

// ---------------------------------------------------------------------------
// Which objects a text holds
// ---------------------------------------------------------------------------

/// Is `o` an object: does it start with a brace that its last character closes, and nothing
/// before that?
pub open spec fn one_object(o: Seq<char>) -> bool {
    &&& o.len() > 0
    &&& o[0] == '{'
    &&& scan_to(symbols(o), 0, o.len() as int).depth == 0
    &&& forall|k: int| 0 < k < o.len() ==> scan_to(symbols(o), 0, k).depth != 0
}

/// The four characters that count are seen as themselves, and no other is taken for one.
proof fn lemma_symbol(c: char)
    ensures
        symbol(c) == 123 <==> c == '{',
        symbol(c) == 125 <==> c == '}',
        symbol(c) == 34 <==> c == '"',
        symbol(c) == 92 <==> c == '\\',
{
}

/// Equal symbols give equal scans, wherever they stand.
proof fn lemma_scan_moves(a: Seq<u8>, i: int, b: Seq<u8>, j: int, n: nat)
    requires
        0 <= i && i + n <= a.len(),
        0 <= j && j + n <= b.len(),
        forall|k: int| 0 <= k < n ==> #[trigger] a[i + k] == b[j + k],
    ensures
        scan_to(a, i, i + n) == scan_to(b, j, j + n),
    decreases n,
{
    if n > 0 {
        lemma_scan_moves(a, i, b, j, (n - 1) as nat);
        assert(a[i + (n - 1)] == b[j + (n - 1)]);
    }
}

proof fn lemma_brace_found(b: Seq<u8>, i: int, at: int)
    requires
        0 <= i <= at < b.len(),
        b[at] == 123,
        forall|k: int| i <= k < at ==> b[k] != 123,
    ensures
        brace_from(b, i) == Some(at),
    decreases at - i,
{
    if i < at {
        lemma_brace_found(b, i + 1, at);
    }
}

proof fn lemma_close_found(b: Seq<u8>, start: int, n: int, at: int)
    requires
        start < n <= at <= b.len(),
        scan_to(b, start, at).depth == 0,
        forall|k: int| n <= k < at ==> scan_to(b, start, k).depth != 0,
    ensures
        close_from(b, start, n) == Some(at),
    decreases at - n,
{
    if n < at {
        lemma_close_found(b, start, n + 1, at);
    }
}

/// The search for an object gives the same behind any start of the text.
proof fn lemma_search_moves(s: Seq<char>, i: int, from: int)
    requires
        0 <= i <= s.len(),
        0 <= from <= s.len() - i,
    ensures
        object_from(symbols(s), i + from) == (match object_from(symbols(s.skip(i)), from) {
            Some((b, e)) => Some((i + b, i + e)),
            None => None,
        }),
{
    lemma_brace_moves(s, i, from);
    lemma_brace_from(symbols(s.skip(i)), from);
    if let Some(b) = brace_from(symbols(s.skip(i)), from) {
        lemma_close_moves(s, i, b, b + 1);
    }
}

proof fn lemma_brace_moves(s: Seq<char>, i: int, from: int)
    requires
        0 <= i <= s.len(),
        0 <= from <= s.len() - i,
    ensures
        brace_from(symbols(s), i + from) == (match brace_from(symbols(s.skip(i)), from) {
            Some(b) => Some(i + b),
            None => None,
        }),
    decreases s.len() - i - from,
{
    if from < s.len() - i {
        assert(symbols(s)[i + from] == symbols(s.skip(i))[from]);
        lemma_brace_moves(s, i, from + 1);
    }
}

proof fn lemma_close_moves(s: Seq<char>, i: int, start: int, n: int)
    requires
        0 <= i <= s.len(),
        0 <= start < n,
    ensures
        close_from(symbols(s), i + start, i + n) == (match close_from(
            symbols(s.skip(i)),
            start,
            n,
        ) {
            Some(e) => Some(i + e),
            None => None,
        }),
    decreases s.len() + 1 - i - n,
{
    if n <= s.len() - i {
        lemma_scan_moves(symbols(s), i + start, symbols(s.skip(i)), start, (n - start) as nat);
        lemma_close_moves(s, i, start, n + 1);
    }
}

proof fn lemma_objects_move(s: Seq<char>, i: int, from: int)
    requires
        0 <= i <= s.len(),
        0 <= from <= s.len() - i,
    ensures
        objects_from(s, i + from) == objects_from(s.skip(i), from),
    decreases s.len() - i - from,
{
    lemma_search_moves(s, i, from);
    law_object_from(symbols(s.skip(i)), from);
    if let Some((b, e)) = object_from(symbols(s.skip(i)), from) {
        if from < e <= s.len() - i {
            lemma_objects_move(s, i, e);
            assert(s.subrange(i + b, i + e) =~= s.skip(i).subrange(b, e));
        }
    }
}

/// An object that stands in a text is found whole, and so are those behind it: neither the
/// text before it nor what follows changes what it is.
pub proof fn law_objects_are_found(a: Seq<char>, o: Seq<char>, b: Seq<char>)
    requires
        !a.contains('{'),
        one_object(o),
    ensures
        objects_from(a + o + b, 0) == seq![o] + objects_from(b, 0),
        objects_from(a, 0) == Seq::<Seq<char>>::empty(),
{
    let s = a + o + b;
    let at = a.len() as int;
    let end = (a.len() + o.len()) as int;
    assert forall|k: int| 0 <= k < at implies symbols(s)[k] != 123 by {
        assert(a.contains(a[k]));
        assert(s[k] == a[k]);
        lemma_symbol(a[k]);
    }
    assert(s[at] == o[0]);
    lemma_brace_found(symbols(s), 0, at);
    assert forall|k: int| at < k <= end implies #[trigger] scan_to(symbols(s), at, k) == scan_to(
        symbols(o),
        0,
        k - at,
    ) by {
        assert forall|x: int| 0 <= x < k - at implies #[trigger] symbols(s)[at + x] == symbols(o)[0
            + x] by {
            assert(s[at + x] == o[x]);
        }
        lemma_scan_moves(symbols(s), at, symbols(o), 0, (k - at) as nat);
    }
    lemma_close_found(symbols(s), at, at + 1, end);
    assert(s.subrange(at, end) =~= o);
    lemma_objects_move(s, end, 0);
    assert(s.skip(end) =~= b);
    assert forall|k: int| 0 <= k < a.len() implies symbols(a)[k] != 123 by {
        assert(a.contains(a[k]));
        lemma_symbol(a[k]);
    }
    lemma_brace_from(symbols(a), 0);
}

/// Scanning a run of symbols that are no braces, quotes or backslashes changes nothing.
proof fn lemma_scan_plain(b: Seq<u8>, start: int, i: int, n: int)
    requires
        0 <= start <= i <= n <= b.len(),
        !scan_to(b, start, i).escape,
        forall|k: int|
            i <= k < n ==> #[trigger] b[k] != 34 && b[k] != 92 && (scan_to(b, start, i).in_str || (
            b[k] != 123 && b[k] != 125)),
    ensures
        scan_to(b, start, n) == scan_to(b, start, i),
    decreases n - i,
{
    if i < n {
        lemma_scan_plain(b, start, i, n - 1);
        assert(b[n - 1] != 34 && b[n - 1] != 92);
    }
}

/// Braces around a text without braces and quotes are an object; and so are braces around a
/// string, whatever braces the string holds.
pub proof fn law_braces_make_an_object(t: Seq<char>, string: Seq<char>)
    requires
        !t.contains('{') && !t.contains('}') && !t.contains('"') && !t.contains('\\'),
        !string.contains('"') && !string.contains('\\'),
    ensures
        one_object(seq!['{'] + t + seq!['}']),
        one_object(seq!['{'] + t + seq!['"'] + string + seq!['"'] + t + seq!['}']),
{
    let o = seq!['{'] + t + seq!['}'];
    let b = symbols(o);
    let n = t.len() as int;
    reveal_with_fuel(scan_to, 2);
    assert(o[0] == '{' && o[n + 1] == '}');
    assert(b[0] == 123 && b[n + 1] == 125);
    assert(scan_to(b, 0, 1) == (Scan { depth: 1, in_str: false, escape: false }));
    assert forall|k: int| 1 <= k <= n + 1 implies #[trigger] scan_to(b, 0, k) == scan_to(
        b,
        0,
        1,
    ) by {
        assert forall|j: int| 1 <= j < k implies #[trigger] b[j] != 34 && b[j] != 92 && b[j] != 123
            && b[j] != 125 by {
            assert(o[j] == t[j - 1]);
            assert(t.contains(t[j - 1]));
            lemma_symbol(t[j - 1]);
        }
        lemma_scan_plain(b, 0, 1, k);
    }
    assert(scan_to(b, 0, n + 2) == step(scan_to(b, 0, n + 1), b[n + 1]));
    let q = seq!['{'] + t + seq!['"'] + string + seq!['"'] + t + seq!['}'];
    let c = symbols(q);
    let m = string.len() as int;
    assert(q[0] == '{' && q[n + 1] == '"' && q[n + 2 + m] == '"' && q[2 * n + m + 3] == '}');
    assert(c[0] == 123 && c[n + 1] == 34 && c[n + 2 + m] == 34 && c[2 * n + m + 3] == 125);
    let inside = Scan { depth: 1, in_str: false, escape: false };
    let quoted = Scan { depth: 1, in_str: true, escape: false };
    assert(scan_to(c, 0, 1) == inside);
    assert forall|k: int| 1 <= k <= n + 1 implies #[trigger] scan_to(c, 0, k) == inside by {
        assert forall|j: int| 1 <= j < k implies #[trigger] c[j] != 34 && c[j] != 92 && c[j] != 123
            && c[j] != 125 by {
            assert(q[j] == t[j - 1]);
            assert(t.contains(t[j - 1]));
            lemma_symbol(t[j - 1]);
        }
        lemma_scan_plain(c, 0, 1, k);
    }
    assert(scan_to(c, 0, n + 2) == step(scan_to(c, 0, n + 1), c[n + 1]));
    assert(scan_to(c, 0, n + 2) == quoted);
    assert forall|k: int| n + 2 <= k <= n + 2 + m implies #[trigger] scan_to(c, 0, k) == quoted by {
        assert forall|j: int| n + 2 <= j < k implies #[trigger] c[j] != 34 && c[j] != 92 by {
            assert(q[j] == string[j - n - 2]);
            assert(string.contains(string[j - n - 2]));
            lemma_symbol(string[j - n - 2]);
        }
        lemma_scan_plain(c, 0, n + 2, k);
    }
    assert(scan_to(c, 0, n + m + 3) == step(scan_to(c, 0, n + m + 2), c[n + m + 2]));
    assert(scan_to(c, 0, n + m + 3) == inside);
    assert forall|k: int| n + m + 3 <= k <= 2 * n + m + 3 implies #[trigger] scan_to(c, 0, k)
        == inside by {
        assert forall|j: int| n + m + 3 <= j < k implies #[trigger] c[j] != 34 && c[j] != 92 && c[j]
            != 123 && c[j] != 125 by {
            assert(q[j] == t[j - n - m - 3]);
            assert(t.contains(t[j - n - m - 3]));
            lemma_symbol(t[j - n - m - 3]);
        }
        lemma_scan_plain(c, 0, n + m + 3, k);
    }
    assert(scan_to(c, 0, 2 * n + m + 4) == step(scan_to(c, 0, 2 * n + m + 3), c[2 * n + m + 3]));
    assert forall|k: int| 0 < k < q.len() implies scan_to(c, 0, k).depth != 0 by {
        if k <= n + 1 {
            assert(scan_to(c, 0, k) == inside);
        } else if k <= n + m + 2 {
            assert(scan_to(c, 0, k) == quoted);
        } else {
            assert(scan_to(c, 0, k) == inside);
        }
    }
}

/// Objects nest, a string ends at the first quote that no backslash stands before, and a
/// backslash takes the meaning from the symbol behind it.
pub proof fn law_scan_of_a_symbol(st: Scan, b: u8)
    ensures
        !st.in_str && b == 123 ==> step(st, b).depth == st.depth + 1,
        !st.in_str && b == 125 ==> step(st, b).depth == st.depth - 1,
        !st.in_str && b != 123 && b != 125 ==> step(st, b).depth == st.depth,
        !st.in_str ==> (step(st, b).in_str <==> b == 34),
        st.in_str && st.escape ==> step(st, b) == (Scan { escape: false, ..st }),
        st.in_str && !st.escape && b == 92 ==> step(st, b) == (Scan { escape: true, ..st }),
        st.in_str && !st.escape ==> (!step(st, b).in_str <==> b == 34),
{
}

} // verus!

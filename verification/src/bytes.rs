//! Text out of bytes: what commands print, and lists of paths.

use crate::text;
use vstd::prelude::*;
use vstd::slice::{slice_subrange, slice_to_vec};

verus! {

/// The text that bytes stand for where what is not UTF-8 among them is replaced.
pub uninterp spec fn lossy_utf8(bytes: Seq<u8>) -> Seq<char>;

/// `String::from_utf8_lossy`: the text depends on the bytes alone, and is what they encode
/// where they are UTF-8. Which characters take the place of other bytes is not said.
#[verifier::external_body]
pub(crate) fn lossy_text(bytes: &[u8]) -> (text: String)
    ensures
        text@ == lossy_utf8(bytes@),
        vstd::utf8::valid_utf8(bytes@) ==> text@ == vstd::utf8::decode_utf8(bytes@),
{
    String::from_utf8_lossy(bytes).to_string()
}

/// `std::str::from_utf8`: the text that bytes encode, where they are UTF-8.
#[verifier::external_body]
fn utf8_text(bytes: &[u8]) -> (text: Option<String>)
    ensures
        match text {
            Some(t) => vstd::utf8::valid_utf8(bytes@) && t@ == vstd::utf8::decode_utf8(bytes@),
            None => !vstd::utf8::valid_utf8(bytes@),
        },
{
    match std::str::from_utf8(bytes) {
        Ok(text) => Some(text.to_string()),
        Err(_) => None,
    }
}

/// How many bytes stand before the first zero byte.
pub open spec fn run_before_zero(b: Seq<u8>) -> nat
    decreases b.len(),
{
    if b.len() == 0 || b[0] == 0 {
        0
    } else {
        1 + run_before_zero(b.skip(1))
    }
}

proof fn lemma_run_before_zero(b: Seq<u8>, n: int)
    requires
        0 <= n <= b.len(),
        forall|k: int| 0 <= k < n ==> b[k] != 0,
        n < b.len() ==> b[n] == 0,
    ensures
        run_before_zero(b) == n,
    decreases b.len(),
{
    if n > 0 {
        assert forall|k: int| 0 <= k < n - 1 implies b.skip(1)[k] != 0 by {
            assert(b[k + 1] != 0);
        }
        lemma_run_before_zero(b.skip(1), n - 1);
    }
}

/// The parts of a list whose entries end in zero bytes, without the empty ones.
pub open spec fn entries_of(b: Seq<u8>) -> Seq<Seq<u8>>
    decreases b.len(),
{
    let n = run_before_zero(b) as int;
    let first = if n > 0 {
        seq![b.take(n)]
    } else {
        Seq::empty()
    };
    if n >= b.len() {
        first
    } else {
        first + entries_of(b.skip(n + 1))
    }
}

/// The texts of the first `n` entries that are UTF-8.
pub open spec fn readable_first(entries: Seq<Seq<u8>>, n: nat) -> Seq<Seq<char>>
    decreases n,
{
    if n == 0 {
        Seq::empty()
    } else {
        let before = readable_first(entries, (n - 1) as nat);
        if vstd::utf8::valid_utf8(entries[n - 1]) {
            before.push(vstd::utf8::decode_utf8(entries[n - 1]))
        } else {
            before
        }
    }
}

/// The views of a sequence of byte vectors.
pub open spec fn byte_views(parts: Seq<Vec<u8>>) -> Seq<Seq<u8>> {
    parts.map_values(|p: Vec<u8>| p@)
}

/// The entries of a list whose entries end in zero bytes.
pub fn zero_entries(b: &[u8]) -> (entries: Vec<Vec<u8>>)
    ensures
        byte_views(entries@) == entries_of(b@),
{
    let mut entries: Vec<Vec<u8>> = Vec::new();
    let mut start: usize = 0;
    let mut done: bool = false;
    assert(b@.skip(0) =~= b@);
    assert(byte_views(entries@) + entries_of(b@) =~= entries_of(b@));
    while !done
        invariant
            start <= b@.len(),
            !done ==> byte_views(entries@) + entries_of(b@.skip(start as int)) == entries_of(b@),
            done ==> byte_views(entries@) == entries_of(b@),
        decreases
                b@.len() - start,
                if done {
                    0int
                } else {
                    1int
                },
    {
        let ghost rest = b@.skip(start as int);
        let ghost before = byte_views(entries@);
        let mut at: usize = start;
        while at < b.len() && b[at] != 0
            invariant
                start <= at <= b@.len(),
                forall|k: int| start <= k < at ==> b@[k] != 0,
            decreases b@.len() - at,
        {
            at += 1;
        }
        proof {
            lemma_run_before_zero(rest, at - start);
        }
        if at > start {
            let entry: Vec<u8> = slice_to_vec(slice_subrange(b, start, at));
            assert(entry@ =~= rest.take(at - start));
            entries.push(entry);
            assert(byte_views(entries@) =~= before.push(entry@));
        }
        let ghost first = if at > start {
            seq![rest.take(at - start)]
        } else {
            Seq::empty()
        };
        assert(byte_views(entries@) =~= before + first);
        if at < b.len() {
            assert(rest.skip(at - start + 1) =~= b@.skip(at + 1));
            assert(before + first + entries_of(b@.skip(at + 1)) =~= before + (first + entries_of(
                b@.skip(at + 1),
            )));
            start = at + 1;
        } else {
            assert(entries_of(rest) =~= first);
            done = true;
        }
    }
    entries
}

/// The paths in a list that `git ls-files -z` prints; one that is not UTF-8 is left out.
pub fn readable_paths(output: &[u8]) -> (paths: Vec<String>)
    ensures
        text::views(paths@) == readable_first(entries_of(output@), entries_of(output@).len()),
{
    let entries: Vec<Vec<u8>> = zero_entries(output);
    let ghost all = byte_views(entries@);
    let mut paths: Vec<String> = Vec::new();
    let mut i: usize = 0;
    assert(text::views(paths@) =~= Seq::empty());
    while i < entries.len()
        invariant
            i <= entries@.len(),
            all == byte_views(entries@),
            text::views(paths@) == readable_first(all, i as nat),
        decreases entries@.len() - i,
    {
        assert(all[i as int] == entries@[i as int]@);
        if let Some(path) = utf8_text(entries[i].as_slice()) {
            proof {
                text::lemma_views_push(paths@, path);
            }
            paths.push(path);
        }
        i += 1;
    }
    paths
}

/// One path of a list that `git ls-files -z` prints.
pub fn git_path(entry: &[u8]) -> (path: Result<String, String>)
    ensures
        match path {
            Ok(p) => vstd::utf8::valid_utf8(entry@) && p@ == vstd::utf8::decode_utf8(entry@),
            Err(e) => !vstd::utf8::valid_utf8(entry@) && e@ == "non-utf8 git path"@,
        },
{
    match utf8_text(entry) {
        Some(path) => Ok(path),
        None => Err("non-utf8 git path".to_owned()),
    }
}

// ---------------------------------------------------------------------------
// Laws
// ---------------------------------------------------------------------------

/// An entry ends at the first zero byte, whether or not one stands behind the last entry;
/// between two zero bytes there is none.
pub proof fn law_entries_end_in_zero(a: Seq<u8>, b: Seq<u8>)
    requires
        a.len() > 0,
        !a.contains(0),
    ensures
        entries_of(a) == seq![a],
        entries_of(a + seq![0u8] + b) == seq![a] + entries_of(b),
        entries_of(seq![0u8] + b) == entries_of(b),
        entries_of(Seq::empty()) == Seq::<Seq<u8>>::empty(),
{
    let s = a + seq![0u8] + b;
    assert forall|k: int| 0 <= k < a.len() implies a[k] != 0 by {
        assert(a.contains(a[k]));
    }
    lemma_run_before_zero(a, a.len() as int);
    assert(a.take(a.len() as int) =~= a);
    assert forall|k: int| 0 <= k < a.len() implies s[k] != 0 by {
        assert(s[k] == a[k]);
    }
    lemma_run_before_zero(s, a.len() as int);
    assert(s.take(a.len() as int) =~= a);
    assert(s.skip(a.len() as int + 1) =~= b);
    let z = seq![0u8] + b;
    lemma_run_before_zero(z, 0);
    assert(z.skip(1) =~= b);
    assert(Seq::<Seq<u8>>::empty() + entries_of(b) =~= entries_of(b));
}

/// Every entry that is UTF-8 is read, in order, and one that is not is left out.
pub proof fn law_readable_entries(entries: Seq<Seq<u8>>, last: Seq<u8>)
    ensures
        vstd::utf8::valid_utf8(last) ==> readable_first(entries.push(last), entries.len() + 1)
            == readable_first(entries, entries.len()).push(vstd::utf8::decode_utf8(last)),
        !vstd::utf8::valid_utf8(last) ==> readable_first(entries.push(last), entries.len() + 1)
            == readable_first(entries, entries.len()),
        readable_first(entries, 0) == Seq::<Seq<char>>::empty(),
{
    lemma_readable_prefix(entries, last, entries.len());
}

proof fn lemma_readable_prefix(entries: Seq<Seq<u8>>, last: Seq<u8>, n: nat)
    requires
        n <= entries.len(),
    ensures
        readable_first(entries.push(last), n) == readable_first(entries, n),
    decreases n,
{
    if n > 0 {
        lemma_readable_prefix(entries, last, (n - 1) as nat);
        assert(entries.push(last)[n - 1] == entries[n - 1]);
    }
}

} // verus!

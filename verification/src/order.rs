//! The order of texts, and vectors of texts in that order.

use crate::text::chars_of;
use vstd::prelude::*;

verus! {

/// Does `a` come before `b`, comparing character by character?
pub open spec fn text_less(a: Seq<char>, b: Seq<char>) -> bool
    decreases a.len(),
{
    if b.len() == 0 {
        false
    } else if a.len() == 0 {
        true
    } else if a[0] != b[0] {
        a[0] < b[0]
    } else {
        text_less(a.skip(1), b.skip(1))
    }
}

/// Of two different texts one comes before the other.
pub proof fn lemma_text_less_total(a: Seq<char>, b: Seq<char>)
    ensures
        text_less(a, b) || text_less(b, a) || a == b,
    decreases a.len(),
{
    if a.len() > 0 && b.len() > 0 && a[0] == b[0] {
        lemma_text_less_total(a.skip(1), b.skip(1));
        if a.skip(1) == b.skip(1) {
            assert(a =~= seq![a[0]] + a.skip(1));
            assert(b =~= seq![b[0]] + b.skip(1));
        }
    } else if a.len() == 0 && b.len() == 0 {
        assert(a =~= b);
    }
}

/// No text comes before itself, nor before one that comes before it.
pub proof fn lemma_text_less_asymmetric(a: Seq<char>, b: Seq<char>)
    ensures
        !(text_less(a, b) && text_less(b, a)),
        !text_less(a, a),
    decreases a.len(),
{
    if a.len() > 0 && b.len() > 0 && a[0] == b[0] {
        lemma_text_less_asymmetric(a.skip(1), b.skip(1));
    }
    if a.len() > 0 {
        lemma_text_less_asymmetric(a.skip(1), a.skip(1));
    }
}

/// What comes before a text comes before all that follow it.
pub proof fn lemma_text_less_transitive(a: Seq<char>, b: Seq<char>, c: Seq<char>)
    requires
        text_less(a, b),
        text_less(b, c),
    ensures
        text_less(a, c),
    decreases a.len(),
{
    if a.len() > 0 && b.len() > 0 && c.len() > 0 && a[0] == b[0] && b[0] == c[0] {
        lemma_text_less_transitive(a.skip(1), b.skip(1), c.skip(1));
    }
}

/// Does `a` come before `b`?
pub fn comes_before(a: &str, b: &str) -> (before: bool)
    ensures
        before == text_less(a@, b@),
{
    let x: Vec<char> = chars_of(a);
    let y: Vec<char> = chars_of(b);
    let mut i: usize = 0;
    assert(x@.skip(0) =~= x@);
    assert(y@.skip(0) =~= y@);
    while i < x.len() && i < y.len() && x[i] == y[i]
        invariant
            i <= x@.len(),
            i <= y@.len(),
            text_less(x@, y@) == text_less(x@.skip(i as int), y@.skip(i as int)),
        decreases x.len() - i,
    {
        assert(x@.skip(i as int).skip(1) =~= x@.skip(i + 1));
        assert(y@.skip(i as int).skip(1) =~= y@.skip(i + 1));
        i += 1;
    }
    if i >= y.len() {
        false
    } else if i >= x.len() {
        true
    } else {
        x[i] < y[i]
    }
}

/// Are the texts in order, each one once?
pub open spec fn strictly_sorted(keys: Seq<Seq<char>>) -> bool {
    forall|i: int, j: int| 0 <= i < j < keys.len() ==> text_less(keys[i], keys[j])
}

/// A text comes behind each of its own starts, and the first difference decides.
pub proof fn law_first_difference_decides(
    start: Seq<char>,
    a: char,
    x: Seq<char>,
    b: char,
    y: Seq<char>,
)
    ensures
        text_less(start, start + seq![a] + x),
        !text_less(start + seq![a] + x, start),
        a < b ==> text_less(start + seq![a] + x, start + seq![b] + y),
        a < b ==> !text_less(start + seq![b] + y, start + seq![a] + x),
    decreases start.len(),
{
    let p = start + seq![a] + x;
    let q = start + seq![b] + y;
    if start.len() > 0 {
        law_first_difference_decides(start.skip(1), a, x, b, y);
        assert(p.skip(1) =~= start.skip(1) + seq![a] + x);
        assert(q.skip(1) =~= start.skip(1) + seq![b] + y);
    } else {
        assert(p[0] == a && q[0] == b);
    }
}

/// Texts are in order where each one comes behind the one before it.
pub proof fn law_sorted_by_neighbours(keys: Seq<Seq<char>>, key: Seq<char>)
    ensures
        strictly_sorted(keys.push(key)) <==> strictly_sorted(keys) && (keys.len() > 0 ==> text_less(
            keys.last(),
            key,
        )),
        strictly_sorted(Seq::empty()),
{
    let all = keys.push(key);
    if strictly_sorted(all) {
        assert forall|i: int, j: int| 0 <= i < j < keys.len() implies text_less(
            keys[i],
            keys[j],
        ) by {
            assert(text_less(all[i], all[j]));
        }
        if keys.len() > 0 {
            assert(text_less(all[keys.len() - 1], all[keys.len() as int]));
        }
    }
    if strictly_sorted(keys) && (keys.len() > 0 ==> text_less(keys.last(), key)) {
        assert forall|i: int, j: int| 0 <= i < j < all.len() implies text_less(all[i], all[j]) by {
            if j < keys.len() {
                assert(text_less(keys[i], keys[j]));
            } else if i < keys.len() - 1 {
                lemma_text_less_transitive(keys[i], keys.last(), key);
            }
        }
    }
}

} // verus!

//! Shields for source text that reads like the model's control markup.
//!
//! A chat template may take `<think>` and the like for control markup. In a coding task
//! they are often source text, so the model is shown an opaque token in the place of
//! each, and the exact characters are put back into what it answers.

use crate::text::{self, replaced};
use vstd::prelude::*;

verus! {

/// Each piece of markup, and the token that stands for it.
pub const EDGE_ARTIFACT_LITERAL_SHIELDS: [(&'static str, &'static str); 8] = [
    ("<think>", "RLM_ARTIFACT_LITERAL_OPEN_THINK_9A1C"),
    ("</think>", "RLM_ARTIFACT_LITERAL_CLOSE_THINK_9A1C"),
    ("<analysis>", "RLM_ARTIFACT_LITERAL_OPEN_ANALYSIS_9A1C"),
    ("</analysis>", "RLM_ARTIFACT_LITERAL_CLOSE_ANALYSIS_9A1C"),
    ("<tool_call>", "RLM_ARTIFACT_LITERAL_OPEN_TOOL_CALL_9A1C"),
    ("</tool_call>", "RLM_ARTIFACT_LITERAL_CLOSE_TOOL_CALL_9A1C"),
    ("<function_call>", "RLM_ARTIFACT_LITERAL_OPEN_FUNCTION_CALL_9A1C"),
    ("</function_call>", "RLM_ARTIFACT_LITERAL_CLOSE_FUNCTION_CALL_9A1C"),
];

/// The markup of the `i`-th shield.
pub open spec fn literal(i: int) -> Seq<char> {
    EDGE_ARTIFACT_LITERAL_SHIELDS@[i].0@
}

/// The token of the `i`-th shield.
pub open spec fn token(i: int) -> Seq<char> {
    EDGE_ARTIFACT_LITERAL_SHIELDS@[i].1@
}

/// `s` with the markup of the first `n` shields replaced by their tokens, one after another.
pub open spec fn shield_first(s: Seq<char>, n: nat) -> Seq<char>
    decreases n,
{
    if n == 0 {
        s
    } else {
        text::replace_all(shield_first(s, (n - 1) as nat), literal(n - 1), token(n - 1))
    }
}

/// `s` with the tokens of the first `n` shields replaced by their markup, one after another.
pub open spec fn unshield_first(s: Seq<char>, n: nat) -> Seq<char>
    decreases n,
{
    if n == 0 {
        s
    } else {
        text::replace_all(unshield_first(s, (n - 1) as nat), token(n - 1), literal(n - 1))
    }
}

/// `s` with every piece of markup replaced by its token.
pub open spec fn shield(s: Seq<char>) -> Seq<char> {
    shield_first(s, 8)
}

/// `s` with every token replaced by its markup.
pub open spec fn unshield(s: Seq<char>) -> Seq<char> {
    unshield_first(s, 8)
}

/// Does `s` hold a token of any shield?
pub open spec fn has_token(s: Seq<char>) -> bool {
    exists|i: int| 0 <= i < 8 && #[trigger] text::has_match(s, token(i))
}

/// Does `s` hold the markup of any shield?
pub open spec fn has_literal(s: Seq<char>) -> bool {
    exists|i: int| 0 <= i < 8 && #[trigger] text::has_match(s, literal(i))
}

// ---------------------------------------------------------------------------
// What markup and tokens look like
// ---------------------------------------------------------------------------

/// Markup runs from its only `<` to its only `>` and holds no `R`.
spec fn literal_shape(w: Seq<char>) -> bool {
    &&& w.len() >= 2
    &&& w[0] == '<'
    &&& w.last() == '>'
    &&& forall|o: int| 0 <= o < w.len() ==> #[trigger] w[o] != 'R'
    &&& forall|o: int| 0 < o < w.len() ==> #[trigger] w[o] != '<'
    &&& forall|o: int| 0 <= o < w.len() - 1 ==> #[trigger] w[o] != '>'
}

/// A token begins with `RL` and holds no other `RL`; its only `9` is its fourth character
/// from the end; it holds no `<` and ends in `C`.
spec fn token_shape(w: Seq<char>) -> bool {
    &&& w.len() >= 5
    &&& w[0] == 'R'
    &&& w[1] == 'L'
    &&& w[w.len() - 4] == '9'
    &&& w.last() == 'C'
    &&& forall|o: int| 0 <= o < w.len() ==> #[trigger] w[o] != '<'
    &&& forall|o: int| 0 <= o < w.len() && o != w.len() - 4 ==> #[trigger] w[o] != '9'
    &&& forall|o: int| 1 <= o < w.len() - 1 && #[trigger] w[o] == 'R' ==> w[o + 1] != 'L'
}

/// An index below 46 is one of these.
proof fn lemma_index(o: int)
    requires
        0 <= o < 46,
    ensures
        o == 0 || o == 1 || o == 2 || o == 3 || o == 4 || o == 5 || o == 6 || o == 7
        || o == 8 || o == 9 || o == 10 || o == 11 || o == 12 || o == 13 || o == 14 || o == 15
        || o == 16 || o == 17 || o == 18 || o == 19 || o == 20 || o == 21 || o == 22 || o == 23
        || o == 24 || o == 25 || o == 26 || o == 27 || o == 28 || o == 29 || o == 30 || o == 31
        || o == 32 || o == 33 || o == 34 || o == 35 || o == 36 || o == 37 || o == 38 || o == 39
        || o == 40 || o == 41 || o == 42 || o == 43 || o == 44 || o == 45,
{
}

#[verifier::spinoff_prover]
proof fn lemma_literal_shape(i: int)
    requires
        0 <= i < 8,
    ensures
        literal_shape(literal(i)),
        2 * literal(i).len() + (if literal(i)[1] == '/' {
            1int
        } else {
            0int
        }) == seq![14int, 17, 20, 23, 22, 25, 30, 33][i],
{
    let w = literal(i);
    if i == 0 {
        reveal_strlit("<think>");
    } else if i == 1 {
        reveal_strlit("</think>");
    } else if i == 2 {
        reveal_strlit("<analysis>");
    } else if i == 3 {
        reveal_strlit("</analysis>");
    } else if i == 4 {
        reveal_strlit("<tool_call>");
    } else if i == 5 {
        reveal_strlit("</tool_call>");
    } else if i == 6 {
        reveal_strlit("<function_call>");
    } else {
        reveal_strlit("</function_call>");
    }
    assert forall|o: int| 0 <= o < w.len() implies #[trigger] w[o] != 'R' && (0 < o ==> w[o] != '<')
        && (o < w.len() - 1 ==> w[o] != '>') by {
        lemma_index(o);
    }
}

#[verifier::spinoff_prover]
proof fn lemma_token_shape(i: int)
    requires
        0 <= i < 8,
    ensures
        token_shape(token(i)),
        2 * token(i).len() + (if token(i)[21] == 'C' {
            1int
        } else {
            0int
        }) == seq![72int, 75, 78, 81, 80, 83, 88, 91][i],
{
    let w = token(i);
    if i == 0 {
        reveal_strlit("RLM_ARTIFACT_LITERAL_OPEN_THINK_9A1C");
    } else if i == 1 {
        reveal_strlit("RLM_ARTIFACT_LITERAL_CLOSE_THINK_9A1C");
    } else if i == 2 {
        reveal_strlit("RLM_ARTIFACT_LITERAL_OPEN_ANALYSIS_9A1C");
    } else if i == 3 {
        reveal_strlit("RLM_ARTIFACT_LITERAL_CLOSE_ANALYSIS_9A1C");
    } else if i == 4 {
        reveal_strlit("RLM_ARTIFACT_LITERAL_OPEN_TOOL_CALL_9A1C");
    } else if i == 5 {
        reveal_strlit("RLM_ARTIFACT_LITERAL_CLOSE_TOOL_CALL_9A1C");
    } else if i == 6 {
        reveal_strlit("RLM_ARTIFACT_LITERAL_OPEN_FUNCTION_CALL_9A1C");
    } else {
        reveal_strlit("RLM_ARTIFACT_LITERAL_CLOSE_FUNCTION_CALL_9A1C");
    }
    assert forall|o: int| 0 <= o < w.len() implies #[trigger] w[o] != '<' && (o != w.len() - 4 ==> w[o] != '9') by {
        lemma_index(o);
    }
    assert forall|o: int| 1 <= o < w.len() - 1 && #[trigger] w[o] == 'R' implies w[o + 1] != 'L' by {
        lemma_index(o);
    }
}

// ---------------------------------------------------------------------------
// A text as a row of pieces
// ---------------------------------------------------------------------------

/// A text of one character, or a place where the `i`-th markup or its token stands.
enum Piece {
    Char(Seq<char>),
    Mark(int),
}

/// How a piece is written where `masked` tells which markup is shown as its token.
spec fn word(piece: Piece, masked: spec_fn(int) -> bool) -> Seq<char> {
    match piece {
        Piece::Char(c) => c,
        Piece::Mark(i) => if masked(i) {
            token(i)
        } else {
            literal(i)
        },
    }
}

/// How a row of pieces is written.
spec fn render(p: Seq<Piece>, masked: spec_fn(int) -> bool) -> Seq<char>
    decreases p.len(),
{
    if p.len() == 0 {
        Seq::empty()
    } else {
        word(p[0], masked) + render(p.skip(1), masked)
    }
}

/// Is the piece one character, or a mark that names a shield?
spec fn sound(piece: Piece) -> bool {
    match piece {
        Piece::Char(c) => c.len() == 1,
        Piece::Mark(i) => 0 <= i < 8,
    }
}

/// Is every piece sound?
spec fn valid(p: Seq<Piece>) -> bool {
    forall|j: int| 0 <= j < p.len() ==> sound(#[trigger] p[j])
}

/// Do single characters from the `j`-th piece on spell `w`?
spec fn spells_at(p: Seq<Piece>, w: Seq<char>, j: int) -> bool {
    &&& 0 <= j
    &&& j + w.len() <= p.len()
    &&& forall|m: int| 0 <= m < w.len() ==> #[trigger] p[j + m] == Piece::Char(seq![w[m]])
}

/// Do single characters spell `w` nowhere?
spec fn unspelled(p: Seq<Piece>, w: Seq<char>) -> bool {
    forall|j: int| !spells_at(p, w, j)
}

/// Is `w` shaped like markup or like a token?
spec fn shaped(w: Seq<char>) -> bool {
    literal_shape(w) || token_shape(w)
}

proof fn lemma_word_shape(piece: Piece, masked: spec_fn(int) -> bool)
    requires
        piece matches Piece::Mark(i) && 0 <= i < 8,
    ensures
        shaped(word(piece, masked)),
{
    lemma_literal_shape(piece->Mark_0);
    lemma_token_shape(piece->Mark_0);
}

/// Dropping the first piece keeps a row valid and spells nothing new.
proof fn lemma_rest(p: Seq<Piece>, w: Seq<char>)
    requires
        p.len() > 0,
        valid(p),
        unspelled(p, w),
    ensures
        valid(p.skip(1)),
        unspelled(p.skip(1), w),
{
    let q = p.skip(1);
    assert forall|j: int| 0 <= j < q.len() implies sound(#[trigger] q[j]) by {
        assert(q[j] == p[j + 1]);
    }
    assert forall|j: int| !spells_at(q, w, j) by {
        if spells_at(q, w, j) {
            assert forall|m: int| 0 <= m < w.len() implies #[trigger] p[j + 1 + m] == Piece::Char(
                seq![w[m]],
            ) by {
                assert(q[j + m] == Piece::Char(seq![w[m]]));
                assert(q[j + m] == p[j + m + 1]);
            }
            assert(spells_at(p, w, j + 1));
        }
    }
}

/// Where the first `m` pieces are characters, they are written as such.
proof fn lemma_render_chars(p: Seq<Piece>, masked: spec_fn(int) -> bool, m: int)
    requires
        0 <= m <= p.len(),
        forall|j: int| 0 <= j < m ==> #[trigger] p[j] is Char && sound(p[j]),
    ensures
        render(p, masked).len() >= m,
        forall|j: int| 0 <= j < m ==> #[trigger] render(p, masked)[j] == p[j]->Char_0[0],
        render(p, masked).skip(m) == render(p.skip(m), masked),
    decreases m,
{
    if m == 0 {
        assert(p.skip(0) =~= p);
        assert(render(p, masked).skip(0) =~= render(p, masked));
    } else {
        let q = p.skip(1);
        assert forall|j: int| 0 <= j < m - 1 implies #[trigger] q[j] is Char && sound(q[j]) by {
            assert(q[j] == p[j + 1]);
        }
        lemma_render_chars(q, masked, m - 1);
        let r = render(p, masked);
        assert(r == p[0]->Char_0 + render(q, masked));
        assert forall|j: int| 0 <= j < m implies #[trigger] r[j] == p[j]->Char_0[0] by {
            if j > 0 {
                assert(r[j] == render(q, masked)[j - 1]);
                assert(q[j - 1] == p[j]);
            }
        }
        assert(r.skip(m) =~= render(q, masked).skip(m - 1));
        assert(p.skip(m) =~= q.skip(m - 1));
    }
}

/// Where a row that starts with a character is written with `pat` at its start, the first
/// `m` pieces spell the start of `pat`.
proof fn lemma_spelled(p: Seq<Piece>, masked: spec_fn(int) -> bool, pat: Seq<char>, m: int)
    requires
        valid(p),
        shaped(pat),
        text::matches_at(render(p, masked), pat, 0),
        p.len() > 0,
        p[0] is Char,
        1 <= m <= pat.len(),
    ensures
        m <= p.len(),
        forall|j: int| 0 <= j < m ==> #[trigger] p[j] == Piece::Char(seq![pat[j]]),
    decreases m,
{
    let r = render(p, masked);
    assert forall|j: int| 0 <= j < pat.len() implies #[trigger] pat[j] == r[j] by {
        assert(r.subrange(0, pat.len() as int)[j] == r[j]);
    }
    if m == 1 {
        lemma_render_chars(p, masked, 1);
        assert(r[0] == p[0]->Char_0[0]);
        assert(pat[0] == r[0]);
        assert(p[0]->Char_0 =~= seq![pat[0]]);
    } else {
        let n = m - 1;
        lemma_spelled(p, masked, pat, n);
        lemma_render_chars(p, masked, n);
        let rest = render(p.skip(n), masked);
        assert(r.skip(n) == rest);
        assert(pat[n] == r[n]);
        assert(r[n] == rest[0]);
        if p.len() == n {
            assert(rest.len() == 0);
            assert(false);
        }
        let w = word(p[n], masked);
        assert(p.skip(n)[0] == p[n]);
        assert(rest == w + render(p.skip(n).skip(1), masked));
        match p[n] {
            Piece::Char(c) => {
                assert(sound(p[n]));
                assert(rest[0] == c[0]);
                assert(c =~= seq![pat[n]]);
            },
            Piece::Mark(i) => {
                lemma_word_shape(p[n], masked);
                assert(rest[0] == w[0]);
                if literal_shape(pat) {
                    assert(pat[n] != '<' && pat[n] != 'R');
                    assert(false);
                } else {
                    assert(pat[n] != '<');
                    assert(token_shape(w));
                    assert(n != pat.len() - 1);
                    assert(rest[1] == w[1]);
                    assert(r[n + 1] == rest[1]);
                    assert(pat[n + 1] == r[n + 1]);
                    assert(false);
                }
            },
        }
    }
}

/// A row that does not spell `pat` and whose first piece is not written as `pat` is
/// written without `pat` at any position of that first piece.
proof fn lemma_no_match_in_head(
    p: Seq<Piece>,
    masked: spec_fn(int) -> bool,
    pat: Seq<char>,
    o: int,
)
    requires
        valid(p),
        unspelled(p, pat),
        shaped(pat),
        p.len() > 0,
        p[0] is Char || word(p[0], masked) != pat,
        0 <= o < word(p[0], masked).len(),
    ensures
        !text::matches_at(render(p, masked), pat, o),
{
    let r = render(p, masked);
    let w = word(p[0], masked);
    if text::matches_at(r, pat, o) {
        assert forall|m: int| 0 <= m < pat.len() implies #[trigger] pat[m] == r[o + m] by {
            assert(r.subrange(o, o + pat.len())[m] == r[o + m]);
        }
        assert forall|j: int| 0 <= j < w.len() implies #[trigger] w[j] == r[j] by {}
        match p[0] {
            Piece::Char(c) => {
                lemma_spelled(p, masked, pat, pat.len() as int);
                assert(spells_at(p, pat, 0));
            },
            Piece::Mark(i) => {
                lemma_word_shape(p[0], masked);
                assert(pat[0] == r[o + 0]);
                assert(w[o] == r[o]);
                let n1 = w.len() as int;
                let n2 = pat.len() as int;
                if literal_shape(pat) {
                    assert(literal_shape(w) && o == 0);
                    if n1 < n2 {
                        assert(w[n1 - 1] == r[n1 - 1] && pat[n1 - 1] == r[0 + (n1 - 1)]);
                    } else if n1 > n2 {
                        assert(w[n2 - 1] == r[n2 - 1] && pat[n2 - 1] == r[0 + (n2 - 1)]);
                    } else {
                        assert forall|m: int| 0 <= m < n2 implies w[m] == pat[m] by {
                            assert(pat[m] == r[o + m]);
                        }
                        assert(w =~= pat);
                    }
                    assert(false);
                } else {
                    assert(token_shape(w));
                    assert(pat[1] == r[o + 1]);
                    if o == 0 {
                        if n1 < n2 {
                            assert(w[n1 - 4] == r[n1 - 4] && pat[n1 - 4] == r[0 + (n1 - 4)]);
                        } else if n1 > n2 {
                            assert(w[n2 - 4] == r[n2 - 4] && pat[n2 - 4] == r[0 + (n2 - 4)]);
                        } else {
                            assert forall|m: int| 0 <= m < n2 implies w[m] == pat[m] by {
                                assert(pat[m] == r[o + m]);
                            }
                            assert(w =~= pat);
                        }
                    } else {
                        assert(o != n1 - 1);
                        assert(w[o + 1] == r[o + 1]);
                    }
                    assert(false);
                }
            },
        }
    }
}

/// Replacing copies a start in which no match begins.
proof fn lemma_replace_copies(w: Seq<char>, rest: Seq<char>, pat: Seq<char>, by: Seq<char>)
    requires
        forall|o: int| 0 <= o < w.len() ==> !#[trigger] text::matches_at(w + rest, pat, o),
    ensures
        text::replace_all(w + rest, pat, by) == w + text::replace_all(rest, pat, by),
    decreases w.len(),
{
    if w.len() == 0 {
        assert(w + rest =~= rest);
        assert(w + text::replace_all(rest, pat, by) =~= text::replace_all(rest, pat, by));
    } else {
        let v = w.skip(1);
        assert((w + rest).skip(1) =~= v + rest);
        assert forall|o: int| 0 <= o < v.len() implies !#[trigger] text::matches_at(
            v + rest,
            pat,
            o,
        ) by {
            assert(!text::matches_at(w + rest, pat, o + 1));
            if o + pat.len() <= (v + rest).len() {
                assert((v + rest).subrange(o, o + pat.len()) =~= (w + rest).subrange(
                    o + 1,
                    o + 1 + pat.len(),
                ));
            }
        }
        lemma_replace_copies(v, rest, pat, by);
        assert(!text::matches_at(w + rest, pat, 0));
        assert(seq![(w + rest)[0]] + (v + text::replace_all(rest, pat, by)) =~= w
            + text::replace_all(rest, pat, by));
    }
}

/// One replacement turns the writing of a row under one mask into that under another,
/// where the masks differ in the `k`-th shield alone.
proof fn lemma_replace_step(
    p: Seq<Piece>,
    before: spec_fn(int) -> bool,
    after: spec_fn(int) -> bool,
    k: int,
    pat: Seq<char>,
    by: Seq<char>,
)
    requires
        0 <= k < 8,
        valid(p),
        unspelled(p, pat),
        pat == word(Piece::Mark(k), before),
        by == word(Piece::Mark(k), after),
        forall|i: int| 0 <= i < 8 && i != k ==> #[trigger] before(i) == after(i),
    ensures
        text::replace_all(render(p, before), pat, by) == render(p, after),
    decreases p.len(),
{
    lemma_word_shape(Piece::Mark(k), before);
    if p.len() > 0 {
        let q = p.skip(1);
        let w = word(p[0], before);
        let r = render(p, before);
        let t = render(q, before);
        lemma_rest(p, pat);
        lemma_replace_step(q, before, after, k, pat, by);
        if p[0] == Piece::Mark(k) {
            assert(r.subrange(0, pat.len() as int) =~= pat);
            assert(r.skip(pat.len() as int) =~= t);
        } else {
            if let Piece::Mark(i) = p[0] {
                lemma_distinct(i, k);
                lemma_word_shape(p[0], before);
                assert(before(i) == after(i));
            }
            assert(word(p[0], after) == w);
            assert forall|o: int| 0 <= o < w.len() implies !#[trigger] text::matches_at(
                w + t,
                pat,
                o,
            ) by {
                lemma_no_match_in_head(p, before, pat, o);
            }
            lemma_replace_copies(w, t, pat, by);
        }
    }
}

/// Different shields have different words.
proof fn lemma_distinct(i: int, k: int)
    requires
        0 <= i < 8,
        0 <= k < 8,
        i != k,
    ensures
        literal(i) != literal(k),
        token(i) != token(k),
        literal(i) != token(k),
        token(i) != literal(k),
{
    lemma_literal_shape(i);
    lemma_literal_shape(k);
    lemma_token_shape(i);
    lemma_token_shape(k);
}

/// Masks that agree on every shield give one writing.
proof fn lemma_same_mask(p: Seq<Piece>, a: spec_fn(int) -> bool, b: spec_fn(int) -> bool)
    requires
        valid(p),
        forall|i: int| 0 <= i < 8 ==> #[trigger] a(i) == b(i),
    ensures
        render(p, a) == render(p, b),
    decreases p.len(),
{
    if p.len() > 0 {
        let q = p.skip(1);
        assert forall|j: int| 0 <= j < q.len() implies sound(#[trigger] q[j]) by {
            assert(q[j] == p[j + 1]);
        }
        lemma_same_mask(q, a, b);
    }
}

/// Does the markup of the `i`-th shield stand at the start of `s`?
spec fn leads(s: Seq<char>, i: int) -> bool {
    0 <= i < 8 && text::matches_at(s, literal(i), 0)
}

/// The shield whose markup stands at the start of `s`, where there is one.
spec fn lead(s: Seq<char>) -> Option<int> {
    if exists|i: int| leads(s, i) {
        Some(choose|i: int| leads(s, i))
    } else {
        None
    }
}

/// `s` as a row of pieces, with a mark wherever markup stands.
spec fn pieces_of(s: Seq<char>) -> Seq<Piece>
    decreases s.len(),
{
    if s.len() == 0 {
        Seq::empty()
    } else {
        match lead(s) {
            Some(i) => {
                proof {
                    lemma_literal_shape(i);
                }
                seq![Piece::Mark(i)] + pieces_of(s.skip(literal(i).len() as int))
            },
            None => seq![Piece::Char(s.take(1))] + pieces_of(s.skip(1)),
        }
    }
}

/// The mask under which all markup is shown as itself.
spec fn unmasked() -> spec_fn(int) -> bool {
    |i: int| false
}

/// The pieces of a text write the text, and spell no markup.
proof fn lemma_pieces(s: Seq<char>)
    ensures
        valid(pieces_of(s)),
        render(pieces_of(s), unmasked()) == s,
        forall|i: int| 0 <= i < 8 ==> unspelled(pieces_of(s), #[trigger] literal(i)),
    decreases s.len(),
{
    let p = pieces_of(s);
    if s.len() == 0 {
        assert(render(p, unmasked()) =~= s);
        assert forall|i: int| 0 <= i < 8 implies unspelled(p, #[trigger] literal(i)) by {
            lemma_literal_shape(i);
        }
    } else {
        if let Some(i) = lead(s) {
            lemma_literal_shape(i);
        }
        let rest = match lead(s) {
            Some(i) => s.skip(literal(i).len() as int),
            None => s.skip(1),
        };
        lemma_pieces(rest);
        let q = pieces_of(rest);
        assert(p.skip(1) =~= q);
        assert(word(p[0], unmasked()) + rest =~= s);
        assert forall|j: int| 0 <= j < p.len() implies sound(#[trigger] p[j]) by {
            if j > 0 {
                assert(p[j] == q[j - 1]);
            }
        }
        assert forall|i: int| 0 <= i < 8 implies unspelled(p, #[trigger] literal(i)) by {
            lemma_literal_shape(i);
            let w = literal(i);
            assert forall|j: int| !spells_at(p, w, j) by {
                if spells_at(p, w, j) {
                    if j == 0 {
                        assert(p[j + 0] == Piece::Char(seq![w[0]]));
                        assert forall|m: int| 0 <= m < w.len() implies #[trigger] p[m] is Char
                            && sound(p[m]) by {
                            assert(p[0 + m] == Piece::Char(seq![w[m]]));
                        }
                        lemma_render_chars(p, unmasked(), w.len() as int);
                        assert(s.subrange(0, w.len() as int) =~= w) by {
                            assert forall|m: int| 0 <= m < w.len() implies s[m] == w[m] by {
                                assert(p[0 + m] == Piece::Char(seq![w[m]]));
                            }
                        }
                        assert(leads(s, i));
                        assert(false);
                    } else {
                        assert forall|m: int| 0 <= m < w.len() implies #[trigger] q[j - 1 + m]
                            == Piece::Char(seq![w[m]]) by {
                            assert(p[j + m] == Piece::Char(seq![w[m]]));
                            assert(q[j - 1 + m] == p[j + m]);
                        }
                        assert(spells_at(q, w, j - 1));
                        assert(unspelled(q, literal(i)));
                    }
                }
            }
        }
    }
}

/// What single characters of a row spell stands in its writing.
proof fn lemma_spelled_is_written(
    p: Seq<Piece>,
    masked: spec_fn(int) -> bool,
    w: Seq<char>,
    j: int,
)
    requires
        spells_at(p, w, j),
    ensures
        text::has_match(render(p, masked), w),
    decreases j,
{
    let r = render(p, masked);
    if j == 0 {
        assert forall|m: int| 0 <= m < w.len() implies #[trigger] p[m] is Char && sound(
            p[m],
        ) by {
            assert(p[0 + m] == Piece::Char(seq![w[m]]));
        }
        lemma_render_chars(p, masked, w.len() as int);
        assert(r.subrange(0, w.len() as int) =~= w) by {
            assert forall|m: int| 0 <= m < w.len() implies r[m] == w[m] by {
                assert(p[0 + m] == Piece::Char(seq![w[m]]));
            }
        }
        assert(text::matches_at(r, w, 0));
    } else {
        let q = p.skip(1);
        assert forall|m: int| 0 <= m < w.len() implies #[trigger] q[j - 1 + m] == Piece::Char(
            seq![w[m]],
        ) by {
            assert(p[j + m] == Piece::Char(seq![w[m]]));
        }
        assert(spells_at(q, w, j - 1));
        lemma_spelled_is_written(q, masked, w, j - 1);
        let t = render(q, masked);
        let i = choose|i: int| text::matches_at(t, w, i);
        let n = word(p[0], masked).len();
        assert(r.subrange(n + i, n + i + w.len()) =~= t.subrange(i, i + w.len()));
        assert(text::matches_at(r, w, n + i));
    }
}

/// The mask after shielding with the first `n` shields.
spec fn masked_below(n: int) -> spec_fn(int) -> bool {
    |i: int| i < n
}

/// The mask after unshielding with the first `n` shields.
spec fn masked_from(n: int) -> spec_fn(int) -> bool {
    |i: int| i >= n
}

proof fn lemma_shield_first(s: Seq<char>, n: nat)
    requires
        n <= 8,
    ensures
        shield_first(s, n) == render(pieces_of(s), masked_below(n as int)),
    decreases n,
{
    let p = pieces_of(s);
    lemma_pieces(s);
    if n == 0 {
        lemma_same_mask(p, unmasked(), masked_below(0));
    } else {
        let k = n - 1;
        lemma_shield_first(s, k as nat);
        assert(unspelled(p, literal(k)));
        lemma_replace_step(p, masked_below(k), masked_below(n as int), k, literal(k), token(k));
    }
}

proof fn lemma_unshield_first(p: Seq<Piece>, n: nat)
    requires
        n <= 8,
        valid(p),
        forall|i: int| 0 <= i < 8 ==> unspelled(p, #[trigger] token(i)),
    ensures
        unshield_first(render(p, masked_from(0)), n) == render(p, masked_from(n as int)),
    decreases n,
{
    if n > 0 {
        let k = n - 1;
        lemma_unshield_first(p, k as nat);
        assert(unspelled(p, token(k)));
        lemma_replace_step(p, masked_from(k), masked_from(n as int), k, token(k), literal(k));
    }
}

// ---------------------------------------------------------------------------
// Laws
// ---------------------------------------------------------------------------

/// Unshielding gives back exactly what was shielded, for every text that did not hold a
/// token to begin with.
pub proof fn law_shield_round_trip(s: Seq<char>)
    requires
        !has_token(s),
    ensures
        unshield(shield(s)) == s,
{
    let p = pieces_of(s);
    lemma_pieces(s);
    lemma_shield_first(s, 8);
    assert forall|i: int| 0 <= i < 8 implies unspelled(p, #[trigger] token(i)) by {
        assert forall|j: int| !spells_at(p, token(i), j) by {
            if spells_at(p, token(i), j) {
                lemma_spelled_is_written(p, unmasked(), token(i), j);
                assert(text::has_match(s, token(i)));
            }
        }
    }
    lemma_same_mask(p, masked_below(8), masked_from(0));
    lemma_unshield_first(p, 8);
    lemma_same_mask(p, masked_from(8), unmasked());
}

/// A shielded text holds none of the markup.
pub proof fn law_shield_hides_literals(s: Seq<char>)
    ensures
        !has_literal(shield(s)),
{
    let p = pieces_of(s);
    lemma_pieces(s);
    lemma_shield_first(s, 8);
    assert forall|i: int| 0 <= i < 8 implies !#[trigger] text::has_match(shield(s), literal(i)) by {
        assert(unspelled(p, literal(i)));
        lemma_unwritten(p, i);
    }
}

/// A row that does not spell markup is written without it where all marks are masked.
proof fn lemma_unwritten(p: Seq<Piece>, k: int)
    requires
        0 <= k < 8,
        valid(p),
        unspelled(p, literal(k)),
    ensures
        !text::has_match(render(p, masked_below(8)), literal(k)),
    decreases p.len(),
{
    let masked = masked_below(8);
    let w = literal(k);
    let r = render(p, masked);
    lemma_literal_shape(k);
    if p.len() > 0 {
        let q = p.skip(1);
        let t = render(q, masked);
        let h = word(p[0], masked);
        lemma_rest(p, w);
        lemma_unwritten(q, k);
        if let Piece::Mark(i) = p[0] {
            lemma_token_shape(i);
        }
        assert forall|x: int| !text::matches_at(r, w, x) by {
            if text::matches_at(r, w, x) {
                if x < h.len() {
                    lemma_no_match_in_head(p, masked, w, x);
                } else {
                    assert(r.subrange(x, x + w.len()) =~= t.subrange(
                        x - h.len(),
                        x - h.len() + w.len(),
                    ));
                    assert(text::matches_at(t, w, x - h.len()));
                }
            }
        }
    }
}

// ---------------------------------------------------------------------------
// Shielding
// ---------------------------------------------------------------------------

/// Replaces every piece of markup in `text` by its token.
pub fn shield_edge_artifact_literals(text: &str) -> (shielded: String)
    ensures
        shielded@ == shield(text@),
        !has_literal(shielded@),
        !has_token(text@) ==> unshield(shielded@) == text@,
{
    let mut value: String = text.to_owned();
    let mut i: usize = 0;
    while i < 8
        invariant
            i <= 8,
            value@ == shield_first(text@, i as nat),
        decreases 8 - i,
    {
        proof {
            lemma_literal_shape(i as int);
        }
        let (literal, token) = EDGE_ARTIFACT_LITERAL_SHIELDS[i];
        value = replaced(value.as_str(), literal, token);
        i += 1;
    }
    proof {
        law_shield_hides_literals(text@);
        if !has_token(text@) {
            law_shield_round_trip(text@);
        }
    }
    value
}

/// Replaces every token in `text` by its markup.
pub fn unshield_edge_artifact_literals(text: &str) -> (restored: String)
    ensures
        restored@ == unshield(text@),
{
    let mut value: String = text.to_owned();
    let mut i: usize = 0;
    while i < 8
        invariant
            i <= 8,
            value@ == unshield_first(text@, i as nat),
        decreases 8 - i,
    {
        proof {
            lemma_token_shape(i as int);
        }
        let (literal, token) = EDGE_ARTIFACT_LITERAL_SHIELDS[i];
        value = replaced(value.as_str(), token, literal);
        i += 1;
    }
    value
}

/// None of the eight pieces of markup stands in a shielded text.
pub proof fn law_shield_hides_each_markup(s: Seq<char>)
    ensures
        !text::has_match(shield(s), "<think>"@),
        !text::has_match(shield(s), "</think>"@),
        !text::has_match(shield(s), "<analysis>"@),
        !text::has_match(shield(s), "</analysis>"@),
        !text::has_match(shield(s), "<tool_call>"@),
        !text::has_match(shield(s), "</tool_call>"@),
        !text::has_match(shield(s), "<function_call>"@),
        !text::has_match(shield(s), "</function_call>"@),
{
    law_shield_hides_literals(s);
    assert(literal(0) == "<think>"@);
    assert(!text::has_match(shield(s), literal(0)));
    assert(literal(1) == "</think>"@);
    assert(!text::has_match(shield(s), literal(1)));
    assert(literal(2) == "<analysis>"@);
    assert(!text::has_match(shield(s), literal(2)));
    assert(literal(3) == "</analysis>"@);
    assert(!text::has_match(shield(s), literal(3)));
    assert(literal(4) == "<tool_call>"@);
    assert(!text::has_match(shield(s), literal(4)));
    assert(literal(5) == "</tool_call>"@);
    assert(!text::has_match(shield(s), literal(5)));
    assert(literal(6) == "<function_call>"@);
    assert(!text::has_match(shield(s), literal(6)));
    assert(literal(7) == "</function_call>"@);
    assert(!text::has_match(shield(s), literal(7)));
}

/// A text that holds none of the markup is left as it is, and so is one that holds no token.
pub proof fn law_shield_leaves_other_text(s: Seq<char>)
    ensures
        !has_literal(s) ==> shield(s) == s,
        !has_token(s) ==> unshield(s) == s,
{
    if !has_literal(s) {
        lemma_shield_first_same(s, 8);
    }
    if !has_token(s) {
        lemma_unshield_first_same(s, 8);
    }
}

proof fn lemma_shield_first_same(s: Seq<char>, n: nat)
    requires
        n <= 8,
        !has_literal(s),
    ensures
        shield_first(s, n) == s,
    decreases n,
{
    if n > 0 {
        lemma_shield_first_same(s, (n - 1) as nat);
        assert(!text::has_match(s, literal(n - 1)));
        text::law_replacing_nothing(s, literal(n - 1), token(n - 1));
    }
}

proof fn lemma_unshield_first_same(s: Seq<char>, n: nat)
    requires
        n <= 8,
        !has_token(s),
    ensures
        unshield_first(s, n) == s,
    decreases n,
{
    if n > 0 {
        lemma_unshield_first_same(s, (n - 1) as nat);
        assert(!text::has_match(s, token(n - 1)));
        text::law_replacing_nothing(s, token(n - 1), literal(n - 1));
    }
}

} // verus!

use vstd::prelude::*;

use crate::odometer::{row_digits, row_start};

verus! {

/// A word holds no `-`, so that `-` marks word boundaries in a slug.
pub open spec fn dash_free(w: Seq<char>) -> bool {
    forall|i: int| 0 <= i < w.len() ==> w[i] != '-'
}

/// Two words joined by `-`.
pub open spec fn dash(x: Seq<char>, y: Seq<char>) -> Seq<char> {
    x + seq!['-'] + y
}

/// The connective of the four- and five-word templates.
pub open spec fn of_word() -> Seq<char> {
    seq!['o', 'f']
}

/// A vocabulary whose words are pairwise distinct and free of `-`.
pub open spec fn valid_vocabulary(words: Seq<String>) -> bool {
    &&& forall|i: int| 0 <= i < words.len() ==> dash_free(#[trigger] words[i]@)
    &&& forall|i: int, j: int|
        0 <= i < words.len() && 0 <= j < words.len() && i != j ==> #[trigger] words[i]@
            != #[trigger] words[j]@
}

/// The slug of `l` words whose first adjective is `adjs[r]` and whose other
/// indices are the row digits `d`.
pub open spec fn slug_of(
    l: int,
    adjs: Seq<String>,
    nouns: Seq<String>,
    r: int,
    d: (int, int, int, int),
) -> Seq<char> {
    if l == 2 {
        dash(adjs[r]@, nouns[d.1]@)
    } else if l == 3 {
        dash(adjs[r]@, dash(adjs[d.0]@, nouns[d.1]@))
    } else if l == 4 {
        dash(adjs[r]@, dash(nouns[d.1]@, dash(of_word(), dash(adjs[d.0]@, nouns[d.3]@))))
    } else {
        dash(
            adjs[r]@,
            dash(adjs[d.0]@, dash(nouns[d.1]@, dash(of_word(), dash(adjs[d.2]@, nouns[d.3]@)))),
        )
    }
}

/// The `k`-th slug (from zero) that an enumerator of `l`-word slugs over
/// `adjs` and `nouns` produces. One-word slugs are the nouns in order. Longer
/// slugs visit the rows round-robin: draw `k` reads row `k % |adjs|` on its
/// `k / |adjs|`-th visit.
pub open spec fn slug_at(l: int, adjs: Seq<String>, nouns: Seq<String>, k: int) -> Seq<char> {
    if l == 1 {
        nouns[k]@
    } else {
        let a = adjs.len() as int;
        let n = nouns.len() as int;
        slug_of(l, adjs, nouns, k % a, row_digits(l, a, n, row_start(l, a, n, k % a) + k / a))
    }
}

/// Splitting at the first `-` recovers both parts when the first is dash-free.
pub proof fn lemma_dash_injective(x1: Seq<char>, y1: Seq<char>, x2: Seq<char>, y2: Seq<char>)
    requires
        dash_free(x1),
        dash_free(x2),
        dash(x1, y1) == dash(x2, y2),
    ensures
        x1 == x2,
        y1 == y2,
{
    let s = dash(x1, y1);
    if x1.len() < x2.len() {
        assert(s[x1.len() as int] == '-');
        assert(dash(x2, y2)[x1.len() as int] == x2[x1.len() as int]);
    } else if x2.len() < x1.len() {
        assert(dash(x2, y2)[x2.len() as int] == '-');
        assert(s[x2.len() as int] == x1[x2.len() as int]);
    } else {
        assert(x1 =~= s.subrange(0, x1.len() as int));
        assert(x2 =~= dash(x2, y2).subrange(0, x2.len() as int));
        assert(y1 =~= s.subrange(x1.len() as int + 1, s.len() as int));
        assert(y2 =~= dash(x2, y2).subrange(x2.len() as int + 1, s.len() as int));
    }
}

} // verus!

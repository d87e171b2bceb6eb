use vstd::prelude::*;

use crate::arith::lemma_split;
use crate::count::{total_combinations, valid_length};
use crate::odometer::{lemma_digits_in_range, lemma_row_start, row_digits, row_period, row_start};
use crate::phrase::{
    dash,
    dash_free,
    lemma_dash_injective,
    of_word,
    slug_at,
    slug_of,
    valid_vocabulary,
};

verus! {

/// Two numbers that share their remainder `low` modulo `p` differ by at
/// least `p`.
proof fn lemma_gap(t1: int, t2: int, q1: int, q2: int, p: int, low: int)
    requires
        t1 == q1 * p + low,
        t2 == q2 * p + low,
        t1 < t2,
        p >= 1,
    ensures
        t2 - t1 >= p,
{
    assert(t2 - t1 == (q2 - q1) * p) by (nonlinear_arith)
        requires
            t1 == q1 * p + low,
            t2 == q2 * p + low,
    ;
    assert((q2 - q1) * p >= p) by (nonlinear_arith)
        requires
            (q2 - q1) * p > 0,
            p >= 1,
    ;
}

proof fn lemma_expand4(q: int, a: int, n: int, x: int, y: int, z: int)
    ensures
        ((q * a + x) * n + y) * n + z == q * (a * n * n) + (x * n * n + y * n + z),
{
    assert(((q * a + x) * n + y) * n + z == q * (a * n * n) + (x * n * n + y * n + z))
        by (nonlinear_arith);
}

proof fn lemma_expand5(q: int, a: int, n: int, w: int, x: int, y: int, z: int)
    ensures
        (((q * a + w) * n + x) * a + y) * n + z == q * (a * n * a * n) + (w * n * a * n + x * a
            * n + y * n + z),
{
    assert((((q * a + w) * n + x) * a + y) * n + z == q * (a * n * a * n) + (w * n * a * n + x
        * a * n + y * n + z)) by (nonlinear_arith);
}

/// A row's digits come back only after a whole period of ticks.
pub proof fn lemma_digits_period(l: int, a: int, n: int, t1: int, t2: int)
    requires
        2 <= l <= 5,
        a >= 1,
        n >= 1,
        0 <= t1 < t2,
        row_digits(l, a, n, t1) == row_digits(l, a, n, t2),
    ensures
        t2 - t1 >= row_period(l, a, n),
{
    lemma_split(t1, n);
    lemma_split(t2, n);
    if l == 2 {
        lemma_gap(t1, t2, t1 / n, t2 / n, n, t1 % n);
    } else if l == 3 {
        lemma_split(t1 / n, a);
        lemma_split(t2 / n, a);
        let x = (t1 / n) % a;
        let z = t1 % n;
        let q1 = t1 / n / a;
        let q2 = t2 / n / a;
        assert(t1 == q1 * (a * n) + (x * n + z) && t2 == q2 * (a * n) + (x * n + z))
            by (nonlinear_arith)
            requires
                t1 == (t1 / n) * n + z,
                t2 == (t2 / n) * n + z,
                t1 / n == q1 * a + x,
                t2 / n == q2 * a + x,
        ;
        assert(a * n >= 1) by (nonlinear_arith)
            requires
                a >= 1,
                n >= 1,
        ;
        lemma_gap(t1, t2, q1, q2, a * n, x * n + z);
    } else if l == 4 {
        lemma_split(t1 / n, n);
        lemma_split(t2 / n, n);
        lemma_split(t1 / n / n, a);
        lemma_split(t2 / n / n, a);
        let x = (t1 / n / n) % a;
        let y = (t1 / n) % n;
        let z = t1 % n;
        let q1 = t1 / n / n / a;
        let q2 = t2 / n / n / a;
        assert(t1 == ((q1 * a + x) * n + y) * n + z);
        assert(t2 == ((q2 * a + x) * n + y) * n + z);
        lemma_expand4(q1, a, n, x, y, z);
        lemma_expand4(q2, a, n, x, y, z);
        assert(a * n * n >= 1) by (nonlinear_arith)
            requires
                a >= 1,
                n >= 1,
        ;
        lemma_gap(t1, t2, q1, q2, a * n * n, x * n * n + y * n + z);
    } else {
        lemma_split(t1 / n, a);
        lemma_split(t2 / n, a);
        lemma_split(t1 / n / a, n);
        lemma_split(t2 / n / a, n);
        lemma_split(t1 / n / a / n, a);
        lemma_split(t2 / n / a / n, a);
        let w = (t1 / n / a / n) % a;
        let x = (t1 / n / a) % n;
        let y = (t1 / n) % a;
        let z = t1 % n;
        let q1 = t1 / n / a / n / a;
        let q2 = t2 / n / a / n / a;
        let low = w * n * a * n + x * a * n + y * n + z;
        assert(t1 == (((q1 * a + w) * n + x) * a + y) * n + z);
        assert(t2 == (((q2 * a + w) * n + x) * a + y) * n + z);
        lemma_expand5(q1, a, n, w, x, y, z);
        lemma_expand5(q2, a, n, w, x, y, z);
        assert(a * n * a * n >= 1) by (nonlinear_arith)
            requires
                a >= 1,
                n >= 1,
        ;
        lemma_gap(t1, t2, q1, q2, a * n * a * n, low);
    }
}

/// The connective holds no `-`.
proof fn lemma_of_word_dash_free()
    ensures
        dash_free(of_word()),
{
    assert(of_word()[0] == 'o' && of_word()[1] == 'f');
}

/// Equal slugs over valid vocabularies come from equal indices.
proof fn lemma_slug_of_injective(
    l: int,
    adjs: Seq<String>,
    nouns: Seq<String>,
    r1: int,
    d1: (int, int, int, int),
    r2: int,
    d2: (int, int, int, int),
)
    requires
        2 <= l <= 5,
        valid_vocabulary(adjs),
        valid_vocabulary(nouns),
        0 <= r1 < adjs.len(),
        0 <= r2 < adjs.len(),
        0 <= d1.0 < adjs.len() && 0 <= d1.2 < adjs.len(),
        0 <= d2.0 < adjs.len() && 0 <= d2.2 < adjs.len(),
        0 <= d1.1 < nouns.len() && 0 <= d1.3 < nouns.len(),
        0 <= d2.1 < nouns.len() && 0 <= d2.3 < nouns.len(),
        slug_of(l, adjs, nouns, r1, d1) == slug_of(l, adjs, nouns, r2, d2),
    ensures
        r1 == r2,
        d1.1 == d2.1,
        l != 2 ==> d1.0 == d2.0,
        l == 5 ==> d1.2 == d2.2,
        l >= 4 ==> d1.3 == d2.3,
{
    lemma_of_word_dash_free();
    assert(dash_free(adjs[r1]@) && dash_free(adjs[r2]@));
    assert(dash_free(adjs[d1.0]@) && dash_free(adjs[d2.0]@));
    assert(dash_free(adjs[d1.2]@) && dash_free(adjs[d2.2]@));
    assert(dash_free(nouns[d1.1]@) && dash_free(nouns[d2.1]@));
    if l == 2 {
        lemma_dash_injective(adjs[r1]@, nouns[d1.1]@, adjs[r2]@, nouns[d2.1]@);
    } else if l == 3 {
        let y1 = dash(adjs[d1.0]@, nouns[d1.1]@);
        let y2 = dash(adjs[d2.0]@, nouns[d2.1]@);
        lemma_dash_injective(adjs[r1]@, y1, adjs[r2]@, y2);
        lemma_dash_injective(adjs[d1.0]@, nouns[d1.1]@, adjs[d2.0]@, nouns[d2.1]@);
    } else if l == 4 {
        let z1 = dash(adjs[d1.0]@, nouns[d1.3]@);
        let z2 = dash(adjs[d2.0]@, nouns[d2.3]@);
        let y1 = dash(nouns[d1.1]@, dash(of_word(), z1));
        let y2 = dash(nouns[d2.1]@, dash(of_word(), z2));
        lemma_dash_injective(adjs[r1]@, y1, adjs[r2]@, y2);
        lemma_dash_injective(nouns[d1.1]@, dash(of_word(), z1), nouns[d2.1]@, dash(of_word(), z2));
        lemma_dash_injective(of_word(), z1, of_word(), z2);
        lemma_dash_injective(adjs[d1.0]@, nouns[d1.3]@, adjs[d2.0]@, nouns[d2.3]@);
    } else {
        let z1 = dash(adjs[d1.2]@, nouns[d1.3]@);
        let z2 = dash(adjs[d2.2]@, nouns[d2.3]@);
        let x1 = dash(nouns[d1.1]@, dash(of_word(), z1));
        let x2 = dash(nouns[d2.1]@, dash(of_word(), z2));
        let y1 = dash(adjs[d1.0]@, x1);
        let y2 = dash(adjs[d2.0]@, x2);
        lemma_dash_injective(adjs[r1]@, y1, adjs[r2]@, y2);
        lemma_dash_injective(adjs[d1.0]@, x1, adjs[d2.0]@, x2);
        lemma_dash_injective(nouns[d1.1]@, dash(of_word(), z1), nouns[d2.1]@, dash(of_word(), z2));
        lemma_dash_injective(of_word(), z1, of_word(), z2);
        lemma_dash_injective(adjs[d1.2]@, nouns[d1.3]@, adjs[d2.2]@, nouns[d2.3]@);
    }
}

/// The count of a template is the number of rows times each row's period.
proof fn lemma_total_is_rows_times_period(l: int, a: int, n: int)
    requires
        2 <= l <= 5,
    ensures
        total_combinations(l, a, n) == a * row_period(l, a, n),
{
    assert(a * a * n == a * (a * n) && a * a * n * n == a * (a * n * n) && a * a * a * n * n == a
        * (a * n * a * n)) by (nonlinear_arith);
}

/// Two different draws of one enumerator, both within its total, give
/// different slugs, provided each vocabulary holds distinct words free of `-`.
pub proof fn lemma_slugs_distinct(l: int, adjs: Seq<String>, nouns: Seq<String>, i: int, j: int)
    requires
        valid_length(l),
        adjs.len() >= 1,
        nouns.len() >= 1,
        valid_vocabulary(adjs),
        valid_vocabulary(nouns),
        0 <= i < j < total_combinations(l, adjs.len() as int, nouns.len() as int),
    ensures
        slug_at(l, adjs, nouns, i) != slug_at(l, adjs, nouns, j),
{
    if l == 1 {
        assert(nouns[i]@ != nouns[j]@);
    } else {
        let a = adjs.len() as int;
        let n = nouns.len() as int;
        let m = row_period(l, a, n);
        lemma_total_is_rows_times_period(l, a, n);
        lemma_split(i, a);
        lemma_split(j, a);
        let ri = i % a;
        let rj = j % a;
        let qi = i / a;
        let qj = j / a;
        assert(qj < m) by (nonlinear_arith)
            requires
                j == qj * a + rj,
                j < a * m,
                0 <= rj,
                a >= 1,
        ;
        lemma_row_start(l, a, n, ri);
        lemma_row_start(l, a, n, rj);
        let ti = row_start(l, a, n, ri) + qi;
        let tj = row_start(l, a, n, rj) + qj;
        lemma_digits_in_range(l, a, n, ti);
        lemma_digits_in_range(l, a, n, tj);
        if slug_at(l, adjs, nouns, i) == slug_at(l, adjs, nouns, j) {
            lemma_slug_of_injective(
                l,
                adjs,
                nouns,
                ri,
                row_digits(l, a, n, ti),
                rj,
                row_digits(l, a, n, tj),
            );
            assert(qi < qj) by (nonlinear_arith)
                requires
                    i == qi * a + ri,
                    j == qj * a + ri,
                    i < j,
                    a >= 1,
            ;
            lemma_digits_period(l, a, n, ti, tj);
        }
    }
}

/// The first `count` slugs an enumerator produces.
pub open spec fn draws(l: int, adjs: Seq<String>, nouns: Seq<String>, count: nat) -> Seq<
    Seq<char>,
> {
    Seq::new(count, |k: int| slug_at(l, adjs, nouns, k))
}

/// Any prefix of an enumerator's output, up to its total, repeats no slug:
/// the set of slugs drawn has exactly as many members as there were draws.
pub proof fn lemma_draws_unique(l: int, adjs: Seq<String>, nouns: Seq<String>, count: nat)
    requires
        valid_length(l),
        adjs.len() >= 1,
        nouns.len() >= 1,
        valid_vocabulary(adjs),
        valid_vocabulary(nouns),
        count <= total_combinations(l, adjs.len() as int, nouns.len() as int),
    ensures
        draws(l, adjs, nouns, count).no_duplicates(),
        draws(l, adjs, nouns, count).to_set().len() == count,
{
    let s = draws(l, adjs, nouns, count);
    assert forall|i: int, j: int| 0 <= i < s.len() && 0 <= j < s.len() && i != j implies s[i]
        != s[j] by {
        if i < j {
            lemma_slugs_distinct(l, adjs, nouns, i, j);
        } else {
            lemma_slugs_distinct(l, adjs, nouns, j, i);
        }
    }
    s.unique_seq_to_set();
}

} // verus!

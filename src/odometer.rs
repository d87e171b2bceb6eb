use vstd::prelude::*;

use crate::arith::{lemma_div_mod_of, lemma_split, lemma_succ_div_mod};

verus! {

/// The secondary indices of one row of the table: the second adjective, the
/// first noun, the third adjective and the second noun. A template uses the
/// slots it needs; the others stay zero.
#[derive(Clone, Copy)]
pub struct Row {
    pub adj_2: usize,
    pub noun: usize,
    pub adj_3: usize,
    pub noun_2: usize,
}

impl Row {
    pub open spec fn view(self) -> (int, int, int, int) {
        (self.adj_2 as int, self.noun as int, self.adj_3 as int, self.noun_2 as int)
    }
}

/// The indices a row holds after its odometer has reached tick `t`, for a
/// template of `l` words over `a` adjectives and `n` nouns. The fastest digit
/// comes first: the noun for two and three words, the second noun (counting
/// down) for four and five. Second adjectives count down, third adjectives up.
pub open spec fn row_digits(l: int, a: int, n: int, t: int) -> (int, int, int, int) {
    if l == 2 {
        (0, t % n, 0, 0)
    } else if l == 3 {
        (a - 1 - (t / n) % a, t % n, 0, 0)
    } else if l == 4 {
        (a - 1 - (t / n / n) % a, (t / n) % n, 0, n - 1 - t % n)
    } else {
        (a - 1 - (t / n / a / n) % a, (t / n / a) % n, (t / n) % a, n - 1 - t % n)
    }
}

/// The staggered starting indices of row `r`.
pub open spec fn initial_row(l: int, a: int, n: int, r: int) -> (int, int, int, int) {
    if l == 2 {
        (0, r % n, 0, 0)
    } else if l == 3 {
        (a - 1 - r, r % n, 0, 0)
    } else if l == 4 {
        (a - 1 - r, r % n, 0, n - 1 - r % n)
    } else {
        (a - 1 - r, r % n, (a / 2 + r) % a, n - 1 - r % n)
    }
}

/// The tick at which row `r` starts.
pub open spec fn row_start(l: int, a: int, n: int, r: int) -> int {
    if l == 2 {
        r
    } else if l == 3 {
        r * n + r % n
    } else if l == 4 {
        (r * n + r % n) * n + r % n
    } else {
        ((r * n + r % n) * a + (a / 2 + r) % a) * n + r % n
    }
}

/// The number of ticks after which a row's odometer comes back to its start.
pub open spec fn row_period(l: int, a: int, n: int) -> int {
    if l == 2 {
        n
    } else if l == 3 {
        a * n
    } else if l == 4 {
        a * n * n
    } else {
        a * n * a * n
    }
}

/// The starting tick of each row shows that row's staggered indices.
pub proof fn lemma_row_start(l: int, a: int, n: int, r: int)
    requires
        2 <= l <= 5,
        a >= 1,
        n >= 1,
        0 <= r < a,
    ensures
        row_start(l, a, n, r) >= 0,
        row_digits(l, a, n, row_start(l, a, n, r)) == initial_row(l, a, n, r),
{
    lemma_split(r, n);
    lemma_div_mod_of(0, a, r);
    let m = r % n;
    let b = r * n + m;
    assert(b >= 0) by (nonlinear_arith)
        requires
            r >= 0,
            n >= 1,
            m >= 0,
            b == r * n + m,
    ;
    if l == 2 {
    } else if l == 3 {
        lemma_div_mod_of(r, n, m);
    } else if l == 4 {
        lemma_div_mod_of(r, n, m);
        lemma_div_mod_of(b, n, m);
        assert(b * n + m >= 0) by (nonlinear_arith)
            requires
                b >= 0,
                n >= 1,
                m >= 0,
                b == r * n + m,
        ;
    } else {
        let s = (a / 2 + r) % a;
        lemma_split(a / 2 + r, a);
        lemma_div_mod_of(r, n, m);
        lemma_div_mod_of(b, a, s);
        let c = b * a + s;
        lemma_div_mod_of(c, n, m);
        assert(c >= 0 && c * n + m >= 0) by (nonlinear_arith)
            requires
                b >= 0,
                a >= 1,
                n >= 1,
                m >= 0,
                s >= 0,
                c == b * a + s,
        ;
    }
}

/// Every digit of a row indexes into its vocabulary.
pub proof fn lemma_digits_in_range(l: int, a: int, n: int, t: int)
    requires
        2 <= l <= 5,
        a >= 1,
        n >= 1,
        t >= 0,
    ensures
        0 <= row_digits(l, a, n, t).0 < a,
        0 <= row_digits(l, a, n, t).1 < n,
        0 <= row_digits(l, a, n, t).2 < a,
        0 <= row_digits(l, a, n, t).3 < n,
{
    lemma_split(t, n);
    lemma_split(t / n, a);
    lemma_split(t / n, n);
    lemma_split(t / n / n, a);
    lemma_split(t / n / a, n);
    lemma_split(t / n / a / n, a);
}

/// One step back through `0..m`, wrapping from zero to `m - 1`.
fn count_down(x: usize, m: usize) -> (r: usize)
    requires
        x < m,
    ensures
        x == 0 ==> r == m - 1,
        x > 0 ==> r == x - 1,
{
    if x == 0 {
        m - 1
    } else {
        x - 1
    }
}

/// Advances a row by one tick of its odometer: the fastest digit moves, and
/// each digit that completes a cycle carries into the next one.
pub(crate) fn step_row(l: usize, a: usize, n: usize, row: Row, Ghost(t): Ghost<int>) -> (next: Row)
    requires
        2 <= l <= 5,
        a >= 1,
        n >= 1,
        t >= 0,
        row@ == row_digits(l as int, a as int, n as int, t),
    ensures
        next@ == row_digits(l as int, a as int, n as int, t + 1),
{
    let ghost t1 = t / n as int;
    proof {
        lemma_succ_div_mod(t, n as int);
        if l == 3 {
            lemma_succ_div_mod(t1, a as int);
        } else if l == 4 {
            lemma_succ_div_mod(t1, n as int);
            lemma_succ_div_mod(t1 / n as int, a as int);
        } else if l == 5 {
            lemma_succ_div_mod(t1, a as int);
            lemma_succ_div_mod(t1 / a as int, n as int);
            lemma_succ_div_mod(t1 / a as int / n as int, a as int);
        }
    }
    let mut next = row;
    if l == 2 {
        next.noun = if row.noun == n - 1 {
            0
        } else {
            row.noun + 1
        };
    } else if l == 3 {
        if row.noun == n - 1 {
            next.noun = 0;
            next.adj_2 = count_down(row.adj_2, a);
        } else {
            next.noun = row.noun + 1;
        }
    } else if l == 4 {
        if row.noun_2 == 0 {
            next.noun_2 = n - 1;
            if row.noun == n - 1 {
                next.noun = 0;
                next.adj_2 = count_down(row.adj_2, a);
            } else {
                next.noun = row.noun + 1;
            }
        } else {
            next.noun_2 = row.noun_2 - 1;
        }
    } else {
        if row.noun_2 == 0 {
            next.noun_2 = n - 1;
            if row.adj_3 == a - 1 {
                next.adj_3 = 0;
                if row.noun == n - 1 {
                    next.noun = 0;
                    next.adj_2 = count_down(row.adj_2, a);
                } else {
                    next.noun = row.noun + 1;
                }
            } else {
                next.adj_3 = row.adj_3 + 1;
            }
        } else {
            next.noun_2 = row.noun_2 - 1;
        }
    }
    next
}

} // verus!

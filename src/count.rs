use vstd::prelude::*;

use crate::error::GeneralException;

verus! {

/// A slug length that the templates cover.
pub open spec fn valid_length(l: int) -> bool {
    1 <= l <= 5
}

/// The number of distinct slugs of length `l` over `a` adjectives and `n` nouns.
pub open spec fn total_combinations(l: int, a: int, n: int) -> int {
    if l == 1 {
        n
    } else if l == 2 {
        a * n
    } else if l == 3 {
        a * a * n
    } else if l == 4 {
        a * a * n * n
    } else {
        a * a * a * n * n
    }
}

/// Counts the slugs of `word_length` words over `num_adjs` adjectives and
/// `num_nouns` nouns.
pub fn combinations(word_length: i32, num_adjs: usize, num_nouns: usize) -> (r: Result<
    usize,
    GeneralException,
>)
    ensures
        !valid_length(word_length as int) ==> r == Err::<usize, GeneralException>(
            GeneralException::InvalidWordLength(word_length),
        ),
        valid_length(word_length as int) && total_combinations(
            word_length as int,
            num_adjs as int,
            num_nouns as int,
        ) <= usize::MAX ==> r == Ok::<usize, GeneralException>(
            total_combinations(word_length as int, num_adjs as int, num_nouns as int) as usize,
        ),
        valid_length(word_length as int) && total_combinations(
            word_length as int,
            num_adjs as int,
            num_nouns as int,
        ) > usize::MAX ==> r == Err::<usize, GeneralException>(GeneralException::CountOverflow),
{
    if word_length < 1 || word_length > 5 {
        return Err(GeneralException::InvalidWordLength(word_length));
    }
    let a = num_adjs;
    let n = num_nouns;
    if word_length == 1 {
        return Ok(n);
    }
    if a == 0 || n == 0 {
        assert(a * n == 0 && a * a * n == 0 && a * a * n * n == 0 && a * a * a * n * n == 0)
            by (nonlinear_arith)
            requires
                a == 0 || n == 0,
        ;
        return Ok(0);
    }
    let an = match a.checked_mul(n) {
        Some(v) => v,
        None => {
            proof {
                lemma_overflow_grows(word_length as int, a as int, n as int);
            }
            return Err(GeneralException::CountOverflow);
        },
    };
    if word_length == 2 {
        return Ok(an);
    }
    let grown = if word_length == 3 {
        an.checked_mul(a)
    } else {
        an.checked_mul(an)
    };
    let big = match grown {
        Some(v) => v,
        None => {
            proof {
                lemma_overflow_grows(word_length as int, a as int, n as int);
            }
            return Err(GeneralException::CountOverflow);
        },
    };
    assert(an * a == a * a * n && an * an == a * a * n * n) by (nonlinear_arith)
        requires
            an == a * n,
    ;
    if word_length < 5 {
        return Ok(big);
    }
    assert(big * a == a * a * a * n * n) by (nonlinear_arith)
        requires
            big == a * a * n * n,
    ;
    match big.checked_mul(a) {
        Some(v) => Ok(v),
        None => Err(GeneralException::CountOverflow),
    }
}

/// With both vocabularies non-empty there is at least one slug of each length.
pub proof fn lemma_total_positive(l: int, a: int, n: int)
    requires
        valid_length(l),
        a >= 1,
        n >= 1,
    ensures
        total_combinations(l, a, n) >= 1,
{
    assert(a * n >= 1 && a * a * n >= 1 && a * a * n * n >= 1 && a * a * a * n * n >= 1)
        by (nonlinear_arith)
        requires
            a >= 1,
            n >= 1,
    ;
}

/// With both vocabularies non-empty, the count of each longer template is a
/// multiple of the counts of the shorter ones it extends.
proof fn lemma_overflow_grows(l: int, a: int, n: int)
    requires
        2 <= l <= 5,
        a >= 1,
        n >= 1,
    ensures
        total_combinations(l, a, n) >= a * n,
        l >= 4 ==> total_combinations(l, a, n) >= (a * n) * (a * n),
        l == 3 ==> total_combinations(l, a, n) == (a * n) * a,
{
    assert(a * n >= 1) by (nonlinear_arith)
        requires
            a >= 1,
            n >= 1,
    ;
    assert(a * a * n >= a * n && a * a * n * n >= (a * n) * (a * n) && (a * n) * (a * n) >= a * n
        && a * a * a * n * n >= a * a * n * n && (a * n) * a == a * a * n) by (nonlinear_arith)
        requires
            a >= 1,
            n >= 1,
            a * n >= 1,
    ;
}

} // verus!

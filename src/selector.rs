use vstd::prelude::*;
use vstd::string::*;

use crate::arith::{lemma_div_mod_of, lemma_succ_div_mod};
use crate::count::{combinations, total_combinations, valid_length};
use crate::error::GeneralException;
use crate::odometer::{lemma_digits_in_range, lemma_row_start, row_digits, row_start, step_row, Row};
use crate::phrase::{of_word, slug_at, slug_of};

verus! {

/// How often row `r` has been visited after `c` round-robin draws over `a` rows.
pub open spec fn visits(c: int, a: int, r: int) -> int {
    c / a + if r < c % a {
        1int
    } else {
        0int
    }
}

/// Produces slugs one at a time, never the same one twice, until every
/// combination for its length has been produced.
pub struct WordSelector {
    adjs: Vec<String>,
    nouns: Vec<String>,
    selection_ptrs: Vec<Row>,
    selection_i: usize,
    word_len: usize,
    total_combinations: usize,
    its_completed: usize,
}

impl WordSelector {
    /// The adjectives, in the order the enumerator reads them.
    pub closed spec fn adjectives(&self) -> Seq<String> {
        self.adjs@
    }

    /// The nouns, in the order the enumerator reads them.
    pub closed spec fn noun_list(&self) -> Seq<String> {
        self.nouns@
    }

    /// The number of words in each slug.
    pub closed spec fn word_length(&self) -> int {
        self.word_len as int
    }

    /// The number of slugs produced so far.
    pub closed spec fn completed(&self) -> int {
        self.its_completed as int
    }

    /// The number of distinct slugs this enumerator can produce.
    pub closed spec fn total(&self) -> int {
        self.total_combinations as int
    }

    /// The row table and cursor agree with the number of slugs produced.
    pub closed spec fn wf(&self) -> bool {
        let l = self.word_len as int;
        let a = self.adjs.len() as int;
        let n = self.nouns.len() as int;
        let c = self.its_completed as int;
        &&& valid_length(l)
        &&& a >= 1
        &&& n >= 1
        &&& self.total_combinations as int == total_combinations(l, a, n)
        &&& c <= self.total_combinations
        &&& l == 1 ==> self.selection_i as int == c && self.selection_ptrs.len() == 0
        &&& l >= 2 ==> {
            &&& self.selection_ptrs.len() == a
            &&& self.selection_i as int == c % a
            &&& forall|r: int|
                0 <= r < a ==> #[trigger] self.selection_ptrs@[r]@ == row_digits(
                    l,
                    a,
                    n,
                    row_start(l, a, n, r) + visits(c, a, r),
                )
        }
    }

    /// Builds an enumerator of `word_len`-word slugs over the given
    /// vocabularies, with each row at its staggered start.
    pub fn new(adjs: Vec<String>, nouns: Vec<String>, word_len: usize) -> (r: Result<
        Self,
        GeneralException,
    >)
        ensures
            !valid_length(word_len as int) || adjs.len() == 0 || nouns.len() == 0 ==> r
                == Err::<Self, GeneralException>(
                GeneralException::InvalidWordLength(#[verifier::truncate] (word_len as i32)),
            ),
            valid_length(word_len as int) && adjs.len() > 0 && nouns.len() > 0 ==> {
                let total = total_combinations(
                    word_len as int,
                    adjs.len() as int,
                    nouns.len() as int,
                );
                &&& total > usize::MAX ==> r == Err::<Self, GeneralException>(
                    GeneralException::CountOverflow,
                )
                &&& total <= usize::MAX ==> (r matches Ok(s) && s.wf() && s.adjectives() == adjs@
                    && s.noun_list() == nouns@ && s.word_length() == word_len && s.completed()
                    == 0 && s.total() == total)
            },
    {
        if word_len < 1 || word_len > 5 || adjs.len() == 0 || nouns.len() == 0 {
            return Err(GeneralException::InvalidWordLength(#[verifier::truncate] (word_len as i32)));
        }
        let total = match combinations(word_len as i32, adjs.len(), nouns.len()) {
            Ok(t) => t,
            Err(e) => {
                return Err(e);
            },
        };
        let a = adjs.len();
        let n = nouns.len();
        let mut ptrs: Vec<Row> = Vec::new();
        if word_len >= 2 {
            let mut noun_i: usize = 0;
            let mut noun_2_i: usize = n - 1;
            let mut adj_3_i: usize = a / 2;
            let mut i: usize = 0;
            proof {
                lemma_div_mod_of(0, a as int, a as int / 2);
                lemma_div_mod_of(0, n as int, 0);
            }
            while i < a
                invariant
                    2 <= word_len <= 5,
                    a == adjs.len(),
                    n == nouns.len(),
                    a >= 1,
                    n >= 1,
                    i <= a,
                    ptrs.len() == i,
                    noun_i as int == i as int % n as int,
                    noun_2_i as int == n - 1 - i as int % n as int,
                    adj_3_i as int == (a as int / 2 + i as int) % a as int,
                    forall|r: int|
                        0 <= r < i ==> #[trigger] ptrs@[r]@ == row_digits(
                            word_len as int,
                            a as int,
                            n as int,
                            row_start(word_len as int, a as int, n as int, r),
                        ),
                decreases a - i,
            {
                let row = Row {
                    adj_2: if word_len == 2 {
                        0
                    } else {
                        a - 1 - i
                    },
                    noun: noun_i,
                    adj_3: if word_len == 5 {
                        adj_3_i
                    } else {
                        0
                    },
                    noun_2: if word_len >= 4 {
                        noun_2_i
                    } else {
                        0
                    },
                };
                proof {
                    lemma_row_start(word_len as int, a as int, n as int, i as int);
                    lemma_succ_div_mod(i as int, n as int);
                    lemma_succ_div_mod(a as int / 2 + i as int, a as int);
                }
                ptrs.push(row);
                noun_i = if noun_i == n - 1 {
                    0
                } else {
                    noun_i + 1
                };
                noun_2_i = if noun_2_i == 0 {
                    n - 1
                } else {
                    noun_2_i - 1
                };
                adj_3_i = if adj_3_i == a - 1 {
                    0
                } else {
                    adj_3_i + 1
                };
                i = i + 1;
            }
        }
        let s = WordSelector {
            adjs,
            nouns,
            selection_ptrs: ptrs,
            selection_i: 0,
            word_len,
            total_combinations: total,
            its_completed: 0,
        };
        assert(s.wf()) by {
            if word_len >= 2 {
                assert forall|r: int| 0 <= r < a implies visits(0, a as int, r) == 0 by {
                    assert(0int / (a as int) == 0 && 0int % (a as int) == 0) by (nonlinear_arith)
                        requires
                            a >= 1,
                    ;
                }
                assert(0int % (a as int) == 0) by (nonlinear_arith)
                    requires
                        a >= 1,
                ;
            }
        }
        Ok(s)
    }

    /// Produces the next slug, or `NoMoreUniqueCombinations` once every
    /// combination has been produced.
    pub fn choose_slug(&mut self) -> (r: Result<String, GeneralException>)
        requires
            old(self).wf(),
        ensures
            final(self).wf(),
            final(self).adjectives() == old(self).adjectives(),
            final(self).noun_list() == old(self).noun_list(),
            final(self).word_length() == old(self).word_length(),
            final(self).total() == old(self).total(),
            old(self).completed() == old(self).total() ==> r == Err::<String, GeneralException>(
                GeneralException::NoMoreUniqueCombinations,
            ) && final(self).completed() == old(self).completed(),
            old(self).completed() < old(self).total() ==> (r matches Ok(p) && p@ == slug_at(
                old(self).word_length(),
                old(self).adjectives(),
                old(self).noun_list(),
                old(self).completed(),
            ) && final(self).completed() == old(self).completed() + 1),
            final(self).completed() <= final(self).total(),
    {
        if self.its_completed == self.total_combinations {
            return Err(GeneralException::NoMoreUniqueCombinations);
        }
        if self.word_len == 1 {
            let phrase = self.nouns[self.selection_i].clone();
            self.selection_i = self.selection_i + 1;
            self.its_completed = self.its_completed + 1;
            return Ok(phrase);
        }
        let ghost c = self.its_completed as int;
        let ghost a = self.adjs.len() as int;
        let ghost n = self.nouns.len() as int;
        let ghost l = self.word_len as int;
        let i = self.selection_i;
        let row = self.selection_ptrs[i];
        proof {
            lemma_succ_div_mod(c, a);
            lemma_row_start(l, a, n, i as int);
            assert(visits(c, a, i as int) == c / a);
            assert(self.selection_ptrs@[i as int]@ == row_digits(
                l,
                a,
                n,
                row_start(l, a, n, i as int) + visits(c, a, i as int),
            ));
            lemma_digits_in_range(l, a, n, row_start(l, a, n, i as int) + c / a);
        }
        let phrase = self.assemble(row);
        let next = step_row(
            self.word_len,
            self.adjs.len(),
            self.nouns.len(),
            row,
            Ghost(row_start(l, a, n, i as int) + c / a),
        );
        self.selection_ptrs.set(i, next);
        self.selection_i = if i == self.selection_ptrs.len() - 1 {
            0
        } else {
            i + 1
        };
        self.its_completed = self.its_completed + 1;
        proof {
            assert forall|r: int| 0 <= r < a implies #[trigger] self.selection_ptrs@[r]@
                == row_digits(l, a, n, row_start(l, a, n, r) + visits(c + 1, a, r)) by {
                assert(old(self).selection_ptrs@[r]@ == row_digits(
                    l,
                    a,
                    n,
                    row_start(l, a, n, r) + visits(c, a, r),
                ));
            }
        }
        Ok(phrase)
    }

    /// The slug read from the current row, before the row advances.
    fn assemble(&self, row: Row) -> (p: String)
        requires
            self.word_len >= 2,
            self.selection_i < self.adjs.len(),
            row.adj_2 < self.adjs.len(),
            row.adj_3 < self.adjs.len(),
            row.noun < self.nouns.len(),
            row.noun_2 < self.nouns.len(),
        ensures
            p@ == slug_of(
                self.word_len as int,
                self.adjs@,
                self.nouns@,
                self.selection_i as int,
                row@,
            ),
    {
        let mut p = self.adjs[self.selection_i].clone();
        if self.word_len == 2 {
            push_word(&mut p, self.nouns[row.noun].as_str());
        } else if self.word_len == 3 {
            push_word(&mut p, self.adjs[row.adj_2].as_str());
            push_word(&mut p, self.nouns[row.noun].as_str());
        } else if self.word_len == 4 {
            push_word(&mut p, self.nouns[row.noun].as_str());
            push_word(&mut p, "of");
            push_word(&mut p, self.adjs[row.adj_2].as_str());
            push_word(&mut p, self.nouns[row.noun_2].as_str());
        } else {
            push_word(&mut p, self.adjs[row.adj_2].as_str());
            push_word(&mut p, self.nouns[row.noun].as_str());
            push_word(&mut p, "of");
            push_word(&mut p, self.adjs[row.adj_3].as_str());
            push_word(&mut p, self.nouns[row.noun_2].as_str());
        }
        proof {
            reveal_strlit("of");
            assert("of"@ =~= of_word());
        }
        assert(p@ =~= slug_of(
            self.word_len as int,
            self.adjs@,
            self.nouns@,
            self.selection_i as int,
            row@,
        ));
        p
    }
}

/// Appends `-` and then `w`.
fn push_word(s: &mut String, w: &str)
    ensures
        final(s)@ == old(s)@ + seq!['-'] + w@,
{
    proof {
        reveal_strlit("-");
    }
    s.append("-");
    s.append(w);
}

} // verus!

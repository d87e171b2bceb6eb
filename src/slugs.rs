use vstd::prelude::*;

use rand::seq::SliceRandom;

use crate::count::{combinations, lemma_total_positive, total_combinations, valid_length};
use crate::error::GeneralException;
use crate::phrase::{slug_at, valid_vocabulary};
use crate::selector::WordSelector;
use crate::uniqueness::lemma_slugs_distinct;

verus! {

/// `new` holds the words of `old` in some order, each exactly once.
pub open spec fn permutes(new: Seq<String>, old: Seq<String>) -> bool {
    &&& new.len() == old.len()
    &&& exists|p: Seq<int>|
        {
            &&& p.len() == new.len()
            &&& forall|i: int| 0 <= i < p.len() ==> 0 <= #[trigger] p[i] < old.len()
            &&& forall|i: int| 0 <= i < p.len() ==> new[i] == old[#[trigger] p[i]]
            &&& forall|i: int, j: int|
                0 <= i < p.len() && 0 <= j < p.len() && i != j ==> #[trigger] p[i] != #[trigger] p[j]
        }
}

/// Reordering a vocabulary keeps its words distinct and free of `-`.
pub proof fn lemma_permutes_valid(new: Seq<String>, old: Seq<String>)
    requires
        permutes(new, old),
        valid_vocabulary(old),
    ensures
        valid_vocabulary(new),
{
    let p = choose|p: Seq<int>|
        {
            &&& p.len() == new.len()
            &&& forall|i: int| 0 <= i < p.len() ==> 0 <= #[trigger] p[i] < old.len()
            &&& forall|i: int| 0 <= i < p.len() ==> new[i] == old[#[trigger] p[i]]
            &&& forall|i: int, j: int|
                0 <= i < p.len() && 0 <= j < p.len() && i != j ==> #[trigger] p[i] != #[trigger] p[j]
        };
    assert forall|i: int| 0 <= i < new.len() implies crate::phrase::dash_free(#[trigger] new[i]@) by {
        assert(new[i] == old[p[i]]);
    }
    assert forall|i: int, j: int|
        0 <= i < new.len() && 0 <= j < new.len() && i != j implies #[trigger] new[i]@
        != #[trigger] new[j]@ by {
        assert(new[i] == old[p[i]]);
        assert(new[j] == old[p[j]]);
        assert(p[i] != p[j]);
    }
}

/// Relies on rand's `SliceRandom::shuffle` driven by `thread_rng`: it reorders
/// the slice in place by swaps, so the result is a permutation of the input.
#[verifier::external_body]
fn shuffle_words(words: &mut Vec<String>)
    ensures
        permutes(final(words)@, old(words)@),
{
    let mut rng = rand::thread_rng();
    words.shuffle(&mut rng);
}

/// Draws `num_outputs` slugs of `word_length` words, in order, from one
/// enumerator over `adjs` and `nouns` as given.
pub fn create_phrases(
    adjs: Vec<String>,
    nouns: Vec<String>,
    word_length: usize,
    num_outputs: i32,
) -> (r: Result<Vec<String>, GeneralException>)
    ensures
        !valid_length(word_length as int) || adjs.len() == 0 || nouns.len() == 0 ==> r
            == Err::<Vec<String>, GeneralException>(
            GeneralException::InvalidWordLength(#[verifier::truncate] (word_length as i32)),
        ),
        valid_length(word_length as int) && adjs.len() > 0 && nouns.len() > 0 ==> {
            let total = total_combinations(word_length as int, adjs.len() as int, nouns.len() as int);
            &&& total > usize::MAX ==> r == Err::<Vec<String>, GeneralException>(
                GeneralException::CountOverflow,
            )
            &&& total <= usize::MAX && num_outputs > total ==> r == Err::<
                Vec<String>,
                GeneralException,
            >(GeneralException::NoMoreUniqueCombinations)
            &&& total <= usize::MAX && num_outputs <= total ==> (r matches Ok(v) && v@.len() == (
            if num_outputs < 0 {
                0
            } else {
                num_outputs as int
            }) && (forall|k: int|
                0 <= k < v@.len() ==> #[trigger] v@[k]@ == slug_at(
                    word_length as int,
                    adjs@,
                    nouns@,
                    k,
                )) && (valid_vocabulary(adjs@) && valid_vocabulary(nouns@) ==> forall|i: int, j: int|
                0 <= i < v@.len() && 0 <= j < v@.len() && i != j ==> #[trigger] v@[i]@
                    != #[trigger] v@[j]@))
        },
{
    let ghost adjs_view = adjs@;
    let ghost nouns_view = nouns@;
    let mut ws = match WordSelector::new(adjs, nouns, word_length) {
        Ok(ws) => ws,
        Err(e) => {
            return Err(e);
        },
    };
    let mut words: Vec<String> = Vec::new();
    let mut i: i32 = 0;
    while i < num_outputs
        invariant
            ws.wf(),
            ws.adjectives() == adjs_view,
            ws.noun_list() == nouns_view,
            ws.word_length() == word_length,
            ws.total() == total_combinations(
                word_length as int,
                adjs_view.len() as int,
                nouns_view.len() as int,
            ),
            adjs_view == adjs@,
            nouns_view == nouns@,
            valid_length(word_length as int),
            adjs_view.len() > 0,
            nouns_view.len() > 0,
            ws.total() <= usize::MAX,
            ws.completed() <= ws.total(),
            0 <= i,
            num_outputs < 0 ==> i == 0,
            num_outputs >= 0 ==> i <= num_outputs,
            ws.completed() == i,
            words@.len() == i,
            forall|k: int|
                0 <= k < i ==> #[trigger] words@[k]@ == slug_at(
                    word_length as int,
                    adjs_view,
                    nouns_view,
                    k,
                ),
        decreases num_outputs - i,
    {
        match ws.choose_slug() {
            Ok(p) => {
                words.push(p);
            },
            Err(e) => {
                return Err(e);
            },
        }
        i = i + 1;
    }
    proof {
        if valid_vocabulary(adjs_view) && valid_vocabulary(nouns_view) {
            assert forall|p: int, q: int|
                0 <= p < words@.len() && 0 <= q < words@.len() && p != q implies #[trigger] words@[p]@
                != #[trigger] words@[q]@ by {
                if p < q {
                    lemma_slugs_distinct(word_length as int, adjs_view, nouns_view, p, q);
                } else {
                    lemma_slugs_distinct(word_length as int, adjs_view, nouns_view, q, p);
                }
            }
        }
    }
    Ok(words)
}

/// Draws `num_outputs` (one when absent) distinct slugs of `word_length`
/// words from one enumerator over freshly shuffled vocabularies, after
/// checking that the request fits the number of combinations.
pub fn random_slugs(
    adjs: Vec<String>,
    nouns: Vec<String>,
    word_length: i32,
    num_outputs: Option<i32>,
) -> (r: Result<Vec<String>, GeneralException>)
    ensures
        ({
            let num = match num_outputs {
                Some(k) => k as int,
                None => 1,
            };
            let l = word_length as int;
            let total = total_combinations(l, adjs.len() as int, nouns.len() as int);
            &&& !valid_length(l) ==> r == Err::<Vec<String>, GeneralException>(
                GeneralException::InvalidWordLength(word_length),
            )
            &&& valid_length(l) && total > usize::MAX ==> r == Err::<Vec<String>, GeneralException>(
                GeneralException::CountOverflow,
            )
            &&& valid_length(l) && total <= usize::MAX && (num < 0 || num > total) ==> r == Err::<
                Vec<String>,
                GeneralException,
            >(GeneralException::NoMoreUniqueCombinations)
            &&& valid_length(l) && total <= usize::MAX && 0 <= num <= total && (adjs.len() == 0 || nouns.len() == 0) ==> r
                == Err::<Vec<String>, GeneralException>(
                GeneralException::InvalidWordLength(word_length),
            )
            &&& valid_length(l) && total <= usize::MAX && 0 <= num <= total && adjs.len() > 0
                && nouns.len() > 0 ==> (
            r matches Ok(v) && v@.len() == num && (exists|sa: Seq<String>, sn: Seq<String>|
                permutes(sa, adjs@) && permutes(sn, nouns@) && forall|k: int|
                    0 <= k < v@.len() ==> #[trigger] v@[k]@ == slug_at(l, sa, sn, k)) && (
            valid_vocabulary(adjs@) && valid_vocabulary(nouns@) ==> forall|i: int, j: int|
                0 <= i < v@.len() && 0 <= j < v@.len() && i != j ==> #[trigger] v@[i]@
                    != #[trigger] v@[j]@))
        }),
{
    let num = match num_outputs {
        Some(k) => k,
        None => 1,
    };
    let max_combos = match combinations(word_length, adjs.len(), nouns.len()) {
        Ok(m) => m,
        Err(e) => {
            return Err(e);
        },
    };
    if num < 0 || num as usize > max_combos {
        return Err(GeneralException::NoMoreUniqueCombinations);
    }
    let ghost adjs_view = adjs@;
    let ghost nouns_view = nouns@;
    let mut adjs = adjs;
    let mut nouns = nouns;
    shuffle_words(&mut adjs);
    shuffle_words(&mut nouns);
    let l = word_length as usize;
    let r = create_phrases(adjs, nouns, l, num);
    proof {
        if r is Ok && valid_vocabulary(adjs_view) && valid_vocabulary(nouns_view) {
            lemma_permutes_valid(adjs@, adjs_view);
            lemma_permutes_valid(nouns@, nouns_view);
            let v = r->Ok_0;
            assert forall|i: int, j: int|
                0 <= i < v@.len() && 0 <= j < v@.len() && i != j implies #[trigger] v@[i]@
                != #[trigger] v@[j]@ by {
                if i < j {
                    lemma_slugs_distinct(word_length as int, adjs@, nouns@, i, j);
                } else {
                    lemma_slugs_distinct(word_length as int, adjs@, nouns@, j, i);
                }
            }
        }
    }
    r
}

/// The first slug of `word_length` words that an enumerator over `adjs` and
/// `nouns`, in the order given, produces.
pub fn get_slug(adjs: Vec<String>, nouns: Vec<String>, word_length: i32) -> (r: Result<
    String,
    GeneralException,
>)
    ensures
        ({
            let l = word_length as int;
            let total = total_combinations(l, adjs.len() as int, nouns.len() as int);
            &&& !valid_length(l) || adjs.len() == 0 || nouns.len() == 0 ==> r == Err::<
                String,
                GeneralException,
            >(GeneralException::InvalidWordLength(word_length))
            &&& valid_length(l) && adjs.len() > 0 && nouns.len() > 0 && total > usize::MAX ==> r
                == Err::<String, GeneralException>(GeneralException::CountOverflow)
            &&& valid_length(l) && adjs.len() > 0 && nouns.len() > 0 && total <= usize::MAX ==> (
            r matches Ok(p) && p@ == slug_at(l, adjs@, nouns@, 0))
        }),
{
    if word_length < 1 || word_length > 5 || adjs.len() == 0 || nouns.len() == 0 {
        return Err(GeneralException::InvalidWordLength(word_length));
    }
    proof {
        lemma_total_positive(word_length as int, adjs.len() as int, nouns.len() as int);
    }
    let mut ws = match WordSelector::new(adjs, nouns, word_length as usize) {
        Ok(ws) => ws,
        Err(e) => {
            return Err(e);
        },
    };
    ws.choose_slug()
}

} // verus!

use vstd::prelude::*;
use vstd::std_specs::iter::IteratorSpec;
use vstd::string::*;

verus! {

/// The pieces of `s` between newlines, as `str::split('\n')` yields them: a
/// trailing newline leaves an empty last piece, and the empty text is one
/// empty piece.
pub open spec fn split_lines(s: Seq<char>) -> Seq<Seq<char>>
    decreases s.len(),
{
    if s.len() == 0 {
        seq![Seq::<char>::empty()]
    } else {
        let prev = split_lines(s.drop_last());
        if s.last() == '\n' {
            prev.push(Seq::<char>::empty())
        } else {
            prev.update(prev.len() - 1, prev.last().push(s.last()))
        }
    }
}

proof fn lemma_split_lines_nonempty(s: Seq<char>)
    ensures
        split_lines(s).len() >= 1,
    decreases s.len(),
{
    if s.len() > 0 {
        lemma_split_lines_nonempty(s.drop_last());
    }
}

/// Relies on `String::push`: appends one character.
#[verifier::external_body]
fn push_char(s: &mut String, c: char)
    ensures
        final(s)@ == old(s)@.push(c),
{
    s.push(c)
}

/// Splits a word list into its lines, one word per line, in order.
pub fn get_words(contents: &str) -> (r: Vec<String>)
    ensures
        r@.len() == split_lines(contents@).len(),
        forall|k: int| 0 <= k < r@.len() ==> #[trigger] r@[k]@ == split_lines(contents@)[k],
{
    broadcast use vstd::string::group_string_axioms;

    let mut it = contents.chars();
    let mut words: Vec<String> = Vec::new();
    let mut current = String::new();
    let ghost mut pos: int = 0;
    assert(contents@.subrange(0, 0) =~= Seq::<char>::empty());
    loop
        invariant
            0 <= pos <= contents@.len(),
            it.remaining() == contents@.subrange(pos, contents@.len() as int),
            split_lines(contents@.subrange(0, pos)).len() == words@.len() + 1,
            forall|k: int|
                0 <= k < words@.len() ==> #[trigger] words@[k]@ == split_lines(
                    contents@.subrange(0, pos),
                )[k],
            current@ == split_lines(contents@.subrange(0, pos)).last(),
        ensures
            split_lines(contents@).len() == words@.len() + 1,
            forall|k: int|
                0 <= k < words@.len() ==> #[trigger] words@[k]@ == split_lines(contents@)[k],
            current@ == split_lines(contents@).last(),
        decreases contents@.len() - pos,
    {
        let ghost before = contents@.subrange(0, pos);
        proof {
            lemma_split_lines_nonempty(before);
        }
        match it.next() {
            Some(c) => {
                proof {
                    let after = contents@.subrange(0, pos + 1);
                    assert(after.drop_last() =~= before);
                    assert(after.last() == c);
                    pos = pos + 1;
                    assert(it.remaining() =~= contents@.subrange(pos, contents@.len() as int));
                }
                if c == '\n' {
                    let done = current;
                    words.push(done);
                    current = String::new();
                } else {
                    push_char(&mut current, c);
                }
            },
            None => {
                assert(contents@.subrange(0, pos) =~= contents@);
                break ;
            },
        }
    }
    words.push(current);
    words
}

} // verus!

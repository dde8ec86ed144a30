//! Breaking a run of words into lines with the optimal-fit algorithm of the
//! `textwrap` crate.

use vstd::prelude::*;

verus! {

/// The lengths of the lines into which `textwrap`'s optimal-fit algorithm,
/// with its default penalties, breaks fragments given as
/// `(width, whitespace width, penalty width)` when the lines are
/// `line_widths` wide (the last width repeating).
pub uninterp spec fn optimal_fit_line_lengths(fragments: Seq<(usize, usize, usize)>, line_widths: Seq<usize>) -> Seq<usize>;

/// The sum of a sequence of lengths.
pub open spec fn total_length(lens: Seq<usize>) -> nat
    decreases lens.len(),
{
    if lens.len() == 0 {
        0
    } else {
        (lens[0] as nat) + total_length(lens.drop_first())
    }
}

/// Whether line lengths cover `n` words: at least one line, each with at
/// least one word when there are words, the lengths adding up to `n`.
pub open spec fn covers(lens: Seq<usize>, n: nat) -> bool {
    &&& total_length(lens) == n
    &&& lens.len() >= 1
    &&& n > 0 ==> forall|i: int| 0 <= i < lens.len() ==> #[trigger] lens[i] >= 1
}

/// The line lengths used for `n` words: `lens` when they cover the words,
/// which the optimal fit's always do (see `optimal_fit_lengths`), and
/// otherwise one line per word (one empty line when there are none).
pub open spec fn covering(lens: Seq<usize>, n: nat) -> Seq<usize> {
    if covers(lens, n) {
        lens
    } else if n == 0 {
        seq![0usize]
    } else {
        Seq::new(n, |i: int| 1usize)
    }
}

/// Lines of one word each hold `n` words.
proof fn lemma_ones_total(n: nat)
    ensures
        total_length(Seq::new(n, |i: int| 1usize)) == n,
    decreases n,
{
    if n > 0 {
        let m = (n - 1) as nat;
        lemma_ones_total(m);
        assert(Seq::new(n, |i: int| 1usize).drop_first() =~= Seq::new(m, |i: int| 1usize));
    }
}

/// The lengths used always cover the words.
pub proof fn lemma_covering(lens: Seq<usize>, n: nat)
    ensures
        covers(covering(lens, n), n),
{
    if !covers(lens, n) {
        if n == 0 {
            let l = seq![0usize];
            assert(l.len() == 1 && l[0] == 0usize);
            assert(l.drop_first() =~= Seq::<usize>::empty());
            assert(total_length(Seq::<usize>::empty()) == 0);
            assert(total_length(l) == 0);
        } else {
            let l = Seq::new(n, |i: int| 1usize);
            lemma_ones_total(n);
            assert(forall|i: int| 0 <= i < l.len() ==> #[trigger] l[i] >= 1);
            assert(covering(lens, n) == l);
        }
    }
}

/// Calls `textwrap::WrapAlgorithm::OptimalFit` with default penalties (which
/// runs `textwrap::wrap_algorithms::wrap_optimal_fit`) on `textwrap` words
/// whose width, whitespace and penalty have the given numbers of columns, and
/// returns the number of words on each line.
///
/// Trusted: the lines that `wrap_optimal_fit` returns are the consecutive
/// slices `fragments[prev..pos]` that it builds backwards from the end, so
/// they cover the fragments in order, there is at least one, and each holds
/// at least one fragment when there are fragments; with line widths given as
/// `usize` its cost computation cannot overflow, so `wrap` does not panic.
/// Which breaks it picks is not stated: it is named
/// `optimal_fit_line_lengths`.
#[verifier::external_body]
pub(crate) fn optimal_fit_lengths(fragments: &Vec<(usize, usize, usize)>, line_widths: &Vec<usize>) -> (lens: Vec<usize>)
    requires
        forall|i: int| 0 <= i < fragments.len() ==> #[trigger] fragments[i].1 <= u8::MAX && fragments[i].2 <= u8::MAX,
    ensures
        lens@ == optimal_fit_line_lengths(fragments@, line_widths@),
        covers(lens@, fragments.len() as nat),
{
    let spaces: Vec<(String, String)> = fragments.iter().map(|f| (" ".repeat(f.1), "-".repeat(f.2))).collect();
    let words: Vec<textwrap::core::Word> = fragments.iter().zip(spaces.iter()).map(|(f, s)| textwrap::core::Word {
        word: "",
        whitespace: &s.0,
        penalty: &s.1,
        width: f.0,
    }).collect();
    let algorithm = textwrap::WrapAlgorithm::OptimalFit(textwrap::wrap_algorithms::Penalties::default());
    let lines = algorithm.wrap(&words, line_widths.as_slice());
    lines.iter().map(|line| line.len()).collect()
}

/// Splits `words` into consecutive runs of the given lengths.
pub open spec fn split_by_lengths<A>(words: Seq<A>, lens: Seq<usize>) -> Seq<Seq<A>>
    decreases lens.len(),
{
    if lens.len() == 0 {
        seq![]
    } else {
        let k = if lens[0] <= words.len() { lens[0] as int } else { words.len() as int };
        seq![words.take(k)] + split_by_lengths(words.skip(k), lens.drop_first())
    }
}

/// A sum of lengths is at least its first length.
proof fn lemma_total_first(lens: Seq<usize>)
    requires
        lens.len() > 0,
    ensures
        total_length(lens) >= lens[0],
{
}

/// Runs cut by lengths of at least one word each that add up to the number
/// of words: run `i` holds `lens[i]` words and the last run ends with the
/// last word.
pub proof fn lemma_split_shape<A>(words: Seq<A>, lens: Seq<usize>)
    requires
        total_length(lens) == words.len(),
        lens.len() >= 1,
        forall|i: int| 0 <= i < lens.len() ==> #[trigger] lens[i] >= 1,
    ensures
        split_by_lengths(words, lens).len() == lens.len(),
        forall|i: int| 0 <= i < lens.len() ==> (#[trigger] split_by_lengths(words, lens)[i]).len() == lens[i],
        split_by_lengths(words, lens).last().len() > 0,
        split_by_lengths(words, lens).last().last() == words.last(),
    decreases lens.len(),
{
    lemma_total_first(lens);
    let k = lens[0] as int;
    let rest = lens.drop_first();
    let tail = split_by_lengths(words.skip(k), rest);
    assert(split_by_lengths(words, lens) == seq![words.take(k)] + tail);
    if rest.len() == 0 {
        assert(total_length(rest) == 0);
        assert(words.take(k) =~= words);
        assert(tail =~= Seq::<Seq<A>>::empty());
    } else {
        assert forall|i: int| 0 <= i < rest.len() implies #[trigger] rest[i] >= 1 by {
            assert(rest[i] == lens[i + 1]);
        }
        lemma_split_shape(words.skip(k), rest);
        lemma_total_first(rest);
        assert forall|i: int| 0 <= i < lens.len() implies (#[trigger] split_by_lengths(words, lens)[i]).len()
            == lens[i] by {
            if i > 0 {
                assert(split_by_lengths(words, lens)[i] == tail[i - 1]);
                assert(rest[i - 1] == lens[i]);
            }
        }
        assert(words.skip(k).last() == words.last());
    }
}

} // verus!

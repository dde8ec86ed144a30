//! Character-level text handling: white space, splitting text into words,
//! and the small tests that the renderer makes on text.

use vstd::prelude::*;
use crate::word::push_char;

verus! {

/// Unicode's `White_Space` property, as `char::is_whitespace` documents it.
pub open spec fn is_white_space(c: char) -> bool {
    ||| c == '\t' || c == '\n' || c == '\u{0B}' || c == '\u{0C}' || c == '\r' || c == ' '
    ||| c == '\u{85}' || c == '\u{A0}' || c == '\u{1680}'
    ||| '\u{2000}' <= c <= '\u{200A}'
    ||| c == '\u{2028}' || c == '\u{2029}' || c == '\u{202F}' || c == '\u{205F}' || c == '\u{3000}'
}

/// Whether `c` is white space.
pub fn white_space(c: char) -> (b: bool)
    ensures
        b == is_white_space(c),
{
    c == '\t' || c == '\n' || c == '\u{0B}' || c == '\u{0C}' || c == '\r' || c == ' ' || c == '\u{85}'
        || c == '\u{A0}' || c == '\u{1680}' || ('\u{2000}' <= c && c <= '\u{200A}') || c == '\u{2028}'
        || c == '\u{2029}' || c == '\u{202F}' || c == '\u{205F}' || c == '\u{3000}'
}

/// The maximal runs of characters that are not white space, in order.
pub open spec fn words_of(s: Seq<char>) -> Seq<Seq<char>>
    decreases s.len(),
{
    if s.len() == 0 {
        seq![]
    } else {
        let before = words_of(s.drop_last());
        let c = s.last();
        if is_white_space(c) {
            before
        } else if s.len() >= 2 && !is_white_space(s[s.len() - 2]) && before.len() > 0 {
            before.update(before.len() - 1, before.last().push(c))
        } else {
            before.push(seq![c])
        }
    }
}

/// Whether every character of `s` is white space.
pub open spec fn all_white_space(s: Seq<char>) -> bool {
    forall|i: int| 0 <= i < s.len() ==> is_white_space(#[trigger] s[i])
}

/// Each word of a text is non-empty and holds no white space.
pub proof fn lemma_words_have_no_white_space(s: Seq<char>)
    ensures
        forall|i: int| 0 <= i < words_of(s).len() ==> (#[trigger] words_of(s)[i]).len() > 0
            && !exists|j: int| 0 <= j < words_of(s)[i].len() && is_white_space(words_of(s)[i][j]),
    decreases s.len(),
{
    if s.len() > 0 {
        lemma_words_have_no_white_space(s.drop_last());
        let before = words_of(s.drop_last());
        let c = s.last();
        if !is_white_space(c) && s.len() >= 2 && !is_white_space(s[s.len() - 2]) && before.len() > 0 {
            let w = before.last().push(c);
            assert forall|i: int| 0 <= i < words_of(s).len() implies (#[trigger] words_of(s)[i]).len() > 0
                && !exists|j: int| 0 <= j < words_of(s)[i].len() && is_white_space(words_of(s)[i][j]) by {
                if i == before.len() - 1 {
                    assert(words_of(s)[i] == w);
                    assert forall|j: int| 0 <= j < w.len() implies !is_white_space(w[j]) by {
                        if j < w.len() - 1 {
                            assert(w[j] == before[i][j]);
                        }
                    }
                } else {
                    assert(words_of(s)[i] == before[i]);
                }
            }
        }
    }
}

/// The characters of a string.
pub(crate) fn chars_of(s: &str) -> (v: Vec<char>)
    ensures
        v@ == s@,
{
    broadcast use vstd::string::group_string_axioms;

    let mut v: Vec<char> = Vec::new();
    for c in it: s.chars()
        invariant
            v@ == it.seq().take(it.index() as int),
    {
        v.push(c);
    }
    v
}

/// The string made of the given characters.
pub(crate) fn string_of(v: &Vec<char>) -> (s: String)
    ensures
        s@ == v@,
{
    let mut s = String::new();
    let n = v.len();
    let mut i: usize = 0;
    while i < n
        invariant
            n == v.len(),
            i <= n,
            s@ == v@.take(i as int),
        decreases n - i,
    {
        push_char(&mut s, v[i]);
        i = i + 1;
        assert(s@ =~= v@.take(i as int));
    }
    assert(v@.take(n as int) =~= v@);
    s
}

/// Whether a string is empty or white space only.
pub fn is_blank(s: &str) -> (b: bool)
    ensures
        b == all_white_space(s@),
{
    let chars = chars_of(s);
    let n = chars.len();
    let mut i: usize = 0;
    while i < n
        invariant
            n == chars.len(),
            chars@ == s@,
            i <= n,
            forall|k: int| 0 <= k < i ==> is_white_space(#[trigger] chars@[k]),
        decreases n - i,
    {
        if !white_space(chars[i]) {
            return false;
        }
        i = i + 1;
    }
    true
}

/// The deep view of a vector of characters is its view.
pub proof fn lemma_char_vec_deep_view(v: Vec<char>)
    ensures
        v.deep_view() == v@,
{
    assert(v.deep_view() =~= v@);
}

/// Splits text into its words: the maximal runs of characters that are not
/// white space.
#[verifier::spinoff_prover]
pub fn split_words(text: &Vec<char>) -> (words: Vec<Vec<char>>)
    ensures
        words.deep_view() == words_of(text@),
{
    let mut words: Vec<Vec<char>> = Vec::new();
    let n = text.len();
    let mut i: usize = 0;
    while i < n
        invariant
            n == text.len(),
            i <= n,
            words.deep_view() == words_of(text@.take(i as int)),
        decreases n - i,
    {
        let c = text[i];
        let ghost old_words = words;
        let ghost before = text@.take(i as int);
        let ghost after = text@.take(i + 1);
        assert(after.drop_last() == before);
        assert(after.last() == c);
        let ghost dv = words.deep_view();
        if white_space(c) {
        } else if i >= 1 && !white_space(text[i - 1]) && words.len() > 0 {
            assert(after[after.len() - 2] == text@[i - 1]);
            let mut last = words.pop().unwrap();
            proof {
                lemma_char_vec_deep_view(last);
                assert(dv[dv.len() - 1] == last.deep_view());
            }
            last.push(c);
            proof {
                lemma_char_vec_deep_view(last);
            }
            words.push(last);
            assert forall|k: int| 0 <= k < words.len() implies words.deep_view()[k] == words_of(after)[k] by {
                if k < words.len() - 1 {
                    assert(words@[k] == old_words@[k]);
                }
            }
            assert(words.deep_view() =~= words_of(after));
        } else {
            let mut w: Vec<char> = Vec::new();
            w.push(c);
            proof {
                lemma_char_vec_deep_view(w);
            }
            words.push(w);
            assert forall|k: int| 0 <= k < words.len() implies words.deep_view()[k] == words_of(after)[k] by {
                if k < words.len() - 1 {
                    assert(words@[k] == old_words@[k]);
                }
            }
            assert(words.deep_view() =~= words_of(after));
        }
        i = i + 1;
    }
    assert(text@.take(n as int) == text@);
    words
}

} // verus!

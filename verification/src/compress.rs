//! Token estimation for the text-corpus compression collaborator.
//!
//! The supervisor decides when to hand a text corpus to the external
//! compression collaborator by estimating how many tokens it holds.  The
//! estimate is a pure function of the text: roughly 1.3 tokens per
//! whitespace-separated word, with a floor of one token per four characters.
use vstd::prelude::*;

verus! {

/// Characters that separate words for the token estimate: Unicode
/// whitespace, as `split_whitespace` sees it.
pub open spec fn is_space_char(c: char) -> bool {
    crate::text::is_trim_space(c)
}

/// Whether position `i` starts a word: a non-space character at the
/// beginning of the text or right after a space.
pub open spec fn is_word_start(s: Seq<char>, i: int) -> bool {
    &&& 0 <= i < s.len()
    &&& !is_space_char(s[i])
    &&& (i == 0 || is_space_char(s[i - 1]))
}

/// Number of words that start strictly before position `n`.
pub open spec fn word_count_up_to(s: Seq<char>, n: int) -> nat
    decreases n,
{
    if n <= 0 {
        0
    } else {
        word_count_up_to(s, n - 1) + (if is_word_start(s, n - 1) {
            1nat
        } else {
            0nat
        })
    }
}

/// Number of whitespace-separated words in the text.
pub open spec fn word_count(s: Seq<char>) -> nat {
    word_count_up_to(s, s.len() as int)
}

/// The token estimate: 1.3 tokens per word (rounded down), at least one
/// token per four characters, and never less than one.
pub open spec fn estimated_tokens(s: Seq<char>) -> nat {
    let by_words = word_count(s) * 13 / 10;
    let by_chars = s.len() / 4;
    if by_words >= by_chars && by_words >= 1 {
        by_words
    } else if by_chars >= 1 {
        by_chars
    } else {
        1
    }
}

proof fn lemma_word_count_bound(s: Seq<char>, n: int)
    requires
        0 <= n <= s.len(),
    ensures
        word_count_up_to(s, n) <= n,
    decreases n,
{
    if n > 0 {
        lemma_word_count_bound(s, n - 1);
    }
}

fn is_space(c: char) -> (r: bool)
    ensures
        r == is_space_char(c),
{
    crate::text::char_is_space(c)
}

/// Estimate how many tokens a text would cost a subword tokenizer.
pub fn estimate_tokens(text: &str) -> (r: u64)
    requires
        text@.len() * 13 <= u64::MAX,
    ensures
        r == estimated_tokens(text@),
{
    let n = text.unicode_len();
    let mut words: u64 = 0;
    let mut prev_space: bool = true;
    let mut i: usize = 0;
    while i < n
        invariant
            n == text@.len(),
            n * 13 <= u64::MAX,
            0 <= i <= n,
            words == word_count_up_to(text@, i as int),
            prev_space == (i == 0 || is_space_char(text@[i as int - 1])),
        decreases n - i,
    {
        proof {
            lemma_word_count_bound(text@, i as int);
        }
        let c = text.get_char(i);
        let sp = is_space(c);
        if !sp && prev_space {
            words = words + 1;
        }
        prev_space = sp;
        i = i + 1;
    }
    proof {
        lemma_word_count_bound(text@, n as int);
    }
    let by_words: u64 = words * 13 / 10;
    let by_chars: u64 = (n as u64) / 4;
    if by_words >= by_chars && by_words >= 1 {
        by_words
    } else if by_chars >= 1 {
        by_chars
    } else {
        1
    }
}

} // verus!

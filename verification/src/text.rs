//! Texts as sequences of characters: what a word is, and where one text
//! stands in another.

use vstd::prelude::*;
use vstd::std_specs::iter::IteratorSpec;

verus! {

broadcast use vstd::string::group_string_axioms;

/// The characters of `s`, in order, as a vector.
pub fn to_chars(s: &str) -> (chars: Vec<char>)
    ensures
        chars@ == s@,
{
    let mut chars: Vec<char> = Vec::new();
    let mut it = s.chars();
    loop
        invariant
            chars@ + it.remaining() == s@,
            it.obeys_prophetic_iter_laws(),
            it.decrease() is Some,
        ensures
            chars@ == s@,
        decreases it.decrease()->0,
    {
        match it.next() {
            Some(c) => {
                chars.push(c);
            },
            None => {
                break;
            },
        }
    }
    chars
}

/// Whether `c` separates words: a blank, a tab, a line feed, a carriage
/// return, a vertical tab or a form feed.
pub open spec fn is_space(c: char) -> bool {
    c == ' ' || c == '\t' || c == '\n' || c == '\r' || c == '\x0B' || c == '\x0C'
}

/// Whether a word starts at position `i` of `s`: the character there is no
/// separator, and it is the first character or stands behind a separator.
pub open spec fn starts_word(s: Seq<char>, i: int) -> bool {
    &&& 0 <= i < s.len()
    &&& !is_space(s[i])
    &&& (i == 0 || is_space(s[i - 1]))
}

/// The number of words in `s`: the number of positions at which a word
/// starts.
pub open spec fn word_count(s: Seq<char>) -> nat
    decreases s.len(),
{
    if s.len() == 0 {
        0
    } else {
        word_count(s.drop_last()) + if starts_word(s, s.len() - 1) {
            1nat
        } else {
            0nat
        }
    }
}

/// Two texts put together hold the words of both, if the first is empty or
/// ends in a separator: no word then runs across the joint.
pub proof fn lemma_word_count_joins(a: Seq<char>, b: Seq<char>)
    requires
        a.len() == 0 || is_space(a.last()),
    ensures
        word_count(a + b) == word_count(a) + word_count(b),
    decreases b.len(),
{
    if b.len() == 0 {
        assert(a + b =~= a);
    } else {
        lemma_word_count_joins(a, b.drop_last());
        assert((a + b).drop_last() =~= a + b.drop_last());
        assert(starts_word(a + b, (a + b).len() - 1) == starts_word(b, b.len() - 1));
    }
}

/// Whether `c` separates words.
pub fn separates_words(c: char) -> (yes: bool)
    ensures
        yes == is_space(c),
{
    c == ' ' || c == '\t' || c == '\n' || c == '\r' || c == '\x0B' || c == '\x0C'
}

/// The number of words in `chars`.
pub fn count_words_in(chars: &Vec<char>) -> (count: usize)
    ensures
        count == word_count(chars@),
{
    let mut count: usize = 0;
    let mut after_space = true;
    let mut i: usize = 0;
    while i < chars.len()
        invariant
            i <= chars.len(),
            count == word_count(chars@.take(i as int)),
            count <= i,
            after_space == (i == 0 || is_space(chars@[i - 1])),
        decreases chars.len() - i,
    {
        let space = separates_words(chars[i]);
        proof {
            assert(chars@.take(i + 1).drop_last() =~= chars@.take(i as int));
        }
        if !space && after_space {
            count = count + 1;
        }
        after_space = space;
        i = i + 1;
    }
    proof {
        assert(chars@.take(i as int) =~= chars@);
    }
    count
}

/// The number of words in `text`.
pub fn count_words(text: &str) -> (count: usize)
    ensures
        count == word_count(text@),
{
    let chars = to_chars(text);
    count_words_in(&chars)
}

/// Whether `pattern` stands in `s` at position `at`.
pub open spec fn occurs_at(s: Seq<char>, pattern: Seq<char>, at: int) -> bool {
    &&& 0 <= at
    &&& at + pattern.len() <= s.len()
    &&& s.subrange(at, at + pattern.len()) == pattern
}

/// Whether `pattern` stands in `s` at position `at` and nowhere else.
pub open spec fn occurs_only_at(s: Seq<char>, pattern: Seq<char>, at: int) -> bool {
    &&& occurs_at(s, pattern, at)
    &&& forall|other: int| occurs_at(s, pattern, other) ==> other == at
}

/// Whether `s` begins with `pattern`.
pub open spec fn begins_with(s: Seq<char>, pattern: Seq<char>) -> bool {
    occurs_at(s, pattern, 0)
}

/// Whether `pattern` stands in `chars` at position `at`.
pub fn stands_at(chars: &Vec<char>, pattern: &Vec<char>, at: usize) -> (yes: bool)
    ensures
        yes == occurs_at(chars@, pattern@, at as int),
{
    if at > chars.len() || pattern.len() > chars.len() - at {
        return false;
    }
    let mut k: usize = 0;
    while k < pattern.len()
        invariant
            at + pattern.len() <= chars.len(),
            k <= pattern.len(),
            chars@.subrange(at as int, at + k) == pattern@.take(k as int),
        decreases pattern.len() - k,
    {
        if chars[at + k] != pattern[k] {
            proof {
                let found = chars@.subrange(at as int, at + pattern.len());
                assert(found[k as int] != pattern@[k as int]);
            }
            return false;
        }
        proof {
            assert(chars@.subrange(at as int, at + k + 1) =~= chars@.subrange(
                at as int,
                at + k,
            ).push(chars@[at + k]));
            assert(pattern@.take(k + 1) =~= pattern@.take(k as int).push(pattern@[k as int]));
        }
        k = k + 1;
    }
    proof {
        assert(pattern@.take(k as int) =~= pattern@);
    }
    true
}

/// Whether `a` and `b` hold the same text.
pub fn same_text(a: &Vec<char>, b: &Vec<char>) -> (yes: bool)
    ensures
        yes == (a@ == b@),
{
    proof {
        assert(a@.subrange(0, a@.len() as int) =~= a@);
    }
    a.len() == b.len() && stands_at(a, b, 0)
}

/// The first position from `from` on at which `pattern` stands in `chars`.
pub fn find_from(chars: &Vec<char>, pattern: &Vec<char>, from: usize) -> (found: Option<usize>)
    ensures
        match found {
            Some(at) => from <= at && occurs_at(chars@, pattern@, at as int) && forall|i: int|
                from <= i < at ==> !occurs_at(chars@, pattern@, i),
            None => forall|i: int| from <= i ==> !occurs_at(chars@, pattern@, i),
        },
{
    let mut at = from;
    while at < chars.len()
        invariant
            from <= at,
            forall|i: int| from <= i < at ==> !occurs_at(chars@, pattern@, i),
        decreases chars.len() - at,
    {
        if stands_at(chars, pattern, at) {
            return Some(at);
        }
        at = at + 1;
    }
    if stands_at(chars, pattern, at) {
        Some(at)
    } else {
        None
    }
}

} // verus!

//! Lines of text: comparing them, and cutting them at spaces.
use vstd::prelude::*;
use vstd::string::StrSliceExecFns;

verus! {

/// The position of the first space in a text, or the text's length where it
/// has none.
pub open spec fn first_space(s: Seq<char>) -> int
    decreases s.len(),
{
    if s.len() == 0 {
        0
    } else if s[0] == ' ' {
        0
    } else {
        1 + first_space(s.skip(1))
    }
}

/// Whether a text has more than one word, that is a space.
pub open spec fn has_second(s: Seq<char>) -> bool {
    first_space(s) < s.len()
}

/// The first word of a text: what stands before the first space.
pub open spec fn first_word(s: Seq<char>) -> Seq<char> {
    s.take(first_space(s))
}

/// What a text holds behind its first space; nothing where it has no space.
pub open spec fn after_first(s: Seq<char>) -> Seq<char> {
    if has_second(s) {
        s.skip(first_space(s) + 1)
    } else {
        Seq::empty()
    }
}

/// The second word of a text: what stands between the first space and the
/// next; empty where the text has no space.
pub open spec fn second_word(s: Seq<char>) -> Seq<char> {
    first_word(after_first(s))
}

/// The first space is where no space stands before and a space, or the end,
/// stands.
pub proof fn lemma_first_space(s: Seq<char>, i: int)
    requires
        0 <= i <= s.len(),
        forall|j: int| 0 <= j < i ==> s[j] != ' ',
        i == s.len() || s[i] == ' ',
    ensures
        first_space(s) == i,
    decreases i,
{
    if i > 0 {
        let t = s.skip(1);
        assert forall|j: int| 0 <= j < i - 1 implies t[j] != ' ' by {
            assert(t[j] == s[j + 1]);
        }
        lemma_first_space(t, i - 1);
    }
}

/// Whether two texts are the same.
pub fn same_text(a: &str, b: &str) -> (same: bool)
    ensures
        same == (a@ == b@),
{
    let n = a.unicode_len();
    if n != b.unicode_len() {
        return false;
    }
    let mut i: usize = 0;
    while i < n
        invariant
            i <= n,
            n == a@.len(),
            n == b@.len(),
            forall|j: int| 0 <= j < i ==> a@[j] == b@[j],
        decreases n - i,
    {
        if a.get_char(i) != b.get_char(i) {
            return false;
        }
        i += 1;
    }
    assert(a@ =~= b@);
    true
}

/// The position of the first space in a text, or the text's length.
pub fn find_space(s: &str) -> (at: usize)
    ensures
        at == first_space(s@),
        at <= s@.len(),
{
    let n = s.unicode_len();
    let mut i: usize = 0;
    while i < n
        invariant
            i <= n,
            n == s@.len(),
            forall|j: int| 0 <= j < i ==> s@[j] != ' ',
        decreases n - i,
    {
        if s.get_char(i) == ' ' {
            proof {
                lemma_first_space(s@, i as int);
            }
            return i;
        }
        i += 1;
    }
    proof {
        lemma_first_space(s@, n as int);
    }
    n
}

/// The first word of a text, and its second word where it has a space.
pub fn two_words<'a>(s: &'a str) -> (words: (&'a str, Option<&'a str>))
    ensures
        words.0@ == first_word(s@),
        match words.1 {
            Some(second) => has_second(s@) && second@ == second_word(s@),
            None => !has_second(s@),
        },
{
    let n = s.unicode_len();
    let at = find_space(s);
    let first = s.substring_char(0, at);
    assert(first@ =~= first_word(s@));
    if at < n {
        let rest = s.substring_char(at + 1, n);
        assert(rest@ =~= after_first(s@));
        let end = find_space(rest);
        let second = rest.substring_char(0, end);
        assert(second@ =~= second_word(s@));
        (first, Some(second))
    } else {
        (first, None)
    }
}

} // verus!

//! The caller-supplied tests the text pipeline consults — "is this word in
//! scope?", "would these tokens parse?", "how many edits may a word of this
//! length take?" — and what the library assumes of them: each answers for every
//! input, and answers by the text alone (the same text gets the same answer).

use vstd::prelude::*;

verus! {

/// A word test that can be asked about any text and answers the same for the
/// same characters.
pub open spec fn word_oracle<P: Fn(&str) -> bool + ?Sized>(p: &P) -> bool {
    &&& forall|x: &str| #[trigger] p.requires((x,))
    &&& forall|x1: &str, x2: &str, b1: bool, b2: bool|
        x1@ == x2@ && #[trigger] p.ensures((x1,), b1) && #[trigger] p.ensures((x2,), b2) ==> b1
            == b2
}

/// The word test's answer for the text `s`.
pub open spec fn word_holds<P: Fn(&str) -> bool + ?Sized>(p: &P, s: Seq<char>) -> bool {
    exists|x: &str| x@ == s && #[trigger] p.ensures((x,), true)
}

/// The word test as a predicate on text.
pub open spec fn pres_fn<P: Fn(&str) -> bool + ?Sized>(p: &P) -> spec_fn(Seq<char>) -> bool {
    |s: Seq<char>| word_holds(p, s)
}

/// Whatever a well-behaved word test returned on `x` is its answer for `x@`.
pub proof fn lemma_word_answer<P: Fn(&str) -> bool + ?Sized>(p: &P, x: &str, b: bool)
    requires
        word_oracle(p),
        p.ensures((x,), b),
    ensures
        b == word_holds(p, x@),
{
    if !b && word_holds(p, x@) {
        let y = choose|y: &str| y@ == x@ && #[trigger] p.ensures((y,), true);
        assert(p.ensures((y,), true));
    }
}

/// The characters of each token, in order.
pub open spec fn tokens_view(x: Seq<String>) -> Seq<Seq<char>> {
    x.map_values(|s: String| s@)
}

/// A token-list test that can be asked about any list and answers the same for
/// the same words.
pub open spec fn tokens_oracle<F: Fn(&[String]) -> bool + ?Sized>(f: &F) -> bool {
    &&& forall|x: &[String]| #[trigger] f.requires((x,))
    &&& forall|x1: &[String], x2: &[String], b1: bool, b2: bool|
        tokens_view(x1@) == tokens_view(x2@) && #[trigger] f.ensures((x1,), b1)
            && #[trigger] f.ensures((x2,), b2) ==> b1 == b2
}

/// The token-list test's answer for the words `v`.
pub open spec fn tokens_hold<F: Fn(&[String]) -> bool + ?Sized>(f: &F, v: Seq<Seq<char>>) -> bool {
    exists|x: &[String]| tokens_view(x@) == v && #[trigger] f.ensures((x,), true)
}

/// The token-list test as a predicate on words.
pub open spec fn ok_fn<F: Fn(&[String]) -> bool + ?Sized>(f: &F) -> spec_fn(Seq<Seq<char>>) -> bool {
    |v: Seq<Seq<char>>| tokens_hold(f, v)
}

/// Whatever a well-behaved token-list test returned on `x` is its answer for
/// `x`'s words.
pub proof fn lemma_tokens_answer<F: Fn(&[String]) -> bool + ?Sized>(f: &F, x: &[String], b: bool)
    requires
        tokens_oracle(f),
        f.ensures((x,), b),
    ensures
        b == tokens_hold(f, tokens_view(x@)),
{
    if !b && tokens_hold(f, tokens_view(x@)) {
        let y = choose|y: &[String]| tokens_view(y@) == tokens_view(x@) && #[trigger] f.ensures(
            (y,),
            true,
        );
        assert(f.ensures((y,), true));
    }
}

/// A length-to-budget table that can be asked about any length and always
/// gives the same budget for the same length.
pub open spec fn budget_oracle<T: Fn(usize) -> u32 + ?Sized>(t: &T) -> bool {
    &&& forall|n: usize| #[trigger] t.requires((n,))
    &&& forall|n: usize, m1: u32, m2: u32|
        #[trigger] t.ensures((n,), m1) && #[trigger] t.ensures((n,), m2) ==> m1 == m2
}

/// The budget the table gives for length `n`.
pub open spec fn budget_of<T: Fn(usize) -> u32 + ?Sized>(t: &T, n: usize) -> u32 {
    choose|m: u32| #[trigger] t.ensures((n,), m)
}

/// Whatever a well-behaved budget table returned for `n` is its budget for `n`.
pub proof fn lemma_budget_answer<T: Fn(usize) -> u32 + ?Sized>(t: &T, n: usize, m: u32)
    requires
        budget_oracle(t),
        t.ensures((n,), m),
    ensures
        m == budget_of(t, n),
{
    let c = budget_of(t, n);
    assert(t.ensures((n,), c));
}

} // verus!

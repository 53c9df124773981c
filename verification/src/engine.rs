//! The tiered inference pipeline that recovers a runnable command from a
//! player's near-miss input. See [`infer`].

use vstd::prelude::*;

use crate::oracle::{
    budget_of, budget_oracle, lemma_tokens_answer, ok_fn, pres_fn, tokens_hold, tokens_oracle,
    tokens_view, word_oracle,
};
use crate::resolve::{best_match, cands_view, fuzz_pick, lemma_offered, offered, Match};

verus! {

// ----- ordered index combinations -----

/// All ascending extensions of `cur` to length `k` by indices in `start..n`,
/// in the order a depth-first walk produces them (smaller indices first).
pub open spec fn combos_rec(start: int, n: int, k: int, cur: Seq<usize>) -> Seq<Seq<usize>>
    decreases n - start, 1int,
{
    if cur.len() == k {
        seq![cur]
    } else {
        combos_loop(start, n, k, cur)
    }
}

pub open spec fn combos_loop(i: int, n: int, k: int, cur: Seq<usize>) -> Seq<Seq<usize>>
    decreases n - i, 0int,
{
    if i >= n {
        seq![]
    } else {
        combos_rec(i + 1, n, k, cur.push(i as usize)) + combos_loop(i + 1, n, k, cur)
    }
}

/// All ordered index combinations `C(n, k)` (ascending indices), in
/// lexicographic order.
pub open spec fn combos(n: int, k: int) -> Seq<Seq<usize>> {
    combos_rec(0, n, k, seq![])
}

pub open spec fn views_of(v: Seq<Vec<usize>>) -> Seq<Seq<usize>> {
    v.map_values(|x: Vec<usize>| x@)
}

/// Every combination extends `cur` to exactly `k` indices, each new index in
/// `start..n`.
proof fn lemma_combos_shape(start: int, n: int, k: int, cur: Seq<usize>)
    requires
        0 <= start,
        n <= usize::MAX,
        cur.len() <= k,
        forall|x: int| 0 <= x < cur.len() ==> cur[x] < n,
    ensures
        forall|c: int|
            0 <= c < combos_rec(start, n, k, cur).len() ==> {
                let s = #[trigger] combos_rec(start, n, k, cur)[c];
                &&& s.len() == k
                &&& forall|x: int| 0 <= x < s.len() ==> s[x] < n
            },
    decreases n - start, 1int,
{
    if cur.len() != k {
        lemma_combos_loop_shape(start, n, k, cur);
        assert(combos_rec(start, n, k, cur) == combos_loop(start, n, k, cur));
    } else {
        assert(combos_rec(start, n, k, cur) == seq![cur]);
        assert(seq![cur][0] == cur);
    }
}

proof fn lemma_combos_loop_shape(i: int, n: int, k: int, cur: Seq<usize>)
    requires
        0 <= i,
        n <= usize::MAX,
        cur.len() < k,
        forall|x: int| 0 <= x < cur.len() ==> cur[x] < n,
    ensures
        forall|c: int|
            0 <= c < combos_loop(i, n, k, cur).len() ==> {
                let s = #[trigger] combos_loop(i, n, k, cur)[c];
                &&& s.len() == k
                &&& forall|x: int| 0 <= x < s.len() ==> s[x] < n
            },
    decreases n - i, 0int,
{
    if i < n {
        let nc = cur.push(i as usize);
        lemma_combos_shape(i + 1, n, k, nc);
        lemma_combos_loop_shape(i + 1, n, k, cur);
        let a = combos_rec(i + 1, n, k, nc);
        let b = combos_loop(i + 1, n, k, cur);
        assert forall|c: int| 0 <= c < (a + b).len() implies {
            let s = #[trigger] (a + b)[c];
            &&& s.len() == k
            &&& forall|x: int| 0 <= x < s.len() ==> s[x] < n
        } by {
            if c < a.len() {
                assert((a + b)[c] == a[c]);
            } else {
                assert((a + b)[c] == b[c - a.len()]);
            }
        }
    }
}

fn combos_collect(
    start: usize,
    n: usize,
    k: usize,
    cur: &mut Vec<usize>,
    out: &mut Vec<Vec<usize>>,
)
    requires
        start <= n,
        old(cur)@.len() <= k,
    ensures
        final(cur)@ == old(cur)@,
        views_of(final(out)@) == views_of(old(out)@) + combos_rec(
            start as int,
            n as int,
            k as int,
            old(cur)@,
        ),
    decreases n - start, 1int,
{
    if cur.len() == k {
        let ghost o = out@;
        out.push(cur.clone());
        proof {
            assert(views_of(out@) =~= views_of(o) + seq![cur@]);
        }
        return;
    }
    let ghost c0 = cur@;
    let ghost o0 = views_of(out@);
    let mut i = start;
    while i < n
        invariant
            start <= i <= n,
            cur@ == c0,
            c0.len() < k,
            views_of(out@) + combos_loop(i as int, n as int, k as int, c0) == o0 + combos_loop(
                start as int,
                n as int,
                k as int,
                c0,
            ),
        decreases n - i,
    {
        let ghost before = views_of(out@);
        cur.push(i);
        combos_collect(i + 1, n, k, cur, out);
        cur.pop();
        proof {
            let a = combos_rec(i + 1, n as int, k as int, c0.push(i));
            let b = combos_loop(i + 1, n as int, k as int, c0);
            assert(combos_loop(i as int, n as int, k as int, c0) == a + b);
            assert(views_of(out@) == before + a);
            assert(before + (a + b) =~= (before + a) + b);
        }
        i += 1;
    }
    proof {
        assert(views_of(out@) + seq![] =~= views_of(out@));
    }
}

/// All ordered index combinations `C(n, k)` (ascending indices).
fn combinations(n: usize, k: usize) -> (out: Vec<Vec<usize>>)
    ensures
        views_of(out@) == combos(n as int, k as int),
{
    let mut out: Vec<Vec<usize>> = Vec::new();
    let mut cur: Vec<usize> = Vec::new();
    combos_collect(0, n, k, &mut cur, &mut out);
    proof {
        assert(views_of(Seq::<Vec<usize>>::empty()) + combos(n as int, k as int) =~= combos(
            n as int,
            k as int,
        ));
    }
    out
}

// ----- settling on a runnable command -----

/// The words `combo` picks out of `toks`, in order.
pub open spec fn pick(toks: Seq<Seq<char>>, combo: Seq<usize>) -> Seq<Seq<char>> {
    combo.map_values(|i: usize| toks[i as int])
}

/// The first combination, from index `c` on, whose words resolve.
pub open spec fn first_ok(
    toks: Seq<Seq<char>>,
    cs: Seq<Seq<usize>>,
    c: int,
    ok: spec_fn(Seq<Seq<char>>) -> bool,
) -> Option<Seq<Seq<char>>>
    decreases cs.len() - c,
{
    if c < 0 || c >= cs.len() {
        None
    } else if ok(pick(toks, cs[c])) {
        Some(pick(toks, cs[c]))
    } else {
        first_ok(toks, cs, c + 1, ok)
    }
}

/// The longest ordered subsequence of at most `len` (and at least two) words
/// that resolves; among equally long ones, the first in index order.
pub open spec fn shorten(toks: Seq<Seq<char>>, len: int, ok: spec_fn(Seq<Seq<char>>) -> bool) -> Option<
    Seq<Seq<char>>,
>
    decreases len,
{
    if len < 2 {
        None
    } else {
        match first_ok(toks, combos(toks.len() as int, len), 0, ok) {
            Some(w) => Some(w),
            None => shorten(toks, len - 1, ok),
        }
    }
}

/// A runnable command reachable from `toks` without dropping a short
/// command's words: a command of at most `max_words` passes through when it
/// resolves; an over-long one is shortened.
pub open spec fn settle_spec(toks: Seq<Seq<char>>, max_words: int, ok: spec_fn(Seq<Seq<char>>) -> bool) -> Option<
    Seq<Seq<char>>,
> {
    if toks.len() == 0 {
        None
    } else if toks.len() <= max_words {
        if ok(toks) {
            Some(toks)
        } else {
            None
        }
    } else {
        shorten(toks, max_words, ok)
    }
}

/// What a settle yields always resolves and holds between one and
/// `max_words` words.
pub proof fn lemma_settled_resolves(toks: Seq<Seq<char>>, max_words: int, ok: spec_fn(Seq<Seq<char>>) -> bool)
    requires
        toks.len() <= usize::MAX,
        settle_spec(toks, max_words, ok) is Some,
    ensures
        ok(settle_spec(toks, max_words, ok)->0),
        1 <= settle_spec(toks, max_words, ok)->0.len() <= max_words,
{
    if toks.len() > max_words {
        lemma_shorten_resolves(toks, max_words, ok);
    }
}

proof fn lemma_shorten_resolves(toks: Seq<Seq<char>>, len: int, ok: spec_fn(Seq<Seq<char>>) -> bool)
    requires
        toks.len() <= usize::MAX,
        shorten(toks, len, ok) is Some,
    ensures
        ok(shorten(toks, len, ok)->0),
        2 <= shorten(toks, len, ok)->0.len() <= len,
    decreases len,
{
    let cs = combos(toks.len() as int, len);
    if first_ok(toks, cs, 0, ok) is Some {
        lemma_combos_shape(0, toks.len() as int, len, seq![]);
        lemma_first_ok_resolves(toks, cs, 0, ok, len);
    } else {
        lemma_shorten_resolves(toks, len - 1, ok);
    }
}

proof fn lemma_first_ok_resolves(
    toks: Seq<Seq<char>>,
    cs: Seq<Seq<usize>>,
    c: int,
    ok: spec_fn(Seq<Seq<char>>) -> bool,
    len: int,
)
    requires
        first_ok(toks, cs, c, ok) is Some,
        forall|x: int| 0 <= x < cs.len() ==> (#[trigger] cs[x]).len() == len,
    ensures
        ok(first_ok(toks, cs, c, ok)->0),
        first_ok(toks, cs, c, ok)->0.len() == len,
    decreases cs.len() - c,
{
    if 0 <= c < cs.len() && !ok(pick(toks, cs[c])) {
        lemma_first_ok_resolves(toks, cs, c + 1, ok, len);
    }
}

// ----- the settled command is a longest resolving ordered subsequence -----

/// `idx` picks strictly increasing positions, all below `n`: an ordered
/// subsequence of a list of `n` words.
pub open spec fn ascending(idx: Seq<usize>, n: int) -> bool {
    &&& forall|i: int, j: int| 0 <= i < j < idx.len() ==> idx[i] < idx[j]
    &&& forall|i: int| 0 <= i < idx.len() ==> idx[i] < n
}

/// Every combination grown from an ascending `cur` (all below `start`) is
/// ascending.
proof fn lemma_combos_ascending(start: int, n: int, k: int, cur: Seq<usize>)
    requires
        0 <= start <= n <= usize::MAX,
        ascending(cur, start),
    ensures
        forall|c: int|
            0 <= c < combos_rec(start, n, k, cur).len() ==> ascending(
                #[trigger] combos_rec(start, n, k, cur)[c],
                n,
            ),
    decreases n - start, 1int,
{
    if cur.len() != k {
        lemma_combos_loop_ascending(start, n, k, cur);
        assert(combos_rec(start, n, k, cur) == combos_loop(start, n, k, cur));
    } else {
        assert(ascending(cur, n));
        assert(combos_rec(start, n, k, cur) == seq![cur]);
        assert(seq![cur][0] == cur);
    }
}

proof fn lemma_combos_loop_ascending(i: int, n: int, k: int, cur: Seq<usize>)
    requires
        0 <= i <= n <= usize::MAX,
        ascending(cur, i),
    ensures
        forall|c: int|
            0 <= c < combos_loop(i, n, k, cur).len() ==> ascending(
                #[trigger] combos_loop(i, n, k, cur)[c],
                n,
            ),
    decreases n - i, 0int,
{
    if i < n {
        let nc = cur.push(i as usize);
        assert(ascending(nc, i + 1)) by {
            assert forall|x: int, y: int| 0 <= x < y < nc.len() implies nc[x] < nc[y] by {
                if y == cur.len() {
                    assert(nc[x] == cur[x]);
                }
            }
        }
        lemma_combos_ascending(i + 1, n, k, nc);
        lemma_combos_loop_ascending(i + 1, n, k, cur);
        let a = combos_rec(i + 1, n, k, nc);
        let b = combos_loop(i + 1, n, k, cur);
        assert forall|c: int| 0 <= c < (a + b).len() implies ascending(#[trigger] (a + b)[c], n) by {
            if c < a.len() {
                assert((a + b)[c] == a[c]);
            } else {
                assert((a + b)[c] == b[c - a.len()]);
            }
        }
    }
}

/// Every ascending index list of length `k` that agrees with `cur` on its
/// first positions, and whose next index is at least `start`, is among the
/// combinations grown from `cur`.
proof fn lemma_combos_has(start: int, n: int, k: int, cur: Seq<usize>, idx: Seq<usize>)
    requires
        0 <= start,
        n <= usize::MAX,
        ascending(idx, n),
        idx.len() == k,
        cur.len() <= k,
        cur == idx.take(cur.len() as int),
        cur.len() < k ==> start <= idx[cur.len() as int],
    ensures
        combos_rec(start, n, k, cur).contains(idx),
    decreases n - start, 1int,
{
    if cur.len() == k {
        assert(cur =~= idx);
        assert(combos_rec(start, n, k, cur) == seq![cur]);
        assert(combos_rec(start, n, k, cur)[0] == idx);
    } else {
        lemma_combos_loop_has(start, n, k, cur, idx);
    }
}

proof fn lemma_combos_loop_has(i: int, n: int, k: int, cur: Seq<usize>, idx: Seq<usize>)
    requires
        0 <= i,
        n <= usize::MAX,
        ascending(idx, n),
        idx.len() == k,
        cur.len() < k,
        cur == idx.take(cur.len() as int),
        i <= idx[cur.len() as int],
    ensures
        combos_loop(i, n, k, cur).contains(idx),
    decreases n - i, 0int,
{
    let m = cur.len() as int;
    assert(idx[m] < n);
    let nc = cur.push(i as usize);
    let a = combos_rec(i + 1, n, k, nc);
    let b = combos_loop(i + 1, n, k, cur);
    assert(combos_loop(i, n, k, cur) == a + b);
    if idx[m] == i {
        assert(nc =~= idx.take(m + 1));
        if m + 1 < k {
            assert(idx[m] < idx[m + 1]);
        }
        lemma_combos_has(i + 1, n, k, nc, idx);
        let j = choose|j: int| 0 <= j < a.len() && a[j] == idx;
        assert((a + b)[j] == idx);
    } else {
        lemma_combos_loop_has(i + 1, n, k, cur, idx);
        let j = choose|j: int| 0 <= j < b.len() && b[j] == idx;
        assert((a + b)[j + a.len()] == idx);
    }
}

/// When no combination from `c` on resolves, none of them does.
proof fn lemma_first_ok_none(
    toks: Seq<Seq<char>>,
    cs: Seq<Seq<usize>>,
    c: int,
    ok: spec_fn(Seq<Seq<char>>) -> bool,
)
    requires
        0 <= c,
        first_ok(toks, cs, c, ok) is None,
    ensures
        forall|j: int| c <= j < cs.len() ==> !ok(pick(toks, #[trigger] cs[j])),
    decreases cs.len() - c,
{
    if c < cs.len() {
        lemma_first_ok_none(toks, cs, c + 1, ok);
    }
}

/// What `first_ok` finds is the words of one of the combinations.
proof fn lemma_first_ok_some(
    toks: Seq<Seq<char>>,
    cs: Seq<Seq<usize>>,
    c: int,
    ok: spec_fn(Seq<Seq<char>>) -> bool,
)
    requires
        0 <= c,
        first_ok(toks, cs, c, ok) is Some,
    ensures
        exists|j: int|
            c <= j < cs.len() && first_ok(toks, cs, c, ok)->0 == pick(toks, #[trigger] cs[j]),
    decreases cs.len() - c,
{
    if !ok(pick(toks, cs[c])) {
        lemma_first_ok_some(toks, cs, c + 1, ok);
    } else {
        assert(first_ok(toks, cs, c, ok)->0 == pick(toks, cs[c]));
    }
}

/// Shortening to at most `len` words finds an ordered subsequence, and no
/// longer ordered subsequence of at most `len` words resolves; when it finds
/// nothing, no ordered subsequence of two to `len` words resolves.
proof fn lemma_shorten_longest(toks: Seq<Seq<char>>, len: int, ok: spec_fn(Seq<Seq<char>>) -> bool)
    requires
        toks.len() <= usize::MAX,
    ensures
        match shorten(toks, len, ok) {
            Some(w) => {
                &&& exists|idx: Seq<usize>| ascending(idx, toks.len() as int) && #[trigger] pick(toks, idx) == w
                &&& forall|idx: Seq<usize>|
                    ascending(idx, toks.len() as int) && w.len() < idx.len() <= len ==> !ok(
                        #[trigger] pick(toks, idx),
                    )
            },
            None => forall|idx: Seq<usize>|
                ascending(idx, toks.len() as int) && 2 <= idx.len() <= len ==> !ok(
                    #[trigger] pick(toks, idx),
                ),
        },
    decreases len,
{
    if len >= 2 {
        let n = toks.len() as int;
        let cs = combos(n, len);
        if first_ok(toks, cs, 0, ok) is Some {
            lemma_first_ok_some(toks, cs, 0, ok);
            let j = choose|j: int|
                0 <= j < cs.len() && first_ok(toks, cs, 0, ok)->0 == pick(toks, #[trigger] cs[j]);
            lemma_combos_ascending(0, n, len, seq![]);
            lemma_combos_shape(0, n, len, seq![]);
            assert(ascending(cs[j], n));
            assert(pick(toks, cs[j]).len() == len);
        } else {
            lemma_first_ok_none(toks, cs, 0, ok);
            assert forall|idx: Seq<usize>| ascending(idx, n) && idx.len() == len implies !ok(
                #[trigger] pick(toks, idx),
            ) by {
                assert(Seq::<usize>::empty() =~= idx.take(0));
                lemma_combos_has(0, n, len, seq![], idx);
                let j = choose|j: int| 0 <= j < cs.len() && cs[j] == idx;
                assert(!ok(pick(toks, cs[j])));
            }
            lemma_shorten_longest(toks, len - 1, ok);
            if shorten(toks, len - 1, ok) is Some {
                lemma_shorten_resolves(toks, len - 1, ok);
            }
        }
    }
}

/// A settled over-long command is the words of an ordered subsequence of the
/// input; it resolves and holds two to `max_words` words, and no longer ordered
/// subsequence of at most `max_words` words resolves. When nothing settles, no
/// ordered subsequence of two to `max_words` words resolves.
pub proof fn law_settle_keeps_a_longest_resolving_subsequence(
    toks: Seq<Seq<char>>,
    max_words: int,
    ok: spec_fn(Seq<Seq<char>>) -> bool,
)
    requires
        toks.len() <= usize::MAX,
        2 <= max_words < toks.len(),
    ensures
        match settle_spec(toks, max_words, ok) {
            Some(w) => {
                &&& exists|idx: Seq<usize>| ascending(idx, toks.len() as int) && #[trigger] pick(toks, idx) == w
                &&& ok(w)
                &&& 2 <= w.len() <= max_words
                &&& forall|idx: Seq<usize>|
                    ascending(idx, toks.len() as int) && w.len() < idx.len() <= max_words ==> !ok(
                        #[trigger] pick(toks, idx),
                    )
            },
            None => forall|idx: Seq<usize>|
                ascending(idx, toks.len() as int) && 2 <= idx.len() <= max_words ==> !ok(
                    #[trigger] pick(toks, idx),
                ),
        },
{
    lemma_shorten_longest(toks, max_words, ok);
    if shorten(toks, max_words, ok) is Some {
        lemma_shorten_resolves(toks, max_words, ok);
    }
}

/// A fresh copy of a token list.
fn copy_tokens(v: &Vec<String>) -> (r: Vec<String>)
    ensures
        tokens_view(r@) == tokens_view(v@),
{
    let mut r: Vec<String> = Vec::new();
    let mut i: usize = 0;
    while i < v.len()
        invariant
            i <= v@.len(),
            tokens_view(r@) == tokens_view(v@).take(i as int),
        decreases v@.len() - i,
    {
        let ghost before = r@;
        r.push(v[i].clone());
        proof {
            assert(tokens_view(r@) =~= tokens_view(before).push(v@[i as int]@));
            assert(tokens_view(v@).take(i + 1) =~= tokens_view(v@).take(i as int).push(
                v@[i as int]@,
            ));
        }
        i += 1;
    }
    proof {
        assert(tokens_view(v@).take(v@.len() as int) =~= tokens_view(v@));
    }
    r
}

/// Ask the caller's parser whether `words` resolve.
fn resolves<F: Fn(&[String]) -> bool + ?Sized>(words: &Vec<String>, resolves_ok: &F) -> (b: bool)
    requires
        tokens_oracle(resolves_ok),
    ensures
        b == tokens_hold(resolves_ok, tokens_view(words@)),
{
    let s = words.as_slice();
    let b = resolves_ok(s);
    proof {
        lemma_tokens_answer(resolves_ok, s, b);
        assert(s@ == words@);
    }
    b
}

/// Return a runnable command from `toks` if one is reachable without dropping a
/// short command's words: pass a ≤`max_words` command through unchanged when it
/// resolves, otherwise shorten an over-long one to the longest ordered
/// subsequence (preferring more words) that resolves.
fn settle<F: Fn(&[String]) -> bool + ?Sized>(
    toks: &Vec<String>,
    max_words: usize,
    resolves_ok: &F,
) -> (r: Option<Vec<String>>)
    requires
        tokens_oracle(resolves_ok),
    ensures
        match r {
            None => settle_spec(tokens_view(toks@), max_words as int, ok_fn(resolves_ok)) is None,
            Some(w) => settle_spec(tokens_view(toks@), max_words as int, ok_fn(resolves_ok)) == Some(
                tokens_view(w@),
            ),
        },
{
    let ghost tv = tokens_view(toks@);
    let ghost ok = ok_fn(resolves_ok);
    if toks.len() == 0 {
        return None;
    }
    if toks.len() <= max_words {
        // Don't strip words out of an already-short command (that would turn
        // "take lmap" into "take" and lose the noun) — only fuzzy can help here.
        if resolves(toks, resolves_ok) {
            return Some(copy_tokens(toks));
        }
        return None;
    }
    // Only shorten *toward* a multi-word command (never down to a bare single
    // word): if the player typed several words they meant a verb+noun, not just
    // the noun.

    let mut len = max_words;
    while len >= 2
        invariant
            len <= max_words,
            toks@.len() > max_words,
            tv == tokens_view(toks@),
            ok == ok_fn(resolves_ok),
            tokens_oracle(resolves_ok),
            shorten(tv, max_words as int, ok) == shorten(tv, len as int, ok),
        decreases len,
    {
        let cs = combinations(toks.len(), len);
        let ghost csv = views_of(cs@);
        proof {
            lemma_combos_shape(0, toks@.len() as int, len as int, seq![]);
        }
        let mut c: usize = 0;
        while c < cs.len()
            invariant
                c <= cs@.len(),
                2 <= len <= max_words,
                toks@.len() > max_words,
                shorten(tv, max_words as int, ok) == shorten(tv, len as int, ok),
                csv == views_of(cs@),
                csv == combos(toks@.len() as int, len as int),
                tv == tokens_view(toks@),
                ok == ok_fn(resolves_ok),
                tokens_oracle(resolves_ok),
                forall|x: int|
                    0 <= x < csv.len() ==> {
                        let s = #[trigger] csv[x];
                        &&& s.len() == len
                        &&& forall|y: int| 0 <= y < s.len() ==> s[y] < toks@.len()
                    },
                first_ok(tv, csv, 0, ok) == first_ok(tv, csv, c as int, ok),
            decreases cs@.len() - c,
        {
            let combo = &cs[c];
            let ghost cb = csv[c as int];
            assert(combo@ == cb);
            let mut words: Vec<String> = Vec::new();
            let mut j: usize = 0;
            while j < combo.len()
                invariant
                    j <= combo@.len(),
                    combo@ == cb,
                    forall|y: int| 0 <= y < cb.len() ==> cb[y] < toks@.len(),
                    tv == tokens_view(toks@),
                    tokens_view(words@) == pick(tv, cb).take(j as int),
                decreases combo@.len() - j,
            {
                let ghost before = words@;
                words.push(toks[combo[j]].clone());
                proof {
                    assert(tokens_view(words@) =~= tokens_view(before).push(tv[cb[j as int] as int]));
                    assert(pick(tv, cb).take(j + 1) =~= pick(tv, cb).take(j as int).push(
                        tv[cb[j as int] as int],
                    ));
                }
                j += 1;
            }
            proof {
                assert(pick(tv, cb).take(cb.len() as int) =~= pick(tv, cb));
            }
            if resolves(&words, resolves_ok) {
                proof {
                    assert(tokens_view(words@) == pick(tv, cb));
                    assert(ok(pick(tv, cb)));
                    assert(first_ok(tv, csv, c as int, ok) == Some(pick(tv, cb)));
                    assert(shorten(tv, len as int, ok) == Some(pick(tv, cb)));
                }
                return Some(words);
            }
            c += 1;
        }
        len -= 1;
    }
    None
}

// ----- the caller's tables -----

/// The knobs and word tables the consumer hands to [`infer`]. A table is a list
/// of entries; it is well formed when no key occurs twice (see
/// [`InferConfig::well_formed`]), and a lookup takes the entry for its key.
#[derive(Clone)]
pub struct InferConfig<T> {
    /// Tokens dropped before re-parsing (e.g. `the`, `a`, `at`). Must not contain
    /// any real vocabulary word, or that word would be silently eaten.
    pub filler: Vec<String>,
    /// Single-token fallbacks (`get` → `take`, `x` → `look`). Only applied to a
    /// token that does not already resolve, so an alias can never shadow vocab.
    pub aliases: Vec<(String, String)>,
    /// Leading `(verb, particle)` bigrams collapsed to one canonical verb
    /// (`pick up` → `take`, `turn on` → `on`).
    pub phrasal: Vec<((String, String), String)>,
    /// The most words a single command may contain (e.g. `2` for verb+noun).
    pub max_words: usize,
    /// Length-scaled fuzzy-match tolerance: a token's character length to the
    /// most edits the fuzzy matcher will tolerate (`0` disables correction).
    pub thresh: T,
}

/// The alias entry for `key`, if any.
pub open spec fn alias_of(a: Seq<(String, String)>, key: Seq<char>) -> Option<Seq<char>>
    decreases a.len(),
{
    if a.len() == 0 {
        None
    } else if a[0].0@ == key {
        Some(a[0].1@)
    } else {
        alias_of(a.drop_first(), key)
    }
}

/// The phrasal-verb entry for the bigram `(k0, k1)`, if any.
pub open spec fn phrasal_of(p: Seq<((String, String), String)>, k0: Seq<char>, k1: Seq<char>) -> Option<
    Seq<char>,
>
    decreases p.len(),
{
    if p.len() == 0 {
        None
    } else if p[0].0.0@ == k0 && p[0].0.1@ == k1 {
        Some(p[0].1@)
    } else {
        phrasal_of(p.drop_first(), k0, k1)
    }
}

impl<T> InferConfig<T> {
    /// No filler word, alias key or phrasal bigram is listed twice — the shape
    /// of a set and two maps.
    pub open spec fn well_formed(&self) -> bool {
        &&& tokens_view(self.filler@).no_duplicates()
        &&& forall|i: int, j: int|
            0 <= i < j < self.aliases@.len() ==> (#[trigger] self.aliases@[i]).0@ != (
            #[trigger] self.aliases@[j]).0@
        &&& forall|i: int, j: int|
            0 <= i < j < self.phrasal@.len() ==> {
                let a = #[trigger] self.phrasal@[i];
                let b = #[trigger] self.phrasal@[j];
                a.0.0@ != b.0.0@ || a.0.1@ != b.0.1@
            }
    }
}

// ----- the tiers -----

/// Tier 1: drop filler words — unless that would leave nothing.
pub open spec fn strip_filler(toks: Seq<Seq<char>>, filler: Seq<Seq<char>>) -> Seq<Seq<char>> {
    let stripped = toks.filter(|t: Seq<char>| !filler.contains(t));
    if stripped.len() > 0 {
        stripped
    } else {
        toks
    }
}

/// Tier 2: collapse a leading verb+particle bigram into its canonical verb.
pub open spec fn collapse_phrasal(toks: Seq<Seq<char>>, p: Seq<((String, String), String)>) -> Seq<
    Seq<char>,
> {
    if toks.len() >= 2 {
        match phrasal_of(p, toks[0], toks[1]) {
            Some(v) => seq![v] + toks.skip(2),
            None => toks,
        }
    } else {
        toks
    }
}

/// Tier 3: expand an alias for each token that does not resolve on its own.
pub open spec fn expand_aliases(
    toks: Seq<Seq<char>>,
    a: Seq<(String, String)>,
    ok: spec_fn(Seq<Seq<char>>) -> bool,
) -> Seq<Seq<char>> {
    toks.map_values(
        |t: Seq<char>|
            if !ok(seq![t]) && alias_of(a, t) is Some {
                alias_of(a, t)->0
            } else {
                t
            },
    )
}

/// Tier 5, per token: what fuzzy matching offers for a token that does not
/// resolve on its own.
pub open spec fn fuzz_at(
    t: Seq<char>,
    cands: Seq<Seq<char>>,
    budget: spec_fn(nat) -> u32,
    ok: spec_fn(Seq<Seq<char>>) -> bool,
    pres: spec_fn(Seq<char>) -> bool,
) -> Option<(bool, Seq<char>)> {
    if ok(seq![t]) {
        None
    } else {
        fuzz_pick(t, cands, budget(t.len()), pres)
    }
}

/// Tier 5: every sure correction applied in place.
pub open spec fn fuzz_all(
    toks: Seq<Seq<char>>,
    cands: Seq<Seq<char>>,
    budget: spec_fn(nat) -> u32,
    ok: spec_fn(Seq<Seq<char>>) -> bool,
    pres: spec_fn(Seq<char>) -> bool,
) -> Seq<Seq<char>> {
    toks.map_values(|t: Seq<char>| fuzzed_word(t, cands, budget, ok, pres))
}

/// A token after tier 5: its sure correction, if it has one.
pub open spec fn fuzzed_word(
    t: Seq<char>,
    cands: Seq<Seq<char>>,
    budget: spec_fn(nat) -> u32,
    ok: spec_fn(Seq<Seq<char>>) -> bool,
    pres: spec_fn(Seq<char>) -> bool,
) -> Seq<char> {
    match fuzz_at(t, cands, budget, ok, pres) {
        Some((true, w)) => w,
        _ => t,
    }
}

/// Tier 6: the first token (from `from` on) whose fuzzy match was an
/// ambiguous tie, with that tie's top-ranked word.
pub open spec fn first_guess(
    toks: Seq<Seq<char>>,
    from: int,
    cands: Seq<Seq<char>>,
    budget: spec_fn(nat) -> u32,
    ok: spec_fn(Seq<Seq<char>>) -> bool,
    pres: spec_fn(Seq<char>) -> bool,
) -> Option<(int, Seq<char>)>
    decreases toks.len() - from,
{
    if from < 0 || from >= toks.len() {
        None
    } else {
        match fuzz_at(toks[from], cands, budget, ok, pres) {
            Some((false, w)) => Some((from, w)),
            _ => first_guess(toks, from + 1, cands, budget, ok, pres),
        }
    }
}

/// What [`infer`] decided to do with a player's raw tokens.
#[derive(Debug, Clone, PartialEq, Eq)]
pub enum Inference {
    /// The input already parses — the caller should proceed unchanged. (Returned
    /// for every command the caller's parser understands today, so the layer is
    /// inert on the happy path.)
    Unchanged,
    /// A normalized command (≤ `max_words`) that now resolves; run it.
    Rewrite(Vec<String>),
    /// A confident-but-ambiguous reconstruction the caller should confirm with
    /// the player ("did you mean …?").
    DidYouMean(Vec<String>),
    /// Nothing recoverable — the caller should run its own failure path.
    Unresolved,
}

/// An [`Inference`] by the characters of its words.
pub enum InferenceView {
    Unchanged,
    Rewrite(Seq<Seq<char>>),
    DidYouMean(Seq<Seq<char>>),
    Unresolved,
}

impl View for Inference {
    type V = InferenceView;

    open spec fn view(&self) -> InferenceView {
        match self {
            Inference::Unchanged => InferenceView::Unchanged,
            Inference::Rewrite(w) => InferenceView::Rewrite(tokens_view(w@)),
            Inference::DidYouMean(w) => InferenceView::DidYouMean(tokens_view(w@)),
            Inference::Unresolved => InferenceView::Unresolved,
        }
    }
}

/// The tiers from the fuzzy pass on: correct what is sure, then offer the
/// best guess of the first tie.
pub open spec fn infer_after_alias(
    t3: Seq<Seq<char>>,
    max_words: int,
    cands: Seq<Seq<char>>,
    budget: spec_fn(nat) -> u32,
    ok: spec_fn(Seq<Seq<char>>) -> bool,
    pres: spec_fn(Seq<char>) -> bool,
) -> InferenceView {
    let t5 = fuzz_all(t3, cands, budget, ok, pres);
    match settle_spec(t5, max_words, ok) {
        Some(w) => InferenceView::Rewrite(w),
        None => match first_guess(t3, 0, cands, budget, ok, pres) {
            Some((i, top)) => match settle_spec(t5.update(i, top), max_words, ok) {
                Some(w) => InferenceView::DidYouMean(w),
                None => InferenceView::Unresolved,
            },
            None => InferenceView::Unresolved,
        },
    }
}

/// The whole pipeline: each tier tried only if the previous left the input
/// unresolved.
pub open spec fn infer_outcome(
    raw: Seq<Seq<char>>,
    filler: Seq<Seq<char>>,
    aliases: Seq<(String, String)>,
    phrasal: Seq<((String, String), String)>,
    max_words: int,
    cands: Seq<Seq<char>>,
    budget: spec_fn(nat) -> u32,
    ok: spec_fn(Seq<Seq<char>>) -> bool,
    pres: spec_fn(Seq<char>) -> bool,
) -> InferenceView {
    if ok(raw) {
        InferenceView::Unchanged
    } else {
        let t1 = strip_filler(raw, filler);
        match settle_spec(t1, max_words, ok) {
            Some(w) => InferenceView::Rewrite(w),
            None => {
                let t2 = collapse_phrasal(t1, phrasal);
                match settle_spec(t2, max_words, ok) {
                    Some(w) => InferenceView::Rewrite(w),
                    None => {
                        let t3 = expand_aliases(t2, aliases, ok);
                        match settle_spec(t3, max_words, ok) {
                            Some(w) => InferenceView::Rewrite(w),
                            None => infer_after_alias(t3, max_words, cands, budget, ok, pres),
                        }
                    },
                }
            },
        }
    }
}

// ----- where the offered words come from -----

/// `w` is a word of the player's input, a word the alias or phrasal tables
/// map to, or one of the candidate words.
pub open spec fn sourced(
    w: Seq<char>,
    raw: Seq<Seq<char>>,
    aliases: Seq<(String, String)>,
    phrasal: Seq<((String, String), String)>,
    cands: Seq<Seq<char>>,
) -> bool {
    ||| raw.contains(w)
    ||| exists|i: int| 0 <= i < aliases.len() && (#[trigger] aliases[i]).1@ == w
    ||| exists|i: int| 0 <= i < phrasal.len() && (#[trigger] phrasal[i]).1@ == w
    ||| cands.contains(w)
}

/// Every word of `ws` meets `src`.
pub open spec fn all_in(ws: Seq<Seq<char>>, src: spec_fn(Seq<char>) -> bool) -> bool {
    forall|j: int| 0 <= j < ws.len() ==> src(#[trigger] ws[j])
}

proof fn lemma_alias_value(a: Seq<(String, String)>, key: Seq<char>)
    requires
        alias_of(a, key) is Some,
    ensures
        exists|i: int| 0 <= i < a.len() && (#[trigger] a[i]).1@ == alias_of(a, key)->0,
    decreases a.len(),
{
    if a[0].0@ == key {
        assert(a[0].1@ == alias_of(a, key)->0);
    } else {
        lemma_alias_value(a.drop_first(), key);
        let i = choose|i: int|
            0 <= i < a.drop_first().len() && (#[trigger] a.drop_first()[i]).1@ == alias_of(
                a.drop_first(),
                key,
            )->0;
        assert(a[i + 1] == a.drop_first()[i]);
    }
}

proof fn lemma_phrasal_value(p: Seq<((String, String), String)>, k0: Seq<char>, k1: Seq<char>)
    requires
        phrasal_of(p, k0, k1) is Some,
    ensures
        exists|i: int| 0 <= i < p.len() && (#[trigger] p[i]).1@ == phrasal_of(p, k0, k1)->0,
    decreases p.len(),
{
    if p[0].0.0@ == k0 && p[0].0.1@ == k1 {
        assert(p[0].1@ == phrasal_of(p, k0, k1)->0);
    } else {
        lemma_phrasal_value(p.drop_first(), k0, k1);
        let i = choose|i: int|
            0 <= i < p.drop_first().len() && (#[trigger] p.drop_first()[i]).1@ == phrasal_of(
                p.drop_first(),
                k0,
                k1,
            )->0;
        assert(p[i + 1] == p.drop_first()[i]);
    }
}

/// A settled command only holds words of the list it was settled from.
proof fn lemma_settle_words(
    toks: Seq<Seq<char>>,
    max_words: int,
    ok: spec_fn(Seq<Seq<char>>) -> bool,
    src: spec_fn(Seq<char>) -> bool,
)
    requires
        toks.len() <= usize::MAX,
        all_in(toks, src),
        settle_spec(toks, max_words, ok) is Some,
    ensures
        all_in(settle_spec(toks, max_words, ok)->0, src),
{
    if toks.len() > max_words {
        lemma_shorten_longest(toks, max_words, ok);
        let w = shorten(toks, max_words, ok)->0;
        let idx = choose|idx: Seq<usize>| ascending(idx, toks.len() as int) && #[trigger] pick(toks, idx) == w;
        assert forall|j: int| 0 <= j < w.len() implies src(#[trigger] w[j]) by {
            assert(w[j] == toks[idx[j] as int]);
        }
    }
}

proof fn lemma_strip_words(raw: Seq<Seq<char>>, filler: Seq<Seq<char>>, src: spec_fn(Seq<char>) -> bool)
    requires
        all_in(raw, src),
    ensures
        all_in(strip_filler(raw, filler), src),
        strip_filler(raw, filler).len() <= raw.len(),
{
    let p = |t: Seq<char>| !filler.contains(t);
    let st = raw.filter(p);
    crate::resolve::lemma_filter_keeps(raw, p);
    raw.lemma_filter_len(p);
    assert forall|j: int| 0 <= j < st.len() implies src(#[trigger] st[j]) by {
        assert(st.contains(st[j]));
        let i = choose|i: int| 0 <= i < raw.len() && raw[i] == st[j];
        assert(src(raw[i]));
    }
}

proof fn lemma_collapse_words(
    toks: Seq<Seq<char>>,
    p: Seq<((String, String), String)>,
    src: spec_fn(Seq<char>) -> bool,
)
    requires
        all_in(toks, src),
        forall|i: int| 0 <= i < p.len() ==> src((#[trigger] p[i]).1@),
    ensures
        all_in(collapse_phrasal(toks, p), src),
        collapse_phrasal(toks, p).len() <= toks.len(),
{
    if toks.len() >= 2 && phrasal_of(p, toks[0], toks[1]) is Some {
        let v = phrasal_of(p, toks[0], toks[1])->0;
        lemma_phrasal_value(p, toks[0], toks[1]);
        let i = choose|i: int| 0 <= i < p.len() && (#[trigger] p[i]).1@ == v;
        assert(src(p[i].1@));
        let c = collapse_phrasal(toks, p);
        assert forall|j: int| 0 <= j < c.len() implies src(#[trigger] c[j]) by {
            if j > 0 {
                assert(c[j] == toks[j + 1]);
            }
        }
    }
}

proof fn lemma_expand_words(
    toks: Seq<Seq<char>>,
    a: Seq<(String, String)>,
    ok: spec_fn(Seq<Seq<char>>) -> bool,
    src: spec_fn(Seq<char>) -> bool,
)
    requires
        all_in(toks, src),
        forall|i: int| 0 <= i < a.len() ==> src((#[trigger] a[i]).1@),
    ensures
        all_in(expand_aliases(toks, a, ok), src),
        expand_aliases(toks, a, ok).len() == toks.len(),
{
    let e = expand_aliases(toks, a, ok);
    assert forall|j: int| 0 <= j < e.len() implies src(#[trigger] e[j]) by {
        let t = toks[j];
        if !ok(seq![t]) && alias_of(a, t) is Some {
            lemma_alias_value(a, t);
            let i = choose|i: int| 0 <= i < a.len() && (#[trigger] a[i]).1@ == alias_of(a, t)->0;
            assert(src(a[i].1@));
        }
    }
}

proof fn lemma_fuzz_words(
    toks: Seq<Seq<char>>,
    cands: Seq<Seq<char>>,
    budget: spec_fn(nat) -> u32,
    ok: spec_fn(Seq<Seq<char>>) -> bool,
    pres: spec_fn(Seq<char>) -> bool,
    src: spec_fn(Seq<char>) -> bool,
)
    requires
        all_in(toks, src),
        forall|i: int| 0 <= i < cands.len() ==> src(#[trigger] cands[i]),
    ensures
        all_in(fuzz_all(toks, cands, budget, ok, pres), src),
        fuzz_all(toks, cands, budget, ok, pres).len() == toks.len(),
{
    let z = fuzz_all(toks, cands, budget, ok, pres);
    assert forall|j: int| 0 <= j < z.len() implies src(#[trigger] z[j]) by {
        let t = toks[j];
        if !ok(seq![t]) && fuzz_pick(t, cands, budget(t.len()), pres) is Some {
            crate::resolve::lemma_fuzz_pick_is_candidate(t, cands, budget(t.len()), pres);
            let w = (fuzz_pick(t, cands, budget(t.len()), pres)->0).1;
            let i = choose|i: int| 0 <= i < cands.len() && cands[i] == w;
            assert(src(cands[i]));
        }
    }
}

proof fn lemma_guess_word(
    toks: Seq<Seq<char>>,
    from: int,
    cands: Seq<Seq<char>>,
    budget: spec_fn(nat) -> u32,
    ok: spec_fn(Seq<Seq<char>>) -> bool,
    pres: spec_fn(Seq<char>) -> bool,
)
    requires
        first_guess(toks, from, cands, budget, ok, pres) is Some,
    ensures
        0 <= (first_guess(toks, from, cands, budget, ok, pres)->0).0 < toks.len(),
        cands.contains((first_guess(toks, from, cands, budget, ok, pres)->0).1),
    decreases toks.len() - from,
{
    let t = toks[from];
    match fuzz_at(t, cands, budget, ok, pres) {
        Some((false, w)) => {
            crate::resolve::lemma_fuzz_pick_is_candidate(t, cands, budget(t.len()), pres);
        },
        _ => {
            lemma_guess_word(toks, from + 1, cands, budget, ok, pres);
        },
    }
}

/// Inference never makes words up: every word of a rewrite or a "did you
/// mean?" is a word of the player's input, a word the alias or phrasal tables
/// map to, or one of the candidate words.
pub proof fn law_infer_offers_only_known_words(
    raw: Seq<Seq<char>>,
    filler: Seq<Seq<char>>,
    aliases: Seq<(String, String)>,
    phrasal: Seq<((String, String), String)>,
    max_words: int,
    cands: Seq<Seq<char>>,
    budget: spec_fn(nat) -> u32,
    ok: spec_fn(Seq<Seq<char>>) -> bool,
    pres: spec_fn(Seq<char>) -> bool,
)
    requires
        raw.len() <= usize::MAX,
    ensures
        match infer_outcome(raw, filler, aliases, phrasal, max_words, cands, budget, ok, pres) {
            InferenceView::Rewrite(w) => forall|j: int|
                0 <= j < w.len() ==> sourced(#[trigger] w[j], raw, aliases, phrasal, cands),
            InferenceView::DidYouMean(w) => forall|j: int|
                0 <= j < w.len() ==> sourced(#[trigger] w[j], raw, aliases, phrasal, cands),
            _ => true,
        },
{
    let src = |x: Seq<char>| sourced(x, raw, aliases, phrasal, cands);
    if !ok(raw) {
        assert forall|j: int| 0 <= j < raw.len() implies src(#[trigger] raw[j]) by {
            assert(raw.contains(raw[j]));
        }
        assert forall|i: int| 0 <= i < aliases.len() implies src((#[trigger] aliases[i]).1@) by {}
        assert forall|i: int| 0 <= i < phrasal.len() implies src((#[trigger] phrasal[i]).1@) by {}
        assert forall|i: int| 0 <= i < cands.len() implies src(#[trigger] cands[i]) by {
            assert(cands.contains(cands[i]));
        }
        let t1 = strip_filler(raw, filler);
        lemma_strip_words(raw, filler, src);
        let t2 = collapse_phrasal(t1, phrasal);
        lemma_collapse_words(t1, phrasal, src);
        let t3 = expand_aliases(t2, aliases, ok);
        lemma_expand_words(t2, aliases, ok, src);
        let t5 = fuzz_all(t3, cands, budget, ok, pres);
        lemma_fuzz_words(t3, cands, budget, ok, pres, src);
        if settle_spec(t1, max_words, ok) is Some {
            lemma_settle_words(t1, max_words, ok, src);
        } else if settle_spec(t2, max_words, ok) is Some {
            lemma_settle_words(t2, max_words, ok, src);
        } else if settle_spec(t3, max_words, ok) is Some {
            lemma_settle_words(t3, max_words, ok, src);
        } else if settle_spec(t5, max_words, ok) is Some {
            lemma_settle_words(t5, max_words, ok, src);
        } else if first_guess(t3, 0, cands, budget, ok, pres) is Some {
            let (i, top) = first_guess(t3, 0, cands, budget, ok, pres)->0;
            lemma_guess_word(t3, 0, cands, budget, ok, pres);
            let t6 = t5.update(i, top);
            assert forall|j: int| 0 <= j < t6.len() implies src(#[trigger] t6[j]) by {
                if j == i {
                    let k = choose|k: int| 0 <= k < cands.len() && cands[k] == top;
                    assert(src(cands[k]));
                }
            }
            if settle_spec(t6, max_words, ok) is Some {
                lemma_settle_words(t6, max_words, ok, src);
            }
        }
    }
}

/// Words short enough for the edit-distance arithmetic.
pub open spec fn short_words(v: Seq<Seq<char>>) -> bool {
    forall|i: int| 0 <= i < v.len() ==> (#[trigger] v[i]).len() < 0x8000_0000
}

/// The budget table as a function of a word's length.
pub open spec fn budget_fn<T: Fn(usize) -> u32>(t: &T) -> spec_fn(nat) -> u32 {
    |n: nat| budget_of(t, n as usize)
}

fn is_filler(filler: &Vec<String>, t: &String) -> (r: bool)
    ensures
        r == tokens_view(filler@).contains(t@),
{
    let mut i: usize = 0;
    while i < filler.len()
        invariant
            i <= filler@.len(),
            forall|j: int| 0 <= j < i ==> filler@[j]@ != t@,
        decreases filler@.len() - i,
    {
        if filler[i] == *t {
            proof {
                assert(tokens_view(filler@)[i as int] == t@);
            }
            return true;
        }
        i += 1;
    }
    proof {
        if tokens_view(filler@).contains(t@) {
            let j = choose|j: int| 0 <= j < filler@.len() && tokens_view(filler@)[j] == t@;
            assert(filler@[j]@ == t@);
        }
    }
    false
}

fn strip(toks: &Vec<String>, filler: &Vec<String>) -> (r: Vec<String>)
    ensures
        tokens_view(r@) == strip_filler(tokens_view(toks@), tokens_view(filler@)),
{
    let ghost fv = tokens_view(filler@);
    let ghost tv = tokens_view(toks@);
    let ghost keep = |t: Seq<char>| !fv.contains(t);
    let mut out: Vec<String> = Vec::new();
    let mut i: usize = 0;
    while i < toks.len()
        invariant
            i <= toks@.len(),
            fv == tokens_view(filler@),
            tv == tokens_view(toks@),
            keep == (|t: Seq<char>| !fv.contains(t)),
            tokens_view(out@) == tv.take(i as int).filter(keep),
        decreases toks@.len() - i,
    {
        proof {
            assert(tv.take(i + 1) =~= tv.take(i as int).push(tv[i as int]));
            tv.take(i as int).lemma_filter_push(tv[i as int], keep);
        }
        if !is_filler(filler, &toks[i]) {
            let ghost before = out@;
            out.push(toks[i].clone());
            proof {
                assert(tokens_view(out@) =~= tokens_view(before).push(tv[i as int]));
            }
        }
        i += 1;
    }
    proof {
        assert(tv.take(toks@.len() as int) =~= tv);
    }
    if out.len() > 0 {
        out
    } else {
        copy_tokens(toks)
    }
}

fn lookup_alias(a: &Vec<(String, String)>, key: &String) -> (r: Option<String>)
    ensures
        match r {
            None => alias_of(a@, key@) is None,
            Some(v) => alias_of(a@, key@) == Some(v@),
        },
{
    let mut i: usize = 0;
    assert(a@.skip(0) =~= a@);
    while i < a.len()
        invariant
            i <= a@.len(),
            alias_of(a@, key@) == alias_of(a@.skip(i as int), key@),
        decreases a@.len() - i,
    {
        if a[i].0 == *key {
            return Some(a[i].1.clone());
        }
        assert(a@.skip(i as int).drop_first() =~= a@.skip(i + 1));
        i += 1;
    }
    None
}

fn lookup_phrasal(p: &Vec<((String, String), String)>, k0: &String, k1: &String) -> (r: Option<String>)
    ensures
        match r {
            None => phrasal_of(p@, k0@, k1@) is None,
            Some(v) => phrasal_of(p@, k0@, k1@) == Some(v@),
        },
{
    let mut i: usize = 0;
    assert(p@.skip(0) =~= p@);
    while i < p.len()
        invariant
            i <= p@.len(),
            phrasal_of(p@, k0@, k1@) == phrasal_of(p@.skip(i as int), k0@, k1@),
        decreases p@.len() - i,
    {
        if p[i].0.0 == *k0 && p[i].0.1 == *k1 {
            return Some(p[i].1.clone());
        }
        assert(p@.skip(i as int).drop_first() =~= p@.skip(i + 1));
        i += 1;
    }
    None
}

fn apply_phrasal<T>(toks: &Vec<String>, cfg: &InferConfig<T>) -> (r: Vec<String>)
    ensures
        tokens_view(r@) == collapse_phrasal(tokens_view(toks@), cfg.phrasal@),
{
    let ghost tv = tokens_view(toks@);
    if toks.len() >= 2 {
        if let Some(verb) = lookup_phrasal(&cfg.phrasal, &toks[0], &toks[1]) {
            let mut out: Vec<String> = Vec::new();
            out.push(verb);
            let mut i: usize = 2;
            while i < toks.len()
                invariant
                    2 <= i <= toks@.len(),
                    tv == tokens_view(toks@),
                    tokens_view(out@) == seq![verb@] + tv.subrange(2, i as int),
                decreases toks@.len() - i,
            {
                let ghost before = out@;
                out.push(toks[i].clone());
                proof {
                    assert(tokens_view(out@) =~= tokens_view(before).push(tv[i as int]));
                    assert(tv.subrange(2, i + 1) =~= tv.subrange(2, i as int).push(tv[i as int]));
                    assert(tokens_view(out@) =~= seq![verb@] + tv.subrange(2, i + 1));
                }
                i += 1;
            }
            proof {
                assert(tv.subrange(2, tv.len() as int) =~= tv.skip(2));
            }
            return out;
        }
    }
    copy_tokens(toks)
}

fn apply_alias<T, F: Fn(&[String]) -> bool + ?Sized>(
    toks: &Vec<String>,
    cfg: &InferConfig<T>,
    resolves_ok: &F,
) -> (r: Vec<String>)
    requires
        tokens_oracle(resolves_ok),
    ensures
        tokens_view(r@) == expand_aliases(tokens_view(toks@), cfg.aliases@, ok_fn(resolves_ok)),
{
    let ghost tv = tokens_view(toks@);
    let ghost ok = ok_fn(resolves_ok);
    let mut out: Vec<String> = Vec::new();
    let mut i: usize = 0;
    while i < toks.len()
        invariant
            i <= toks@.len(),
            tv == tokens_view(toks@),
            ok == ok_fn(resolves_ok),
            tokens_oracle(resolves_ok),
            tokens_view(out@) == expand_aliases(tv, cfg.aliases@, ok).take(i as int),
        decreases toks@.len() - i,
    {
        let single = vec![toks[i].clone()];
        proof {
            assert(tokens_view(single@) =~= seq![tv[i as int]]);
        }
        let mut word = toks[i].clone();
        if !resolves(&single, resolves_ok) {
            if let Some(a) = lookup_alias(&cfg.aliases, &toks[i]) {
                word = a;
            }
        }
        let ghost before = out@;
        out.push(word);
        proof {
            let e = expand_aliases(tv, cfg.aliases@, ok);
            assert(e[i as int] == word@);
            assert(tokens_view(out@) =~= tokens_view(before).push(word@));
            assert(e.take(i + 1) =~= e.take(i as int).push(e[i as int]));
        }
        i += 1;
    }
    proof {
        let e = expand_aliases(tv, cfg.aliases@, ok);
        assert(e.take(toks@.len() as int) =~= e);
    }
    out
}

proof fn lemma_first_guess_from(
    toks: Seq<Seq<char>>,
    a: int,
    b: int,
    cands: Seq<Seq<char>>,
    budget: spec_fn(nat) -> u32,
    ok: spec_fn(Seq<Seq<char>>) -> bool,
    pres: spec_fn(Seq<char>) -> bool,
)
    requires
        0 <= a <= b <= toks.len(),
        forall|j: int|
            a <= j < b ==> !(fuzz_at(#[trigger] toks[j], cands, budget, ok, pres) matches Some(
                (false, _),
            )),
    ensures
        first_guess(toks, a, cands, budget, ok, pres) == first_guess(toks, b, cands, budget, ok, pres),
    decreases b - a,
{
    if a < b {
        lemma_first_guess_from(toks, a + 1, b, cands, budget, ok, pres);
    }
}

/// What fuzzy matching offers for one token, by the characters of its words.
pub open spec fn offered_opt(m: Option<Match>) -> Option<(bool, Seq<char>)> {
    match m {
        None => None,
        Some(mm) => offered(mm),
    }
}

/// Tier 5 for one token: leave a token that resolves on its own alone,
/// otherwise fuzzy-match it.
fn fuzz_token<T, F, P>(
    t: &String,
    candidates: &[&str],
    thresh: T,
    resolves_ok: &F,
    present: &P,
) -> (m: Option<Match>) where
    T: Fn(usize) -> u32 + Copy,
    F: Fn(&[String]) -> bool + ?Sized,
    P: Fn(&str) -> bool + ?Sized,

    requires
        tokens_oracle(resolves_ok),
        word_oracle(present),
        budget_oracle(&thresh),
        t@.len() < 0x8000_0000,
        short_words(cands_view(candidates@)),
    ensures
        offered_opt(m) == fuzz_at(
            t@,
            cands_view(candidates@),
            budget_fn(&thresh),
            ok_fn(resolves_ok),
            pres_fn(present),
        ),
        m matches Some(Match::Ambiguous(list)) ==> list@.len() > 0,
{
    let ghost cs = cands_view(candidates@);
    let single = vec![t.clone()];
    proof {
        assert(tokens_view(single@) =~= seq![t@]);
    }
    if resolves(&single, resolves_ok) {
        return None;
    }
    proof {
        assert forall|k: int| 0 <= k < candidates@.len() implies t@.len() + (
        #[trigger] candidates@[k])@.len() < u32::MAX by {
            assert(cs[k] == candidates@[k]@);
        }
    }
    let m = best_match(t.as_str(), candidates, thresh, present);
    proof {
        lemma_offered(m, t@, cs, budget_of(&thresh, t@.len() as usize), pres_fn(present));
    }
    Some(m)
}

/// Tier 5: fuzz-correct every token that does not resolve on its own. Returns
/// the corrected tokens and the first ambiguous tie (its position and ranking).
fn fuzz_tokens<T, F, P>(
    toks: &Vec<String>,
    candidates: &[&str],
    thresh: T,
    resolves_ok: &F,
    present: &P,
) -> (res: (Vec<String>, Option<(usize, Vec<String>)>)) where
    T: Fn(usize) -> u32 + Copy,
    F: Fn(&[String]) -> bool + ?Sized,
    P: Fn(&str) -> bool + ?Sized,

    requires
        tokens_oracle(resolves_ok),
        word_oracle(present),
        budget_oracle(&thresh),
        short_words(tokens_view(toks@)),
        short_words(cands_view(candidates@)),
    ensures
        tokens_view(res.0@) == fuzz_all(
            tokens_view(toks@),
            cands_view(candidates@),
            budget_fn(&thresh),
            ok_fn(resolves_ok),
            pres_fn(present),
        ),
        match res.1 {
            None => first_guess(
                tokens_view(toks@),
                0,
                cands_view(candidates@),
                budget_fn(&thresh),
                ok_fn(resolves_ok),
                pres_fn(present),
            ) is None,
            Some((i, list)) => list@.len() > 0 && first_guess(
                tokens_view(toks@),
                0,
                cands_view(candidates@),
                budget_fn(&thresh),
                ok_fn(resolves_ok),
                pres_fn(present),
            ) == Some((i as int, list@[0]@)),
        },
{
    let ghost tv = tokens_view(toks@);
    let ghost cs = cands_view(candidates@);
    let ghost budget = budget_fn(&thresh);
    let ghost ok = ok_fn(resolves_ok);
    let ghost pres = pres_fn(present);
    let mut fuzzed: Vec<String> = Vec::new();
    let mut ambiguous: Option<(usize, Vec<String>)> = None;
    let mut i: usize = 0;
    while i < toks.len()
        invariant
            i <= toks@.len(),
            tv == tokens_view(toks@),
            cs == cands_view(candidates@),
            budget == budget_fn(&thresh),
            ok == ok_fn(resolves_ok),
            pres == pres_fn(present),
            tokens_oracle(resolves_ok),
            word_oracle(present),
            budget_oracle(&thresh),
            short_words(tv),
            short_words(cs),
            tokens_view(fuzzed@) == fuzz_all(tv, cs, budget, ok, pres).take(i as int),
            match ambiguous {
                None => forall|j: int|
                    0 <= j < i ==> !(fuzz_at(#[trigger] tv[j], cs, budget, ok, pres) matches Some(
                        (false, _),
                    )),
                Some((a, list)) => a < i && list@.len() > 0 && first_guess(tv, 0, cs, budget, ok, pres)
                    == Some((a as int, list@[0]@)),
            },
        decreases toks@.len() - i,
    {
        let mut word = toks[i].clone();
        proof {
            assert(tv[i as int] == toks@[i as int]@);
        }
        let m = fuzz_token(&toks[i], candidates, thresh, resolves_ok, present);
        match m {
            Some(Match::Unique(w)) => {
                word = w;
            },
            Some(Match::Ambiguous(list)) => {
                if ambiguous.is_none() {
                    proof {
                        lemma_first_guess_from(tv, 0, i as int, cs, budget, ok, pres);
                    }
                    ambiguous = Some((i, list));
                }
            },
            _ => {},
        }
        let ghost before = fuzzed@;
        fuzzed.push(word);
        proof {
            let e = fuzz_all(tv, cs, budget, ok, pres);
            assert(tv[i as int] == toks@[i as int]@);
            assert(e[i as int] == word@);
            assert(tokens_view(fuzzed@) =~= tokens_view(before).push(word@));
            assert(e.take(i + 1) =~= e.take(i as int).push(e[i as int]));
        }
        i += 1;
    }
    proof {
        let e = fuzz_all(tv, cs, budget, ok, pres);
        assert(e.take(toks@.len() as int) =~= e);
        if ambiguous.is_none() {
            lemma_first_guess_from(tv, 0, toks@.len() as int, cs, budget, ok, pres);
        }
    }
    (fuzzed, ambiguous)
}

proof fn lemma_first_guess_in_range(
    toks: Seq<Seq<char>>,
    from: int,
    cands: Seq<Seq<char>>,
    budget: spec_fn(nat) -> u32,
    ok: spec_fn(Seq<Seq<char>>) -> bool,
    pres: spec_fn(Seq<char>) -> bool,
)
    requires
        first_guess(toks, from, cands, budget, ok, pres) is Some,
    ensures
        0 <= (first_guess(toks, from, cands, budget, ok, pres)->0).0 < toks.len(),
    decreases toks.len() - from,
{
    if 0 <= from < toks.len() {
        match fuzz_at(toks[from], cands, budget, ok, pres) {
            Some((false, w)) => {},
            _ => lemma_first_guess_in_range(toks, from + 1, cands, budget, ok, pres),
        }
    }
}

proof fn lemma_filter_from<A>(s: Seq<A>, p: spec_fn(A) -> bool)
    ensures
        forall|i: int| 0 <= i < s.filter(p).len() ==> s.contains(#[trigger] s.filter(p)[i]),
    decreases s.len(),
{
    reveal(Seq::filter);
    if s.len() > 0 {
        let d = s.drop_last();
        lemma_filter_from(d, p);
        assert forall|i: int| 0 <= i < s.filter(p).len() implies s.contains(
            #[trigger] s.filter(p)[i],
        ) by {
            if i < d.filter(p).len() {
                assert(s.filter(p)[i] == d.filter(p)[i]);
                let j = choose|j: int| 0 <= j < d.len() && d[j] == d.filter(p)[i];
                assert(s[j] == d[j]);
            } else {
                assert(s.filter(p)[i] == s.last());
                assert(s[s.len() - 1] == s.last());
            }
        }
    }
}

proof fn lemma_alias_listed(a: Seq<(String, String)>, key: Seq<char>)
    requires
        alias_of(a, key) is Some,
    ensures
        exists|i: int| 0 <= i < a.len() && (#[trigger] a[i]).1@ == alias_of(a, key)->0,
    decreases a.len(),
{
    if a[0].0@ != key {
        lemma_alias_listed(a.drop_first(), key);
        let i = choose|i: int|
            0 <= i < a.drop_first().len() && (#[trigger] a.drop_first()[i]).1@ == alias_of(a, key)->0;
        assert(a[i + 1] == a.drop_first()[i]);
    } else {
        assert(a[0].1@ == alias_of(a, key)->0);
    }
}

proof fn lemma_phrasal_listed(p: Seq<((String, String), String)>, k0: Seq<char>, k1: Seq<char>)
    requires
        phrasal_of(p, k0, k1) is Some,
    ensures
        exists|i: int| 0 <= i < p.len() && (#[trigger] p[i]).1@ == phrasal_of(p, k0, k1)->0,
    decreases p.len(),
{
    if !(p[0].0.0@ == k0 && p[0].0.1@ == k1) {
        lemma_phrasal_listed(p.drop_first(), k0, k1);
        let i = choose|i: int|
            0 <= i < p.drop_first().len() && (#[trigger] p.drop_first()[i]).1@ == phrasal_of(
                p,
                k0,
                k1,
            )->0;
        assert(p[i + 1] == p.drop_first()[i]);
    } else {
        assert(p[0].1@ == phrasal_of(p, k0, k1)->0);
    }
}

/// The aliases' and phrasal verbs' replacement words are short enough for the
/// edit-distance arithmetic.
pub open spec fn short_tables<T>(cfg: &InferConfig<T>) -> bool {
    &&& forall|i: int| 0 <= i < cfg.aliases@.len() ==> (#[trigger] cfg.aliases@[i]).1@.len() < 0x8000_0000
    &&& forall|i: int| 0 <= i < cfg.phrasal@.len() ==> (#[trigger] cfg.phrasal@[i]).1@.len() < 0x8000_0000
}

proof fn lemma_tiers_keep_words_short<T>(
    raw: Seq<Seq<char>>,
    cfg: &InferConfig<T>,
    ok: spec_fn(Seq<Seq<char>>) -> bool,
)
    requires
        short_words(raw),
        short_tables(cfg),
    ensures
        short_words(strip_filler(raw, tokens_view(cfg.filler@))),
        short_words(collapse_phrasal(strip_filler(raw, tokens_view(cfg.filler@)), cfg.phrasal@)),
        short_words(
            expand_aliases(
                collapse_phrasal(strip_filler(raw, tokens_view(cfg.filler@)), cfg.phrasal@),
                cfg.aliases@,
                ok,
            ),
        ),
{
    let fv = tokens_view(cfg.filler@);
    let keep = |t: Seq<char>| !fv.contains(t);
    lemma_filter_from(raw, keep);
    let t1 = strip_filler(raw, fv);
    assert forall|i: int| 0 <= i < t1.len() implies (#[trigger] t1[i]).len() < 0x8000_0000 by {
        if raw.filter(keep).len() > 0 {
            assert(raw.contains(raw.filter(keep)[i]));
        }
    }
    let t2 = collapse_phrasal(t1, cfg.phrasal@);
    assert forall|i: int| 0 <= i < t2.len() implies (#[trigger] t2[i]).len() < 0x8000_0000 by {
        if t1.len() >= 2 {
            if let Some(v) = phrasal_of(cfg.phrasal@, t1[0], t1[1]) {
                if i == 0 {
                    lemma_phrasal_listed(cfg.phrasal@, t1[0], t1[1]);
                } else {
                    assert(t2[i] == t1[i + 1]);
                }
            }
        }
    }
    let t3 = expand_aliases(t2, cfg.aliases@, ok);
    assert forall|i: int| 0 <= i < t3.len() implies (#[trigger] t3[i]).len() < 0x8000_0000 by {
        if !ok(seq![t2[i]]) && alias_of(cfg.aliases@, t2[i]) is Some {
            lemma_alias_listed(cfg.aliases@, t2[i]);
        }
    }
}

/// Copy a slice of tokens into a vector.
fn to_tokens(raw: &[String]) -> (r: Vec<String>)
    ensures
        tokens_view(r@) == tokens_view(raw@),
{
    let mut r: Vec<String> = Vec::new();
    let mut i: usize = 0;
    while i < raw.len()
        invariant
            i <= raw@.len(),
            tokens_view(r@) == tokens_view(raw@).take(i as int),
        decreases raw@.len() - i,
    {
        let ghost before = r@;
        r.push(raw[i].clone());
        proof {
            assert(tokens_view(r@) =~= tokens_view(before).push(raw@[i as int]@));
            assert(tokens_view(raw@).take(i + 1) =~= tokens_view(raw@).take(i as int).push(
                raw@[i as int]@,
            ));
        }
        i += 1;
    }
    proof {
        assert(tokens_view(raw@).take(raw@.len() as int) =~= tokens_view(raw@));
    }
    r
}

/// Recover a runnable command from near-miss input.
///
/// `resolves_ok` answers "do these tokens parse as a command today?"; it gates
/// every tier, so currently-valid input returns [`Inference::Unchanged`] and is
/// never altered. `present` reports whether a candidate word names something in
/// scope, used to rank fuzzy matches. `candidates` is the full-spelling vocab.
///
/// Tiers, each tried only if the previous left the input unresolved: strip
/// filler words, then collapse a leading phrasal-verb bigram, then expand
/// single-token aliases (after each, also try shortening over-long input to a
/// resolving `max_words`-length subsequence), then fuzzy-correct unresolved
/// tokens, and finally offer a "did you mean?" from the best ambiguous candidate.
pub fn infer<T, F, P>(
    raw: &[String],
    cfg: &InferConfig<T>,
    candidates: &[&str],
    resolves_ok: &F,
    present: &P,
) -> (r: Inference) where
    T: Fn(usize) -> u32 + Copy,
    F: Fn(&[String]) -> bool + ?Sized,
    P: Fn(&str) -> bool + ?Sized,

    requires
        tokens_oracle(resolves_ok),
        word_oracle(present),
        budget_oracle(&cfg.thresh),
        cfg.well_formed(),
        short_words(tokens_view(raw@)),
        short_words(cands_view(candidates@)),
        short_tables(cfg),
    ensures
        r@ == infer_outcome(
            tokens_view(raw@),
            tokens_view(cfg.filler@),
            cfg.aliases@,
            cfg.phrasal@,
            cfg.max_words as int,
            cands_view(candidates@),
            budget_fn(&cfg.thresh),
            ok_fn(resolves_ok),
            pres_fn(present),
        ),
        // The guarantee: input the caller already understands is left alone,
        // and only that input.
        r is Unchanged <==> tokens_hold(resolves_ok, tokens_view(raw@)),
        // Whatever is offered back is a command the caller understands.
        r matches Inference::Rewrite(w) ==> tokens_hold(resolves_ok, tokens_view(w@)) && 1 <= w@.len()
            <= cfg.max_words,
        r matches Inference::DidYouMean(w) ==> tokens_hold(resolves_ok, tokens_view(w@)) && 1
            <= w@.len() <= cfg.max_words,
{
    let ghost ok = ok_fn(resolves_ok);
    let ghost mw = cfg.max_words as int;
    // Tier 0 — the guarantee: already-valid input is left exactly as it is.
    let b = resolves_ok(raw);
    proof {
        lemma_tokens_answer(resolves_ok, raw, b);
        lemma_tiers_keep_words_short(tokens_view(raw@), cfg, ok);
    }
    if b {
        return Inference::Unchanged;
    }
    let toks = to_tokens(raw);

    // Tier 1 — strip filler (but never strip away the whole command).
    let t1 = strip(&toks, &cfg.filler);
    if let Some(w) = settle(&t1, cfg.max_words, resolves_ok) {
        proof {
            assert(tokens_view(t1@).len() == t1.len());
            lemma_settled_resolves(tokens_view(t1@), mw, ok);
        }
        return Inference::Rewrite(w);
    }
    // Tier 2 — collapse a leading verb+particle bigram.

    let t2 = apply_phrasal(&t1, cfg);
    if let Some(w) = settle(&t2, cfg.max_words, resolves_ok) {
        proof {
            assert(tokens_view(t2@).len() == t2.len());
            lemma_settled_resolves(tokens_view(t2@), mw, ok);
        }
        return Inference::Rewrite(w);
    }
    // Tier 3 — expand single-token aliases (only where the token doesn't resolve).

    let t3 = apply_alias(&t2, cfg, resolves_ok);
    if let Some(w) = settle(&t3, cfg.max_words, resolves_ok) {
        proof {
            assert(tokens_view(t3@).len() == t3.len());
            lemma_settled_resolves(tokens_view(t3@), mw, ok);
        }
        return Inference::Rewrite(w);
    }
    // Tier 5 — fuzzy-correct the still-unresolved tokens in place.

    let (t5, ambiguous) = fuzz_tokens(&t3, candidates, cfg.thresh, resolves_ok, present);
    if let Some(w) = settle(&t5, cfg.max_words, resolves_ok) {
        proof {
            assert(tokens_view(t5@).len() == t5.len());
            lemma_settled_resolves(tokens_view(t5@), mw, ok);
        }
        return Inference::Rewrite(w);
    }
    // Tier 6 — offer the best ambiguous candidate as a "did you mean?".

    if let Some((i, list)) = ambiguous {
        if list.len() > 0 {
            proof {
                lemma_first_guess_in_range(
                    tokens_view(t3@),
                    0,
                    cands_view(candidates@),
                    budget_fn(&cfg.thresh),
                    ok,
                    pres_fn(present),
                );
            }
            let mut guess = copy_tokens(&t5);
            guess.set(i, list[0].clone());
            proof {
                assert(tokens_view(guess@) =~= tokens_view(t5@).update(i as int, list@[0]@));
            }
            if let Some(w) = settle(&guess, cfg.max_words, resolves_ok) {
                proof {
                    assert(tokens_view(guess@).len() == guess@.len());
                    lemma_settled_resolves(tokens_view(guess@), mw, ok);
                }
                return Inference::DidYouMean(w);
            }
        }
    }
    Inference::Unresolved
}

} // verus!

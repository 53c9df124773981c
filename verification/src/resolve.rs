//! Fuzzy single-token resolution against a candidate vocabulary.

use vstd::prelude::*;

use crate::distance::{bounded_distance, damerau_levenshtein_bounded, osa_distance};
use crate::oracle::{
    budget_of, budget_oracle, lemma_budget_answer, lemma_word_answer, pres_fn, tokens_view,
    word_holds, word_oracle,
};
use crate::text::{chars_of, lemma_lex_irreflexive, lemma_lex_total, lemma_lex_transitive, lex_less, lex_lt};

verus! {

/// The outcome of fuzzy-matching one token.
#[derive(Debug, Clone, PartialEq, Eq)]
pub enum Match {
    /// Nothing within the edit-distance budget.
    NoMatch,
    /// Exactly one best candidate (or a tie broken by presence) — safe to apply
    /// silently.
    Unique(String),
    /// Several equally-close candidates, ranked present-first — needs the caller
    /// to confirm (or to disambiguate by context).
    Ambiguous(Vec<String>),
}

/// The characters of each candidate word.
pub open spec fn cands_view(c: Seq<&str>) -> Seq<Seq<char>> {
    c.map_values(|x: &str| x@)
}

/// A near miss: not the token itself, but within `max` edits of it.
pub open spec fn in_budget(token: Seq<char>, c: Seq<char>, max: u32) -> bool {
    0 < osa_distance(token, c) && osa_distance(token, c) <= max
}

/// `s` is one of the candidates, a near miss, and no near miss is closer.
pub open spec fn closest(token: Seq<char>, cands: Seq<Seq<char>>, max: u32, s: Seq<char>) -> bool {
    &&& cands.contains(s)
    &&& in_budget(token, s, max)
    &&& forall|k: int|
        0 <= k < cands.len() && in_budget(token, #[trigger] cands[k], max) ==> osa_distance(
            token,
            s,
        ) <= osa_distance(token, cands[k])
}

/// The finalists: every distinct candidate at the smallest non-zero distance
/// within the budget.
pub open spec fn finalists(token: Seq<char>, cands: Seq<Seq<char>>, max: u32) -> Set<Seq<char>> {
    Set::new(|s: Seq<char>| closest(token, cands, max, s))
}

/// Present words rank first; within each group, alphabetical order.
pub open spec fn ranks_before(pres: spec_fn(Seq<char>) -> bool, x: Seq<char>, y: Seq<char>) -> bool {
    (pres(x) && !pres(y)) || (pres(x) == pres(y) && lex_lt(x, y))
}

pub open spec fn ranked(pres: spec_fn(Seq<char>) -> bool, s: Seq<Seq<char>>) -> bool {
    forall|i: int, j: int| 0 <= i < j < s.len() ==> ranks_before(pres, #[trigger] s[i], #[trigger] s[j])
}

pub open spec fn lex_sorted(s: Seq<Seq<char>>) -> bool {
    forall|i: int, j: int| 0 <= i < j < s.len() ==> lex_lt(#[trigger] s[i], #[trigger] s[j])
}

/// What fuzzy-matching `token` against `cands` with edit budget `max` and the
/// presence test `pres` yields.
pub open spec fn match_spec(
    r: Match,
    token: Seq<char>,
    cands: Seq<Seq<char>>,
    max: u32,
    pres: spec_fn(Seq<char>) -> bool,
) -> bool {
    let f = finalists(token, cands, max);
    match r {
        Match::NoMatch => max == 0 || f.is_empty(),
        Match::Unique(w) => max != 0 && (f == set![w@] || (f.len() > 1 && f.filter(pres) == set![
            w@,
        ])),
        Match::Ambiguous(ws) => {
            &&& max != 0
            &&& f.len() > 1
            &&& f.filter(pres).len() != 1
            &&& tokens_view(ws@).to_set() == f
            &&& tokens_view(ws@).no_duplicates()
            &&& ranked(pres, tokens_view(ws@))
        },
    }
}

pub(crate) proof fn lemma_filter_keeps(s: Seq<Seq<char>>, p: spec_fn(Seq<char>) -> bool)
    ensures
        forall|x: Seq<char>| #[trigger] s.filter(p).contains(x) <==> (s.contains(x) && p(x)),
        lex_sorted(s) ==> lex_sorted(s.filter(p)),
    decreases s.len(),
{
    reveal(Seq::filter);
    if s.len() > 0 {
        let d = s.drop_last();
        lemma_filter_keeps(d, p);
        assert forall|x: Seq<char>| #[trigger] s.filter(p).contains(x) <==> (s.contains(x) && p(
            x,
        )) by {
            if s.contains(x) && p(x) {
                let i = choose|i: int| 0 <= i < s.len() && s[i] == x;
                if i < s.len() - 1 {
                    assert(d[i] == x);
                    assert(d.contains(x));
                }
            }
            if s.filter(p).contains(x) {
                if d.filter(p).contains(x) {
                    let i = choose|i: int| 0 <= i < d.len() && d[i] == x;
                    assert(s[i] == x);
                }
            }
        }
        if lex_sorted(s) {
            assert(lex_sorted(d));
            let fd = d.filter(p);
            if p(s.last()) {
                assert forall|i: int, j: int|
                    0 <= i < j < s.filter(p).len() implies lex_lt(
                    #[trigger] s.filter(p)[i],
                    #[trigger] s.filter(p)[j],
                ) by {
                    if j == fd.len() {
                        assert(fd.contains(fd[i]));
                        let k = choose|k: int| 0 <= k < d.len() && d[k] == fd[i];
                        assert(s[k] == fd[i]);
                    } else {
                        assert(s.filter(p)[i] == fd[i]);
                    }
                }
            }
        }
    }
}

proof fn lemma_sorted_no_dup(s: Seq<Seq<char>>)
    requires
        lex_sorted(s),
    ensures
        s.no_duplicates(),
{
    assert forall|i: int, j: int| 0 <= i < s.len() && 0 <= j < s.len() && i != j implies s[i]
        != s[j] by {
        lemma_lex_irreflexive(s[i]);
    }
}

proof fn lemma_ranked_no_dup(pres: spec_fn(Seq<char>) -> bool, s: Seq<Seq<char>>)
    requires
        ranked(pres, s),
    ensures
        s.no_duplicates(),
{
    assert forall|i: int, j: int| 0 <= i < s.len() && 0 <= j < s.len() && i != j implies s[i]
        != s[j] by {
        lemma_lex_irreflexive(s[i]);
        if i < j {
            assert(ranks_before(pres, s[i], s[j]));
        } else {
            assert(ranks_before(pres, s[j], s[i]));
        }
    }
}

/// The candidate words picked out by a list of indices.
pub open spec fn picked(idx: Seq<usize>, cv: Seq<Vec<char>>) -> Seq<Seq<char>> {
    idx.map_values(|i: usize| cv[i as int]@)
}

/// Find the closest vocabulary word(s) to `token`.
///
/// Candidates are scored by bounded Damerau–Levenshtein distance (budget from
/// `thresh` of the token's length); zero-distance hits are ignored (an exact
/// match would have resolved already). Among the closest, a single winner is
/// [`Match::Unique`]; a tie is broken toward a candidate the `present` oracle
/// accepts, and otherwise surfaced as [`Match::Ambiguous`] ranked present-first
/// then alphabetically.
pub fn best_match<T, P>(token: &str, candidates: &[&str], thresh: T, present: &P) -> (r: Match) where
    T: Fn(usize) -> u32,
    P: Fn(&str) -> bool + ?Sized,

    requires
        budget_oracle(&thresh),
        word_oracle(present),
        forall|k: int|
            0 <= k < candidates@.len() ==> token@.len() + (#[trigger] candidates@[k])@.len()
                < u32::MAX,
    ensures
        match_spec(
            r,
            token@,
            cands_view(candidates@),
            budget_of(&thresh, token@.len() as usize),
            pres_fn(present),
        ),
{
    let ghost pres = pres_fn(present);
    let ghost cs = cands_view(candidates@);
    let ghost tk = token@;
    let tok = chars_of(token);
    let n = tok.len();
    let max = thresh(n);
    proof {
        lemma_budget_answer(&thresh, n, max);
    }
    if max == 0 {
        return Match::NoMatch;
    }
    let ghost f = finalists(tk, cs, max);

    // Score every candidate, tracking the closest non-zero distance.
    let mut ds: Vec<Option<u32>> = Vec::new();
    let mut cv: Vec<Vec<char>> = Vec::new();
    let mut best: u32 = 0;
    let mut k: usize = 0;
    while k < candidates.len()
        invariant
            k <= candidates@.len(),
            cs == cands_view(candidates@),
            tk == token@,
            ds@.len() == k,
            cv@.len() == k,
            forall|x: int|
                0 <= x < candidates@.len() ==> token@.len() + (#[trigger] candidates@[x])@.len()
                    < u32::MAX,
            forall|x: int| 0 <= x < k ==> #[trigger] ds@[x] == bounded_distance(tk, cs[x], max),
            forall|x: int| 0 <= x < k ==> (#[trigger] cv@[x])@ == cs[x],
            best == 0 <==> forall|x: int| 0 <= x < k ==> !in_budget(tk, #[trigger] cs[x], max),
            best != 0 ==> exists|x: int|
                0 <= x < k && in_budget(tk, #[trigger] cs[x], max) && osa_distance(tk, cs[x])
                    == best,
            forall|x: int|
                0 <= x < k && in_budget(tk, #[trigger] cs[x], max) ==> best <= osa_distance(
                    tk,
                    cs[x],
                ),
        decreases candidates@.len() - k,
    {
        let d = damerau_levenshtein_bounded(token, candidates[k], max);
        let ghost old_best = best;
        match d {
            Some(x) => {
                if x > 0 && (best == 0 || x < best) {
                    best = x;
                }
            },
            None => {},
        }
        ds.push(d);
        cv.push(chars_of(candidates[k]));
        proof {
            if best != 0 {
                if best == old_best {
                    let w = choose|w: int|
                        0 <= w < k && in_budget(tk, #[trigger] cs[w], max) && osa_distance(
                            tk,
                            cs[w],
                        ) == old_best;
                    assert(in_budget(tk, cs[w], max));
                } else {
                    assert(in_budget(tk, cs[k as int], max));
                }
            }
        }
        k += 1;
    }
    if best == 0 {
        proof {
            assert forall|s: Seq<char>| !f.contains(s) by {
                if f.contains(s) {
                    assert(closest(tk, cs, max, s));
                    let w = choose|w: int| 0 <= w < cs.len() && cs[w] == s;
                    assert(!in_budget(tk, cs[w], max));
                }
            }
            assert(f =~= Set::<Seq<char>>::empty());
        }
        return Match::NoMatch;
    }
    // Membership in the finalists, in terms of the closest distance found.

    proof {
        assert forall|s: Seq<char>| #[trigger] f.contains(s) <==> (exists|x: int|
            0 <= x < cs.len() && cs[x] == s && in_budget(tk, s, max) && osa_distance(tk, s) == best) by {
            if f.contains(s) {
                let w = choose|w: int| 0 <= w < cs.len() && cs[w] == s;
                let v = choose|v: int|
                    0 <= v < cs.len() && in_budget(tk, #[trigger] cs[v], max) && osa_distance(
                        tk,
                        cs[v],
                    ) == best;
                assert(osa_distance(tk, s) <= osa_distance(tk, cs[v]));
                assert(in_budget(tk, cs[w], max));
            }
            if exists|x: int|
                0 <= x < cs.len() && cs[x] == s && in_budget(tk, s, max) && osa_distance(tk, s)
                    == best {
                let w = choose|w: int|
                    0 <= w < cs.len() && cs[w] == s && in_budget(tk, s, max) && osa_distance(tk, s)
                        == best;
                assert(cs.contains(s));
            }
        }
    }

    // Collect the finalists, alphabetically and without repeats.
    let mut fin: Vec<usize> = Vec::new();
    let mut k: usize = 0;
    while k < candidates.len()
        invariant
            k <= candidates@.len(),
            cs == cands_view(candidates@),
            ds@.len() == candidates@.len(),
            cv@.len() == candidates@.len(),
            best != 0,
            forall|x: int| 0 <= x < cv@.len() ==> #[trigger] ds@[x] == bounded_distance(tk, cs[x], max),
            forall|x: int| 0 <= x < cv@.len() ==> (#[trigger] cv@[x])@ == cs[x],
            forall|x: int| 0 <= x < fin@.len() ==> #[trigger] fin@[x] < candidates@.len(),
            lex_sorted(picked(fin@, cv@)),
            forall|s: Seq<char>| #[trigger] picked(fin@, cv@).contains(s) <==> (exists|x: int|
                0 <= x < k && cs[x] == s && in_budget(tk, s, max) && osa_distance(tk, s) == best),
        decreases candidates@.len() - k,
    {
        let hit = match ds[k] {
            Some(x) => x == best,
            None => false,
        };
        if hit {
            let ghost fv = picked(fin@, cv@);
            let ghost w = cs[k as int];
            let mut p: usize = 0;
            while p < fin.len() && lex_less(&cv[fin[p]], &cv[k])
                invariant
                    p <= fin@.len(),
                    k < cv@.len(),
                    fv == picked(fin@, cv@),
                    cv@[k as int]@ == w,
                    forall|x: int| 0 <= x < fin@.len() ==> #[trigger] fin@[x] < candidates@.len(),
                    cv@.len() == candidates@.len(),
                    forall|q: int| 0 <= q < p ==> lex_lt(#[trigger] fv[q], w),
                decreases fin@.len() - p,
            {
                p += 1;
            }
            let dup = p < fin.len() && !lex_less(&cv[k], &cv[fin[p]]);
            if !dup {
                fin.insert(p, k);
                proof {
                    let nv = picked(fin@, cv@);
                    assert(nv =~= fv.insert(p as int, w));
                    if p < fv.len() {
                        lemma_lex_total(fv[p as int], w);
                    }
                    assert forall|i: int, j: int| 0 <= i < j < nv.len() implies lex_lt(
                        #[trigger] nv[i],
                        #[trigger] nv[j],
                    ) by {
                        if j < p {
                        } else if j == p {
                        } else if i < p {
                            assert(lex_lt(fv[i], w));
                            assert(lex_lt(w, fv[p as int]));
                            lemma_lex_transitive(fv[i], w, fv[p as int]);
                            if j - 1 > p {
                                lemma_lex_transitive(fv[i], fv[p as int], fv[j - 1]);
                            }
                        } else if i == p {
                            if j - 1 > p {
                                lemma_lex_transitive(w, fv[p as int], fv[j - 1]);
                            }
                        } else {
                        }
                    }
                    assert forall|s: Seq<char>| #[trigger] nv.contains(s) <==> (exists|x: int|
                        0 <= x < k + 1 && cs[x] == s && in_budget(tk, s, max) && osa_distance(tk, s)
                            == best) by {
                        if nv.contains(s) && s != w {
                            let i = choose|i: int| 0 <= i < nv.len() && nv[i] == s;
                            if i < p {
                                assert(fv[i] == s);
                            } else {
                                assert(fv[i - 1] == s);
                            }
                            assert(fv.contains(s));
                        }
                        if s == w {
                            assert(nv[p as int] == w);
                        }
                        if fv.contains(s) {
                            let i = choose|i: int| 0 <= i < fv.len() && fv[i] == s;
                            if i < p {
                                assert(nv[i] == s);
                            } else {
                                assert(nv[i + 1] == s);
                            }
                        }
                    }
                }
            } else {
                proof {
                    lemma_lex_total(fv[p as int], w);
                    assert(fv[p as int] == w);
                    assert forall|s: Seq<char>| #[trigger] fv.contains(s) <==> (exists|x: int|
                        0 <= x < k + 1 && cs[x] == s && in_budget(tk, s, max) && osa_distance(tk, s)
                            == best) by {
                        if s == w {
                            assert(fv.contains(w));
                        }
                    }
                }
            }
        } else {
            proof {
                let fv = picked(fin@, cv@);
                assert forall|s: Seq<char>| #[trigger] fv.contains(s) <==> (exists|x: int|
                    0 <= x < k + 1 && cs[x] == s && in_budget(tk, s, max) && osa_distance(tk, s)
                        == best) by {
                    if exists|x: int|
                        0 <= x < k + 1 && cs[x] == s && in_budget(tk, s, max) && osa_distance(
                            tk,
                            s,
                        ) == best {
                        let x = choose|x: int|
                            0 <= x < k + 1 && cs[x] == s && in_budget(tk, s, max) && osa_distance(
                                tk,
                                s,
                            ) == best;
                        if x == k {
                            assert(ds@[x] == bounded_distance(tk, cs[x], max));
                        }
                    }
                }
            }
        }
        k += 1;
    }
    let ghost fv = picked(fin@, cv@);
    proof {
        assert forall|s: Seq<char>| #[trigger] fv.contains(s) <==> f.contains(s) by {}
        assert(fv.to_set() =~= f);
        lemma_sorted_no_dup(fv);
        fv.unique_seq_to_set();
        let v = choose|v: int|
            0 <= v < cs.len() && in_budget(tk, #[trigger] cs[v], max) && osa_distance(tk, cs[v])
                == best;
        assert(f.contains(cs[v]));
        assert(fv.contains(cs[v]));
    }
    if fin.len() == 1 {
        let w = String::from_str(candidates[fin[0]]);
        proof {
            assert(f =~= set![w@]) by {
                assert(fv.to_set().contains(fv[0]));
                assert forall|s: Seq<char>| f.contains(s) implies s == fv[0] by {
                    assert(fv.contains(s));
                }
            }
        }
        return Match::Unique(w);
    }
    // A tie: ask which finalists are present.

    let mut pf: Vec<usize> = Vec::new();
    let mut af: Vec<usize> = Vec::new();
    let mut q: usize = 0;
    let ghost notpres = |s: Seq<char>| !pres(s);
    while q < fin.len()
        invariant
            q <= fin@.len(),
            fv == picked(fin@, cv@),
            cs == cands_view(candidates@),
            cv@.len() == candidates@.len(),
            pres == pres_fn(present),
            notpres == (|s: Seq<char>| !pres(s)),
            word_oracle(present),
            forall|x: int| 0 <= x < cv@.len() ==> (#[trigger] cv@[x])@ == cs[x],
            forall|x: int| 0 <= x < fin@.len() ==> #[trigger] fin@[x] < candidates@.len(),
            forall|x: int| 0 <= x < pf@.len() ==> #[trigger] pf@[x] < candidates@.len(),
            forall|x: int| 0 <= x < af@.len() ==> #[trigger] af@[x] < candidates@.len(),
            picked(pf@, cv@) == fv.take(q as int).filter(pres),
            picked(af@, cv@) == fv.take(q as int).filter(notpres),
        decreases fin@.len() - q,
    {
        let idx = fin[q];
        let b = present(candidates[idx]);
        proof {
            lemma_word_answer(present, candidates@[idx as int], b);
            assert(fv.take(q + 1) =~= fv.take(q as int).push(fv[q as int]));
            fv.take(q as int).lemma_filter_push(fv[q as int], pres);
            fv.take(q as int).lemma_filter_push(fv[q as int], notpres);
        }
        if b {
            pf.push(idx);
            proof {
                assert(picked(pf@, cv@) =~= picked(pf@.drop_last(), cv@).push(fv[q as int]));
            }
        } else {
            af.push(idx);
            proof {
                assert(picked(af@, cv@) =~= picked(af@.drop_last(), cv@).push(fv[q as int]));
            }
        }
        q += 1;
    }
    let ghost pv = picked(pf@, cv@);
    let ghost av = picked(af@, cv@);
    proof {
        assert(fv.take(fin@.len() as int) =~= fv);
        lemma_filter_keeps(fv, pres);
        lemma_filter_keeps(fv, notpres);
        assert(pv.to_set() =~= f.filter(pres)) by {
            assert forall|s: Seq<char>| pv.contains(s) <==> f.filter(pres).contains(s) by {
                assert(fv.contains(s) <==> f.contains(s));
            }
        }
        lemma_sorted_no_dup(pv);
        pv.unique_seq_to_set();
    }
    if pf.len() == 1 {
        let w = String::from_str(candidates[pf[0]]);
        proof {
            assert(f.filter(pres) =~= set![w@]) by {
                assert(pv.to_set().contains(pv[0]));
                assert forall|s: Seq<char>| f.filter(pres).contains(s) implies s == pv[0] by {
                    assert(pv.contains(s));
                }
            }
        }
        return Match::Unique(w);
    }
    // Still ambiguous — present-first, then alphabetical.

    let mut out: Vec<String> = Vec::new();
    let mut i: usize = 0;
    while i < pf.len()
        invariant
            i <= pf@.len(),
            pv == picked(pf@, cv@),
            cs == cands_view(candidates@),
            cv@.len() == candidates@.len(),
            forall|x: int| 0 <= x < cv@.len() ==> (#[trigger] cv@[x])@ == cs[x],
            forall|x: int| 0 <= x < pf@.len() ==> #[trigger] pf@[x] < candidates@.len(),
            tokens_view(out@) == pv.take(i as int),
        decreases pf@.len() - i,
    {
        let w = String::from_str(candidates[pf[i]]);
        proof {
            assert(cs[pf@[i as int] as int] == candidates@[pf@[i as int] as int]@);
            assert(w@ == pv[i as int]);
        }
        let ghost old_out = out@;
        out.push(w);
        proof {
            assert(tokens_view(out@) =~= tokens_view(old_out).push(w@));
            assert(pv.take(i + 1) =~= pv.take(i as int).push(pv[i as int]));
            assert(tokens_view(out@) =~= pv.take(i + 1));
        }
        i += 1;
    }
    let mut i: usize = 0;
    while i < af.len()
        invariant
            i <= af@.len(),
            pv == picked(pf@, cv@),
            av == picked(af@, cv@),
            cs == cands_view(candidates@),
            cv@.len() == candidates@.len(),
            forall|x: int| 0 <= x < cv@.len() ==> (#[trigger] cv@[x])@ == cs[x],
            forall|x: int| 0 <= x < af@.len() ==> #[trigger] af@[x] < candidates@.len(),
            tokens_view(out@) == pv + av.take(i as int),
        decreases af@.len() - i,
    {
        let w = String::from_str(candidates[af[i]]);
        proof {
            assert(cs[af@[i as int] as int] == candidates@[af@[i as int] as int]@);
            assert(w@ == av[i as int]);
        }
        let ghost old_out = out@;
        out.push(w);
        proof {
            assert(tokens_view(out@) =~= tokens_view(old_out).push(w@));
            assert(av.take(i + 1) =~= av.take(i as int).push(av[i as int]));
            assert(tokens_view(out@) =~= pv + av.take(i + 1));
        }
        i += 1;
    }
    proof {
        let ov = tokens_view(out@);
        assert(av.take(af@.len() as int) =~= av);
        assert(ov =~= pv + av);
        assert forall|a: int, b: int| 0 <= a < b < ov.len() implies ranks_before(
            pres,
            #[trigger] ov[a],
            #[trigger] ov[b],
        ) by {
            if b < pv.len() {
                assert(pres(pv[a]) && pres(pv[b]));
            } else if a >= pv.len() {
                assert(!pres(av[a - pv.len()]) && !pres(av[b - pv.len()]));
                assert(ov[a] == av[a - pv.len()]);
                assert(ov[b] == av[b - pv.len()]);
            } else {
                assert(pres(pv[a]));
                assert(!pres(av[b - pv.len()]));
                assert(ov[b] == av[b - pv.len()]);
            }
        }
        lemma_ranked_no_dup(pres, ov);
        assert forall|s: Seq<char>| ov.contains(s) <==> f.contains(s) by {
            if ov.contains(s) {
                let x = choose|x: int| 0 <= x < ov.len() && ov[x] == s;
                if x < pv.len() {
                    assert(pv.contains(s));
                } else {
                    assert(av[x - pv.len()] == s);
                    assert(av.contains(s));
                }
            }
            if f.contains(s) {
                assert(fv.contains(s));
                if pres(s) {
                    assert(pv.contains(s));
                    let x = choose|x: int| 0 <= x < pv.len() && pv[x] == s;
                    assert(ov[x] == s);
                } else {
                    assert(av.contains(s));
                    let x = choose|x: int| 0 <= x < av.len() && av[x] == s;
                    assert(ov[pv.len() + x] == s);
                }
            }
        }
        assert(ov.to_set() =~= f);
    }
    Match::Ambiguous(out)
}

/// What a fuzzy match contributes to the inference pipeline: nothing, a sure
/// correction (`true`), or the top-ranked guess of an ambiguous tie (`false`).
#[verifier::opaque]
pub open spec fn fuzz_pick(
    token: Seq<char>,
    cands: Seq<Seq<char>>,
    max: u32,
    pres: spec_fn(Seq<char>) -> bool,
) -> Option<(bool, Seq<char>)> {
    let f = finalists(token, cands, max);
    if max == 0 || f.is_empty() {
        None
    } else if f.len() == 1 {
        Some((true, choose|w: Seq<char>| f == set![w]))
    } else if f.filter(pres).len() == 1 {
        Some((true, choose|w: Seq<char>| f.filter(pres) == set![w]))
    } else {
        Some(
            (
                false,
                choose|w: Seq<char>|
                    f.contains(w) && forall|y: Seq<char>|
                        f.contains(y) && y != w ==> ranks_before(pres, w, y),
            ),
        )
    }
}

/// The word a match offers: the sure correction, or the head of the ranking.
pub open spec fn offered(r: Match) -> Option<(bool, Seq<char>)> {
    match r {
        Match::NoMatch => None,
        Match::Unique(w) => Some((true, w@)),
        Match::Ambiguous(ws) => Some((false, ws@[0]@)),
    }
}

/// A match meeting [`match_spec`] offers exactly [`fuzz_pick`].
pub proof fn lemma_offered(
    r: Match,
    token: Seq<char>,
    cands: Seq<Seq<char>>,
    max: u32,
    pres: spec_fn(Seq<char>) -> bool,
)
    requires
        match_spec(r, token, cands, max, pres),
    ensures
        offered(r) == fuzz_pick(token, cands, max, pres),
        r is Ambiguous ==> r->Ambiguous_0@.len() > 0,
{
    reveal(fuzz_pick);
    let f = finalists(token, cands, max);
    match r {
        Match::NoMatch => {},
        Match::Unique(w) => {
            if f == set![w@] {
                assert(f.contains(w@));
                assert(f.len() == 1);
                let c = choose|x: Seq<char>| f == set![x];
                assert(set![c].contains(c));
                assert(c == w@);
            } else {
                let c = choose|x: Seq<char>| f.filter(pres) == set![x];
                assert(set![c].contains(c));
                assert(c == w@);
            }
        },
        Match::Ambiguous(ws) => {
            let v = tokens_view(ws@);
            assert(v.len() > 0) by {
                if v.len() == 0 {
                    assert(v.to_set() =~= Set::<Seq<char>>::empty());
                }
            }
            let top = v[0];
            assert(v.to_set().contains(top));
            assert forall|y: Seq<char>| f.contains(y) && y != top implies ranks_before(pres, top, y) by {
                assert(v.to_set().contains(y));
                let j = choose|j: int| 0 <= j < v.len() && v[j] == y;
                assert(j != 0);
            }
            let c = choose|w: Seq<char>|
                f.contains(w) && forall|y: Seq<char>|
                    f.contains(y) && y != w ==> ranks_before(pres, w, y);
            if c != top {
                assert(ranks_before(pres, c, top));
                assert(ranks_before(pres, top, c));
                if pres(c) == pres(top) {
                    lemma_lex_transitive(c, top, c);
                    lemma_lex_irreflexive(c);
                }
            }
        },
    }
}

/// Whether any candidate is a near miss of the token.
pub open spec fn has_near_miss(token: Seq<char>, cands: Seq<Seq<char>>, max: u32) -> bool {
    exists|k: int| 0 <= k < cands.len() && in_budget(token, #[trigger] cands[k], max)
}

proof fn lemma_a_closest_exists(token: Seq<char>, cands: Seq<Seq<char>>, max: u32)
    requires
        has_near_miss(token, cands, max),
    ensures
        exists|s: Seq<char>| closest(token, cands, max, s),
    decreases cands.len(),
{
    let d = cands.drop_last();
    let last = cands.last();
    if has_near_miss(token, d, max) {
        lemma_a_closest_exists(token, d, max);
        let s = choose|s: Seq<char>| closest(token, d, max, s);
        let i = choose|i: int| 0 <= i < d.len() && d[i] == s;
        assert(cands[i] == s);
        if in_budget(token, last, max) && osa_distance(token, last) < osa_distance(token, s) {
            assert forall|k: int| 0 <= k < cands.len() && in_budget(token, #[trigger] cands[k], max) implies osa_distance(
                token,
                last,
            ) <= osa_distance(token, cands[k]) by {
                if k < cands.len() - 1 {
                    assert(cands[k] == d[k]);
                }
            }
            assert(cands[cands.len() - 1] == last);
            assert(closest(token, cands, max, last));
        } else {
            assert forall|k: int| 0 <= k < cands.len() && in_budget(token, #[trigger] cands[k], max) implies osa_distance(
                token,
                s,
            ) <= osa_distance(token, cands[k]) by {
                if k < cands.len() - 1 {
                    assert(cands[k] == d[k]);
                }
            }
            assert(closest(token, cands, max, s));
        }
    } else {
        let k0 = choose|k: int| 0 <= k < cands.len() && in_budget(token, #[trigger] cands[k], max);
        assert(k0 == cands.len() - 1) by {
            if k0 < cands.len() - 1 {
                assert(d[k0] == cands[k0]);
            }
        }
        assert forall|k: int| 0 <= k < cands.len() && in_budget(token, #[trigger] cands[k], max) implies osa_distance(
            token,
            last,
        ) <= osa_distance(token, cands[k]) by {
            if k < cands.len() - 1 {
                assert(d[k] == cands[k]);
            }
        }
        assert(cands[cands.len() - 1] == last);
        assert(closest(token, cands, max, last));
    }
}

/// Fuzzy matching finds nothing exactly when correction is off for the
/// token's length (a zero budget) or no candidate is a near miss.
pub proof fn law_no_match_iff_no_near_miss(
    r: Match,
    token: Seq<char>,
    cands: Seq<Seq<char>>,
    max: u32,
    pres: spec_fn(Seq<char>) -> bool,
)
    requires
        match_spec(r, token, cands, max, pres),
    ensures
        r is NoMatch <==> (max == 0 || !has_near_miss(token, cands, max)),
{
    let f = finalists(token, cands, max);
    if has_near_miss(token, cands, max) {
        lemma_a_closest_exists(token, cands, max);
        let s = choose|s: Seq<char>| closest(token, cands, max, s);
        assert(f.contains(s));
    } else {
        assert(f =~= Set::<Seq<char>>::empty()) by {
            assert forall|s: Seq<char>| !f.contains(s) by {
                if closest(token, cands, max, s) {
                    let i = choose|i: int| 0 <= i < cands.len() && cands[i] == s;
                    assert(in_budget(token, cands[i], max));
                }
            }
        }
        match r {
            Match::Unique(w) => {
                assert(set![w@].contains(w@));
            },
            _ => {},
        }
    }
}

/// The order and repetition of the candidates never change the match: two
/// candidate lists holding the same words give the same finalists, so the
/// same results meet the contract.
pub proof fn law_candidate_order_does_not_matter(
    r: Match,
    token: Seq<char>,
    c1: Seq<Seq<char>>,
    c2: Seq<Seq<char>>,
    max: u32,
    pres: spec_fn(Seq<char>) -> bool,
)
    requires
        c1.to_set() == c2.to_set(),
    ensures
        finalists(token, c1, max) == finalists(token, c2, max),
        match_spec(r, token, c1, max, pres) == match_spec(r, token, c2, max, pres),
{
    lemma_closest_by_set(token, c1, c2, max);
    lemma_closest_by_set(token, c2, c1, max);
    assert(finalists(token, c1, max) =~= finalists(token, c2, max));
}

proof fn lemma_closest_by_set(token: Seq<char>, c1: Seq<Seq<char>>, c2: Seq<Seq<char>>, max: u32)
    requires
        c1.to_set() == c2.to_set(),
    ensures
        forall|s: Seq<char>| closest(token, c1, max, s) ==> closest(token, c2, max, s),
{
    assert forall|s: Seq<char>| closest(token, c1, max, s) implies closest(token, c2, max, s) by {
        assert(c1.to_set().contains(s));
        assert(c2.to_set().contains(s));
        assert forall|k: int| 0 <= k < c2.len() && in_budget(token, #[trigger] c2[k], max) implies osa_distance(
            token,
            s,
        ) <= osa_distance(token, c2[k]) by {
            assert(c2.to_set().contains(c2[k]));
            assert(c1.to_set().contains(c2[k]));
            let j = choose|j: int| 0 <= j < c1.len() && c1[j] == c2[k];
            assert(in_budget(token, c1[j], max));
        }
    }
}

proof fn lemma_ranks_total(pres: spec_fn(Seq<char>) -> bool, x: Seq<char>, y: Seq<char>)
    requires
        x != y,
    ensures
        ranks_before(pres, x, y) || ranks_before(pres, y, x),
{
    lemma_lex_total(x, y);
}

proof fn lemma_ranks_transitive(
    pres: spec_fn(Seq<char>) -> bool,
    x: Seq<char>,
    y: Seq<char>,
    z: Seq<char>,
)
    requires
        ranks_before(pres, x, y),
        ranks_before(pres, y, z),
    ensures
        ranks_before(pres, x, z),
{
    if pres(x) == pres(y) && pres(y) == pres(z) {
        lemma_lex_transitive(x, y, z);
    }
}

/// Among the first `k` candidates that lie in `f`, one ranks before all the
/// others.
proof fn lemma_top_among(
    f: Set<Seq<char>>,
    cands: Seq<Seq<char>>,
    pres: spec_fn(Seq<char>) -> bool,
    k: int,
)
    requires
        0 <= k <= cands.len(),
        exists|i: int| 0 <= i < k && f.contains(#[trigger] cands[i]),
    ensures
        exists|w: Seq<char>|
            #[trigger] f.contains(w) && forall|i: int|
                0 <= i < k && f.contains(#[trigger] cands[i]) && cands[i] != w ==> ranks_before(
                    pres,
                    w,
                    cands[i],
                ),
    decreases k,
{
    let c = cands[k - 1];
    if exists|i: int| 0 <= i < k - 1 && f.contains(#[trigger] cands[i]) {
        lemma_top_among(f, cands, pres, k - 1);
        let w = choose|w: Seq<char>|
            #[trigger] f.contains(w) && forall|i: int|
                0 <= i < k - 1 && f.contains(#[trigger] cands[i]) && cands[i] != w ==> ranks_before(
                    pres,
                    w,
                    cands[i],
                );
        if f.contains(c) && c != w && ranks_before(pres, c, w) {
            assert forall|i: int|
                0 <= i < k && f.contains(#[trigger] cands[i]) && cands[i] != c implies ranks_before(
                pres,
                c,
                cands[i],
            ) by {
                if cands[i] != w {
                    lemma_ranks_transitive(pres, c, w, cands[i]);
                }
            }
        } else {
            if f.contains(c) && c != w {
                lemma_ranks_total(pres, c, w);
            }
            assert forall|i: int|
                0 <= i < k && f.contains(#[trigger] cands[i]) && cands[i] != w implies ranks_before(
                pres,
                w,
                cands[i],
            ) by {}
        }
    } else {
        assert forall|i: int|
            0 <= i < k && f.contains(#[trigger] cands[i]) && cands[i] != c implies ranks_before(
            pres,
            c,
            cands[i],
        ) by {
            assert(i == k - 1);
        }
        assert(f.contains(cands[k - 1]));
    }
}

/// Whatever fuzzy matching offers, sure or a guess, is one of the candidates.
pub proof fn lemma_fuzz_pick_is_candidate(
    token: Seq<char>,
    cands: Seq<Seq<char>>,
    max: u32,
    pres: spec_fn(Seq<char>) -> bool,
)
    requires
        fuzz_pick(token, cands, max, pres) is Some,
    ensures
        cands.contains((fuzz_pick(token, cands, max, pres)->0).1),
{
    reveal(fuzz_pick);
    let f = finalists(token, cands, max);
    assert(f.subset_of(cands.to_set()));
    vstd::seq_lib::seq_to_set_is_finite(cands);
    vstd::set_lib::lemma_set_subset_finite(cands.to_set(), f);
    let x = choose|x: Seq<char>| f.contains(x);
    assert(f.contains(x)) by {
        if !f.contains(x) {
            assert(f =~= Set::<Seq<char>>::empty());
        }
    }
    if f.len() == 1 {
        Set::lemma_is_singleton(f);
        assert(f =~= set![x]);
        let w = choose|w: Seq<char>| f == set![w];
        assert(set![w].contains(w));
        assert(f.contains(w));
    } else if f.filter(pres).len() == 1 {
        let g = f.filter(pres);
        assert(g.subset_of(f));
        vstd::set_lib::lemma_set_subset_finite(f, g);
        vstd::set::axiom_set_choose_len(g);
        let y = g.choose();
        Set::lemma_is_singleton(g);
        assert(g =~= set![y]);
        let w = choose|w: Seq<char>| g == set![w];
        assert(set![w].contains(w));
        assert(g.contains(w));
    } else {
        let i0 = choose|i: int| 0 <= i < cands.len() && cands[i] == x;
        assert(f.contains(cands[i0]));
        lemma_top_among(f, cands, pres, cands.len() as int);
        let w = choose|w: Seq<char>|
            #[trigger] f.contains(w) && forall|i: int|
                0 <= i < cands.len() && f.contains(#[trigger] cands[i]) && cands[i] != w
                    ==> ranks_before(pres, w, cands[i]);
        assert forall|y: Seq<char>| f.contains(y) && y != w implies ranks_before(pres, w, y) by {
            let i = choose|i: int| 0 <= i < cands.len() && cands[i] == y;
            assert(f.contains(cands[i]));
        }
        let r = choose|r: Seq<char>|
            f.contains(r) && forall|y: Seq<char>| f.contains(y) && y != r ==> ranks_before(pres, r, y);
        assert(f.contains(r));
    }
}

/// A [`Match`] by the characters of its words.
pub enum MatchView {
    NoMatch,
    Unique(Seq<char>),
    Ambiguous(Seq<Seq<char>>),
}

impl View for Match {
    type V = MatchView;

    open spec fn view(&self) -> MatchView {
        match self {
            Match::NoMatch => MatchView::NoMatch,
            Match::Unique(w) => MatchView::Unique(w@),
            Match::Ambiguous(ws) => MatchView::Ambiguous(tokens_view(ws@)),
        }
    }
}

proof fn lemma_ranks_asymmetric(pres: spec_fn(Seq<char>) -> bool, x: Seq<char>, y: Seq<char>)
    requires
        ranks_before(pres, x, y),
    ensures
        !ranks_before(pres, y, x),
{
    if ranks_before(pres, y, x) {
        lemma_ranks_transitive(pres, x, y, x);
        lemma_lex_irreflexive(x);
    }
}

/// Two ranked lists without repeats that hold the same words are the same
/// list: the ranking leaves no choice of order.
proof fn lemma_ranked_unique(pres: spec_fn(Seq<char>) -> bool, s1: Seq<Seq<char>>, s2: Seq<Seq<char>>)
    requires
        ranked(pres, s1),
        ranked(pres, s2),
        s1.to_set() == s2.to_set(),
    ensures
        s1 == s2,
    decreases s1.len(),
{
    if s1.len() == 0 {
        if s2.len() > 0 {
            assert(s2.to_set().contains(s2[0]));
        }
        assert(s2.len() == 0);
        assert(s1 =~= s2);
    } else {
        assert(s1.to_set().contains(s1[0]));
        assert(s2.len() > 0);
        let a = s1[0];
        let b = s2[0];
        if a != b {
            assert(s2.to_set().contains(a));
            let j = choose|j: int| 0 <= j < s2.len() && s2[j] == a;
            assert(j > 0);
            assert(ranks_before(pres, b, a));
            assert(s1.to_set().contains(b));
            let i = choose|i: int| 0 <= i < s1.len() && s1[i] == b;
            assert(i > 0);
            assert(ranks_before(pres, a, b));
            lemma_ranks_asymmetric(pres, a, b);
        }
        lemma_ranked_no_dup(pres, s1);
        lemma_ranked_no_dup(pres, s2);
        let t1 = s1.drop_first();
        let t2 = s2.drop_first();
        assert forall|i: int, j: int| 0 <= i < j < t1.len() implies ranks_before(
            pres,
            #[trigger] t1[i],
            #[trigger] t1[j],
        ) by {
            assert(t1[i] == s1[i + 1] && t1[j] == s1[j + 1]);
        }
        assert forall|i: int, j: int| 0 <= i < j < t2.len() implies ranks_before(
            pres,
            #[trigger] t2[i],
            #[trigger] t2[j],
        ) by {
            assert(t2[i] == s2[i + 1] && t2[j] == s2[j + 1]);
        }
        assert(t1.to_set() =~= t2.to_set()) by {
            assert forall|x: Seq<char>| t1.to_set().contains(x) <==> t2.to_set().contains(x) by {
                if t1.contains(x) {
                    let i = choose|i: int| 0 <= i < t1.len() && t1[i] == x;
                    assert(s1[i + 1] == x);
                    assert(s1.to_set().contains(x));
                    let j = choose|j: int| 0 <= j < s2.len() && s2[j] == x;
                    assert(j != 0);
                    assert(t2[j - 1] == x);
                }
                if t2.contains(x) {
                    let j = choose|j: int| 0 <= j < t2.len() && t2[j] == x;
                    assert(s2[j + 1] == x);
                    assert(s2.to_set().contains(x));
                    let i = choose|i: int| 0 <= i < s1.len() && s1[i] == x;
                    assert(i != 0);
                    assert(t1[i - 1] == x);
                }
            }
        }
        lemma_ranked_unique(pres, t1, t2);
        assert(s1 =~= seq![a] + t1);
        assert(s2 =~= seq![b] + t2);
    }
}

/// Fuzzy matching has one answer: any two results that meet [`match_spec`]
/// for the same token, candidates, budget and presence test hold the same
/// words in the same order. With [`law_candidate_order_does_not_matter`], the
/// order and repetition of the candidates never change the match.
pub proof fn law_the_match_is_unique(
    r1: Match,
    r2: Match,
    token: Seq<char>,
    cands: Seq<Seq<char>>,
    max: u32,
    pres: spec_fn(Seq<char>) -> bool,
)
    requires
        match_spec(r1, token, cands, max, pres),
        match_spec(r2, token, cands, max, pres),
    ensures
        r1@ == r2@,
{
    let f = finalists(token, cands, max);
    assert(f.subset_of(cands.to_set()));
    vstd::seq_lib::seq_to_set_is_finite(cands);
    vstd::set_lib::lemma_set_subset_finite(cands.to_set(), f);
    if f.is_empty() {
        assert(f.len() == 0);
    }
    match (r1, r2) {
        (Match::Unique(w1), Match::Unique(w2)) => {
            if f == set![w1@] {
                assert(f.len() == 1);
                assert(f.contains(w2@) || f.filter(pres).contains(w2@));
                assert(set![w2@].contains(w2@));
            } else {
                assert(f.filter(pres) == set![w1@]);
                assert(set![w1@].contains(w1@));
                if f == set![w2@] {
                    assert(f.len() == 1);
                } else {
                    assert(set![w2@].contains(w2@));
                }
            }
        },
        (Match::Unique(w1), Match::Ambiguous(_)) => {
            if f == set![w1@] {
                assert(f.len() == 1);
            }
        },
        (Match::Ambiguous(_), Match::Unique(w2)) => {
            if f == set![w2@] {
                assert(f.len() == 1);
            }
        },
        (Match::Ambiguous(a1), Match::Ambiguous(a2)) => {
            lemma_ranked_unique(pres, tokens_view(a1@), tokens_view(a2@));
        },
        (Match::NoMatch, Match::Unique(w2)) => {
            if max != 0 {
                assert(set![w2@].contains(w2@));
                if f == set![w2@] {
                    assert(f.contains(w2@));
                } else {
                    assert(f.filter(pres).contains(w2@));
                }
            }
        },
        (Match::Unique(w1), Match::NoMatch) => {
            if max != 0 {
                assert(set![w1@].contains(w1@));
                if f == set![w1@] {
                    assert(f.contains(w1@));
                } else {
                    assert(f.filter(pres).contains(w1@));
                }
            }
        },
        _ => {},
    }
}

/// Fuzzy matching against two candidate lists that hold the same words, in
/// any order and with any repeats, gives the same match.
pub proof fn law_reordered_candidates_give_the_same_match(
    r1: Match,
    r2: Match,
    token: Seq<char>,
    c1: Seq<Seq<char>>,
    c2: Seq<Seq<char>>,
    max: u32,
    pres: spec_fn(Seq<char>) -> bool,
)
    requires
        c1.to_set() == c2.to_set(),
        match_spec(r1, token, c1, max, pres),
        match_spec(r2, token, c2, max, pres),
    ensures
        r1@ == r2@,
{
    law_candidate_order_does_not_matter(r2, token, c1, c2, max, pres);
    law_the_match_is_unique(r1, r2, token, c1, max, pres);
}

} // verus!

//! The titles a finished journey earns and the hall of fame. A successful
//! Kaintuck walks into Nashville rich, with his crew paid and his name good.

use vstd::prelude::*;

verus! {

/// How a journey ended.
#[derive(Debug, Clone, Copy, PartialEq, Eq)]
pub enum GameOverCause {
    BoatWrecked,
    Drowned,
    BanditMurder,
    Disease,
    Starved,
    LostInWoods,
    Victory,
}

/// The summary of a finished journey, as the end screen and the hall of fame
/// read it.
#[derive(Debug, Clone, PartialEq, Eq)]
pub struct EndGame {
    pub won: bool,
    /// The ending's narration.
    pub cause: String,
    pub cause_kind: GameOverCause,
    pub score: i64,
    pub rank: String,
    pub cash: i64,
    pub debt: i64,
    pub crew_survived: i64,
    pub reputation: i64,
    pub robbed: bool,
    pub miles: i64,
    pub days: i64,
    /// Whether this ending has been written to the hall of fame.
    pub recorded: bool,
}

/// One title and the least score that earns it.
pub struct RankThreshold {
    pub min: i64,
    pub name: String,
}

/// The scenario's titles, best first, and the title for a score that earns
/// none of them.
pub struct RankTable {
    pub ranks: Vec<RankThreshold>,
    pub floor_rank: String,
}

/// Where in the list the title for `score` sits: the first entry whose
/// minimum the score reaches, or the list's length when none is reached (the
/// floor title).
pub open spec fn rank_index(ranks: Seq<RankThreshold>, score: i64) -> nat
    decreases ranks.len(),
{
    if ranks.len() == 0 {
        0
    } else if score >= ranks[0].min {
        0
    } else {
        1 + rank_index(ranks.drop_first(), score)
    }
}

/// The title a score earns.
pub open spec fn rank_spec(t: RankTable, score: i64) -> Seq<char> {
    let i = rank_index(t.ranks@, score);
    if i < t.ranks@.len() {
        t.ranks@[i as int].name@
    } else {
        t.floor_rank@
    }
}

/// The title a final score earns: the first (best) title whose minimum it
/// reaches, else the floor title.
pub fn rank(score: i64, table: &RankTable) -> (r: &str)
    ensures
        r@ == rank_spec(*table, score),
{
    let mut i: usize = 0;
    assert(table.ranks@.skip(0) =~= table.ranks@);
    while i < table.ranks.len()
        invariant
            i <= table.ranks@.len(),
            rank_index(table.ranks@, score) == i + rank_index(table.ranks@.skip(i as int), score),
        decreases table.ranks@.len() - i,
    {
        proof {
            assert(table.ranks@.skip(i as int)[0] == table.ranks@[i as int]);
            assert(table.ranks@.skip(i as int).drop_first() =~= table.ranks@.skip(i + 1));
        }
        if score >= table.ranks[i].min {
            return table.ranks[i].name.as_str();
        }
        i += 1;
    }
    proof {
        assert(table.ranks@.skip(i as int).len() == 0);
    }
    table.floor_rank.as_str()
}

/// Whether the titles are listed best first: minimums never rise down the list.
pub open spec fn best_first(ranks: Seq<RankThreshold>) -> bool {
    forall|i: int, j: int| 0 <= i < j < ranks.len() ==> #[trigger] ranks[j].min <= #[trigger] ranks[i].min
}

proof fn lemma_rank_index_bound(ranks: Seq<RankThreshold>, score: i64)
    ensures
        rank_index(ranks, score) <= ranks.len(),
        rank_index(ranks, score) < ranks.len() ==> score >= ranks[rank_index(ranks, score) as int].min,
        forall|k: int| 0 <= k < rank_index(ranks, score) ==> score < #[trigger] ranks[k].min,
    decreases ranks.len(),
{
    if ranks.len() > 0 && score < ranks[0].min {
        lemma_rank_index_bound(ranks.drop_first(), score);
        assert forall|k: int| 0 <= k < rank_index(ranks, score) implies score < #[trigger] ranks[k].min by {
            if k > 0 {
                assert(ranks[k] == ranks.drop_first()[k - 1]);
            }
        }
    }
}

/// With titles listed best first, a higher score never earns a lower title:
/// the title for `b >= a` sits at or above the title for `a` in the list.
pub proof fn law_rank_is_monotone(t: RankTable, a: i64, b: i64)
    requires
        best_first(t.ranks@),
        a <= b,
    ensures
        rank_index(t.ranks@, b) <= rank_index(t.ranks@, a),
{
    lemma_rank_index_bound(t.ranks@, a);
    lemma_rank_index_bound(t.ranks@, b);
    let ia = rank_index(t.ranks@, a);
    let ib = rank_index(t.ranks@, b);
    if ia < ib {
        assert(a >= t.ranks@[ia as int].min);
        assert(b < t.ranks@[ia as int].min);
    }
}

/// One line in the hall of fame.
#[derive(Debug, Clone, PartialEq, Eq)]
pub struct HighScore {
    pub trader: String,
    pub score: i64,
    pub rank: String,
    pub won: bool,
}

impl HighScore {
    /// The hall-of-fame line for `trader`'s finished journey.
    pub fn from_end(trader: &str, end: &EndGame) -> (h: HighScore)
        ensures
            h.trader@ == trader@,
            h.score == end.score,
            h.rank@ == end.rank@,
            h.won == end.won,
    {
        HighScore { trader: trader.to_owned(), score: end.score, rank: end.rank.clone(), won: end.won }
    }
}

} // verus!

use kaintuck::distance::damerau_levenshtein_bounded;
use kaintuck::engine::{infer, Inference, InferConfig};
use kaintuck::resolve::{best_match, Match};

// ----- distance -----

#[test]
fn exact_match_is_zero() {
    assert_eq!(damerau_levenshtein_bounded("lamp", "lamp", 2), Some(0));
}

#[test]
fn single_edits() {
    assert_eq!(damerau_levenshtein_bounded("lmap", "lamp", 2), Some(1)); // transpose
    assert_eq!(damerau_levenshtein_bounded("birdd", "bird", 2), Some(1)); // delete
    assert_eq!(damerau_levenshtein_bounded("doer", "door", 2), Some(1)); // substitute
    assert_eq!(damerau_levenshtein_bounded("tak", "take", 2), Some(1)); // insert
}

#[test]
fn transpose_plus_insert() {
    // tabel -> table (transpose) -> tablet (insert): distance 2.
    assert_eq!(damerau_levenshtein_bounded("tabel", "tablet", 2), Some(2));
}

#[test]
fn returns_none_past_budget() {
    assert_eq!(damerau_levenshtein_bounded("tabel", "tablet", 1), None);
    assert_eq!(damerau_levenshtein_bounded("qwerty", "lamp", 2), None);
}

#[test]
fn length_gap_short_circuit() {
    // 5-char gap, budget 2 — rejected on the length check alone.
    assert_eq!(damerau_levenshtein_bounded("a", "abcdef", 2), None);
}

#[test]
fn empty_strings() {
    assert_eq!(damerau_levenshtein_bounded("", "", 0), Some(0));
    assert_eq!(damerau_levenshtein_bounded("", "ab", 2), Some(2));
}

#[test]
fn distance_is_symmetric_on_examples() {
    for (a, b) in [("lmap", "lamp"), ("tabel", "tablet"), ("ca", "abc"), ("", "xyz")] {
        assert_eq!(
            damerau_levenshtein_bounded(a, b, 10),
            damerau_levenshtein_bounded(b, a, 10)
        );
    }
}

#[test]
fn osa_does_not_edit_a_substring_twice() {
    // Full Damerau would give 2 ("ca" -> "ac" -> "abc"); OSA forbids editing the
    // transposed pair again, so it is 3.
    assert_eq!(damerau_levenshtein_bounded("ca", "abc", 5), Some(3));
}

#[test]
fn distances_count_characters_not_bytes() {
    assert_eq!(damerau_levenshtein_bounded("café", "cafe", 2), Some(1));
}

#[test]
fn row_pruning_agrees_with_the_full_distance() {
    // Distance 4, budget 3: the early exit must answer None, budget 4 the number.
    assert_eq!(damerau_levenshtein_bounded("abcd", "wxyz", 3), None);
    assert_eq!(damerau_levenshtein_bounded("abcd", "wxyz", 4), Some(4));
}

// ----- resolve -----

fn t(len: usize) -> u32 {
    match len {
        0..=3 => 0,
        4 => 1,
        _ => 2,
    }
}

const NONE: &dyn Fn(&str) -> bool = &|_| false;

#[test]
fn unique_correction() {
    let cands = ["lamp", "bird", "tablet"];
    assert_eq!(best_match("lmap", &cands, t, NONE), Match::Unique("lamp".into()));
}

#[test]
fn short_tokens_are_not_corrected() {
    let cands = ["rod", "red", "rid"];
    assert_eq!(best_match("rad", &cands, t, NONE), Match::NoMatch);
}

#[test]
fn no_candidate_within_budget() {
    let cands = ["lamp", "bird"];
    assert_eq!(best_match("qwerty", &cands, t, NONE), Match::NoMatch);
}

#[test]
fn tie_is_ambiguous_without_presence() {
    let cands = ["cave", "case"];
    // "cale" is distance 1 from both (cave and case differ only at index 2).
    assert_eq!(
        best_match("cale", &cands, t, NONE),
        Match::Ambiguous(vec!["case".into(), "cave".into()])
    );
}

#[test]
fn presence_breaks_a_tie() {
    let cands = ["cave", "case"];
    let present = |w: &str| w == "cave";
    assert_eq!(best_match("cale", &cands, t, &present), Match::Unique("cave".into()));
}

#[test]
fn exact_hits_are_not_offered_as_corrections() {
    // "lamp" is at distance 0 from itself and so ignored; "lame" is the near miss.
    let cands = ["lamp", "lame"];
    assert_eq!(best_match("lamp", &cands, t, NONE), Match::Unique("lame".into()));
}

#[test]
fn duplicate_candidates_collapse() {
    let cands = ["lamp", "lamp"];
    assert_eq!(best_match("lmap", &cands, t, NONE), Match::Unique("lamp".into()));
}

#[test]
fn ambiguous_ranks_present_first() {
    let cands = ["cave", "case", "cane"];
    let present = |w: &str| w == "cave" || w == "cane";
    assert_eq!(
        best_match("cage", &cands, t, &present),
        Match::Ambiguous(vec!["cane".into(), "cave".into(), "case".into()])
    );
}

// ----- engine -----

fn words(s: &str) -> Vec<String> {
    s.split_whitespace().map(String::from).collect()
}

/// A tiny fake vocabulary standing in for a real game's parser. Verbs: take,
/// drop, look, inventory, on. Nouns: lamp, bird, tablet, rod. Accepted shapes:
/// a single known word, or verb+noun / noun+verb.
struct Vocab;
impl Vocab {
    const VERBS: &'static [&'static str] = &["take", "drop", "look", "inventory", "on", "throw"];
    const NOUNS: &'static [&'static str] = &["lamp", "bird", "tablet", "rod"];
    fn known(w: &str) -> bool {
        Self::VERBS.contains(&w) || Self::NOUNS.contains(&w)
    }
    fn resolves(ws: &[String]) -> bool {
        match ws.len() {
            1 => Self::known(&ws[0]),
            2 => {
                let (a, b) = (ws[0].as_str(), ws[1].as_str());
                (Self::VERBS.contains(&a) && Self::NOUNS.contains(&b))
                    || (Self::NOUNS.contains(&a) && Self::VERBS.contains(&b))
            }
            _ => false,
        }
    }
}

fn cfg() -> InferConfig<fn(usize) -> u32> {
    let filler = ["the", "a", "at", "to"].into_iter().map(String::from).collect::<Vec<_>>();
    let aliases = [("get", "take"), ("x", "look"), ("i", "inventory")]
        .into_iter()
        .map(|(k, v)| (k.to_string(), v.to_string()))
        .collect::<Vec<_>>();
    let phrasal = [(("pick", "up"), "take"), (("turn", "on"), "on"), (("look", "at"), "look")]
        .into_iter()
        .map(|((a, b), v)| ((a.to_string(), b.to_string()), v.to_string()))
        .collect::<Vec<_>>();
    InferConfig {
        filler,
        aliases,
        phrasal,
        max_words: 2,
        thresh: |len| match len {
            0..=3 => 0,
            4 => 1,
            _ => 2,
        },
    }
}

fn run(input: &str, present: &dyn Fn(&str) -> bool) -> Inference {
    let cands = Vocab::NOUNS
        .iter()
        .chain(Vocab::VERBS.iter())
        .copied()
        .collect::<Vec<_>>();
    infer(&words(input), &cfg(), &cands, &|w: &[String]| Vocab::resolves(w), present)
}

const ALL: &dyn Fn(&str) -> bool = &|_| true;

#[test]
fn already_valid_is_unchanged() {
    assert_eq!(run("take lamp", NONE), Inference::Unchanged);
    assert_eq!(run("lamp", NONE), Inference::Unchanged);
    assert_eq!(run("inventory", NONE), Inference::Unchanged);
}

#[test]
fn filler_is_stripped() {
    assert_eq!(run("take the lamp", NONE), Inference::Rewrite(words("take lamp")));
    assert_eq!(run("look at bird", NONE), Inference::Rewrite(words("look bird")));
}

#[test]
fn lone_filler_stays_unresolved() {
    assert_eq!(run("the", NONE), Inference::Unresolved);
}

#[test]
fn phrasal_collapses() {
    assert_eq!(run("pick up lamp", NONE), Inference::Rewrite(words("take lamp")));
    assert_eq!(run("turn on lamp", NONE), Inference::Rewrite(words("on lamp")));
}

#[test]
fn alias_expands_only_unknown_tokens() {
    assert_eq!(run("x bird", NONE), Inference::Rewrite(words("look bird")));
    assert_eq!(run("i", NONE), Inference::Rewrite(words("inventory")));
}

#[test]
fn collapses_long_input_to_pair() {
    assert_eq!(
        run("take the big brass lamp", NONE),
        Inference::Rewrite(words("take lamp"))
    );
}

#[test]
fn fuzzy_corrects_unambiguous_typos() {
    assert_eq!(run("take lmap", NONE), Inference::Rewrite(words("take lamp")));
    assert_eq!(run("lmap", NONE), Inference::Rewrite(words("lamp")));
    assert_eq!(run("tablt", NONE), Inference::Rewrite(words("tablet")));
}

#[test]
fn gibberish_is_unresolved() {
    assert_eq!(run("qwerty zxcvb", NONE), Inference::Unresolved);
}

// A vocab where "cave"/"case" are takeable nouns, used to force a fuzzy tie:
// "cale" is edit-distance 1 from both.
fn tie_resolves(ws: &[String]) -> bool {
    let known = |w: &str| ["take", "cave", "case"].contains(&w);
    match ws.len() {
        1 => known(&ws[0]),
        2 => ws[0] == "take" && ["cave", "case"].contains(&ws[1].as_str()),
        _ => false,
    }
}

#[test]
fn ambiguous_typo_offers_did_you_mean() {
    let cands = ["cave", "case", "take"];
    let mut c = cfg();
    c.aliases.clear();
    let out = infer(&words("take cale"), &c, &cands, &tie_resolves, NONE);
    match out {
        // Tie ranked alphabetically when nothing is present -> top is "case".
        Inference::DidYouMean(w) => assert_eq!(w, words("take case")),
        other => panic!("expected DidYouMean, got {other:?}"),
    }
}

#[test]
fn presence_makes_ambiguous_into_silent_rewrite() {
    let cands = ["cave", "case", "take"];
    let mut c = cfg();
    c.aliases.clear();
    let present = |w: &str| w == "cave";
    let out = infer(&words("take cale"), &c, &cands, &tie_resolves, &present);
    assert_eq!(out, Inference::Rewrite(words("take cave")));
}

#[test]
fn does_not_drop_noun_from_short_command() {
    // "take lmap" must not settle to bare "take"; fuzzy fixes the noun.
    assert_ne!(run("take lmap", ALL), Inference::Rewrite(words("take")));
}

#[test]
fn a_rewrite_never_exceeds_max_words() {
    for input in ["take the big brass lamp", "pick up the lamp now", "x the bird please"] {
        if let Inference::Rewrite(w) = run(input, NONE) {
            assert!(!w.is_empty() && w.len() <= 2, "{input:?} -> {w:?}");
            assert!(Vocab::resolves(&w));
        }
    }
}

#[test]
fn a_one_word_budget_never_shortens() {
    let mut c = cfg();
    c.max_words = 1;
    let cands = ["lamp"];
    let out = infer(&words("take the lamp"), &c, &cands, &|w: &[String]| Vocab::resolves(w), NONE);
    assert_eq!(out, Inference::Unresolved);
}

#[test]
fn shortening_keeps_the_longest_resolving_subsequence() {
    // Both "take lamp" and "take brass lamp" resolve; with room for three
    // words the longer one wins.
    let accepts = |ws: &[String]| {
        let v: Vec<&str> = ws.iter().map(|s| s.as_str()).collect();
        v == ["take", "lamp"] || v == ["take", "brass", "lamp"]
    };
    let mut c = cfg();
    c.max_words = 3;
    let out = infer(&words("take big brass lamp now"), &c, &[], &accepts, NONE);
    assert_eq!(out, Inference::Rewrite(words("take brass lamp")));
    c.max_words = 2;
    let out = infer(&words("take big brass lamp now"), &c, &[], &accepts, NONE);
    assert_eq!(out, Inference::Rewrite(words("take lamp")));
}

#[test]
fn offered_words_come_from_input_tables_or_candidates() {
    let c = cfg();
    let cands: Vec<&str> = Vocab::NOUNS.iter().chain(Vocab::VERBS.iter()).copied().collect();
    for input in [
        "take the big brass lamp",
        "pick up lamp",
        "x bird",
        "take lmap",
        "tablt",
        "get the rod",
    ] {
        let raw = words(input);
        let known = |w: &String| {
            raw.contains(w)
                || c.aliases.iter().any(|(_, v)| v == w)
                || c.phrasal.iter().any(|(_, v)| v == w)
                || cands.contains(&w.as_str())
        };
        match run(input, NONE) {
            Inference::Rewrite(w) | Inference::DidYouMean(w) => {
                assert!(w.iter().all(|x| known(x)), "{input:?} -> {w:?}")
            }
            _ => {}
        }
    }
}

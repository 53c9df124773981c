use kaintuck::flavor::{good_index, good_name, pick, town_name, Catalog, Phrasing};
use kaintuck::format::group_thousands;
use kaintuck::gossip::{
    rotate, GossipEvent, GossipFeed, GossipFlavor, GossipKind, PersonaEpithet,
};
use kaintuck::hash::fnv1a;
use kaintuck::market_link::Side;
use kaintuck::policy::{Cautious, GreedyProfit, Persona, PolicyKind};
use kaintuck::rumor::{band_key, Rumor, RumorFlavor, RumorSource};
use kaintuck::scoring::{rank, EndGame, GameOverCause, HighScore, RankTable, RankThreshold};
use kaintuck::tasks::{hazard_task, CardTask, MiniTask, Mode, SteadyTask};
use kaintuck::policy::{band_result, BandResult};
use kaintuck::policy::{Move, Pace, Situation};
use kaintuck::tasks::{
    brigade_tier, crowd_tier, dose_tier, heave_tier, hotcold_tier, hunter_tier, patch_tier, quick_tier,
    resolve_tier, self_repair_tier, steady_tier, Tier,
};

fn strings(xs: &[&str]) -> Vec<String> {
    xs.iter().map(|s| s.to_string()).collect()
}

/// The river and its goods, as the scenario lists them.
fn catalog() -> Catalog {
    Catalog {
        goods: strings(&["Flour", "Whiskey", "Pork", "Tobacco", "Hemp", "Iron", "Furs"]),
        towns: strings(&[
            "Pittsburgh",
            "Wheeling",
            "Marietta",
            "Gallipolis",
            "Cincinnati",
            "Louisville",
            "Cave-in-Rock",
            "Memphis",
            "Natchez",
        ]),
    }
}

fn phrasing(kind: &str, templates: &[&str]) -> Phrasing {
    Phrasing { kind: kind.to_string(), templates: strings(templates) }
}

fn gossip_flavor() -> GossipFlavor {
    GossipFlavor {
        voices: strings(&["Jeb", "Old Tom", "Cookie"]),
        lines: vec![
            phrasing(
                "trade_buy",
                &[
                    "{trader}, the {persona} one, bought up {good} at {town}.",
                    "Word is {trader} cleaned out the {good} at {town}.",
                ],
            ),
            phrasing("trade_sell", &["{trader} dumped {good} on {town}."]),
            phrasing("arrived", &["{trader} put in at {town}."]),
            phrasing("lost", &["Poor {trader}, {persona} to the end. {cause}"]),
            phrasing("won", &["{trader} made it home."]),
        ],
        personas: vec![
            PersonaEpithet { key: "greedy".to_string(), epithet: "grasping".to_string() },
            PersonaEpithet { key: "cautious".to_string(), epithet: "careful".to_string() },
            PersonaEpithet { key: "reckless".to_string(), epithet: "devil-may-care".to_string() },
        ],
    }
}

// ----- gossip -----

#[test]
fn compose_fills_trader_persona_good_and_town() {
    // A notable buy → names the trader, the good, and the town.
    let e = GossipEvent {
        trader: "Lemuel Boggs".into(),
        persona: Persona::Greedy,
        kind: GossipKind::Trade {
            town: 5, // Louisville
            good: 1, // Whiskey
            side: Side::Buy,
            qty: 60,
        },
    };
    let (voice, line) = e.compose(&gossip_flavor(), &catalog()).expect("kaintuck has gossip flavor");
    assert!(!voice.is_empty());
    assert!(line.contains("Lemuel Boggs"), "line: {line}");
    assert!(line.to_lowercase().contains("whiskey"), "line: {line}");
    // The town name resolved (not a leftover placeholder).
    assert!(!line.contains("{town}") && !line.contains("{good}"), "line: {line}");
}

#[test]
fn compose_resolves_cause_and_persona() {
    let e = GossipEvent {
        trader: "Big Reuben Pike".into(),
        persona: Persona::Reckless,
        kind: GossipKind::Lost { cause: "The boat broke up at the Falls.".into() },
    };
    let (_voice, line) = e.compose(&gossip_flavor(), &catalog()).unwrap();
    assert!(line.contains("Big Reuben Pike"));
    assert!(line.contains("broke up"), "cause not interpolated: {line}");
    assert!(!line.contains('{'), "unresolved placeholder: {line}");
    assert!(line.contains("devil-may-care"), "persona not interpolated: {line}");
}

#[test]
fn compose_picks_voice_and_template_by_the_rotation() {
    let e = GossipEvent {
        trader: "Lemuel Boggs".into(),
        persona: Persona::Greedy,
        kind: GossipKind::Trade { town: 5, good: 1, side: Side::Buy, qty: 60 },
    };
    let r = rotate("Lemuel Boggs", "trade_buy");
    let mut buf = "Lemuel Boggs".as_bytes().to_vec();
    buf.extend_from_slice(b"trade_buy");
    assert_eq!(r, fnv1a(&buf));
    let f = gossip_flavor();
    let (voice, line) = e.compose(&f, &catalog()).unwrap();
    assert_eq!(voice, f.voices[(r % 3) as usize]);
    let expected = if r % 2 == 0 {
        "Lemuel Boggs, the grasping one, bought up whiskey at Louisville."
    } else {
        "Word is Lemuel Boggs cleaned out the whiskey at Louisville."
    };
    assert_eq!(line, expected);
}

#[test]
fn compose_is_none_without_voices_or_phrasing() {
    let robbed = GossipEvent {
        trader: "Ezra".into(),
        persona: Persona::Cautious,
        kind: GossipKind::Robbed,
    };
    // No phrasing for "robbed".
    assert!(robbed.compose(&gossip_flavor(), &catalog()).is_none());
    // No voices at all.
    let mut silent = gossip_flavor();
    silent.voices.clear();
    let won = GossipEvent { trader: "Ezra".into(), persona: Persona::Cautious, kind: GossipKind::Won { score: 10 } };
    assert!(won.compose(&silent, &catalog()).is_none());
    // An empty phrasing for the kind also yields nothing.
    let mut empty = gossip_flavor();
    empty.lines = vec![phrasing("won", &[])];
    assert!(won.compose(&empty, &catalog()).is_none());
}

#[test]
fn out_of_range_good_and_town_fill_empty() {
    let e = GossipEvent {
        trader: "Ada".into(),
        persona: Persona::Cautious,
        kind: GossipKind::Trade { town: 99, good: 99, side: Side::Sell, qty: 1 },
    };
    let (_v, line) = e.compose(&gossip_flavor(), &catalog()).unwrap();
    assert_eq!(line, "Ada dumped  on .");
}

#[test]
fn template_fields_name_the_kind() {
    let k = GossipKind::Trade { town: 3, good: 2, side: Side::Sell, qty: 5 };
    assert_eq!(k.template_fields(), ("trade_sell", Some(2), Some(3)));
    assert_eq!(GossipKind::Arrived { town: 4 }.template_fields(), ("arrived", None, Some(4)));
    assert_eq!(GossipKind::ReachedNatchez.template_fields(), ("reached_natchez", None, None));
    assert_eq!(GossipKind::SetOutOnTrace.template_fields(), ("set_out_on_trace", None, None));
}

fn ev(n: usize) -> GossipEvent {
    GossipEvent { trader: format!("t{n}"), persona: Persona::Greedy, kind: GossipKind::Robbed }
}

#[test]
fn feed_is_first_in_first_out() {
    let mut feed = GossipFeed::default();
    assert!(feed.is_empty());
    for n in 0..3 {
        feed.push(ev(n));
    }
    assert_eq!(feed.len(), 3);
    assert_eq!(feed.take_oldest(), Some(ev(0)));
    assert_eq!(feed.take_oldest(), Some(ev(1)));
    assert_eq!(feed.take_oldest(), Some(ev(2)));
    assert_eq!(feed.take_oldest(), None);
    assert!(feed.is_empty());
}

#[test]
fn feed_drops_the_oldest_when_full() {
    let mut feed = GossipFeed::default();
    for n in 0..GossipFeed::CAP + 4 {
        feed.push(ev(n));
    }
    assert_eq!(feed.len(), GossipFeed::CAP);
    // The four oldest were dropped; the rest come out in arrival order.
    for n in 4..GossipFeed::CAP + 4 {
        assert_eq!(feed.take_oldest(), Some(ev(n)));
    }
}

// ----- rumor -----

fn rumor_flavor() -> RumorFlavor {
    RumorFlavor {
        sources: vec![
            RumorSource { key: "harbormaster".into(), voice: "The harbormaster".into() },
            RumorSource { key: "keelboatman".into(), voice: "A keelboatman".into() },
        ],
        lines: vec![
            phrasing("cheap", &["They say {good} is going begging at {town}.", "{good}'s a glut at {town}."]),
            phrasing("ordinary", &["{good} fetches the usual at {town}."]),
            phrasing("dear", &["Swears {good} is dear down at {town}."]),
        ],
        confirms: vec![
            phrasing("held", &["Just as they said: {good} at {town}."]),
            phrasing("wind", &["So much for that tip on {good} at {town}."]),
        ],
    }
}

#[test]
fn rumor_compose_and_resolve_are_fully_resolved() {
    let good = 1usize; // Whiskey
    let town = 5usize; // Louisville
    let cat = catalog();
    let good_name = cat.goods[good].to_lowercase();
    let town_name = cat.towns[town].clone();
    let flavor = rumor_flavor();

    for band in 1u8..=3 {
        let r = Rumor { source: "harbormaster".into(), town, good, claimed_band: band };
        let (voice, line) = r.compose(&flavor, &cat).expect("authored band phrasing");
        assert!(!voice.is_empty());
        assert!(!line.contains('{'), "unresolved placeholder: {line:?}");
        assert!(line.contains(&good_name) && line.contains(town_name.as_str()), "line: {line:?}");
        for held in [true, false] {
            let payoff = r.resolve_line(held, &flavor, &cat).expect("authored confirm phrasing");
            assert!(!payoff.contains('{'), "unresolved placeholder: {payoff:?}");
            assert!(payoff.contains(&good_name) && payoff.contains(town_name.as_str()), "payoff: {payoff:?}");
        }
    }
}

#[test]
fn rumor_flavor_is_complete() {
    let r = rumor_flavor();
    let cat = catalog();
    assert!(!r.sources.is_empty(), "no rumor sources");
    for s in &r.sources {
        assert!(!s.voice.is_empty(), "source {:?} has no voice", s.key);
    }
    // Only {good}/{town} are filled at compose; any other brace would leak.
    for p in r.lines.iter().chain(r.confirms.iter()) {
        for t in &p.templates {
            let stripped = t.replace("{good}", "").replace("{town}", "");
            assert!(!stripped.contains('{'), "template has an unknown placeholder: {t:?}");
        }
    }
    for s in &r.sources {
        for band in 1u8..=3 {
            let rumor = Rumor { source: s.key.clone(), town: 5, good: 1, claimed_band: band };
            assert!(rumor.compose(&r, &cat).is_some(), "source {:?} band {band} has no tip phrasing", s.key);
            assert!(rumor.resolve_line(true, &r, &cat).is_some(), "no 'held' payoff phrasing");
            assert!(rumor.resolve_line(false, &r, &cat).is_some(), "no 'wind' payoff phrasing");
        }
    }
}

#[test]
fn rumor_report_key_names_town_and_good() {
    let r = Rumor { source: "harbormaster".into(), town: 12, good: 3, claimed_band: 2 };
    assert_eq!(r.report_key(), "rumor:12:3");
    let r0 = Rumor { source: "x".into(), town: 0, good: 0, claimed_band: 1 };
    assert_eq!(r0.report_key(), "rumor:0:0");
}

#[test]
fn rumor_band_keys_and_unknown_source() {
    assert_eq!(band_key(1), "cheap");
    assert_eq!(band_key(2), "ordinary");
    assert_eq!(band_key(3), "dear");
    assert_eq!(band_key(7), "ordinary");
    let r = Rumor { source: "nobody".into(), town: 5, good: 1, claimed_band: 3 };
    assert!(r.compose(&rumor_flavor(), &catalog()).is_none());
}

#[test]
fn rumor_tip_reads_the_dear_line_for_its_source() {
    let r = Rumor { source: "keelboatman".into(), town: 5, good: 6, claimed_band: 3 };
    let (voice, line) = r.compose(&rumor_flavor(), &catalog()).unwrap();
    assert_eq!(voice, "A keelboatman");
    assert_eq!(line, "Swears furs is dear down at Louisville.");
    assert_eq!(r.resolve_line(false, &rumor_flavor(), &catalog()).unwrap(), "So much for that tip on furs at Louisville.");
}

// ----- scoring -----

fn rank_table() -> RankTable {
    RankTable {
        ranks: vec![
            RankThreshold { min: 6000, name: "River King".into() },
            RankThreshold { min: 3500, name: "Master Kaintuck".into() },
            RankThreshold { min: 2000, name: "Trader".into() },
            RankThreshold { min: 900, name: "Boatman".into() },
            RankThreshold { min: 1, name: "Greenhorn".into() },
        ],
        floor_rank: "Drowned Rat".into(),
    }
}

#[test]
fn ranks_are_ordered() {
    let t = rank_table();
    assert_eq!(rank(6000, &t), "River King");
    assert_eq!(rank(3500, &t), "Master Kaintuck");
    assert_eq!(rank(2000, &t), "Trader");
    assert_eq!(rank(900, &t), "Boatman");
    assert_eq!(rank(1, &t), "Greenhorn");
    assert_eq!(rank(0, &t), "Drowned Rat");
}

#[test]
fn higher_scores_never_rank_lower() {
    let t = rank_table();
    let order = ["River King", "Master Kaintuck", "Trader", "Boatman", "Greenhorn", "Drowned Rat"];
    let pos = |s: i64| order.iter().position(|n| *n == rank(s, &t)).unwrap();
    let mut last = pos(-100);
    for s in (-100..7000).step_by(37) {
        let p = pos(s);
        assert!(p <= last, "score {s} ranked lower than a smaller score");
        last = p;
    }
}

#[test]
fn high_score_copies_the_ending() {
    let end = EndGame {
        won: true,
        cause: "You walked into Nashville.".into(),
        cause_kind: GameOverCause::Victory,
        score: 4200,
        rank: "Master Kaintuck".into(),
        cash: 900,
        debt: 0,
        crew_survived: 3,
        reputation: 12,
        robbed: false,
        miles: 2280,
        days: 28,
        recorded: false,
    };
    let h = HighScore::from_end("Jake", &end);
    assert_eq!(
        h,
        HighScore { trader: "Jake".into(), score: 4200, rank: "Master Kaintuck".into(), won: true }
    );
}

// ----- flavor, tasks, policy, format, hash -----

#[test]
fn flavor_names_and_picks() {
    let c = catalog();
    assert_eq!(good_name(&c, 1), "whiskey");
    assert_eq!(good_name(&c, 99), "");
    assert_eq!(town_name(&c, 5), "Louisville");
    assert_eq!(town_name(&c, 99), "");
    assert_eq!(good_index(&c, "Pork"), Some(2));
    assert_eq!(good_index(&c, "pork"), None);
    let items = strings(&["a", "b", "c"]);
    assert_eq!(pick(&items, 7), "b");
    assert_eq!(pick(&items, 0), "a");
}

#[test]
fn hazard_ids_round_trip_through_tasks() {
    for id in ["falls-run", "cave-run", "duck-ford", "pirates", "sandbar", "cordelle", "swamp", "mason", "harpe", "trace-hunt", "side-trail", "dose", "patch", "self-repair", "bail"] {
        let t = hazard_task(id).expect("a hazard minigame");
        assert_eq!(t.outcome_id(), id);
    }
    assert_eq!(hazard_task("gamble"), None);
    assert_eq!(hazard_task("nonsense"), None);
    assert_eq!(MiniTask::Steady(SteadyTask::FallsRun).mode(), Mode::Steady);
    assert_eq!(MiniTask::Card(CardTask::VingtUn).mode(), Mode::VingtUn);
    assert_eq!(MiniTask::Card(CardTask::Faro).outcome_id(), "faro");
}

#[test]
fn personas_and_policy_names() {
    assert_eq!(Persona::Greedy.key(), "greedy");
    assert_eq!(Persona::Cautious.key(), "cautious");
    assert_eq!(Persona::Reckless.key(), "reckless");
    assert_eq!(PolicyKind::parse("GREEDY"), Some(PolicyKind::Greedy));
    assert_eq!(PolicyKind::parse("Fuzz"), Some(PolicyKind::Random));
    assert_eq!(PolicyKind::parse("mix"), Some(PolicyKind::Mixed));
    assert_eq!(PolicyKind::parse("cautious"), Some(PolicyKind::Cautious));
    assert_eq!(PolicyKind::parse("bold"), None);
    let mut g = GreedyProfit::default();
    assert_eq!(g.persona(), Persona::Greedy);
    g.reset();
    assert_eq!(Cautious.persona(), Persona::Cautious);
}

#[test]
fn thousands_are_grouped() {
    assert_eq!(group_thousands(0), "0");
    assert_eq!(group_thousands(999), "999");
    assert_eq!(group_thousands(1000), "1,000");
    assert_eq!(group_thousands(1234567), "1,234,567");
    assert_eq!(group_thousands(-5000), "-5,000");
    assert_eq!(group_thousands(1_000_005), "1,000,005");
}

#[test]
fn fnv_matches_the_published_vectors() {
    assert_eq!(fnv1a(b""), 0xcbf29ce484222325);
    assert_eq!(fnv1a(b"a"), 0xaf63dc4c8601ec8c);
    assert_eq!(fnv1a(b"foobar"), 0x85944171f73967e8);
}

// ----- server decisions -----

use kaintuck::relay::{bot_name, bot_policy, cap_gossip, order_is_valid, MAX_GOSSIP_PER_TICK, MAX_ORDER_QTY};

fn trade_ev(n: usize) -> GossipEvent {
    GossipEvent {
        trader: format!("t{n}"),
        persona: Persona::Greedy,
        kind: GossipKind::Trade { town: 1, good: 2, side: Side::Buy, qty: 30 },
    }
}

#[test]
fn gossip_cap_keeps_milestones_ahead_of_trades() {
    let batch = vec![trade_ev(0), trade_ev(1), ev(2), trade_ev(3), ev(4), trade_ev(5), trade_ev(6), ev(7)];
    let shipped = cap_gossip(batch, MAX_GOSSIP_PER_TICK);
    assert_eq!(shipped, vec![ev(2), ev(4), ev(7), trade_ev(0), trade_ev(1), trade_ev(3)]);
    // A quiet tick ships everything, milestones first.
    assert_eq!(cap_gossip(vec![trade_ev(0), ev(1)], 6), vec![ev(1), trade_ev(0)]);
    assert!(cap_gossip(vec![], 6).is_empty());
}

#[test]
fn trade_orders_are_bounded() {
    assert!(order_is_valid(0, 0, 1, 11, 7));
    assert!(order_is_valid(10, 6, MAX_ORDER_QTY, 11, 7));
    assert!(!order_is_valid(11, 0, 5, 11, 7));
    assert!(!order_is_valid(0, 7, 5, 11, 7));
    assert!(!order_is_valid(0, 0, 0, 11, 7));
    assert!(!order_is_valid(0, 0, -3, 11, 7));
    assert!(!order_is_valid(0, 0, MAX_ORDER_QTY + 1, 11, 7));
}

#[test]
fn bots_are_named_round_robin_with_numerals() {
    let pool = strings(&["Lemuel Boggs", "Silas Crews"]);
    assert_eq!(bot_name(&pool, 0), "Lemuel Boggs");
    assert_eq!(bot_name(&pool, 1), "Silas Crews");
    assert_eq!(bot_name(&pool, 2), "Lemuel Boggs 2");
    assert_eq!(bot_name(&pool, 5), "Silas Crews 3");
    assert_eq!(bot_name(&Vec::new(), 7), "bot7");
    assert_eq!(bot_policy(0), PolicyKind::Greedy);
    assert_eq!(bot_policy(4), PolicyKind::Cautious);
    assert_eq!(bot_policy(5), PolicyKind::Random);
}

// ----- bot resolutions, ids, laws on examples -----

use kaintuck::interaction::Response;
use kaintuck::policy::{minigame_resolution, PromptKind, Resolution};
use kaintuck::resolve::best_match;
use kaintuck::tasks::{HeaveTask, QuickTask};

#[test]
fn bots_resolve_prompts_and_minigames_by_variant() {
    assert_eq!(minigame_resolution(Mode::Interaction, Some(PromptKind::CrewLeaves), 4), Some(Resolution::Respond(Response::Yes)));
    assert_eq!(minigame_resolution(Mode::Interaction, Some(PromptKind::FerryToll), 3), Some(Resolution::Respond(Response::No)));
    assert_eq!(minigame_resolution(Mode::Interaction, Some(PromptKind::Message), 3), Some(Resolution::Respond(Response::Acknowledge)));
    assert_eq!(minigame_resolution(Mode::Interaction, None, 1), Some(Resolution::Respond(Response::Acknowledge)));
    assert_eq!(minigame_resolution(Mode::Steady, None, 12), Some(Resolution::Band(2)));
    assert_eq!(minigame_resolution(Mode::Hunter, None, 7), Some(Resolution::Band(3)));
    assert_eq!(minigame_resolution(Mode::Crowd, None, 7), Some(Resolution::Band(1)));
    assert_eq!(minigame_resolution(Mode::Town, None, 7), None);
    assert_eq!(minigame_resolution(Mode::Faro, None, 7), None);
}

#[test]
fn every_minigame_has_its_own_outcome_id() {
    let all = [
        MiniTask::Steady(SteadyTask::FallsRun),
        MiniTask::Steady(SteadyTask::CaveRun),
        MiniTask::Steady(SteadyTask::DuckFord),
        MiniTask::Quick(QuickTask::Pirates),
        MiniTask::Heave(HeaveTask::Ground),
        MiniTask::Heave(HeaveTask::Cordelle),
        MiniTask::Card(CardTask::Faro),
        MiniTask::Card(CardTask::VingtUn),
    ];
    for (i, a) in all.iter().enumerate() {
        for b in &all[i + 1..] {
            assert_ne!(a.outcome_id(), b.outcome_id());
        }
    }
}

fn budget(len: usize) -> u32 {
    if len <= 3 { 0 } else if len == 4 { 1 } else { 2 }
}

#[test]
fn candidate_order_and_repeats_do_not_change_the_match() {
    let no = |_: &str| false;
    let a = best_match("lanp", &["lamp", "lamb", "door"], budget, &no);
    let b = best_match("lanp", &["door", "lamb", "lamp", "lamb"], budget, &no);
    assert_eq!(format!("{a:?}"), format!("{b:?}"));
    assert!(matches!(best_match("xyzw", &["lamp"], budget, &no), kaintuck::resolve::Match::NoMatch));
    assert!(matches!(best_match("lmp", &["lamp"], budget, &no), kaintuck::resolve::Match::NoMatch));
}

#[test]
fn grouped_numbers_sign_only_when_negative() {
    assert!(group_thousands(-1).starts_with('-'));
    assert!(!group_thousands(1_000_000).starts_with('-'));
    assert_eq!(group_thousands(-1_234_000).trim_start_matches('-').replace(',', ""), "1234000");
}

#[test]
fn bot_names_near_the_end_of_the_index_range() {
    let pool = strings(&["Ada", "Bea"]);
    assert_eq!(bot_name(&pool, usize::MAX), format!("Bea {}", usize::MAX / 2 + 1));
}

#[test]
fn grouped_numbers_keep_three_digits_after_each_comma() {
    for n in [0i64, 7, 999, 1000, 12345, 1234567, -9876543210, i64::MAX, i64::MIN + 1] {
        let s = group_thousands(n);
        let groups: Vec<&str> = s.trim_start_matches('-').split(',').collect();
        assert!((1..=3).contains(&groups[0].len()), "{n}: {s}");
        assert!(groups[1..].iter().all(|g| g.len() == 3), "{n}: {s}");
    }
    assert_eq!(group_thousands(i64::MAX), "9,223,372,036,854,775,807");
}

#[test]
fn minigame_results_grade_into_tiers() {
    assert_eq!(steady_tier(true), Tier::Success);
    assert_eq!(steady_tier(false), Tier::Partial);
    assert_eq!(quick_tier(true, true), Tier::Success);
    assert_eq!(quick_tier(true, false), Tier::Partial);
    assert_eq!(quick_tier(false, true), Tier::Fail);
    assert_eq!(crowd_tier(false), Tier::Fail);
    assert_eq!(dose_tier(true), Tier::Success);
    assert_eq!(patch_tier(false), Tier::Partial);
    assert_eq!(self_repair_tier(true, 0), Tier::Success);
    assert_eq!(self_repair_tier(false, 0), Tier::Fail);
    assert_eq!(self_repair_tier(false, 3), Tier::Partial);
    assert_eq!(brigade_tier(true), Tier::Success);
    assert_eq!(heave_tier(false), Tier::Partial);
    // Sharp means within the first half of the budget.
    assert_eq!(hotcold_tier(true, 3, 6), Tier::Success);
    assert_eq!(hotcold_tier(true, 4, 6), Tier::Partial);
    assert_eq!(hotcold_tier(false, 1, 6), Tier::Fail);
    // A zero budget counts as one probe.
    assert_eq!(hotcold_tier(true, 0, 0), Tier::Success);
    assert_eq!(hotcold_tier(true, 1, 0), Tier::Partial);
    assert_eq!(hunter_tier(true, 2), Tier::Success);
    assert_eq!(hunter_tier(true, 3), Tier::Partial);
    assert_eq!(hunter_tier(false, 5), Tier::Fail);
}

#[test]
fn a_catastrophe_band_overrides_all_but_a_spared_clean_run() {
    assert_eq!(resolve_tier(Tier::Partial, false, false), Tier::Partial);
    assert_eq!(resolve_tier(Tier::Success, true, false), Tier::Catastrophe);
    assert_eq!(resolve_tier(Tier::Success, true, true), Tier::Success);
    assert_eq!(resolve_tier(Tier::Partial, true, true), Tier::Catastrophe);
}

#[test]
fn each_band_stands_for_fixed_counts_and_flags() {
    assert_eq!(band_result(Mode::Steady, 0), Some(BandResult::Steady { steady: true }));
    assert_eq!(band_result(Mode::Steady, 9), Some(BandResult::Steady { steady: false }));
    assert_eq!(band_result(Mode::Quick, 2), Some(BandResult::Quick { hit: false }));
    assert_eq!(band_result(Mode::Timing, 3), Some(BandResult::Timing { hit: true }));
    assert_eq!(
        band_result(Mode::Sequence, 1),
        Some(BandResult::Sequence { correct_prefix: 2, length: 4, perfect: false })
    );
    assert_eq!(
        band_result(Mode::Brigade, 0),
        Some(BandResult::Brigade { contained: true, leaked: 0, capacity: 9 })
    );
    assert_eq!(band_result(Mode::Heave, 2), Some(BandResult::Heave { opened: true, slips: 1 }));
    assert_eq!(
        band_result(Mode::HotCold, 1),
        Some(BandResult::HotCold { found: false, probes_used: 7, budget: 7 })
    );
    assert_eq!(band_result(Mode::Hunter, 3), Some(BandResult::Hunter { hit: true, shots_fired: 2 }));
    assert_eq!(band_result(Mode::Town, 0), None);
    // The first band of each graded minigame is its success.
    assert_eq!(hotcold_tier(true, 2, 7), Tier::Success);
    assert_eq!(hunter_tier(true, 1), Tier::Success);
}

fn at(mode: Mode, hold: Vec<u64>, max_buy: Vec<u64>, best_buy: Option<usize>) -> Situation {
    Situation {
        mode,
        prompt: None,
        has_boat: true,
        town: 4,
        hold,
        max_buy,
        best_buy,
        pace: Pace::Other,
        river_convoy: false,
        grouped: false,
        low_on_stores: false,
    }
}

#[test]
fn the_greedy_trader_sells_out_then_restocks_once_per_town() {
    let mut g = GreedyProfit::default();
    let s = at(Mode::Town, vec![0, 5, 2], vec![3, 0, 0], Some(0));
    assert_eq!(g.decide(&s), Move::Sell { good: 1, qty: 5 });
    let s = at(Mode::Town, vec![0, 0, 0], vec![3, 0, 0], Some(0));
    assert_eq!(g.decide(&s), Move::Buy { good: 0, qty: 3 });
    // Back at the same town with the new cargo aboard: no selling it.
    let s = at(Mode::Town, vec![3, 0, 0], vec![0, 0, 0], None);
    assert_eq!(g.decide(&s), Move::Depart);
    let s = at(Mode::Natchez, vec![3, 0, 0], vec![0, 0, 0], None);
    assert_eq!(g.decide(&s), Move::Sell { good: 0, qty: 3 });
    let mut s = at(Mode::Natchez, vec![0, 0, 0], vec![0, 0, 0], None);
    assert_eq!(g.decide(&s), Move::SellBoat);
    s.has_boat = false;
    assert_eq!(g.decide(&s), Move::SetOutOnTrace);
    assert_eq!(g.decide(&at(Mode::TraceHub, vec![], vec![], None)), Move::SetPace(Pace::Hard));
    assert_eq!(g.decide(&at(Mode::Hunter, vec![], vec![], None)), Move::Resolve(Resolution::Band(0)));
}

#[test]
fn the_cautious_trader_loads_light_convoys_and_rests() {
    let c = Cautious;
    let mut s = at(Mode::Pittsburgh, vec![0, 0], vec![1, 7], Some(1));
    assert_eq!(c.decide(&s), Move::Buy { good: 1, qty: 3 });
    s.best_buy = Some(0);
    assert_eq!(c.decide(&s), Move::Buy { good: 0, qty: 1 });
    s.has_boat = false;
    assert_eq!(c.decide(&s), Move::BuildFlatboat { crew: 3 });
    let mut s = at(Mode::Town, vec![0, 2], vec![], None);
    assert_eq!(c.decide(&s), Move::SetRiverConvoy);
    s.river_convoy = true;
    assert_eq!(c.decide(&s), Move::Sell { good: 1, qty: 2 });
    let mut s = at(Mode::TraceHub, vec![], vec![], None);
    assert_eq!(c.decide(&s), Move::SetPace(Pace::Steady));
    s.pace = Pace::Steady;
    assert_eq!(c.decide(&s), Move::SetGrouped);
    s.grouped = true;
    assert_eq!(c.decide(&s), Move::TravelDay);
    let mut s = at(Mode::Stand, vec![], vec![], None);
    assert_eq!(c.decide(&s), Move::LeaveStand);
    s.low_on_stores = true;
    assert_eq!(c.decide(&s), Move::RestAndResupply);
    assert_eq!(c.decide(&at(Mode::Falls, vec![], vec![], None)), Move::FallsPilot);
}

//! Bot temperaments and the simulator's strategy names.

use vstd::prelude::*;

use crate::interaction::Response;
use crate::tasks::Mode;
use crate::text::{ascii_lower, ascii_lowercase, chars_spell};

verus! {

/// A bot's trading temperament — surfaced to players as flavor in trader
/// gossip. Maps from the concrete policy a bot runs.
#[derive(Debug, Clone, Copy, PartialEq, Eq)]
pub enum Persona {
    /// Loads up cheap and presses downstream for the margin.
    Greedy,
    /// Convoys, takes the safe line, rests up.
    Cautious,
    /// Trades and gambles on a whim.
    Reckless,
}

/// The stable key of each persona, for looking up its epithet.
pub open spec fn persona_key(p: Persona) -> Seq<char> {
    match p {
        Persona::Greedy => "greedy"@,
        Persona::Cautious => "cautious"@,
        Persona::Reckless => "reckless"@,
    }
}

impl Persona {
    /// Stable key for looking up the persona's epithet in the scenario flavor.
    pub fn key(self) -> (k: &'static str)
        ensures
            k@ == persona_key(self),
    {
        match self {
            Persona::Greedy => "greedy",
            Persona::Cautious => "cautious",
            Persona::Reckless => "reckless",
        }
    }
}

/// No two personas share a key, so an epithet lookup by key finds the right
/// persona's epithet.
pub proof fn law_persona_keys_are_distinct(a: Persona, b: Persona)
    requires
        a != b,
    ensures
        persona_key(a) != persona_key(b),
{
    reveal_strlit("greedy");
    reveal_strlit("cautious");
    reveal_strlit("reckless");
    assert("greedy"@.len() != "cautious"@.len());
    assert("greedy"@.len() != "reckless"@.len());
    assert("cautious"@[0] != "reckless"@[0]);
}

/// A profit-seeking trader: load up cheap, sell down the river, sell out and
/// walk home from Natchez.
pub struct GreedyProfit {
    /// The river town at which it has already restocked, so it does not sell
    /// the cargo it just bought there.
    restocked_at: Option<usize>,
}

impl Default for GreedyProfit {
    /// A trader that has not restocked anywhere yet.
    fn default() -> (g: Self)
        ensures
            g.restocked() is None,
    {
        GreedyProfit { restocked_at: None }
    }
}

impl GreedyProfit {
    /// The town it last restocked at, if any.
    pub closed spec fn restocked(self) -> Option<usize> {
        self.restocked_at
    }

    /// Its trading temperament, surfaced in trader gossip.
    pub fn persona(&self) -> (p: Persona)
        ensures
            p == Persona::Greedy,
    {
        Persona::Greedy
    }

    /// Forget the per-journey restock marker, so the same trader can drive a
    /// fresh journey.
    pub fn reset(&mut self)
        ensures
            final(self).restocked() is None,
    {
        self.restocked_at = None;
    }
}

/// A risk-averse trader: convoy on, steady pace, rest when provisions run
/// low, pay tolls and keep the crew.
pub struct Cautious;

impl Cautious {
    /// Its trading temperament, surfaced in trader gossip.
    pub fn persona(&self) -> (p: Persona)
        ensures
            p == Persona::Cautious,
    {
        Persona::Cautious
    }
}

/// Which bot strategy the simulated traders use.
#[derive(Debug, Clone, Copy, PartialEq, Eq)]
pub enum PolicyKind {
    Greedy,
    Cautious,
    Random,
    /// A mix: round-robin Greedy / Cautious / Random across the bots, so the
    /// market sees both buy and sell pressure and a fuzzed tail.
    Mixed,
}

/// The strategy a CLI policy name selects, ignoring ASCII case.
pub open spec fn policy_kind_named(s: Seq<char>) -> Option<PolicyKind> {
    let l = ascii_lower(s);
    if l == "greedy"@ {
        Some(PolicyKind::Greedy)
    } else if l == "cautious"@ {
        Some(PolicyKind::Cautious)
    } else if l == "random"@ || l == "fuzz"@ {
        Some(PolicyKind::Random)
    } else if l == "mixed"@ || l == "mix"@ {
        Some(PolicyKind::Mixed)
    } else {
        None
    }
}

impl PolicyKind {
    /// Parse a CLI policy name.
    pub fn parse(s: &str) -> (r: Option<PolicyKind>)
        ensures
            r == policy_kind_named(s@),
    {
        let l = ascii_lowercase(s);
        if chars_spell(&l, "greedy") {
            Some(PolicyKind::Greedy)
        } else if chars_spell(&l, "cautious") {
            Some(PolicyKind::Cautious)
        } else if chars_spell(&l, "random") || chars_spell(&l, "fuzz") {
            Some(PolicyKind::Random)
        } else if chars_spell(&l, "mixed") || chars_spell(&l, "mix") {
            Some(PolicyKind::Mixed)
        } else {
            None
        }
    }
}

/// How a finished bot fared.
#[derive(Debug, Clone, PartialEq, Eq)]
pub struct BotOutcome {
    pub id: u64,
    pub won: bool,
    pub score: i64,
    pub cause: String,
    pub cash: i64,
    pub days: i64,
}

/// What kind of prompt heads the queue when the game waits on the player.
#[derive(Debug, Clone, Copy, PartialEq, Eq, Structural)]
pub enum PromptKind {
    /// An informational line; tap to continue.
    Message,
    /// A hand wants paying off or he walks.
    CrewLeaves,
    /// A ferryman offers to take you across for a toll.
    FerryToll,
}

/// How a bot resolves a paused prompt or minigame.
#[derive(Debug, Clone, Copy, PartialEq, Eq, Structural)]
pub enum Resolution {
    /// Answer the prompt.
    Respond(Response),
    /// Play the minigame to the outcome band with this index; the host maps
    /// each mode's bands to its concrete result.
    Band(u64),
}

/// How many outcome bands a minigame mode offers a bot, or none for a mode
/// that is not a minigame a bot plays.
pub open spec fn band_count(mode: Mode) -> Option<u64> {
    match mode {
        Mode::Steady => Some(5),
        Mode::Quick => Some(4),
        Mode::Crowd => Some(3),
        Mode::Timing => Some(4),
        Mode::Sequence => Some(3),
        Mode::Brigade => Some(3),
        Mode::Heave => Some(4),
        Mode::HotCold => Some(4),
        Mode::Hunter => Some(4),
        _ => None,
    }
}

/// The resolution a bot picks: at a prompt, a crew or ferry question is
/// answered yes on an even `variant` and no on an odd one, and anything else
/// acknowledged; in a minigame, the band `variant % n` of its `n` bands; in
/// any other mode, none (a real decision is needed).
pub open spec fn resolution_spec(mode: Mode, head: Option<PromptKind>, variant: u64) -> Option<Resolution> {
    if mode == Mode::Interaction {
        Some(
            Resolution::Respond(
                match head {
                    Some(PromptKind::CrewLeaves) | Some(PromptKind::FerryToll) => if variant % 2 == 0 {
                        Response::Yes
                    } else {
                        Response::No
                    },
                    _ => Response::Acknowledge,
                },
            ),
        )
    } else {
        match band_count(mode) {
            Some(n) => Some(Resolution::Band(variant % n)),
            None => None,
        }
    }
}

/// If the game is paused on a prompt or a minigame, the resolution a bot
/// plays: `variant` selects the outcome band, so a policy can bias toward
/// success (low values) or fuzz across all branches. `None` for hub modes,
/// where a real decision is needed.
pub fn minigame_resolution(mode: Mode, head: Option<PromptKind>, variant: u64) -> (r: Option<Resolution>)
    ensures
        r == resolution_spec(mode, head, variant),
{
    let n: u64 = match mode {
        Mode::Interaction => {
            let resp = match head {
                Some(PromptKind::CrewLeaves) | Some(PromptKind::FerryToll) => if variant % 2 == 0 {
                    Response::Yes
                } else {
                    Response::No
                },
                _ => Response::Acknowledge,
            };
            return Some(Resolution::Respond(resp));
        },
        Mode::Steady => 5,
        Mode::Quick => 4,
        Mode::Crowd => 3,
        Mode::Timing => 4,
        Mode::Sequence => 3,
        Mode::Brigade => 3,
        Mode::Heave => 4,
        Mode::HotCold => 4,
        Mode::Hunter => 4,
        _ => return None,
    };
    Some(Resolution::Band(variant % n))
}

/// The counts and flags of the minigame result a bot plays for one band;
/// [`band_result`] gives them. The fractional parts (accuracies, reaction
/// times, grip) go with them at the host.
#[derive(Debug, Clone, Copy, PartialEq, Eq, Structural)]
pub enum BandResult {
    Steady { steady: bool },
    Quick { hit: bool },
    Crowd { cleared: bool },
    Timing { hit: bool },
    Sequence { correct_prefix: usize, length: usize, perfect: bool },
    Brigade { contained: bool, leaked: usize, capacity: usize },
    Heave { opened: bool, slips: usize },
    HotCold { found: bool, probes_used: usize, budget: usize },
    Hunter { hit: bool, shots_fired: usize },
}

/// The bands of each minigame a bot plays: the first is a clean success, the
/// second a failure, the rest shades between.
pub open spec fn band_result_spec(mode: Mode, band: u64) -> Option<BandResult> {
    match mode {
        Mode::Steady => Some(BandResult::Steady { steady: band == 0 || band == 2 }),
        Mode::Quick => Some(BandResult::Quick { hit: band != 2 }),
        Mode::Crowd => Some(BandResult::Crowd { cleared: band != 1 }),
        Mode::Timing => Some(BandResult::Timing { hit: band == 0 || band >= 3 }),
        Mode::Sequence => Some(
            if band == 0 {
                BandResult::Sequence { correct_prefix: 4, length: 4, perfect: true }
            } else if band == 1 {
                BandResult::Sequence { correct_prefix: 2, length: 4, perfect: false }
            } else {
                BandResult::Sequence { correct_prefix: 3, length: 4, perfect: false }
            },
        ),
        Mode::Brigade => Some(
            if band == 0 {
                BandResult::Brigade { contained: true, leaked: 0, capacity: 9 }
            } else if band == 1 {
                BandResult::Brigade { contained: false, leaked: 5, capacity: 9 }
            } else {
                BandResult::Brigade { contained: false, leaked: 2, capacity: 9 }
            },
        ),
        Mode::Heave => Some(
            if band == 0 {
                BandResult::Heave { opened: true, slips: 0 }
            } else if band == 1 {
                BandResult::Heave { opened: false, slips: 2 }
            } else if band == 2 {
                BandResult::Heave { opened: true, slips: 1 }
            } else {
                BandResult::Heave { opened: false, slips: 1 }
            },
        ),
        Mode::HotCold => Some(
            if band == 0 {
                BandResult::HotCold { found: true, probes_used: 2, budget: 7 }
            } else if band == 1 {
                BandResult::HotCold { found: false, probes_used: 7, budget: 7 }
            } else if band == 2 {
                BandResult::HotCold { found: true, probes_used: 6, budget: 7 }
            } else {
                BandResult::HotCold { found: true, probes_used: 4, budget: 7 }
            },
        ),
        Mode::Hunter => Some(
            if band == 0 {
                BandResult::Hunter { hit: true, shots_fired: 1 }
            } else if band == 1 {
                BandResult::Hunter { hit: false, shots_fired: 3 }
            } else if band == 2 {
                BandResult::Hunter { hit: true, shots_fired: 3 }
            } else {
                BandResult::Hunter { hit: true, shots_fired: 2 }
            },
        ),
        _ => None,
    }
}

/// The counts and flags of the result a bot plays for `band` of the minigame
/// on `mode`; `None` for a mode with no bands.
pub fn band_result(mode: Mode, band: u64) -> (r: Option<BandResult>)
    ensures
        r == band_result_spec(mode, band),
        r is Some <==> band_count(mode) is Some,
{
    match mode {
        Mode::Steady => Some(BandResult::Steady { steady: band == 0 || band == 2 }),
        Mode::Quick => Some(BandResult::Quick { hit: band != 2 }),
        Mode::Crowd => Some(BandResult::Crowd { cleared: band != 1 }),
        Mode::Timing => Some(BandResult::Timing { hit: band == 0 || band >= 3 }),
        Mode::Sequence => Some(
            if band == 0 {
                BandResult::Sequence { correct_prefix: 4, length: 4, perfect: true }
            } else if band == 1 {
                BandResult::Sequence { correct_prefix: 2, length: 4, perfect: false }
            } else {
                BandResult::Sequence { correct_prefix: 3, length: 4, perfect: false }
            },
        ),
        Mode::Brigade => Some(
            if band == 0 {
                BandResult::Brigade { contained: true, leaked: 0, capacity: 9 }
            } else if band == 1 {
                BandResult::Brigade { contained: false, leaked: 5, capacity: 9 }
            } else {
                BandResult::Brigade { contained: false, leaked: 2, capacity: 9 }
            },
        ),
        Mode::Heave => Some(
            if band == 0 {
                BandResult::Heave { opened: true, slips: 0 }
            } else if band == 1 {
                BandResult::Heave { opened: false, slips: 2 }
            } else if band == 2 {
                BandResult::Heave { opened: true, slips: 1 }
            } else {
                BandResult::Heave { opened: false, slips: 1 }
            },
        ),
        Mode::HotCold => Some(
            if band == 0 {
                BandResult::HotCold { found: true, probes_used: 2, budget: 7 }
            } else if band == 1 {
                BandResult::HotCold { found: false, probes_used: 7, budget: 7 }
            } else if band == 2 {
                BandResult::HotCold { found: true, probes_used: 6, budget: 7 }
            } else {
                BandResult::HotCold { found: true, probes_used: 4, budget: 7 }
            },
        ),
        Mode::Hunter => Some(
            if band == 0 {
                BandResult::Hunter { hit: true, shots_fired: 1 }
            } else if band == 1 {
                BandResult::Hunter { hit: false, shots_fired: 3 }
            } else if band == 2 {
                BandResult::Hunter { hit: true, shots_fired: 3 }
            } else {
                BandResult::Hunter { hit: true, shots_fired: 2 }
            },
        ),
        _ => None,
    }
}

// ----- the stock traders' decisions -----

/// The walking pace on the Trace, as far as the stock traders care: they set
/// it steady or hard; any other pace is neither.
#[derive(Debug, Clone, Copy, PartialEq, Eq, Structural)]
pub enum Pace {
    Steady,
    Hard,
    Other,
}

/// What a stock trader sees when it decides: the screen, the prompt at the
/// head of the queue, the boat and hold, and the few facts the host reads off
/// live prices and stores.
pub struct Situation {
    pub mode: Mode,
    pub prompt: Option<PromptKind>,
    pub has_boat: bool,
    /// The river town the boat is at.
    pub town: usize,
    /// Units of each good in the hold.
    pub hold: Vec<u64>,
    /// Units of each good the purse and hold allow buying here.
    pub max_buy: Vec<u64>,
    /// The cheapest good the trader can afford any of here (the first of equal
    /// price), as the host finds it from the live prices; `None` when nothing
    /// is affordable or the hold is full.
    pub best_buy: Option<usize>,
    pub pace: Pace,
    pub river_convoy: bool,
    pub grouped: bool,
    /// Provisions are low and the purse can pay to top them up.
    pub low_on_stores: bool,
}

/// A stock trader's move; the host turns it into a game action (the fees and
/// amounts of the set pieces are the host's).
#[derive(Debug, Clone, Copy, PartialEq, Eq, Structural)]
pub enum Move {
    Resolve(Resolution),
    BuildFlatboat { crew: u32 },
    Buy { good: usize, qty: u64 },
    Sell { good: usize, qty: u64 },
    Depart,
    SellBoat,
    SetOutOnTrace,
    FallsPilot,
    GrandTowerTreat,
    CaveHire,
    SetPace(Pace),
    TravelDay,
    LeaveStand,
    SetRiverConvoy,
    SetGrouped,
    RestAndResupply,
    Noop,
}

/// The first good, from `g` on, with units in the hold.
pub open spec fn first_held_from(hold: Seq<u64>, g: int) -> Option<usize>
    decreases hold.len() - g,
{
    if g < 0 || g >= hold.len() {
        None
    } else if hold[g] > 0 {
        Some(g as usize)
    } else {
        first_held_from(hold, g + 1)
    }
}

/// What the situation admits a trader to see: a cheapest good the trader can
/// buy, when there is one, is a good of the market.
pub open spec fn situation_ok(s: &Situation) -> bool {
    s.best_buy matches Some(g) ==> g < s.max_buy@.len()
}

/// Load the cheapest affordable good to the brim, or leave when there is none.
pub open spec fn load_or_go(s: &Situation) -> Move {
    match s.best_buy {
        Some(g) => Move::Buy { good: g, qty: s.max_buy@[g as int] },
        None => Move::Depart,
    }
}

/// At Natchez: sell the hold out good by good, then the boat, then walk home.
pub open spec fn sell_out(s: &Situation) -> Move {
    match first_held_from(s.hold@, 0) {
        Some(g) => Move::Sell { good: g, qty: s.hold@[g as int] },
        None => if s.has_boat {
            Move::SellBoat
        } else {
            Move::SetOutOnTrace
        },
    }
}

/// The set pieces both stock traders play the same way.
pub open spec fn set_piece(mode: Mode) -> Move {
    match mode {
        Mode::Falls => Move::FallsPilot,
        Mode::GrandTower => Move::GrandTowerTreat,
        Mode::CaveInRock => Move::CaveHire,
        Mode::Moneylender => Move::Depart,
        _ => Move::Noop,
    }
}

/// The profit-seeker's move, and the town it has restocked at after it.
pub open spec fn greedy_move(restocked: Option<usize>, s: &Situation) -> (Option<usize>, Move) {
    match resolution_spec(s.mode, s.prompt, 0) {
        Some(r) => (restocked, Move::Resolve(r)),
        None => match s.mode {
            Mode::Pittsburgh => (restocked, if !s.has_boat {
                Move::BuildFlatboat { crew: 3 }
            } else {
                load_or_go(s)
            }),
            Mode::Town => if restocked == Some(s.town) {
                (restocked, load_or_go(s))
            } else {
                match first_held_from(s.hold@, 0) {
                    Some(g) => (restocked, Move::Sell { good: g, qty: s.hold@[g as int] }),
                    None => (Some(s.town), load_or_go(s)),
                }
            },
            Mode::Natchez => (restocked, sell_out(s)),
            Mode::TraceHub => (restocked, if s.pace != Pace::Hard {
                Move::SetPace(Pace::Hard)
            } else {
                Move::TravelDay
            }),
            Mode::Stand => (restocked, Move::LeaveStand),
            _ => (restocked, set_piece(s.mode)),
        },
    }
}

/// The careful trader's move.
pub open spec fn cautious_move(s: &Situation) -> Move {
    match resolution_spec(s.mode, s.prompt, 0) {
        Some(r) => Move::Resolve(r),
        None => match s.mode {
            Mode::Pittsburgh => if !s.has_boat {
                Move::BuildFlatboat { crew: 3 }
            } else {
                match s.best_buy {
                    Some(g) => Move::Buy {
                        good: g,
                        qty: if s.max_buy@[g as int] / 2 < 1 {
                            1
                        } else {
                            s.max_buy@[g as int] / 2
                        },
                    },
                    None => Move::Depart,
                }
            },
            Mode::Town => if !s.river_convoy {
                Move::SetRiverConvoy
            } else {
                match first_held_from(s.hold@, 0) {
                    Some(g) => Move::Sell { good: g, qty: s.hold@[g as int] },
                    None => Move::Depart,
                }
            },
            Mode::Natchez => sell_out(s),
            Mode::TraceHub => if s.pace != Pace::Steady {
                Move::SetPace(Pace::Steady)
            } else if !s.grouped {
                Move::SetGrouped
            } else {
                Move::TravelDay
            },
            Mode::Stand => if s.low_on_stores {
                Move::RestAndResupply
            } else {
                Move::LeaveStand
            },
            _ => set_piece(s.mode),
        },
    }
}

/// The first good with units in the hold.
fn first_held(hold: &Vec<u64>) -> (r: Option<usize>)
    ensures
        r == first_held_from(hold@, 0),
        r matches Some(g) ==> g < hold@.len(),
{
    let mut g: usize = 0;
    while g < hold.len()
        invariant
            g <= hold@.len(),
            first_held_from(hold@, 0) == first_held_from(hold@, g as int),
        decreases hold@.len() - g,
    {
        if hold[g] > 0 {
            return Some(g);
        }
        g += 1;
    }
    None
}

fn load_or_go_exec(s: &Situation) -> (m: Move)
    requires
        situation_ok(s),
    ensures
        m == load_or_go(s),
{
    match s.best_buy {
        Some(g) => Move::Buy { good: g, qty: s.max_buy[g] },
        None => Move::Depart,
    }
}

fn sell_out_exec(s: &Situation) -> (m: Move)
    ensures
        m == sell_out(s),
{
    match first_held(&s.hold) {
        Some(g) => Move::Sell { good: g, qty: s.hold[g] },
        None => if s.has_boat {
            Move::SellBoat
        } else {
            Move::SetOutOnTrace
        },
    }
}

fn set_piece_exec(mode: Mode) -> (m: Move)
    ensures
        m == set_piece(mode),
{
    match mode {
        Mode::Falls => Move::FallsPilot,
        Mode::GrandTower => Move::GrandTowerTreat,
        Mode::CaveInRock => Move::CaveHire,
        Mode::Moneylender => Move::Depart,
        _ => Move::Noop,
    }
}

impl GreedyProfit {
    /// Decide the next move: play a minigame or prompt for its best outcome;
    /// build and load up at Pittsburgh; at each river town sell out what it
    /// arrived with, then restock once (never selling what it bought there);
    /// sell everything and walk home from Natchez; push a hard pace on the
    /// Trace.
    pub fn decide(&mut self, s: &Situation) -> (m: Move)
        requires
            situation_ok(s),
        ensures
            (final(self).restocked(), m) == greedy_move(old(self).restocked(), s),
    {
        if let Some(r) = minigame_resolution(s.mode, s.prompt, 0) {
            return Move::Resolve(r);
        }
        match s.mode {
            Mode::Pittsburgh => if !s.has_boat {
                Move::BuildFlatboat { crew: 3 }
            } else {
                load_or_go_exec(s)
            },
            Mode::Town => {
                let here = s.town;
                let done_here = match self.restocked_at {
                    Some(t) => t == here,
                    None => false,
                };
                if done_here {
                    return load_or_go_exec(s);
                }
                match first_held(&s.hold) {
                    Some(g) => Move::Sell { good: g, qty: s.hold[g] },
                    None => {
                        self.restocked_at = Some(here);
                        load_or_go_exec(s)
                    },
                }
            },
            Mode::Natchez => sell_out_exec(s),
            Mode::TraceHub => if s.pace != Pace::Hard {
                Move::SetPace(Pace::Hard)
            } else {
                Move::TravelDay
            },
            Mode::Stand => Move::LeaveStand,
            _ => set_piece_exec(s.mode),
        }
    }
}

impl Cautious {
    /// Decide the next move: play a minigame or prompt safe; build and load
    /// half a hold at Pittsburgh; convoy on the river and sell as it goes;
    /// sell out at Natchez; keep a steady pace in company on the Trace; rest
    /// and resupply while stores run low.
    pub fn decide(&self, s: &Situation) -> (m: Move)
        requires
            situation_ok(s),
        ensures
            m == cautious_move(s),
    {
        if let Some(r) = minigame_resolution(s.mode, s.prompt, 0) {
            return Move::Resolve(r);
        }
        match s.mode {
            Mode::Pittsburgh => if !s.has_boat {
                Move::BuildFlatboat { crew: 3 }
            } else {
                match s.best_buy {
                    Some(g) => {
                        let half = s.max_buy[g] / 2;
                        Move::Buy { good: g, qty: if half < 1 { 1 } else { half } }
                    },
                    None => Move::Depart,
                }
            },
            Mode::Town => if !s.river_convoy {
                Move::SetRiverConvoy
            } else {
                match first_held(&s.hold) {
                    Some(g) => Move::Sell { good: g, qty: s.hold[g] },
                    None => Move::Depart,
                }
            },
            Mode::Natchez => sell_out_exec(s),
            Mode::TraceHub => if s.pace != Pace::Steady {
                Move::SetPace(Pace::Steady)
            } else if !s.grouped {
                Move::SetGrouped
            } else {
                Move::TravelDay
            },
            Mode::Stand => if s.low_on_stores {
                Move::RestAndResupply
            } else {
                Move::LeaveStand
            },
            _ => set_piece_exec(s.mode),
        }
    }
}

/// Once the profit-seeker has restocked at a town, it never sells there: the
/// cargo it just bought rides on to the next landing.
pub proof fn law_greedy_never_sells_where_it_restocked(s: &Situation)
    requires
        s.mode == Mode::Town,
    ensures
        !(greedy_move(Some(s.town), s).1 is Sell),
        greedy_move(Some(s.town), s).0 == Some(s.town),
{
}

/// On the Trace the stock traders make progress: once the pace is what they
/// want, they travel. The profit-seeker travels a day whenever its pace is
/// already hard, and after setting the pace it asked for, its next move is to
/// travel. The careful trader, having set a steady pace and joined company,
/// travels too.
pub proof fn law_traders_on_the_trace_travel_once_set(restocked: Option<usize>, s: &Situation)
    requires
        s.mode == Mode::TraceHub,
    ensures
        s.pace == Pace::Hard ==> greedy_move(restocked, s).1 == Move::TravelDay,
        s.pace != Pace::Hard ==> greedy_move(restocked, s).1 != Move::TravelDay,
        greedy_move(restocked, s).1 matches Move::SetPace(p) ==> greedy_move(
            restocked,
            &Situation { pace: p, ..*s },
        ).1 == Move::TravelDay,
        greedy_move(restocked, s).0 == restocked,
        s.pace == Pace::Steady && s.grouped ==> cautious_move(s) == Move::TravelDay,
        cautious_move(s) matches Move::SetPace(p) ==> cautious_move(
            &Situation { pace: p, grouped: true, ..*s },
        ) == Move::TravelDay,
        cautious_move(s) == Move::SetGrouped ==> cautious_move(&Situation { grouped: true, ..*s })
            == Move::TravelDay,
{
}

proof fn lemma_first_held_facts(hold: Seq<u64>, g: int)
    requires
        0 <= g,
        hold.len() <= usize::MAX,
    ensures
        first_held_from(hold, g) matches Some(h) ==> g <= h < hold.len() && hold[h as int] > 0 && forall|k: int|
            g <= k < h ==> hold[k] == 0,
        first_held_from(hold, g) is None ==> forall|k: int| g <= k < hold.len() ==> hold[k] == 0,
    decreases hold.len() - g,
{
    if g < hold.len() && hold[g] == 0 {
        lemma_first_held_facts(hold, g + 1);
    }
}

/// When a stock trader sells, it sells all it holds of the first good in its
/// hold; when it buys, it buys the cheapest good it can afford, never more
/// than the purse and hold allow — the profit-seeker all of that, the careful
/// trader half (at least one).
pub proof fn law_traders_sell_what_they_hold_and_buy_what_they_can(restocked: Option<usize>, s: &Situation)
    requires
        situation_ok(s),
    ensures
        greedy_move(restocked, s).1 matches Move::Sell { good, qty } ==> {
            &&& good < s.hold@.len()
            &&& qty == s.hold@[good as int]
            &&& qty > 0
            &&& forall|k: int| 0 <= k < good ==> s.hold@[k] == 0
        },
        cautious_move(s) matches Move::Sell { good, qty } ==> {
            &&& good < s.hold@.len()
            &&& qty == s.hold@[good as int]
            &&& qty > 0
            &&& forall|k: int| 0 <= k < good ==> s.hold@[k] == 0
        },
        greedy_move(restocked, s).1 matches Move::Buy { good, qty } ==> s.best_buy == Some(good) && qty
            == s.max_buy@[good as int],
        cautious_move(s) matches Move::Buy { good, qty } ==> s.best_buy == Some(good) && 1 <= qty
            && (qty <= s.max_buy@[good as int] || s.max_buy@[good as int] == 0) && qty * 2 >= s.max_buy@[good as int]
            - 1,
        s.mode == Mode::Natchez && greedy_move(restocked, s).1 == Move::SellBoat ==> s.has_boat && forall|k: int|
            0 <= k < s.hold@.len() ==> s.hold@[k] == 0,
{
    assert(s.hold.len() == s.hold@.len());
    lemma_first_held_facts(s.hold@, 0);
}

} // verus!

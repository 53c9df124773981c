//! The minigame layer's vocabulary: which strain put up each minigame, the
//! screen it is played on, and the scenario id that ties a hazard's outcome to
//! its minigame.

use vstd::prelude::*;

use crate::text::same_text;

verus! {

/// The screen the game shows.
#[derive(Debug, Clone, Copy, PartialEq, Eq, Structural)]
pub enum Mode {
    Splash,
    Pittsburgh,
    Town,
    Moneylender,
    Falls,
    GrandTower,
    CaveInRock,
    Natchez,
    TraceHub,
    Stand,
    Interaction,
    GameOver,
    Steady,
    Quick,
    Crowd,
    Timing,
    Sequence,
    Brigade,
    Heave,
    HotCold,
    Hunter,
    Faro,
    VingtUn,
}

/// Which strain put up the steady-hand trace: holding a line against a force.
#[derive(Debug, Clone, Copy, PartialEq, Eq)]
pub enum SteadyTask {
    /// Running the Falls of the Ohio (River).
    FallsRun,
    /// Running the shoals below Cave-in-Rock (River).
    CaveRun,
    /// Fording the Duck River on foot (Trace).
    DuckFord,
}

/// Which ambush put up the quick-draw: the river boarding.
#[derive(Debug, Clone, Copy, PartialEq, Eq)]
pub enum QuickTask {
    /// River pirates pulling alongside to board.
    Pirates,
}

/// Which strain put up the press-and-hold heave.
#[derive(Debug, Clone, Copy, PartialEq, Eq)]
pub enum HeaveTask {
    /// Heaving the grounded boat off a sandbar (River).
    Ground,
    /// Hauling the boat through the Grand Chain rapids on the cordelle (River).
    Cordelle,
}

/// Which strain put up the probe-and-deduce search.
#[derive(Debug, Clone, Copy, PartialEq, Eq)]
pub enum HotColdTask {
    /// Sam Mason's man searches your camp for your hidden purse (Trace).
    MasonSearch,
}

/// Which strain put up the track-and-shoot.
#[derive(Debug, Clone, Copy, PartialEq, Eq)]
pub enum HunterTask {
    /// A fight for your life against the Harpe brothers, north of the divide.
    Harpe,
    /// Hunting game for the pot on the Trace, to spare the ration.
    Pot,
}

/// Which strain put up the crowd-threading route game.
#[derive(Debug, Clone, Copy, PartialEq, Eq)]
pub enum CrowdTask {
    /// Keeping to the Trace among the tangle of side trails.
    SideTrail,
    /// Threading a remembered firm line across a flooded swamp (Trace).
    Swamp,
}

/// Which strain put up the timing-bar game.
#[derive(Debug, Clone, Copy, PartialEq, Eq)]
pub enum TimingTask {
    /// A night Under-the-Hill at Natchez.
    Gamble,
    /// Measuring out a dose of medicine against swamp fever.
    Dose,
    /// Reading the fake pilot's tell at Cave-in-Rock before he takes the helm.
    CaveTell,
}

/// Which strain put up the sequence (order-memory) game.
#[derive(Debug, Clone, Copy, PartialEq, Eq)]
pub enum SequenceTask {
    /// Patching a snagged hull on the spot, mid-leg (River hazard).
    Patch,
    /// Lying up at a landing to mend the hull yourself (River).
    SelfRepair,
}

/// Which strain put up the bucket-brigade game.
#[derive(Debug, Clone, Copy, PartialEq, Eq)]
pub enum BrigadeTask {
    /// Bailing a flooded boat (River).
    Bail,
}

/// Which card table the player sat down at Under-the-Hill.
#[derive(Debug, Clone, Copy, PartialEq, Eq)]
pub enum CardTask {
    /// A faro bank Under-the-Hill at Natchez.
    Faro,
    /// A hand of vingt-et-un (twenty-one) at a Natchez table.
    VingtUn,
}

/// The one minigame currently paused for the player.
#[derive(Debug, Clone, Copy, PartialEq, Eq)]
pub enum MiniTask {
    Steady(SteadyTask),
    Quick(QuickTask),
    Crowd(CrowdTask),
    Timing(TimingTask),
    Sequence(SequenceTask),
    Brigade(BrigadeTask),
    Heave(HeaveTask),
    HotCold(HotColdTask),
    Hunter(HunterTask),
    Card(CardTask),
}

/// The screen each task is played on.
pub open spec fn mode_of(t: MiniTask) -> Mode {
    match t {
        MiniTask::Steady(_) => Mode::Steady,
        MiniTask::Quick(_) => Mode::Quick,
        MiniTask::Crowd(_) => Mode::Crowd,
        MiniTask::Timing(_) => Mode::Timing,
        MiniTask::Sequence(_) => Mode::Sequence,
        MiniTask::Brigade(_) => Mode::Brigade,
        MiniTask::Heave(_) => Mode::Heave,
        MiniTask::HotCold(_) => Mode::HotCold,
        MiniTask::Hunter(_) => Mode::Hunter,
        MiniTask::Card(CardTask::Faro) => Mode::Faro,
        MiniTask::Card(CardTask::VingtUn) => Mode::VingtUn,
    }
}

/// The scenario id of each task's outcome and minigame params.
pub open spec fn outcome_key(t: MiniTask) -> Seq<char> {
    match t {
        MiniTask::Steady(SteadyTask::FallsRun) => "falls-run"@,
        MiniTask::Steady(SteadyTask::CaveRun) => "cave-run"@,
        MiniTask::Steady(SteadyTask::DuckFord) => "duck-ford"@,
        MiniTask::Quick(QuickTask::Pirates) => "pirates"@,
        MiniTask::Heave(HeaveTask::Ground) => "sandbar"@,
        MiniTask::Heave(HeaveTask::Cordelle) => "cordelle"@,
        MiniTask::HotCold(HotColdTask::MasonSearch) => "mason"@,
        MiniTask::Hunter(HunterTask::Harpe) => "harpe"@,
        MiniTask::Hunter(HunterTask::Pot) => "trace-hunt"@,
        MiniTask::Crowd(CrowdTask::SideTrail) => "side-trail"@,
        MiniTask::Crowd(CrowdTask::Swamp) => "swamp"@,
        MiniTask::Timing(TimingTask::Dose) => "dose"@,
        MiniTask::Timing(TimingTask::Gamble) => "gamble"@,
        MiniTask::Timing(TimingTask::CaveTell) => "cave-tell"@,
        MiniTask::Sequence(SequenceTask::Patch) => "patch"@,
        MiniTask::Sequence(SequenceTask::SelfRepair) => "self-repair"@,
        MiniTask::Brigade(BrigadeTask::Bail) => "bail"@,
        MiniTask::Card(CardTask::Faro) => "faro"@,
        MiniTask::Card(CardTask::VingtUn) => "vingt-un"@,
    }
}

impl MiniTask {
    /// The screen the minigame is played on.
    pub fn mode(self) -> (m: Mode)
        ensures
            m == mode_of(self),
    {
        match self {
            MiniTask::Steady(_) => Mode::Steady,
            MiniTask::Quick(_) => Mode::Quick,
            MiniTask::Crowd(_) => Mode::Crowd,
            MiniTask::Timing(_) => Mode::Timing,
            MiniTask::Sequence(_) => Mode::Sequence,
            MiniTask::Brigade(_) => Mode::Brigade,
            MiniTask::Heave(_) => Mode::Heave,
            MiniTask::HotCold(_) => Mode::HotCold,
            MiniTask::Hunter(_) => Mode::Hunter,
            MiniTask::Card(CardTask::Faro) => Mode::Faro,
            MiniTask::Card(CardTask::VingtUn) => Mode::VingtUn,
        }
    }

    /// The scenario id of the minigame's outcome and minigame params. The single
    /// task→id map; [`hazard_task`] inverts it for the hazard minigames.
    pub fn outcome_id(self) -> (id: &'static str)
        ensures
            id@ == outcome_key(self),
    {
        match self {
            MiniTask::Steady(SteadyTask::FallsRun) => "falls-run",
            MiniTask::Steady(SteadyTask::CaveRun) => "cave-run",
            MiniTask::Steady(SteadyTask::DuckFord) => "duck-ford",
            MiniTask::Quick(QuickTask::Pirates) => "pirates",
            MiniTask::Heave(HeaveTask::Ground) => "sandbar",
            MiniTask::Heave(HeaveTask::Cordelle) => "cordelle",
            MiniTask::HotCold(HotColdTask::MasonSearch) => "mason",
            MiniTask::Hunter(HunterTask::Harpe) => "harpe",
            MiniTask::Hunter(HunterTask::Pot) => "trace-hunt",
            MiniTask::Crowd(CrowdTask::SideTrail) => "side-trail",
            MiniTask::Crowd(CrowdTask::Swamp) => "swamp",
            MiniTask::Timing(TimingTask::Dose) => "dose",
            MiniTask::Timing(TimingTask::Gamble) => "gamble",
            MiniTask::Timing(TimingTask::CaveTell) => "cave-tell",
            MiniTask::Sequence(SequenceTask::Patch) => "patch",
            MiniTask::Sequence(SequenceTask::SelfRepair) => "self-repair",
            MiniTask::Brigade(BrigadeTask::Bail) => "bail",
            MiniTask::Card(CardTask::Faro) => "faro",
            MiniTask::Card(CardTask::VingtUn) => "vingt-un",
        }
    }
}

/// The minigame a data-driven hazard arm starts for its outcome id, if the id
/// names one.
pub open spec fn hazard_task_spec(id: Seq<char>) -> Option<MiniTask> {
    if id == "falls-run"@ {
        Some(MiniTask::Steady(SteadyTask::FallsRun))
    } else if id == "cave-run"@ {
        Some(MiniTask::Steady(SteadyTask::CaveRun))
    } else if id == "duck-ford"@ {
        Some(MiniTask::Steady(SteadyTask::DuckFord))
    } else if id == "pirates"@ {
        Some(MiniTask::Quick(QuickTask::Pirates))
    } else if id == "sandbar"@ {
        Some(MiniTask::Heave(HeaveTask::Ground))
    } else if id == "cordelle"@ {
        Some(MiniTask::Heave(HeaveTask::Cordelle))
    } else if id == "swamp"@ {
        Some(MiniTask::Crowd(CrowdTask::Swamp))
    } else if id == "mason"@ {
        Some(MiniTask::HotCold(HotColdTask::MasonSearch))
    } else if id == "harpe"@ {
        Some(MiniTask::Hunter(HunterTask::Harpe))
    } else if id == "trace-hunt"@ {
        Some(MiniTask::Hunter(HunterTask::Pot))
    } else if id == "side-trail"@ {
        Some(MiniTask::Crowd(CrowdTask::SideTrail))
    } else if id == "dose"@ {
        Some(MiniTask::Timing(TimingTask::Dose))
    } else if id == "patch"@ {
        Some(MiniTask::Sequence(SequenceTask::Patch))
    } else if id == "self-repair"@ {
        Some(MiniTask::Sequence(SequenceTask::SelfRepair))
    } else if id == "bail"@ {
        Some(MiniTask::Brigade(BrigadeTask::Bail))
    } else {
        None
    }
}

/// The minigame a data-driven hazard arm starts for its outcome id — the
/// bridge from a hazard (which names an outcome id) to the concrete minigame
/// task, and the inverse of [`MiniTask::outcome_id`]. `None` for an id that
/// names no hazard minigame (a scenario/code mismatch the host must report).
pub fn hazard_task(id: &str) -> (t: Option<MiniTask>)
    ensures
        t == hazard_task_spec(id@),
{
    if same_text(id, "falls-run") {
        Some(MiniTask::Steady(SteadyTask::FallsRun))
    } else if same_text(id, "cave-run") {
        Some(MiniTask::Steady(SteadyTask::CaveRun))
    } else if same_text(id, "duck-ford") {
        Some(MiniTask::Steady(SteadyTask::DuckFord))
    } else if same_text(id, "pirates") {
        Some(MiniTask::Quick(QuickTask::Pirates))
    } else if same_text(id, "sandbar") {
        Some(MiniTask::Heave(HeaveTask::Ground))
    } else if same_text(id, "cordelle") {
        Some(MiniTask::Heave(HeaveTask::Cordelle))
    } else if same_text(id, "swamp") {
        Some(MiniTask::Crowd(CrowdTask::Swamp))
    } else if same_text(id, "mason") {
        Some(MiniTask::HotCold(HotColdTask::MasonSearch))
    } else if same_text(id, "harpe") {
        Some(MiniTask::Hunter(HunterTask::Harpe))
    } else if same_text(id, "trace-hunt") {
        Some(MiniTask::Hunter(HunterTask::Pot))
    } else if same_text(id, "side-trail") {
        Some(MiniTask::Crowd(CrowdTask::SideTrail))
    } else if same_text(id, "dose") {
        Some(MiniTask::Timing(TimingTask::Dose))
    } else if same_text(id, "patch") {
        Some(MiniTask::Sequence(SequenceTask::Patch))
    } else if same_text(id, "self-repair") {
        Some(MiniTask::Sequence(SequenceTask::SelfRepair))
    } else if same_text(id, "bail") {
        Some(MiniTask::Brigade(BrigadeTask::Bail))
    } else {
        None
    }
}

/// A hazard id starts the minigame whose outcome id it is: id → task → id is
/// the identity.
pub proof fn law_hazard_id_round_trips(id: Seq<char>)
    requires
        hazard_task_spec(id) is Some,
    ensures
        outcome_key(hazard_task_spec(id)->0) == id,
{
}

/// Every hazard minigame is started by its own outcome id: task → id → task
/// is the identity (the card tables and the Under-the-Hill and Cave-in-Rock
/// timing games are launched from set-piece menus instead, and have no
/// hazard id).
pub proof fn law_hazard_task_round_trips(t: MiniTask)
    requires
        !(t is Card),
        t != MiniTask::Timing(TimingTask::Gamble),
        t != MiniTask::Timing(TimingTask::CaveTell),
    ensures
        hazard_task_spec(outcome_key(t)) == Some(t),
{
    match t {
        MiniTask::Steady(SteadyTask::FallsRun) => {
            reveal_strlit("falls-run");
        },
        MiniTask::Steady(SteadyTask::CaveRun) => {
            reveal_strlit("cave-run");
            reveal_strlit("falls-run");
            assert("cave-run"@.len() != "falls-run"@.len());
        },
        MiniTask::Steady(SteadyTask::DuckFord) => {
            reveal_strlit("duck-ford");
            reveal_strlit("falls-run");
            assert("duck-ford"@[0] != "falls-run"@[0]);
            reveal_strlit("cave-run");
            assert("duck-ford"@.len() != "cave-run"@.len());
        },
        MiniTask::Quick(QuickTask::Pirates) => {
            reveal_strlit("pirates");
            reveal_strlit("falls-run");
            assert("pirates"@.len() != "falls-run"@.len());
            reveal_strlit("cave-run");
            assert("pirates"@.len() != "cave-run"@.len());
            reveal_strlit("duck-ford");
            assert("pirates"@.len() != "duck-ford"@.len());
        },
        MiniTask::Heave(HeaveTask::Ground) => {
            reveal_strlit("sandbar");
            reveal_strlit("falls-run");
            assert("sandbar"@.len() != "falls-run"@.len());
            reveal_strlit("cave-run");
            assert("sandbar"@.len() != "cave-run"@.len());
            reveal_strlit("duck-ford");
            assert("sandbar"@.len() != "duck-ford"@.len());
            reveal_strlit("pirates");
            assert("sandbar"@[0] != "pirates"@[0]);
        },
        MiniTask::Heave(HeaveTask::Cordelle) => {
            reveal_strlit("cordelle");
            reveal_strlit("falls-run");
            assert("cordelle"@.len() != "falls-run"@.len());
            reveal_strlit("cave-run");
            assert("cordelle"@[1] != "cave-run"@[1]);
            reveal_strlit("duck-ford");
            assert("cordelle"@.len() != "duck-ford"@.len());
            reveal_strlit("pirates");
            assert("cordelle"@.len() != "pirates"@.len());
            reveal_strlit("sandbar");
            assert("cordelle"@.len() != "sandbar"@.len());
        },
        MiniTask::Crowd(CrowdTask::Swamp) => {
            reveal_strlit("swamp");
            reveal_strlit("falls-run");
            assert("swamp"@.len() != "falls-run"@.len());
            reveal_strlit("cave-run");
            assert("swamp"@.len() != "cave-run"@.len());
            reveal_strlit("duck-ford");
            assert("swamp"@.len() != "duck-ford"@.len());
            reveal_strlit("pirates");
            assert("swamp"@.len() != "pirates"@.len());
            reveal_strlit("sandbar");
            assert("swamp"@.len() != "sandbar"@.len());
            reveal_strlit("cordelle");
            assert("swamp"@.len() != "cordelle"@.len());
        },
        MiniTask::HotCold(HotColdTask::MasonSearch) => {
            reveal_strlit("mason");
            reveal_strlit("falls-run");
            assert("mason"@.len() != "falls-run"@.len());
            reveal_strlit("cave-run");
            assert("mason"@.len() != "cave-run"@.len());
            reveal_strlit("duck-ford");
            assert("mason"@.len() != "duck-ford"@.len());
            reveal_strlit("pirates");
            assert("mason"@.len() != "pirates"@.len());
            reveal_strlit("sandbar");
            assert("mason"@.len() != "sandbar"@.len());
            reveal_strlit("cordelle");
            assert("mason"@.len() != "cordelle"@.len());
            reveal_strlit("swamp");
            assert("mason"@[0] != "swamp"@[0]);
        },
        MiniTask::Hunter(HunterTask::Harpe) => {
            reveal_strlit("harpe");
            reveal_strlit("falls-run");
            assert("harpe"@.len() != "falls-run"@.len());
            reveal_strlit("cave-run");
            assert("harpe"@.len() != "cave-run"@.len());
            reveal_strlit("duck-ford");
            assert("harpe"@.len() != "duck-ford"@.len());
            reveal_strlit("pirates");
            assert("harpe"@.len() != "pirates"@.len());
            reveal_strlit("sandbar");
            assert("harpe"@.len() != "sandbar"@.len());
            reveal_strlit("cordelle");
            assert("harpe"@.len() != "cordelle"@.len());
            reveal_strlit("swamp");
            assert("harpe"@[0] != "swamp"@[0]);
            reveal_strlit("mason");
            assert("harpe"@[0] != "mason"@[0]);
        },
        MiniTask::Hunter(HunterTask::Pot) => {
            reveal_strlit("trace-hunt");
            reveal_strlit("falls-run");
            assert("trace-hunt"@.len() != "falls-run"@.len());
            reveal_strlit("cave-run");
            assert("trace-hunt"@.len() != "cave-run"@.len());
            reveal_strlit("duck-ford");
            assert("trace-hunt"@.len() != "duck-ford"@.len());
            reveal_strlit("pirates");
            assert("trace-hunt"@.len() != "pirates"@.len());
            reveal_strlit("sandbar");
            assert("trace-hunt"@.len() != "sandbar"@.len());
            reveal_strlit("cordelle");
            assert("trace-hunt"@.len() != "cordelle"@.len());
            reveal_strlit("swamp");
            assert("trace-hunt"@.len() != "swamp"@.len());
            reveal_strlit("mason");
            assert("trace-hunt"@.len() != "mason"@.len());
            reveal_strlit("harpe");
            assert("trace-hunt"@.len() != "harpe"@.len());
        },
        MiniTask::Crowd(CrowdTask::SideTrail) => {
            reveal_strlit("side-trail");
            reveal_strlit("falls-run");
            assert("side-trail"@.len() != "falls-run"@.len());
            reveal_strlit("cave-run");
            assert("side-trail"@.len() != "cave-run"@.len());
            reveal_strlit("duck-ford");
            assert("side-trail"@.len() != "duck-ford"@.len());
            reveal_strlit("pirates");
            assert("side-trail"@.len() != "pirates"@.len());
            reveal_strlit("sandbar");
            assert("side-trail"@.len() != "sandbar"@.len());
            reveal_strlit("cordelle");
            assert("side-trail"@.len() != "cordelle"@.len());
            reveal_strlit("swamp");
            assert("side-trail"@.len() != "swamp"@.len());
            reveal_strlit("mason");
            assert("side-trail"@.len() != "mason"@.len());
            reveal_strlit("harpe");
            assert("side-trail"@.len() != "harpe"@.len());
            reveal_strlit("trace-hunt");
            assert("side-trail"@[0] != "trace-hunt"@[0]);
        },
        MiniTask::Timing(TimingTask::Dose) => {
            reveal_strlit("dose");
            reveal_strlit("falls-run");
            assert("dose"@.len() != "falls-run"@.len());
            reveal_strlit("cave-run");
            assert("dose"@.len() != "cave-run"@.len());
            reveal_strlit("duck-ford");
            assert("dose"@.len() != "duck-ford"@.len());
            reveal_strlit("pirates");
            assert("dose"@.len() != "pirates"@.len());
            reveal_strlit("sandbar");
            assert("dose"@.len() != "sandbar"@.len());
            reveal_strlit("cordelle");
            assert("dose"@.len() != "cordelle"@.len());
            reveal_strlit("swamp");
            assert("dose"@.len() != "swamp"@.len());
            reveal_strlit("mason");
            assert("dose"@.len() != "mason"@.len());
            reveal_strlit("harpe");
            assert("dose"@.len() != "harpe"@.len());
            reveal_strlit("trace-hunt");
            assert("dose"@.len() != "trace-hunt"@.len());
            reveal_strlit("side-trail");
            assert("dose"@.len() != "side-trail"@.len());
        },
        MiniTask::Sequence(SequenceTask::Patch) => {
            reveal_strlit("patch");
            reveal_strlit("falls-run");
            assert("patch"@.len() != "falls-run"@.len());
            reveal_strlit("cave-run");
            assert("patch"@.len() != "cave-run"@.len());
            reveal_strlit("duck-ford");
            assert("patch"@.len() != "duck-ford"@.len());
            reveal_strlit("pirates");
            assert("patch"@.len() != "pirates"@.len());
            reveal_strlit("sandbar");
            assert("patch"@.len() != "sandbar"@.len());
            reveal_strlit("cordelle");
            assert("patch"@.len() != "cordelle"@.len());
            reveal_strlit("swamp");
            assert("patch"@[0] != "swamp"@[0]);
            reveal_strlit("mason");
            assert("patch"@[0] != "mason"@[0]);
            reveal_strlit("harpe");
            assert("patch"@[0] != "harpe"@[0]);
            reveal_strlit("trace-hunt");
            assert("patch"@.len() != "trace-hunt"@.len());
            reveal_strlit("side-trail");
            assert("patch"@.len() != "side-trail"@.len());
            reveal_strlit("dose");
            assert("patch"@.len() != "dose"@.len());
        },
        MiniTask::Sequence(SequenceTask::SelfRepair) => {
            reveal_strlit("self-repair");
            reveal_strlit("falls-run");
            assert("self-repair"@.len() != "falls-run"@.len());
            reveal_strlit("cave-run");
            assert("self-repair"@.len() != "cave-run"@.len());
            reveal_strlit("duck-ford");
            assert("self-repair"@.len() != "duck-ford"@.len());
            reveal_strlit("pirates");
            assert("self-repair"@.len() != "pirates"@.len());
            reveal_strlit("sandbar");
            assert("self-repair"@.len() != "sandbar"@.len());
            reveal_strlit("cordelle");
            assert("self-repair"@.len() != "cordelle"@.len());
            reveal_strlit("swamp");
            assert("self-repair"@.len() != "swamp"@.len());
            reveal_strlit("mason");
            assert("self-repair"@.len() != "mason"@.len());
            reveal_strlit("harpe");
            assert("self-repair"@.len() != "harpe"@.len());
            reveal_strlit("trace-hunt");
            assert("self-repair"@.len() != "trace-hunt"@.len());
            reveal_strlit("side-trail");
            assert("self-repair"@.len() != "side-trail"@.len());
            reveal_strlit("dose");
            assert("self-repair"@.len() != "dose"@.len());
            reveal_strlit("patch");
            assert("self-repair"@.len() != "patch"@.len());
        },
        MiniTask::Brigade(BrigadeTask::Bail) => {
            reveal_strlit("bail");
            reveal_strlit("falls-run");
            assert("bail"@.len() != "falls-run"@.len());
            reveal_strlit("cave-run");
            assert("bail"@.len() != "cave-run"@.len());
            reveal_strlit("duck-ford");
            assert("bail"@.len() != "duck-ford"@.len());
            reveal_strlit("pirates");
            assert("bail"@.len() != "pirates"@.len());
            reveal_strlit("sandbar");
            assert("bail"@.len() != "sandbar"@.len());
            reveal_strlit("cordelle");
            assert("bail"@.len() != "cordelle"@.len());
            reveal_strlit("swamp");
            assert("bail"@.len() != "swamp"@.len());
            reveal_strlit("mason");
            assert("bail"@.len() != "mason"@.len());
            reveal_strlit("harpe");
            assert("bail"@.len() != "harpe"@.len());
            reveal_strlit("trace-hunt");
            assert("bail"@.len() != "trace-hunt"@.len());
            reveal_strlit("side-trail");
            assert("bail"@.len() != "side-trail"@.len());
            reveal_strlit("dose");
            assert("bail"@[0] != "dose"@[0]);
            reveal_strlit("patch");
            assert("bail"@.len() != "patch"@.len());
            reveal_strlit("self-repair");
            assert("bail"@.len() != "self-repair"@.len());
        },
        _ => {},
    }
}

/// The minigame an outcome id names, among all of them: the hazard
/// minigames, then the set-piece timing games and the card tables.
pub open spec fn task_for_key(id: Seq<char>) -> Option<MiniTask> {
    match hazard_task_spec(id) {
        Some(t) => Some(t),
        None => if id == "gamble"@ {
            Some(MiniTask::Timing(TimingTask::Gamble))
        } else if id == "cave-tell"@ {
            Some(MiniTask::Timing(TimingTask::CaveTell))
        } else if id == "faro"@ {
            Some(MiniTask::Card(CardTask::Faro))
        } else if id == "vingt-un"@ {
            Some(MiniTask::Card(CardTask::VingtUn))
        } else {
            None
        },
    }
}

proof fn lemma_set_piece_ids_are_not_hazards(t: MiniTask)
    requires
        t is Card || t == MiniTask::Timing(TimingTask::Gamble) || t == MiniTask::Timing(TimingTask::CaveTell),
    ensures
        task_for_key(outcome_key(t)) == Some(t),
{
    if t == MiniTask::Timing(TimingTask::Gamble) {
        reveal_strlit("gamble");
        reveal_strlit("falls-run");
        assert("gamble"@.len() != "falls-run"@.len());
        reveal_strlit("cave-run");
        assert("gamble"@.len() != "cave-run"@.len());
        reveal_strlit("duck-ford");
        assert("gamble"@.len() != "duck-ford"@.len());
        reveal_strlit("pirates");
        assert("gamble"@.len() != "pirates"@.len());
        reveal_strlit("sandbar");
        assert("gamble"@.len() != "sandbar"@.len());
        reveal_strlit("cordelle");
        assert("gamble"@.len() != "cordelle"@.len());
        reveal_strlit("swamp");
        assert("gamble"@.len() != "swamp"@.len());
        reveal_strlit("mason");
        assert("gamble"@.len() != "mason"@.len());
        reveal_strlit("harpe");
        assert("gamble"@.len() != "harpe"@.len());
        reveal_strlit("trace-hunt");
        assert("gamble"@.len() != "trace-hunt"@.len());
        reveal_strlit("side-trail");
        assert("gamble"@.len() != "side-trail"@.len());
        reveal_strlit("dose");
        assert("gamble"@.len() != "dose"@.len());
        reveal_strlit("patch");
        assert("gamble"@.len() != "patch"@.len());
        reveal_strlit("self-repair");
        assert("gamble"@.len() != "self-repair"@.len());
        reveal_strlit("bail");
        assert("gamble"@.len() != "bail"@.len());
    }
    if t == MiniTask::Timing(TimingTask::CaveTell) {
        reveal_strlit("cave-tell");
        reveal_strlit("falls-run");
        assert("cave-tell"@[0] != "falls-run"@[0]);
        reveal_strlit("cave-run");
        assert("cave-tell"@.len() != "cave-run"@.len());
        reveal_strlit("duck-ford");
        assert("cave-tell"@[0] != "duck-ford"@[0]);
        reveal_strlit("pirates");
        assert("cave-tell"@.len() != "pirates"@.len());
        reveal_strlit("sandbar");
        assert("cave-tell"@.len() != "sandbar"@.len());
        reveal_strlit("cordelle");
        assert("cave-tell"@.len() != "cordelle"@.len());
        reveal_strlit("swamp");
        assert("cave-tell"@.len() != "swamp"@.len());
        reveal_strlit("mason");
        assert("cave-tell"@.len() != "mason"@.len());
        reveal_strlit("harpe");
        assert("cave-tell"@.len() != "harpe"@.len());
        reveal_strlit("trace-hunt");
        assert("cave-tell"@.len() != "trace-hunt"@.len());
        reveal_strlit("side-trail");
        assert("cave-tell"@.len() != "side-trail"@.len());
        reveal_strlit("dose");
        assert("cave-tell"@.len() != "dose"@.len());
        reveal_strlit("patch");
        assert("cave-tell"@.len() != "patch"@.len());
        reveal_strlit("self-repair");
        assert("cave-tell"@.len() != "self-repair"@.len());
        reveal_strlit("bail");
        assert("cave-tell"@.len() != "bail"@.len());
        reveal_strlit("gamble");
        assert("cave-tell"@.len() != "gamble"@.len());
    }
    if t == MiniTask::Card(CardTask::Faro) {
        reveal_strlit("faro");
        reveal_strlit("falls-run");
        assert("faro"@.len() != "falls-run"@.len());
        reveal_strlit("cave-run");
        assert("faro"@.len() != "cave-run"@.len());
        reveal_strlit("duck-ford");
        assert("faro"@.len() != "duck-ford"@.len());
        reveal_strlit("pirates");
        assert("faro"@.len() != "pirates"@.len());
        reveal_strlit("sandbar");
        assert("faro"@.len() != "sandbar"@.len());
        reveal_strlit("cordelle");
        assert("faro"@.len() != "cordelle"@.len());
        reveal_strlit("swamp");
        assert("faro"@.len() != "swamp"@.len());
        reveal_strlit("mason");
        assert("faro"@.len() != "mason"@.len());
        reveal_strlit("harpe");
        assert("faro"@.len() != "harpe"@.len());
        reveal_strlit("trace-hunt");
        assert("faro"@.len() != "trace-hunt"@.len());
        reveal_strlit("side-trail");
        assert("faro"@.len() != "side-trail"@.len());
        reveal_strlit("dose");
        assert("faro"@[0] != "dose"@[0]);
        reveal_strlit("patch");
        assert("faro"@.len() != "patch"@.len());
        reveal_strlit("self-repair");
        assert("faro"@.len() != "self-repair"@.len());
        reveal_strlit("bail");
        assert("faro"@[0] != "bail"@[0]);
        reveal_strlit("gamble");
        assert("faro"@.len() != "gamble"@.len());
        reveal_strlit("cave-tell");
        assert("faro"@.len() != "cave-tell"@.len());
    }
    if t == MiniTask::Card(CardTask::VingtUn) {
        reveal_strlit("vingt-un");
        reveal_strlit("falls-run");
        assert("vingt-un"@.len() != "falls-run"@.len());
        reveal_strlit("cave-run");
        assert("vingt-un"@[0] != "cave-run"@[0]);
        reveal_strlit("duck-ford");
        assert("vingt-un"@.len() != "duck-ford"@.len());
        reveal_strlit("pirates");
        assert("vingt-un"@.len() != "pirates"@.len());
        reveal_strlit("sandbar");
        assert("vingt-un"@.len() != "sandbar"@.len());
        reveal_strlit("cordelle");
        assert("vingt-un"@[0] != "cordelle"@[0]);
        reveal_strlit("swamp");
        assert("vingt-un"@.len() != "swamp"@.len());
        reveal_strlit("mason");
        assert("vingt-un"@.len() != "mason"@.len());
        reveal_strlit("harpe");
        assert("vingt-un"@.len() != "harpe"@.len());
        reveal_strlit("trace-hunt");
        assert("vingt-un"@.len() != "trace-hunt"@.len());
        reveal_strlit("side-trail");
        assert("vingt-un"@.len() != "side-trail"@.len());
        reveal_strlit("dose");
        assert("vingt-un"@.len() != "dose"@.len());
        reveal_strlit("patch");
        assert("vingt-un"@.len() != "patch"@.len());
        reveal_strlit("self-repair");
        assert("vingt-un"@.len() != "self-repair"@.len());
        reveal_strlit("bail");
        assert("vingt-un"@.len() != "bail"@.len());
        reveal_strlit("gamble");
        assert("vingt-un"@.len() != "gamble"@.len());
        reveal_strlit("cave-tell");
        assert("vingt-un"@.len() != "cave-tell"@.len());
        reveal_strlit("faro");
        assert("vingt-un"@.len() != "faro"@.len());
    }
}

/// No two minigames share an outcome id: the id names its minigame.
pub proof fn law_outcome_ids_are_distinct(a: MiniTask, b: MiniTask)
    requires
        a != b,
    ensures
        outcome_key(a) != outcome_key(b),
{
    lemma_key_names_task(a);
    lemma_key_names_task(b);
}

proof fn lemma_key_names_task(t: MiniTask)
    ensures
        task_for_key(outcome_key(t)) == Some(t),
{
    if t is Card || t == MiniTask::Timing(TimingTask::Gamble) || t == MiniTask::Timing(TimingTask::CaveTell) {
        lemma_set_piece_ids_are_not_hazards(t);
    } else {
        law_hazard_task_round_trips(t);
    }
}

// ----- grading a minigame result -----

/// How a minigame went, from best to worst; a catastrophe overrides the rest.
#[derive(Debug, Clone, Copy, PartialEq, Eq, Structural)]
pub enum Tier {
    Success,
    Partial,
    Fail,
    Catastrophe,
}

/// Steady hands: holding on target is the success, slipping the partial.
pub fn steady_tier(steady: bool) -> (t: Tier)
    ensures
        t == (if steady { Tier::Success } else { Tier::Partial }),
{
    if steady {
        Tier::Success
    } else {
        Tier::Partial
    }
}

/// Quick draw: a hit drawn within a second (`fast`) is the success, a slow
/// hit the partial, a miss the fail.
pub fn quick_tier(hit: bool, fast: bool) -> (t: Tier)
    ensures
        t == (if hit && fast {
            Tier::Success
        } else if hit {
            Tier::Partial
        } else {
            Tier::Fail
        }),
{
    if hit && fast {
        Tier::Success
    } else if hit {
        Tier::Partial
    } else {
        Tier::Fail
    }
}

/// Crowd threading: reproducing the route is the success, anything less the
/// fail.
pub fn crowd_tier(cleared: bool) -> (t: Tier)
    ensures
        t == (if cleared { Tier::Success } else { Tier::Fail }),
{
    if cleared {
        Tier::Success
    } else {
        Tier::Fail
    }
}

/// The dosing timing bar: a hit in the zone is the success, a miss the fail.
pub fn dose_tier(hit: bool) -> (t: Tier)
    ensures
        t == (if hit { Tier::Success } else { Tier::Fail }),
{
    if hit {
        Tier::Success
    } else {
        Tier::Fail
    }
}

/// Patching a hull mid-leg: a perfect sequence is the success, a slip the
/// partial.
pub fn patch_tier(perfect: bool) -> (t: Tier)
    ensures
        t == (if perfect { Tier::Success } else { Tier::Partial }),
{
    if perfect {
        Tier::Success
    } else {
        Tier::Partial
    }
}

/// Self-repair at a landing: a perfect sequence mends her wholly, no step
/// right botches the job, anything between is a partial mend.
pub fn self_repair_tier(perfect: bool, correct_prefix: usize) -> (t: Tier)
    ensures
        t == (if perfect {
            Tier::Success
        } else if correct_prefix == 0 {
            Tier::Fail
        } else {
            Tier::Partial
        }),
{
    if perfect {
        Tier::Success
    } else if correct_prefix == 0 {
        Tier::Fail
    } else {
        Tier::Partial
    }
}

/// Bailing: containing the flood is the success, a leak the fail.
pub fn brigade_tier(contained: bool) -> (t: Tier)
    ensures
        t == (if contained { Tier::Success } else { Tier::Fail }),
{
    if contained {
        Tier::Success
    } else {
        Tier::Fail
    }
}

/// Heaving off a bar: opening every stage is the success, running out of grip
/// the partial.
pub fn heave_tier(opened: bool) -> (t: Tier)
    ensures
        t == (if opened { Tier::Success } else { Tier::Partial }),
{
    if opened {
        Tier::Success
    } else {
        Tier::Partial
    }
}

/// The search: not finding it is the fail; finding it within the first half
/// of the probe budget (a budget of at least one) is the success, later the
/// partial.
pub fn hotcold_tier(found: bool, probes_used: usize, budget: usize) -> (t: Tier)
    requires
        probes_used * 2 <= usize::MAX,
    ensures
        t == (if !found {
            Tier::Fail
        } else if probes_used * 2 <= (if budget < 1 { 1 } else { budget }) {
            Tier::Success
        } else {
            Tier::Partial
        }),
{
    let budget = if budget < 1 {
        1
    } else {
        budget
    };
    let sharp = probes_used * 2 <= budget;
    if !found {
        Tier::Fail
    } else if sharp {
        Tier::Success
    } else {
        Tier::Partial
    }
}

/// The hunt: a kill in one or two shots is the success, a kill that took more
/// the partial, an empty gun the fail.
pub fn hunter_tier(hit: bool, shots_fired: usize) -> (t: Tier)
    ensures
        t == (if hit && shots_fired <= 2 {
            Tier::Success
        } else if hit {
            Tier::Partial
        } else {
            Tier::Fail
        }),
{
    if hit && shots_fired <= 2 {
        Tier::Success
    } else if hit {
        Tier::Partial
    } else {
        Tier::Fail
    }
}

/// The tier a result lands on: a catastrophe when the outcome declares a
/// catastrophe band and the result's quality fell under it (`under_band`),
/// unless the band spares a clean run (`needs_unsteady`) and the base tier is
/// the success; otherwise the base tier.
pub fn resolve_tier(base: Tier, under_band: bool, needs_unsteady: bool) -> (t: Tier)
    ensures
        t == (if under_band && (!needs_unsteady || base != Tier::Success) {
            Tier::Catastrophe
        } else {
            base
        }),
{
    if under_band {
        let clean = base == Tier::Success;
        if !needs_unsteady || !clean {
            return Tier::Catastrophe;
        }
    }
    base
}

} // verus!

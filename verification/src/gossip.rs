//! Trader gossip: attributed bot activity that a shared-economy server ships to
//! clients, so the player's crew can talk about the *other* traders out on the
//! river — by name and by trading persona. Pure data, RNG-free.

use std::collections::VecDeque;

use vstd::prelude::*;
use vstd::utf8::encode_utf8;

use crate::flavor::{
    find_phrasing, good_name, good_name_spec, phrasing_for, pick_index, town_name, town_name_spec,
    Catalog, Phrasing,
};
use crate::hash::{fnv1a, fnv_hash};
use crate::market_link::Side;
use crate::policy::{persona_key, Persona};
use crate::text::{replace, replace_all, same_text, utf8_bytes};

verus! {

/// A noteworthy thing a trader did.
#[derive(Debug, Clone, PartialEq, Eq)]
pub enum GossipKind {
    /// A notable buy/sell at a landing.
    Trade { town: usize, good: usize, side: Side, qty: i64 },
    /// Put in at a river landing (any town below Natchez).
    Arrived { town: usize },
    /// Reached Natchez — the end of the downstream run.
    ReachedNatchez,
    /// Sold the boat for lumber and started up the Natchez Trace.
    SetOutOnTrace,
    /// Robbed (river pirates or Trace bandits).
    Robbed,
    /// Made it home to Nashville.
    Won { score: i64 },
    /// Died or went broke; `cause` is the human-readable reason.
    Lost { cause: String },
}

/// One thing a named trader did, for the crew to gossip about.
#[derive(Debug, Clone, PartialEq, Eq)]
pub struct GossipEvent {
    /// The trader's display name (e.g. "Lemuel Boggs").
    pub trader: String,
    /// Their trading temperament.
    pub persona: Persona,
    /// What they did.
    pub kind: GossipKind,
}

/// The epithet the crew uses for one persona, keyed by [`Persona::key`].
pub struct PersonaEpithet {
    pub key: String,
    pub epithet: String,
}

/// The scenario's gossip flavor: who speaks, what they say per kind of event,
/// and how they describe each persona.
pub struct GossipFlavor {
    pub voices: Vec<String>,
    pub lines: Vec<Phrasing>,
    pub personas: Vec<PersonaEpithet>,
}

/// The phrasing key for a kind of event.
pub open spec fn kind_key(k: GossipKind) -> Seq<char> {
    match k {
        GossipKind::Trade { side, .. } => match side {
            Side::Buy => "trade_buy"@,
            Side::Sell => "trade_sell"@,
        },
        GossipKind::Arrived { .. } => "arrived"@,
        GossipKind::ReachedNatchez => "reached_natchez"@,
        GossipKind::SetOutOnTrace => "set_out_on_trace"@,
        GossipKind::Robbed => "robbed"@,
        GossipKind::Won { .. } => "won"@,
        GossipKind::Lost { .. } => "lost"@,
    }
}

/// The good a kind of event names, if any.
pub open spec fn kind_good(k: GossipKind) -> Option<usize> {
    match k {
        GossipKind::Trade { good, .. } => Some(good),
        _ => None,
    }
}

/// The town a kind of event names, if any.
pub open spec fn kind_town(k: GossipKind) -> Option<usize> {
    match k {
        GossipKind::Trade { town, .. } => Some(town),
        GossipKind::Arrived { town } => Some(town),
        _ => None,
    }
}

/// The cause of a loss; empty for every other kind.
pub open spec fn kind_cause(k: GossipKind) -> Seq<char> {
    match k {
        GossipKind::Lost { cause } => cause@,
        _ => Seq::empty(),
    }
}

impl GossipKind {
    /// The phrasing key for this event, plus the good/town indices that fill
    /// the `{good}`/`{town}` placeholders (when the kind names them).
    pub fn template_fields(&self) -> (r: (&'static str, Option<usize>, Option<usize>))
        ensures
            r.0@ == kind_key(*self),
            r.1 == kind_good(*self),
            r.2 == kind_town(*self),
    {
        match self {
            GossipKind::Trade { town, good, side, .. } => (
                match side {
                    Side::Buy => "trade_buy",
                    Side::Sell => "trade_sell",
                },
                Some(*good),
                Some(*town),
            ),
            GossipKind::Arrived { town } => ("arrived", None, Some(*town)),
            GossipKind::ReachedNatchez => ("reached_natchez", None, None),
            GossipKind::SetOutOnTrace => ("set_out_on_trace", None, None),
            GossipKind::Robbed => ("robbed", None, None),
            GossipKind::Won { .. } => ("won", None, None),
            GossipKind::Lost { .. } => ("lost", None, None),
        }
    }
}

/// The rotation seed for a trader and a kind key: FNV-1a over the UTF-8 of the
/// name followed by the UTF-8 of the key.
pub open spec fn rotation(trader: Seq<char>, key: Seq<char>) -> u64 {
    fnv_hash(encode_utf8(trader) + encode_utf8(key))
}

/// A stable, RNG-free rotation seed from the trader name + kind key. Callers
/// reduce it `% len`, so the choice is the same on every platform.
pub fn rotate(trader: &str, kind_key: &str) -> (r: u64)
    ensures
        r == rotation(trader@, kind_key@),
{
    let mut buf = utf8_bytes(trader);
    let mut tail = utf8_bytes(kind_key);
    buf.append(&mut tail);
    fnv1a(buf.as_slice())
}

/// The epithet for a persona key: the first entry so keyed, or empty.
pub open spec fn epithet_for(ps: Seq<PersonaEpithet>, key: Seq<char>) -> Seq<char>
    decreases ps.len(),
{
    if ps.len() == 0 {
        Seq::empty()
    } else if ps[0].key@ == key {
        ps[0].epithet@
    } else {
        epithet_for(ps.drop_first(), key)
    }
}

fn find_epithet(ps: &Vec<PersonaEpithet>, key: &str) -> (r: String)
    ensures
        r@ == epithet_for(ps@, key@),
{
    let mut i: usize = 0;
    assert(ps@.skip(0) =~= ps@);
    while i < ps.len()
        invariant
            i <= ps@.len(),
            epithet_for(ps@, key@) == epithet_for(ps@.skip(i as int), key@),
        decreases ps@.len() - i,
    {
        assert(ps@.skip(i as int)[0] == ps@[i as int]);
        if same_text(ps[i].key.as_str(), key) {
            return ps[i].epithet.clone();
        }
        assert(ps@.skip(i as int).drop_first() =~= ps@.skip(i + 1));
        i += 1;
    }
    String::new()
}

/// A template with its five placeholders filled, in order: `{trader}`,
/// `{persona}`, `{good}`, `{town}`, `{cause}` — each occurrence replaced.
pub open spec fn fill_gossip(
    template: Seq<char>,
    trader: Seq<char>,
    persona: Seq<char>,
    good: Seq<char>,
    town: Seq<char>,
    cause: Seq<char>,
) -> Seq<char> {
    replace_all(
        replace_all(
            replace_all(
                replace_all(replace_all(template, "{trader}"@, trader), "{persona}"@, persona),
                "{good}"@,
                good,
            ),
            "{town}"@,
            town,
        ),
        "{cause}"@,
        cause,
    )
}

/// The good name a kind of event fills in: lowercased, or empty.
pub open spec fn event_good(c: Catalog, k: GossipKind) -> Seq<char> {
    match kind_good(k) {
        Some(g) => good_name_spec(c, g as int),
        None => Seq::empty(),
    }
}

/// The town name a kind of event fills in, or empty.
pub open spec fn event_town(c: Catalog, k: GossipKind) -> Seq<char> {
    match kind_town(k) {
        Some(t) => town_name_spec(c, t as int),
        None => Seq::empty(),
    }
}

/// The crew remark — `(voice, line)` — for an event: `None` when the flavor
/// has no voices, or no phrasing (or only an empty one) for the event's kind.
/// Otherwise the voice and the template are both picked by the rotation seed
/// of the trader and kind, and the template is filled.
pub open spec fn compose_spec(e: GossipEvent, f: GossipFlavor, c: Catalog) -> Option<(Seq<char>, Seq<char>)> {
    if f.voices@.len() == 0 {
        None
    } else {
        match phrasing_for(f.lines@, kind_key(e.kind)) {
            None => None,
            Some(p) => if p.templates@.len() == 0 {
                None
            } else {
                let r = rotation(e.trader@, kind_key(e.kind));
                let voice = f.voices@[pick_index(f.voices@.len(), r)]@;
                let template = p.templates@[pick_index(p.templates@.len(), r)]@;
                Some(
                    (
                        voice,
                        fill_gossip(
                            template,
                            e.trader@,
                            epithet_for(f.personas@, persona_key(e.persona)),
                            event_good(c, e.kind),
                            event_town(c, e.kind),
                            kind_cause(e.kind),
                        ),
                    ),
                )
            },
        }
    }
}

impl GossipEvent {
    /// Compose a crew remark — `(voice, line)` — from the scenario's gossip
    /// flavor, filling `{trader}`/`{persona}`/`{good}`/`{town}`/`{cause}`.
    /// `None` when the flavor has no voices or no phrasing for this kind.
    /// Deterministic: voice and template vary by a hash of the trader name and
    /// kind, so repeated events read differently without state.
    pub fn compose(&self, flavor: &GossipFlavor, catalog: &Catalog) -> (r: Option<(String, String)>)
        ensures
            r is None <==> compose_spec(*self, *flavor, *catalog) is None,
            r matches Some(p) ==> compose_spec(*self, *flavor, *catalog) == Some((p.0@, p.1@)),
    {
        if flavor.voices.len() == 0 {
            return None;
        }
        let (key, good, town) = self.kind.template_fields();
        let at = find_phrasing(&flavor.lines, key, false);
        let i = match at {
            None => return None,
            Some(i) => i,
        };
        let phrasing = &flavor.lines[i];
        if phrasing.templates.len() == 0 {
            return None;
        }
        let r = rotate(self.trader.as_str(), key);
        let voice = flavor.voices[(r % (flavor.voices.len() as u64)) as usize].clone();
        let template = &phrasing.templates[(r % (phrasing.templates.len() as u64)) as usize];
        let persona = find_epithet(&flavor.personas, self.persona.key());
        let good_name = match good {
            Some(g) => good_name(catalog, g),
            None => String::new(),
        };
        let town_name = match town {
            Some(t) => town_name(catalog, t),
            None => String::new(),
        };
        let cause = match &self.kind {
            GossipKind::Lost { cause } => cause.as_str(),
            _ => "",
        };
        proof {
            reveal_strlit("{trader}");
            reveal_strlit("{persona}");
            reveal_strlit("{good}");
            reveal_strlit("{town}");
            reveal_strlit("{cause}");
            reveal_strlit("");
        }
        let line = replace(template.as_str(), "{trader}", self.trader.as_str());
        let line = replace(line.as_str(), "{persona}", persona.as_str());
        let line = replace(line.as_str(), "{good}", good_name.as_str());
        let line = replace(line.as_str(), "{town}", town_name.as_str());
        let line = replace(line.as_str(), "{cause}", cause);
        proof {
            assert(phrasing_for(flavor.lines@, kind_key(self.kind)) == Some(flavor.lines@[i as int]));
            assert(good_name@ == event_good(*catalog, self.kind));
            assert(town_name@ == event_town(*catalog, self.kind));
            assert(cause@ == kind_cause(self.kind));
        }
        Some((voice, line))
    }
}

/// Max events a feed retains — stale gossip is dropped rather than queued
/// forever.
pub const GOSSIP_CAP: usize = 16;

/// What a feed holds after one more event arrives: the event at the back, and
/// the oldest dropped first if the feed was full.
pub open spec fn pushed(s: Seq<GossipEvent>, e: GossipEvent) -> Seq<GossipEvent> {
    if s.len() >= GOSSIP_CAP {
        s.drop_first().push(e)
    } else {
        s.push(e)
    }
}

/// What a feed holds after each of `es` arrives, in order.
pub open spec fn pushed_all(s: Seq<GossipEvent>, es: Seq<GossipEvent>) -> Seq<GossipEvent>
    decreases es.len(),
{
    if es.len() == 0 {
        s
    } else {
        pushed(pushed_all(s, es.drop_last()), es.last())
    }
}

/// A bounded ring of the most recent gossip, fed by the server and drained by
/// the banter. Oldest-first: the banter takes from the front, so the player
/// hears events roughly in the order they happened.
#[derive(Debug)]
pub struct GossipFeed {
    events: VecDeque<GossipEvent>,
}

impl View for GossipFeed {
    type V = Seq<GossipEvent>;

    closed spec fn view(&self) -> Seq<GossipEvent> {
        self.events@
    }
}

impl Default for GossipFeed {
    /// An empty feed.
    fn default() -> (r: Self)
        ensures
            r@ == Seq::<GossipEvent>::empty(),
    {
        GossipFeed { events: VecDeque::new() }
    }
}

impl GossipFeed {
    /// Max events retained — stale gossip is dropped rather than queued
    /// forever.
    pub const CAP: usize = GOSSIP_CAP;

    #[verifier::type_invariant]
    spec fn bounded(self) -> bool {
        self.events@.len() <= GOSSIP_CAP
    }

    /// Add an event, dropping the oldest if the ring is full.
    pub fn push(&mut self, event: GossipEvent)
        ensures
            final(self)@ == pushed(old(self)@, event),
            final(self)@.len() <= GOSSIP_CAP,
    {
        proof {
            use_type_invariant(&*self);
        }
        let mut q: VecDeque<GossipEvent> = VecDeque::new();
        std::mem::swap(&mut q, &mut self.events);
        if q.len() >= Self::CAP {
            q.pop_front();
        }
        q.push_back(event);
        proof {
            assert(q@ =~= pushed(old(self)@, event));
        }
        self.events = q;
    }

    /// Take the oldest not-yet-spoken event, if any.
    pub fn take_oldest(&mut self) -> (r: Option<GossipEvent>)
        ensures
            old(self)@.len() == 0 ==> r is None && final(self)@ == old(self)@,
            old(self)@.len() > 0 ==> r == Some(old(self)@[0]) && final(self)@ == old(self)@.drop_first(),
    {
        proof {
            use_type_invariant(&*self);
        }
        let mut q: VecDeque<GossipEvent> = VecDeque::new();
        std::mem::swap(&mut q, &mut self.events);
        let r = q.pop_front();
        proof {
            if old(self)@.len() > 0 {
                assert(q@ =~= old(self)@.drop_first());
            }
        }
        self.events = q;
        r
    }

    /// Whether no gossip is waiting.
    pub fn is_empty(&self) -> (r: bool)
        ensures
            r == (self@.len() == 0),
    {
        self.events.len() == 0
    }

    /// How many events are waiting; never more than [`GOSSIP_CAP`].
    pub fn len(&self) -> (r: usize)
        ensures
            r == self@.len(),
            r <= GOSSIP_CAP,
    {
        proof {
            use_type_invariant(self);
        }
        self.events.len()
    }
}

/// A feed keeps the newest events, in arrival order: after a run of pushes
/// onto a feed, it holds the last `GOSSIP_CAP` (or fewer) of everything it held
/// and everything that arrived.
pub proof fn law_feed_keeps_the_newest(s: Seq<GossipEvent>, es: Seq<GossipEvent>)
    requires
        s.len() <= GOSSIP_CAP,
    ensures
        pushed_all(s, es) == (s + es).skip(
            if s.len() + es.len() > GOSSIP_CAP {
                s.len() + es.len() - GOSSIP_CAP
            } else {
                0
            },
        ),
    decreases es.len(),
{
    if es.len() == 0 {
        assert(s + es =~= s);
        assert(s.skip(0) =~= s);
    } else {
        let init = es.drop_last();
        law_feed_keeps_the_newest(s, init);
        let n = s.len() + es.len();
        let prev = pushed_all(s, init);
        assert(s + es =~= (s + init).push(es.last()));
        if n - 1 > GOSSIP_CAP {
            assert(prev.len() == GOSSIP_CAP);
            assert(prev.drop_first().push(es.last()) =~= (s + es).skip(n - GOSSIP_CAP));
        } else if n - 1 == GOSSIP_CAP {
            assert((s + init).skip(0) =~= s + init);
            assert(prev.drop_first().push(es.last()) =~= (s + es).skip(n - GOSSIP_CAP));
        } else {
            assert((s + init).skip(0) =~= s + init);
            assert(prev.push(es.last()) =~= (s + es).skip(0));
        }
    }
}

/// Taking from a feed gives back the oldest event first: what was pushed onto
/// an empty feed comes back out in the order it went in.
pub proof fn law_feed_is_first_in_first_out(es: Seq<GossipEvent>)
    requires
        es.len() <= GOSSIP_CAP,
    ensures
        pushed_all(Seq::empty(), es) == es,
{
    law_feed_keeps_the_newest(Seq::empty(), es);
    assert(Seq::<GossipEvent>::empty() + es =~= es);
    assert(es.skip(0) =~= es);
}

/// A fresh feed that has had `k` events pushed holds `min(k, GOSSIP_CAP)`
/// of them.
pub proof fn law_pushes_fill_to_the_cap(es: Seq<GossipEvent>)
    ensures
        pushed_all(Seq::empty(), es).len() == if es.len() <= GOSSIP_CAP {
            es.len()
        } else {
            GOSSIP_CAP as nat
        },
{
    law_feed_keeps_the_newest(Seq::empty(), es);
    assert(Seq::<GossipEvent>::empty() + es =~= es);
}

/// Every event fills in the town and good it names, straight from the
/// catalog: a trade both its town and its good, an arrival its town (and no
/// good), and every other event neither.
pub proof fn law_events_name_their_town_and_good(c: Catalog, k: GossipKind)
    ensures
        k matches GossipKind::Trade { town, good, .. } ==> event_town(c, k) == town_name_spec(c, town as int)
            && event_good(c, k) == good_name_spec(c, good as int),
        k matches GossipKind::Arrived { town } ==> event_town(c, k) == town_name_spec(c, town as int)
            && event_good(c, k) == Seq::<char>::empty(),
        !(k is Trade || k is Arrived) ==> event_town(c, k) == Seq::<char>::empty() && event_good(c, k)
            == Seq::<char>::empty(),
{
}

/// A crew remark is spoken in one of the flavor's voices, and its line is one
/// of the templates listed for the event's kind with the trader, the
/// persona's epithet, the event's good and town, and a loss's cause filled
/// in. There is a remark whenever a voice exists and the first phrasing listed
/// for the kind has a template; none when there are no voices or no phrasing
/// for the kind.
pub proof fn law_remarks_fill_a_template_for_the_event(e: GossipEvent, f: GossipFlavor, c: Catalog)
    ensures
        compose_spec(e, f, c) matches Some((voice, line)) ==> {
            &&& exists|v: int| 0 <= v < f.voices@.len() && voice == (#[trigger] f.voices@[v])@
            &&& exists|i: int, t: int|
                0 <= i < f.lines@.len() && f.lines@[i].kind@ == kind_key(e.kind) && 0 <= t
                    < f.lines@[i].templates@.len() && line == fill_gossip(
                    (#[trigger] f.lines@[i].templates@[t])@,
                    e.trader@,
                    epithet_for(f.personas@, persona_key(e.persona)),
                    event_good(c, e.kind),
                    event_town(c, e.kind),
                    kind_cause(e.kind),
                )
        },
        f.voices@.len() == 0 ==> compose_spec(e, f, c) is None,
        (forall|i: int| 0 <= i < f.lines@.len() ==> (#[trigger] f.lines@[i]).kind@ != kind_key(e.kind))
            ==> compose_spec(e, f, c) is None,
        f.voices@.len() > 0 && (forall|i: int|
            0 <= i < f.lines@.len() && (#[trigger] f.lines@[i]).kind@ == kind_key(e.kind) ==> f.lines@[i].templates@.len()
                > 0) && (exists|i: int| 0 <= i < f.lines@.len() && (#[trigger] f.lines@[i]).kind@ == kind_key(e.kind))
            ==> compose_spec(e, f, c) is Some,
{
    let key = kind_key(e.kind);
    crate::flavor::lemma_phrasing_found(f.lines@, key);
    if f.voices@.len() > 0 && phrasing_for(f.lines@, key) is Some {
        let p = phrasing_for(f.lines@, key)->0;
        let i = choose|i: int| 0 <= i < f.lines@.len() && #[trigger] f.lines@[i] == p && p.kind@ == key;
        if p.templates@.len() > 0 {
            let r = rotation(e.trader@, key);
            assert(f.voices.len() == f.voices@.len());
            assert(p.templates.len() == p.templates@.len());
            crate::flavor::lemma_pick_in_range(f.voices@.len(), r);
            crate::flavor::lemma_pick_in_range(p.templates@.len(), r);
            let v = pick_index(f.voices@.len(), r);
            let t = pick_index(p.templates@.len(), r);
            assert(f.lines@[i].templates@[t] == p.templates@[t]);
            assert(f.voices@[v] == f.voices@[v]);
        }
    }
}

} // verus!

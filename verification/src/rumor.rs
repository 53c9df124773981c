//! Dockside rumors: advance word the crew picks up about how the *next*
//! landing will price a good — *"The harbormaster swears furs are dear down at
//! Louisville."* Each tip comes from a named source; it is heard at one dock and
//! proves out — or doesn't — at the next. Phrasing selection is RNG-free
//! (FNV-1a), so a given tip always reads the same.

use vstd::prelude::*;
use vstd::utf8::encode_utf8;

use crate::flavor::{
    authored_phrasing_for, find_phrasing, good_name, good_name_spec, pick, pick_index, town_name,
    town_name_spec, Catalog, Phrasing,
};
use crate::hash::{fnv1a, fnv_hash};
use crate::text::{decimal, decimal_chars, push_chars, replace, replace_all, same_text, utf8_bytes};

verus! {

/// Advance word about how `town` will price `good`, from `source` (a source
/// key). `claimed_band` is what the tip *says* (1 = cheap/glut, 2 = ordinary,
/// 3 = dear/scarce).
#[derive(Debug, Clone, PartialEq, Eq)]
pub struct Rumor {
    pub source: String,
    pub town: usize,
    pub good: usize,
    pub claimed_band: u8,
}

/// One teller of tips: its key and the voice its lines are spoken in.
pub struct RumorSource {
    pub key: String,
    pub voice: String,
}

/// The scenario's rumor flavor: the sources, the tip lines per band
/// (`cheap`/`ordinary`/`dear`), and the payoff lines (`held`/`wind`).
pub struct RumorFlavor {
    pub sources: Vec<RumorSource>,
    pub lines: Vec<Phrasing>,
    pub confirms: Vec<Phrasing>,
}

/// The phrasing key for a band: 1 is cheap, 3 is dear, anything else ordinary.
pub open spec fn band_key_spec(band: u8) -> Seq<char> {
    if band == 1 {
        "cheap"@
    } else if band == 3 {
        "dear"@
    } else {
        "ordinary"@
    }
}

/// The phrasing key for a band.
pub fn band_key(band: u8) -> (k: &'static str)
    ensures
        k@ == band_key_spec(band),
{
    match band {
        1 => "cheap",
        3 => "dear",
        _ => "ordinary",
    }
}

/// The rotation seed for a tip: FNV-1a over the UTF-8 of the source key,
/// then the low byte of the town index, then the low byte of the good index.
pub open spec fn tip_rotation(source: Seq<char>, town: usize, good: usize) -> u64 {
    fnv_hash(encode_utf8(source).push(town as u8).push(good as u8))
}

/// A stable, RNG-free rotation seed from the source and the target, so a given
/// tip reads the same line every time without storing the choice.
pub fn rotate(source: &str, town: usize, good: usize) -> (r: u64)
    ensures
        r == tip_rotation(source@, town, good),
{
    let mut buf = utf8_bytes(source);
    buf.push(town as u8);
    buf.push(good as u8);
    fnv1a(buf.as_slice())
}

/// A template with `{good}` and then `{town}` filled in.
pub open spec fn fill_spec(c: Catalog, template: Seq<char>, good: usize, town: usize) -> Seq<char> {
    replace_all(
        replace_all(template, "{good}"@, good_name_spec(c, good as int)),
        "{town}"@,
        town_name_spec(c, town as int),
    )
}

/// Fill `{good}` and `{town}` in a template.
pub fn fill(c: &Catalog, template: &str, good: usize, town: usize) -> (r: String)
    ensures
        r@ == fill_spec(*c, template@, good, town),
{
    proof {
        reveal_strlit("{good}");
        reveal_strlit("{town}");
    }
    let g = good_name(c, good);
    let t = town_name(c, town);
    let once = replace(template, "{good}", g.as_str());
    replace(once.as_str(), "{town}", t.as_str())
}

/// The first source with a given key.
pub open spec fn source_for(ss: Seq<RumorSource>, key: Seq<char>) -> Option<RumorSource>
    decreases ss.len(),
{
    if ss.len() == 0 {
        None
    } else if ss[0].key@ == key {
        Some(ss[0])
    } else {
        source_for(ss.drop_first(), key)
    }
}

fn find_source(ss: &Vec<RumorSource>, key: &str) -> (r: Option<usize>)
    ensures
        match r {
            None => source_for(ss@, key@) is None,
            Some(i) => i < ss@.len() && source_for(ss@, key@) == Some(ss@[i as int]),
        },
{
    let mut i: usize = 0;
    assert(ss@.skip(0) =~= ss@);
    while i < ss.len()
        invariant
            i <= ss@.len(),
            source_for(ss@, key@) == source_for(ss@.skip(i as int), key@),
        decreases ss@.len() - i,
    {
        assert(ss@.skip(i as int)[0] == ss@[i as int]);
        if same_text(ss[i].key.as_str(), key) {
            return Some(i);
        }
        assert(ss@.skip(i as int).drop_first() =~= ss@.skip(i + 1));
        i += 1;
    }
    None
}

/// The notification key of a tip: `rumor:{town}:{good}`, in decimal.
pub open spec fn report_key_spec(town: nat, good: nat) -> Seq<char> {
    "rumor:"@ + decimal(town) + ":"@ + decimal(good)
}

/// The tip as `(voice, line)`: `None` when no source has the tip's key or
/// the claimed band has no authored phrasing; otherwise the source's voice and
/// the template the tip's rotation picks, filled.
pub open spec fn compose_spec(r: Rumor, f: RumorFlavor, c: Catalog) -> Option<(Seq<char>, Seq<char>)> {
    match source_for(f.sources@, r.source@) {
        None => None,
        Some(s) => match authored_phrasing_for(f.lines@, band_key_spec(r.claimed_band)) {
            None => None,
            Some(p) => {
                let seed = tip_rotation(r.source@, r.town, r.good);
                let template = p.templates@[pick_index(p.templates@.len(), seed)]@;
                Some((s.voice@, fill_spec(c, template, r.good, r.town)))
            },
        },
    }
}

/// The offset between a tip's rotation and its payoff line's, so the two do not
/// move in lockstep when both pools are the same size.
pub const PAYOFF_OFFSET: u64 = 0x9e37_79b9;

/// The payoff line for a tip: keyed `held` or `wind` among the confirms,
/// `None` when unauthored; otherwise the template picked by the tip's rotation
/// plus [`PAYOFF_OFFSET`] (wrapping), filled.
pub open spec fn resolve_line_spec(r: Rumor, held: bool, f: RumorFlavor, c: Catalog) -> Option<Seq<char>> {
    match authored_phrasing_for(f.confirms@, if held { "held"@ } else { "wind"@ }) {
        None => None,
        Some(p) => {
            let seed = tip_rotation(r.source@, r.town, r.good).wrapping_add(PAYOFF_OFFSET);
            let template = p.templates@[pick_index(p.templates@.len(), seed)]@;
            Some(fill_spec(c, template, r.good, r.town))
        },
    }
}

impl Rumor {
    /// A stable notification key for this tip, so the payoff heard at the next
    /// landing can be appended onto the tip's report rather than logged anew.
    pub fn report_key(&self) -> (k: String)
        ensures
            k@ == report_key_spec(self.town as nat, self.good as nat),
    {
        proof {
            reveal_strlit("rumor:");
            reveal_strlit(":");
        }
        let mut k = String::new();
        let mut prefix: Vec<char> = Vec::new();
        prefix.push('r');
        prefix.push('u');
        prefix.push('m');
        prefix.push('o');
        prefix.push('r');
        prefix.push(':');
        push_chars(&mut k, &prefix);
        push_chars(&mut k, &decimal_chars(self.town as u64));
        let mut sep: Vec<char> = Vec::new();
        sep.push(':');
        push_chars(&mut k, &sep);
        push_chars(&mut k, &decimal_chars(self.good as u64));
        proof {
            assert(prefix@ =~= "rumor:"@);
            assert(sep@ =~= ":"@);
            assert(k@ =~= report_key_spec(self.town as nat, self.good as nat));
        }
        k
    }

    /// Compose the tip as `(voice, line)` from the rumor flavor, filling
    /// `{good}`/`{town}`; the voice names the teller. `None` if the source or
    /// the claimed band carries no phrasing. RNG-free.
    pub fn compose(&self, flavor: &RumorFlavor, catalog: &Catalog) -> (r: Option<(String, String)>)
        ensures
            r is None <==> compose_spec(*self, *flavor, *catalog) is None,
            r matches Some(p) ==> compose_spec(*self, *flavor, *catalog) == Some((p.0@, p.1@)),
    {
        let si = match find_source(&flavor.sources, self.source.as_str()) {
            None => return None,
            Some(i) => i,
        };
        let kind = band_key(self.claimed_band);
        let pi = match find_phrasing(&flavor.lines, kind, true) {
            None => return None,
            Some(i) => i,
        };
        let phrasing = &flavor.lines[pi];
        let r = rotate(self.source.as_str(), self.town, self.good);
        let template = pick(phrasing.templates.as_slice(), r);
        let line = fill(catalog, template, self.good, self.town);
        proof {
            assert(source_for(flavor.sources@, self.source@) == Some(flavor.sources@[si as int]));
            assert(authored_phrasing_for(flavor.lines@, band_key_spec(self.claimed_band)) == Some(
                flavor.lines@[pi as int],
            ));
        }
        Some((flavor.sources[si].voice.clone(), line))
    }

    /// Compose the payoff line shown on arrival — whether the tip `held` (true)
    /// or was wind (false) — keyed `"held"`/`"wind"` in `confirms`. `None` if
    /// unauthored.
    pub fn resolve_line(&self, held: bool, flavor: &RumorFlavor, catalog: &Catalog) -> (r: Option<String>)
        ensures
            r is None <==> resolve_line_spec(*self, held, *flavor, *catalog) is None,
            r matches Some(l) ==> resolve_line_spec(*self, held, *flavor, *catalog) == Some(l@),
    {
        let kind = if held {
            "held"
        } else {
            "wind"
        };
        let pi = match find_phrasing(&flavor.confirms, kind, true) {
            None => return None,
            Some(i) => i,
        };
        let phrasing = &flavor.confirms[pi];
        let r = rotate(self.source.as_str(), self.town, self.good).wrapping_add(PAYOFF_OFFSET);
        let template = pick(phrasing.templates.as_slice(), r);
        proof {
            assert(authored_phrasing_for(flavor.confirms@, if held { "held"@ } else { "wind"@ })
                == Some(flavor.confirms@[pi as int]));
        }
        Some(fill(catalog, template, self.good, self.town))
    }
}

/// The phrasing key of a tip's payoff: `"held"` when the tip held, `"wind"`
/// when it proved wind.
pub open spec fn payoff_key(held: bool) -> Seq<char> {
    if held {
        "held"@
    } else {
        "wind"@
    }
}

/// A tip's payoff line is one of the confirming templates for how the tip
/// turned out — keyed `"held"` when it held and `"wind"` when it did not —
/// with the tip's good and town filled in; and there is a line exactly when
/// such a template is authored.
pub proof fn law_payoff_lines_match_how_the_tip_turned_out(
    r: Rumor,
    held: bool,
    f: RumorFlavor,
    c: Catalog,
)
    ensures
        resolve_line_spec(r, held, f, c) is Some <==> exists|i: int|
            0 <= i < f.confirms@.len() && (#[trigger] f.confirms@[i]).kind@ == payoff_key(held)
                && f.confirms@[i].templates@.len() > 0,
        resolve_line_spec(r, held, f, c) matches Some(line) ==> exists|i: int, k: int|
            0 <= i < f.confirms@.len() && f.confirms@[i].kind@ == payoff_key(held) && 0 <= k
                < f.confirms@[i].templates@.len() && line == fill_spec(
                c,
                (#[trigger] f.confirms@[i].templates@[k])@,
                r.good,
                r.town,
            ),
{
    let key = if held {
        "held"@
    } else {
        "wind"@
    };
    crate::flavor::lemma_authored_phrasing_found(f.confirms@, key);
    if authored_phrasing_for(f.confirms@, key) is Some {
        let p = authored_phrasing_for(f.confirms@, key)->0;
        let i = choose|i: int|
            0 <= i < f.confirms@.len() && #[trigger] f.confirms@[i] == p && p.kind@ == key
                && p.templates@.len() > 0;
        assert(p.templates.len() == p.templates@.len());
        let seed = tip_rotation(r.source@, r.town, r.good).wrapping_add(PAYOFF_OFFSET);
        crate::flavor::lemma_pick_in_range(p.templates@.len(), seed);
        let k = pick_index(p.templates@.len(), seed);
        assert(f.confirms@[i].templates@[k] == p.templates@[k]);
    }
}

proof fn lemma_source_found(ss: Seq<RumorSource>, key: Seq<char>)
    ensures
        source_for(ss, key) matches Some(s) ==> exists|i: int| 0 <= i < ss.len() && #[trigger] ss[i] == s && s.key@ == key,
        source_for(ss, key) is None ==> forall|i: int| 0 <= i < ss.len() ==> (#[trigger] ss[i]).key@ != key,
    decreases ss.len(),
{
    if ss.len() > 0 && ss[0].key@ != key {
        let rest = ss.drop_first();
        lemma_source_found(rest, key);
        if source_for(rest, key) is Some {
            let i = choose|i: int| 0 <= i < rest.len() && #[trigger] rest[i] == source_for(rest, key)->0
                && source_for(rest, key)->0.key@ == key;
            assert(ss[i + 1] == rest[i]);
        } else {
            assert forall|i: int| 0 <= i < ss.len() implies (#[trigger] ss[i]).key@ != key by {
                if i > 0 {
                    assert(ss[i] == rest[i - 1]);
                }
            }
        }
    } else if ss.len() > 0 {
        assert(ss[0] == source_for(ss, key)->0);
    }
}

/// A tip is spoken in the voice of the source it names and reads as one of the
/// templates authored for the band it claims, with its good and town filled
/// in; there is a tip exactly when such a source and such a template exist.
pub proof fn law_tips_speak_for_their_source_and_claim(r: Rumor, f: RumorFlavor, c: Catalog)
    ensures
        compose_spec(r, f, c) is Some <==> (exists|s: int|
            0 <= s < f.sources@.len() && (#[trigger] f.sources@[s]).key@ == r.source@) && (exists|i: int|
            0 <= i < f.lines@.len() && (#[trigger] f.lines@[i]).kind@ == band_key_spec(r.claimed_band)
                && f.lines@[i].templates@.len() > 0),
        compose_spec(r, f, c) matches Some((voice, line)) ==> {
            &&& exists|s: int|
                0 <= s < f.sources@.len() && (#[trigger] f.sources@[s]).key@ == r.source@ && voice
                    == f.sources@[s].voice@
            &&& exists|i: int, k: int|
                0 <= i < f.lines@.len() && f.lines@[i].kind@ == band_key_spec(r.claimed_band) && 0 <= k
                    < f.lines@[i].templates@.len() && line == fill_spec(
                    c,
                    (#[trigger] f.lines@[i].templates@[k])@,
                    r.good,
                    r.town,
                )
        },
{
    let key = band_key_spec(r.claimed_band);
    lemma_source_found(f.sources@, r.source@);
    crate::flavor::lemma_authored_phrasing_found(f.lines@, key);
    if source_for(f.sources@, r.source@) is Some && authored_phrasing_for(f.lines@, key) is Some {
        let src = source_for(f.sources@, r.source@)->0;
        let si = choose|i: int| 0 <= i < f.sources@.len() && #[trigger] f.sources@[i] == src && src.key@ == r.source@;
        let p = authored_phrasing_for(f.lines@, key)->0;
        let i = choose|i: int|
            0 <= i < f.lines@.len() && #[trigger] f.lines@[i] == p && p.kind@ == key && p.templates@.len() > 0;
        assert(p.templates.len() == p.templates@.len());
        let seed = tip_rotation(r.source@, r.town, r.good);
        crate::flavor::lemma_pick_in_range(p.templates@.len(), seed);
        let k = pick_index(p.templates@.len(), seed);
        assert(f.lines@[i].templates@[k] == p.templates@[k]);
    }
}

} // verus!

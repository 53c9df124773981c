//! The authored content that flavor lines are composed from — good and town
//! names, phrasing pools, voices — and the shared helpers that resolve names
//! and pick a template. All RNG-free and deterministic.

use vstd::prelude::*;

use crate::text::{lowercase, same_text, to_lowercase};

verus! {

/// The names the world is built on: goods (by index, display case) and river
/// towns (by index, upstream first).
pub struct Catalog {
    pub goods: Vec<String>,
    pub towns: Vec<String>,
}

/// A pool of templates for one kind of line, keyed by `kind`.
pub struct Phrasing {
    pub kind: String,
    pub templates: Vec<String>,
}

/// Lowercased display name of a good, or `""` if the index is out of range.
pub open spec fn good_name_spec(c: Catalog, good: int) -> Seq<char> {
    if 0 <= good < c.goods@.len() {
        lowercase(c.goods@[good]@)
    } else {
        Seq::empty()
    }
}

/// Display name of a river town, or `""` if the index is out of range.
pub open spec fn town_name_spec(c: Catalog, town: int) -> Seq<char> {
    if 0 <= town < c.towns@.len() {
        c.towns@[town]@
    } else {
        Seq::empty()
    }
}

/// Lowercased display name of a good, or `""` if the index is out of range.
pub fn good_name(c: &Catalog, good: usize) -> (r: String)
    ensures
        r@ == good_name_spec(*c, good as int),
{
    if good < c.goods.len() {
        to_lowercase(c.goods[good].as_str())
    } else {
        String::new()
    }
}

/// Display name of a river town, or `""` if the index is out of range.
pub fn town_name(c: &Catalog, town: usize) -> (r: String)
    ensures
        r@ == town_name_spec(*c, town as int),
{
    if town < c.towns.len() {
        c.towns[town].clone()
    } else {
        String::new()
    }
}

/// Index of a good by its exact display name, if known: the first good so
/// named.
pub fn good_index(c: &Catalog, name: &str) -> (r: Option<usize>)
    ensures
        match r {
            Some(i) => i < c.goods@.len() && c.goods@[i as int]@ == name@ && forall|j: int|
                0 <= j < i ==> (#[trigger] c.goods@[j])@ != name@,
            None => forall|j: int| 0 <= j < c.goods@.len() ==> (#[trigger] c.goods@[j])@ != name@,
        },
{
    let mut i: usize = 0;
    while i < c.goods.len()
        invariant
            i <= c.goods@.len(),
            forall|j: int| 0 <= j < i ==> (#[trigger] c.goods@[j])@ != name@,
        decreases c.goods@.len() - i,
    {
        if same_text(c.goods[i].as_str(), name) {
            return Some(i);
        }
        i += 1;
    }
    None
}

/// The entry a rotation seed selects: `seed % len`.
pub open spec fn pick_index(len: nat, seed: u64) -> int {
    (seed % (len as u64)) as int
}

/// Pick one entry from a slice by an RNG-free rotation seed — the `% len`
/// reduction lives here so the choice is identical on every platform. Callers
/// must guard against an empty slice.
pub fn pick(items: &[String], seed: u64) -> (r: &str)
    requires
        items@.len() > 0,
    ensures
        r@ == items@[pick_index(items@.len(), seed)]@,
{
    let k = (seed % (items.len() as u64)) as usize;
    items[k].as_str()
}

/// The first phrasing listed for `kind`.
pub open spec fn phrasing_for(lines: Seq<Phrasing>, kind: Seq<char>) -> Option<Phrasing>
    decreases lines.len(),
{
    if lines.len() == 0 {
        None
    } else if lines[0].kind@ == kind {
        Some(lines[0])
    } else {
        phrasing_for(lines.drop_first(), kind)
    }
}

/// The first phrasing listed for `kind` that has any templates.
pub open spec fn authored_phrasing_for(lines: Seq<Phrasing>, kind: Seq<char>) -> Option<Phrasing>
    decreases lines.len(),
{
    if lines.len() == 0 {
        None
    } else if lines[0].kind@ == kind && lines[0].templates@.len() > 0 {
        Some(lines[0])
    } else {
        authored_phrasing_for(lines.drop_first(), kind)
    }
}

/// Where the first phrasing for `kind` sits in `lines` (with templates, if
/// `authored`).
pub fn find_phrasing(lines: &Vec<Phrasing>, kind: &str, authored: bool) -> (r: Option<usize>)
    ensures
        match r {
            None => if authored {
                authored_phrasing_for(lines@, kind@) is None
            } else {
                phrasing_for(lines@, kind@) is None
            },
            Some(i) => i < lines@.len() && (authored ==> lines@[i as int].templates@.len() > 0) && (
            if authored {
                authored_phrasing_for(lines@, kind@) == Some(lines@[i as int])
            } else {
                phrasing_for(lines@, kind@) == Some(lines@[i as int])
            }),
        },
{
    let mut i: usize = 0;
    assert(lines@.skip(0) =~= lines@);
    while i < lines.len()
        invariant
            i <= lines@.len(),
            !authored ==> phrasing_for(lines@, kind@) == phrasing_for(lines@.skip(i as int), kind@),
            authored ==> authored_phrasing_for(lines@, kind@) == authored_phrasing_for(
                lines@.skip(i as int),
                kind@,
            ),
        decreases lines@.len() - i,
    {
        assert(lines@.skip(i as int)[0] == lines@[i as int]);
        if same_text(lines[i].kind.as_str(), kind) && (!authored || lines[i].templates.len() > 0) {
            return Some(i);
        }
        assert(lines@.skip(i as int).drop_first() =~= lines@.skip(i + 1));
        i += 1;
    }
    None
}

/// What [`phrasing_for`] finds is a listed phrasing of that kind; when it
/// finds none, no phrasing of that kind is listed.
pub proof fn lemma_phrasing_found(lines: Seq<Phrasing>, kind: Seq<char>)
    ensures
        phrasing_for(lines, kind) matches Some(p) ==> exists|i: int|
            0 <= i < lines.len() && #[trigger] lines[i] == p && p.kind@ == kind,
        phrasing_for(lines, kind) is None ==> forall|i: int|
            0 <= i < lines.len() ==> (#[trigger] lines[i]).kind@ != kind,
    decreases lines.len(),
{
    if lines.len() > 0 && lines[0].kind@ != kind {
        let rest = lines.drop_first();
        lemma_phrasing_found(rest, kind);
        if phrasing_for(rest, kind) is Some {
            let i = choose|i: int| 0 <= i < rest.len() && #[trigger] rest[i] == phrasing_for(rest, kind)->0
                && phrasing_for(rest, kind)->0.kind@ == kind;
            assert(lines[i + 1] == rest[i]);
        } else {
            assert forall|i: int| 0 <= i < lines.len() implies (#[trigger] lines[i]).kind@ != kind by {
                if i > 0 {
                    assert(lines[i] == rest[i - 1]);
                }
            }
        }
    } else if lines.len() > 0 {
        assert(lines[0] == phrasing_for(lines, kind)->0);
    }
}

/// What [`authored_phrasing_for`] finds is a listed phrasing of that kind with
/// templates; when it finds none, every listed phrasing of that kind is empty.
pub proof fn lemma_authored_phrasing_found(lines: Seq<Phrasing>, kind: Seq<char>)
    ensures
        authored_phrasing_for(lines, kind) matches Some(p) ==> exists|i: int|
            0 <= i < lines.len() && #[trigger] lines[i] == p && p.kind@ == kind && p.templates@.len() > 0,
        authored_phrasing_for(lines, kind) is None ==> forall|i: int|
            0 <= i < lines.len() ==> !((#[trigger] lines[i]).kind@ == kind && lines[i].templates@.len()
                > 0),
    decreases lines.len(),
{
    if lines.len() > 0 && !(lines[0].kind@ == kind && lines[0].templates@.len() > 0) {
        let rest = lines.drop_first();
        lemma_authored_phrasing_found(rest, kind);
        if authored_phrasing_for(rest, kind) is Some {
            let i = choose|i: int|
                0 <= i < rest.len() && #[trigger] rest[i] == authored_phrasing_for(rest, kind)->0
                    && authored_phrasing_for(rest, kind)->0.kind@ == kind
                    && authored_phrasing_for(rest, kind)->0.templates@.len() > 0;
            assert(lines[i + 1] == rest[i]);
        } else {
            assert forall|i: int| 0 <= i < lines.len() implies !((#[trigger] lines[i]).kind@ == kind
                && lines[i].templates@.len() > 0) by {
                if i > 0 {
                    assert(lines[i] == rest[i - 1]);
                }
            }
        }
    } else if lines.len() > 0 {
        assert(lines[0] == authored_phrasing_for(lines, kind)->0);
    }
}

/// A rotation pick from a non-empty list lands inside it.
pub proof fn lemma_pick_in_range(len: nat, seed: u64)
    requires
        0 < len <= u64::MAX,
    ensures
        0 <= pick_index(len, seed) < len,
{
}

} // verus!

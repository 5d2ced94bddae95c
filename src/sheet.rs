//! The sprite sheet's index: which rectangle of the sheet each named
//! sprite occupies, kept either as a list of records or as a map by name.

use crate::bounds::Bounds;
use crate::sprite::PackedSprite;
use vstd::prelude::*;

verus! {

/// The text formats an index can be written in.
#[derive(Clone, Copy, Debug, PartialEq, Eq, Structural, Hash)]
pub enum SpriteSheetFormat {
    Json,
    Ron,
    Yaml,
}

impl SpriteSheetFormat {
    /// The file extension for the format, without the dot.
    pub fn extension(&self) -> (r: &'static str)
        ensures
            *self == SpriteSheetFormat::Json ==> r@ == "json"@,
            *self == SpriteSheetFormat::Ron ==> r@ == "ron"@,
            *self == SpriteSheetFormat::Yaml ==> r@ == "yml"@,
    {
        match self {
            SpriteSheetFormat::Json => "json",
            SpriteSheetFormat::Ron => "ron",
            SpriteSheetFormat::Yaml => "yml",
        }
    }
}

/// One record of the index: a sprite's name and its rectangle on the sheet.
#[derive(Debug)]
pub struct SpriteData {
    pub name: String,
    pub bounds: Bounds,
}

/// The rectangle of the last record named `name`, if any.
pub open spec fn last_named(v: Seq<SpriteData>, name: Seq<char>) -> Option<Bounds>
    decreases v.len(),
{
    if v.len() == 0 {
        None
    } else if v.last().name@ == name {
        Some(v.last().bounds)
    } else {
        last_named(v.drop_last(), name)
    }
}

/// No two records share a name.
pub open spec fn names_unique(v: Seq<SpriteData>) -> bool {
    forall|i: int, j: int|
        0 <= i < v.len() && 0 <= j < v.len() && i != j ==> (#[trigger] v[i]).name@ != (
        #[trigger] v[j]).name@
}

/// In records with unique names, the one named like record `k` is record `k`.
pub proof fn lemma_last_named_found(v: Seq<SpriteData>, k: int)
    requires
        names_unique(v),
        0 <= k < v.len(),
    ensures
        last_named(v, v[k].name@) == Some(v[k].bounds),
    decreases v.len(),
{
    if k < v.len() - 1 {
        assert(v[v.len() - 1].name@ != v[k].name@);
        assert(v.drop_last()[k] == v[k]);
        lemma_last_named_found(v.drop_last(), k);
    }
}

/// No record has the name: there is nothing to find.
pub proof fn lemma_last_named_absent(v: Seq<SpriteData>, name: Seq<char>)
    requires
        forall|k: int| 0 <= k < v.len() ==> (#[trigger] v[k]).name@ != name,
    ensures
        last_named(v, name) is None,
    decreases v.len(),
{
    if v.len() > 0 {
        assert(v[v.len() - 1].name@ != name);
        lemma_last_named_absent(v.drop_last(), name);
    }
}

/// Something sprites can be recorded in, by name. A later record for a
/// name replaces an earlier one when looked up.
pub trait SpriteSheetData {
    /// What the implementation keeps true between calls.
    spec fn inv(&self) -> bool;

    /// The rectangle recorded for `name`, if any.
    spec fn lookup(&self, name: Seq<char>) -> Option<Bounds>;

    /// Records that the sprite `name` occupies `bounds`.
    fn add_sprite(&mut self, name: String, bounds: Bounds)
        requires
            old(self).inv(),
        ensures
            final(self).inv(),
            final(self).lookup(name@) == Some(bounds),
            forall|n: Seq<char>| n != name@ ==> #[trigger] final(self).lookup(n) == old(self).lookup(n),
    ;
}

impl SpriteSheetData for Vec<SpriteData> {
    open spec fn inv(&self) -> bool {
        true
    }

    open spec fn lookup(&self, name: Seq<char>) -> Option<Bounds> {
        last_named(self@, name)
    }

    fn add_sprite(&mut self, name: String, bounds: Bounds) {
        push_record(self, name, bounds);
    }
}

/// An index as a list of records in the order they were added, or as a
/// map from name to rectangle (kept as records with unique names).
#[derive(Debug)]
pub enum GenericSpriteSheetData {
    Vec(Vec<SpriteData>),
    ByName(Vec<SpriteData>),
}

impl GenericSpriteSheetData {
    /// An empty list of records.
    pub fn new_vec() -> (r: Self)
        ensures
            r is Vec,
            r->Vec_0@.len() == 0,
            r.inv(),
    {
        GenericSpriteSheetData::Vec(Vec::new())
    }

    /// An empty map by name.
    pub fn new_map() -> (r: Self)
        ensures
            r is ByName,
            r->ByName_0@.len() == 0,
            r.inv(),
    {
        GenericSpriteSheetData::ByName(Vec::new())
    }

    /// The records, in the order they are kept.
    pub fn records(&self) -> (r: &Vec<SpriteData>)
        ensures
            r == (match self {
                GenericSpriteSheetData::Vec(v) => v,
                GenericSpriteSheetData::ByName(v) => v,
            }),
    {
        match self {
            GenericSpriteSheetData::Vec(v) => v,
            GenericSpriteSheetData::ByName(v) => v,
        }
    }
}

/// Appends a record.
fn push_record(v: &mut Vec<SpriteData>, name: String, bounds: Bounds)
    ensures
        final(v)@ == old(v)@.push(SpriteData { name, bounds }),
        last_named(final(v)@, name@) == Some(bounds),
        forall|n: Seq<char>| n != name@ ==> #[trigger] last_named(final(v)@, n) == last_named(old(v)@, n),
{
    v.push(SpriteData { name, bounds });
    proof {
        assert(v@.drop_last() =~= old(v)@);
        assert forall|n: Seq<char>| n != name@ implies #[trigger] last_named(v@, n) == last_named(
            old(v)@,
            n,
        ) by {}
    }
}

/// Sets the record for `name` in records with unique names: replaces its
/// rectangle if present, else appends it.
fn set_unique(v: &mut Vec<SpriteData>, name: String, bounds: Bounds)
    requires
        names_unique(old(v)@),
    ensures
        names_unique(final(v)@),
        last_named(final(v)@, name@) == Some(bounds),
        forall|n: Seq<char>| n != name@ ==> #[trigger] last_named(final(v)@, n) == last_named(old(v)@, n),
{
    let n = v.len();
    let mut i: usize = 0;
    while i < n
        invariant
            0 <= i <= n,
            n == v@.len(),
            v@ == old(v)@,
            names_unique(v@),
            forall|k: int| 0 <= k < i ==> (#[trigger] v@[k]).name@ != name@,
        decreases n - i,
    {
        if v[i].name == name {
            let ghost before = v@;
            let _old = v.remove(i);
            v.insert(i, SpriteData { name, bounds });
            proof {
                assert(v@ =~= before.update(i as int, v@[i as int]));
                assert(names_unique(v@)) by {
                    assert forall|a: int, b: int|
                        0 <= a < v@.len() && 0 <= b < v@.len() && a != b implies (
                        #[trigger] v@[a]).name@ != (#[trigger] v@[b]).name@ by {
                        assert(before[a].name@ != before[b].name@);
                    }
                }
                lemma_last_named_found(v@, i as int);
                assert forall|m: Seq<char>| m != name@ implies #[trigger] last_named(v@, m)
                    == last_named(before, m) by {
                    if exists|k: int| 0 <= k < before.len() && (#[trigger] before[k]).name@ == m {
                        let k = choose|k: int| 0 <= k < before.len() && (#[trigger] before[k]).name@ == m;
                        assert(k != i);
                        assert(v@[k] == before[k]);
                        lemma_last_named_found(before, k);
                        lemma_last_named_found(v@, k);
                    } else {
                        lemma_last_named_absent(before, m);
                        assert forall|k: int| 0 <= k < v@.len() implies (#[trigger] v@[k]).name@ != m by {
                            if k != i {
                                assert(v@[k] == before[k]);
                            }
                        }
                        lemma_last_named_absent(v@, m);
                    }
                }
            }
            return;
        }
        i = i + 1;
    }
    let ghost before = v@;
    v.push(SpriteData { name, bounds });
    proof {
        assert(v@.drop_last() =~= before);
        assert forall|m: Seq<char>| m != name@ implies #[trigger] last_named(v@, m) == last_named(
            before,
            m,
        ) by {}
        assert(names_unique(v@)) by {
            assert forall|a: int, b: int|
                0 <= a < v@.len() && 0 <= b < v@.len() && a != b implies (
                #[trigger] v@[a]).name@ != (#[trigger] v@[b]).name@ by {
                if a < n && b < n {
                    assert(before[a].name@ != before[b].name@);
                } else if a < n {
                    assert(v@[a] == before[a]);
                } else {
                    assert(v@[b] == before[b]);
                }
            }
        }
    }
}

/// Adds a record the way the index's kind does, keeping the kind.
fn add_record(data: &mut GenericSpriteSheetData, name: String, bounds: Bounds)
    requires
        old(data).inv(),
    ensures
        final(data).inv(),
        *final(data) is Vec <==> *old(data) is Vec,
        final(data).lookup(name@) == Some(bounds),
        forall|n: Seq<char>| n != name@ ==> #[trigger] final(data).lookup(n) == old(data).lookup(n),
{
    match data {
        GenericSpriteSheetData::Vec(v) => push_record(v, name, bounds),
        GenericSpriteSheetData::ByName(v) => set_unique(v, name, bounds),
    }
}

/// The records naming each placement by `names[id]`, in order.
pub open spec fn named(names: Seq<String>, placed: Seq<PackedSprite<usize>>) -> Seq<SpriteData> {
    placed.map_values(|p: PackedSprite<usize>| SpriteData { name: names[p.id as int], bounds: p.bounds })
}

/// What looking up `name` gives after `records` were added, in order, to
/// an index where it gave `before`.
pub open spec fn after_records(before: Option<Bounds>, records: Seq<SpriteData>, name: Seq<char>) -> Option<Bounds> {
    match last_named(records, name) {
        Some(b) => Some(b),
        None => before,
    }
}

/// Records each placement under the name its identifier indexes.
pub fn record_placements(
    data: &mut GenericSpriteSheetData,
    names: &Vec<String>,
    placed: &Vec<PackedSprite<usize>>,
)
    requires
        old(data).inv(),
        forall|i: int| 0 <= i < placed@.len() ==> #[trigger] placed@[i].id < names@.len(),
    ensures
        final(data).inv(),
        *final(data) is Vec <==> *old(data) is Vec,
        forall|n: Seq<char>|
            #[trigger] final(data).lookup(n) == after_records(
                old(data).lookup(n),
                named(names@, placed@),
                n,
            ),
{
    let ghost start = *data;
    let ghost records = named(names@, placed@);
    let mut i: usize = 0;
    while i < placed.len()
        invariant
            0 <= i <= placed@.len(),
            data.inv(),
            *data is Vec <==> start is Vec,
            records == named(names@, placed@),
            forall|k: int| 0 <= k < placed@.len() ==> #[trigger] placed@[k].id < names@.len(),
            forall|n: Seq<char>|
                #[trigger] data.lookup(n) == after_records(start.lookup(n), records.take(i as int), n),
        decreases placed@.len() - i,
    {
        let ghost before = *data;
        let p = &placed[i];
        let name = names[p.id].clone();
        add_record(data, name, p.bounds);
        proof {
            let t = records.take(i + 1);
            assert(t.drop_last() =~= records.take(i as int));
            assert(t.last() == records[i as int]);
            assert forall|n: Seq<char>| #[trigger] data.lookup(n) == after_records(start.lookup(n), t, n) by {
                if n != names@[placed@[i as int].id as int]@ {
                    assert(data.lookup(n) == before.lookup(n));
                }
            }
        }
        i = i + 1;
    }
    proof {
        assert(records.take(placed@.len() as int) =~= records);
    }
}

impl SpriteSheetData for GenericSpriteSheetData {
    open spec fn inv(&self) -> bool {
        match self {
            GenericSpriteSheetData::Vec(_) => true,
            GenericSpriteSheetData::ByName(v) => names_unique(v@),
        }
    }

    open spec fn lookup(&self, name: Seq<char>) -> Option<Bounds> {
        match self {
            GenericSpriteSheetData::Vec(v) => last_named(v@, name),
            GenericSpriteSheetData::ByName(v) => last_named(v@, name),
        }
    }

    fn add_sprite(&mut self, name: String, bounds: Bounds) {
        add_record(self, name, bounds);
    }
}

} // verus!

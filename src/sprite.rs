use crate::bounds::Bounds;
use vstd::multiset::Multiset;
use vstd::prelude::*;

verus! {

/// A sprite to place: a caller-chosen identifier and a size `(w, h)`.
#[derive(Debug)]
pub struct Sprite<I> {
    pub id: I,
    pub size: (u32, u32),
}

/// A placed sprite: its identifier and the rectangle it was given, of the
/// sprite's own size.
#[derive(Debug)]
pub struct PackedSprite<I> {
    pub id: I,
    pub bounds: Bounds,
}


/// The identifier and size of each placement, counted with repetition.
pub open spec fn placed_sizes<I>(s: Seq<PackedSprite<I>>) -> Multiset<(I, u32, u32)>
    decreases s.len(),
{
    if s.len() == 0 {
        Multiset::empty()
    } else {
        placed_sizes(s.drop_last()).insert((s.last().id, s.last().bounds.w, s.last().bounds.h))
    }
}

/// The identifier of each placement, counted with repetition.
pub open spec fn placed_ids<I>(s: Seq<PackedSprite<I>>) -> Multiset<I>
    decreases s.len(),
{
    if s.len() == 0 {
        Multiset::empty()
    } else {
        placed_ids(s.drop_last()).insert(s.last().id)
    }
}

/// The identifier and size of each sprite, counted with repetition.
pub open spec fn sprite_sizes<I>(s: Seq<Sprite<I>>) -> Multiset<(I, u32, u32)>
    decreases s.len(),
{
    if s.len() == 0 {
        Multiset::empty()
    } else {
        sprite_sizes(s.drop_last()).insert((s.last().id, s.last().size.0, s.last().size.1))
    }
}

/// The identifier of each sprite, counted with repetition.
pub open spec fn sprite_ids<I>(s: Seq<Sprite<I>>) -> Multiset<I>
    decreases s.len(),
{
    if s.len() == 0 {
        Multiset::empty()
    } else {
        sprite_ids(s.drop_last()).insert(s.last().id)
    }
}

/// Counting placements distributes over concatenation.
pub proof fn lemma_placed_counts_add<I>(a: Seq<PackedSprite<I>>, b: Seq<PackedSprite<I>>)
    ensures
        placed_sizes(a + b) == placed_sizes(a).add(placed_sizes(b)),
        placed_ids(a + b) == placed_ids(a).add(placed_ids(b)),
    decreases b.len(),
{
    if b.len() == 0 {
        assert(a + b =~= a);
        assert(placed_sizes(a).add(placed_sizes(b)) =~= placed_sizes(a));
        assert(placed_ids(a).add(placed_ids(b)) =~= placed_ids(a));
    } else {
        lemma_placed_counts_add(a, b.drop_last());
        assert((a + b).drop_last() =~= a + b.drop_last());
        assert(placed_sizes(a + b) =~= placed_sizes(a).add(placed_sizes(b)));
        assert(placed_ids(a + b) =~= placed_ids(a).add(placed_ids(b)));
    }
}

/// A single placement counts once.
pub proof fn lemma_placed_counts_one<I>(p: PackedSprite<I>)
    ensures
        placed_sizes(seq![p]) == Multiset::<(I, u32, u32)>::empty().insert(
            (p.id, p.bounds.w, p.bounds.h),
        ),
        placed_ids(seq![p]) == Multiset::<I>::empty().insert(p.id),
{
    let s = seq![p];
    assert(s.drop_last() =~= Seq::<PackedSprite<I>>::empty());
    assert(s.len() == 1 && s.last() == p);
    assert(placed_sizes(s.drop_last()) == Multiset::<(I, u32, u32)>::empty());
    assert(placed_ids(s.drop_last()) == Multiset::<I>::empty());
}

} // verus!

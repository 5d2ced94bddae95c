//! The packing driver: sort the sprites, seed the tree with the largest,
//! insert the rest in order, and read off the sheet size and placements.

use crate::bounds::Rect;
use crate::layout::{cells_apart, cells_inside, lemma_shift, moved};
use crate::node::{lemma_inserted, lemma_layout, lemma_offset_fits, shifted, Node};
use crate::sort::{
    descending, lemma_sorted_counts, lemma_sorted_descending, lemma_sorted_fixed, side,
    sort_by_side, sorted_by_side, total_h, total_w,
};
use crate::sprite::{placed_ids, placed_sizes, sprite_ids, sprite_sizes, PackedSprite, Sprite};
use vstd::prelude::*;

verus! {

/// How sprites are laid out: `spacing` is the gap kept after each sprite on
/// each axis, `padding` the margin around the whole sheet.
#[derive(Clone, Copy, Debug)]
pub struct PackOptions {
    pub spacing: (u32, u32),
    pub padding: (u32, u32),
}

impl Default for PackOptions {
    fn default() -> (r: Self)
        ensures
            r.spacing == (1u32, 1u32),
            r.padding == (0u32, 0u32),
    {
        PackOptions { spacing: (1, 1), padding: (0, 0) }
    }
}

/// The packed sheet: its size and where each sprite went.
#[derive(Debug)]
pub struct PackResult<I> {
    pub size: (u32, u32),
    pub sprites: Vec<PackedSprite<I>>,
}

/// Why a set of sprites cannot be packed.
#[derive(Clone, Copy, Debug, PartialEq, Eq, Structural)]
pub enum PackError {
    /// A sprite has a zero width or height.
    EmptySprite,
    /// The sheet could outgrow `u32`: the widths (or heights) with their
    /// gutters, plus the padding on both sides, exceed `u32::MAX`.
    TooLarge,
}

/// The sprite has a zero width or height.
pub open spec fn no_area<I>(s: Sprite<I>) -> bool {
    s.size.0 == 0 || s.size.1 == 0
}

/// Some sprite has no area.
pub open spec fn has_empty<I>(s: Seq<Sprite<I>>) -> bool {
    exists|i: int| 0 <= i < s.len() && #[trigger] no_area(s[i])
}

/// The sprites laid side by side along either axis, gutters and padding
/// included, stay within `u32`.
pub open spec fn fits<I>(s: Seq<Sprite<I>>, options: PackOptions) -> bool {
    &&& total_w(s, options.spacing.0) + 2 * options.padding.0 <= u32::MAX
    &&& total_h(s, options.spacing.1) + 2 * options.padding.1 <= u32::MAX
}

/// The inputs `pack` accepts.
pub open spec fn accepted<I>(s: Seq<Sprite<I>>, options: PackOptions) -> bool {
    !has_empty(s) && fits(s, options)
}

/// The tree after seeding with `t[0]` and inserting the rest in order.
pub open spec fn tree_of<I>(t: Seq<Sprite<I>>, spacing: (u32, u32)) -> Node<I>
    decreases t.len(),
{
    if t.len() <= 1 {
        Node::seed(t[0], spacing)
    } else {
        tree_of(t.drop_last(), spacing).inserted(t.last(), spacing)
    }
}

/// The sheet size for a finished tree: the root less its outer gutter,
/// plus padding on both sides.
pub open spec fn sheet_size<I>(root: Node<I>, options: PackOptions) -> (u32, u32) {
    (
        (root.bounds.w - options.spacing.0 + 2 * options.padding.0) as u32,
        (root.bounds.h - options.spacing.1 + 2 * options.padding.1) as u32,
    )
}

/// What `pack` returns: the sheet size and the placements, moved by the
/// padding.
pub open spec fn pack_model<I>(s: Seq<Sprite<I>>, options: PackOptions) -> (
    (u32, u32),
    Seq<PackedSprite<I>>,
) {
    if s.len() == 0 {
        ((0, 0), Seq::empty())
    } else {
        let root = tree_of(sorted_by_side(s), options.spacing);
        (
            sheet_size(root, options),
            root.packed().map_values(|p: PackedSprite<I>| shifted(p, options.padding)),
        )
    }
}

/// A prefix's totals are at most the whole's.
pub proof fn lemma_total_prefix<I>(s: Seq<Sprite<I>>, k: int, gutter: (u32, u32))
    requires
        0 <= k <= s.len(),
    ensures
        total_w(s.take(k), gutter.0) <= total_w(s, gutter.0),
        total_h(s.take(k), gutter.1) <= total_h(s, gutter.1),
    decreases s.len(),
{
    if k < s.len() {
        lemma_total_prefix(s.drop_last(), k, gutter);
        assert(s.drop_last().take(k) =~= s.take(k));
    } else {
        assert(s.take(k) =~= s);
    }
}

/// Totals are never negative.
pub proof fn lemma_total_nonneg<I>(s: Seq<Sprite<I>>, gutter: (u32, u32))
    ensures
        total_w(s, gutter.0) >= 0,
        total_h(s, gutter.1) >= 0,
    decreases s.len(),
{
    if s.len() > 0 {
        lemma_total_nonneg(s.drop_last(), gutter);
    }
}

/// The tree built from a descending sequence whose totals fit in `u32`:
/// well-formed, at the origin, at least as large as the first sprite's
/// cell, at most the totals, and holding exactly the given sprites.
pub proof fn lemma_tree_of<I>(t: Seq<Sprite<I>>, spacing: (u32, u32))
    requires
        t.len() >= 1,
        descending(t),
        total_w(t, spacing.0) <= u32::MAX,
        total_h(t, spacing.1) <= u32::MAX,
    ensures
        ({
            let root = tree_of(t, spacing);
            &&& root.wf(spacing)
            &&& root.bounds.x == 0
            &&& root.bounds.y == 0
            &&& t[0].size.0 + spacing.0 <= root.bounds.w <= total_w(t, spacing.0)
            &&& t[0].size.1 + spacing.1 <= root.bounds.h <= total_h(t, spacing.1)
            &&& placed_sizes(root.packed()) == sprite_sizes(t)
            &&& placed_ids(root.packed()) == sprite_ids(t)
        }),
    decreases t.len(), 1int,
{
    let p = t.drop_last();
    lemma_total_nonneg(p, spacing);
    if t.len() == 1 {
        let root = tree_of(t, spacing);
        assert(p =~= Seq::<Sprite<I>>::empty());
        assert(root.packed() =~= seq![PackedSprite { id: t[0].id, bounds: crate::node::placement(root.bounds, t[0]) }]);
        crate::sprite::lemma_placed_counts_one(PackedSprite { id: t[0].id, bounds: crate::node::placement(root.bounds, t[0]) });
        assert(sprite_sizes(p) == vstd::multiset::Multiset::<(I, u32, u32)>::empty());
        assert(sprite_ids(p) == vstd::multiset::Multiset::<I>::empty());
    } else {
        lemma_tree_step(t, spacing);
        lemma_tree_of(p, spacing);
        lemma_inserted(tree_of(p, spacing), t.last(), spacing);
        assert(p[0] == t[0]);
    }
}

/// Each sprite of a descending sequence after the first can be inserted
/// into the tree built from the ones before it.
pub proof fn lemma_tree_step<I>(t: Seq<Sprite<I>>, spacing: (u32, u32))
    requires
        t.len() >= 2,
        descending(t),
        total_w(t, spacing.0) <= u32::MAX,
        total_h(t, spacing.1) <= u32::MAX,
    ensures
        tree_of(t.drop_last(), spacing).wf(spacing),
        tree_of(t.drop_last(), spacing).can_insert(t.last(), spacing),
    decreases t.len(), 0int,
{
    let p = t.drop_last();
    let x = t.last();
    lemma_total_nonneg(p, spacing);
    assert(descending(p));
    lemma_tree_of(p, spacing);
    let root = tree_of(p, spacing);
    assert(side(t[0]) >= side(t[t.len() - 1]));
    assert(p[0] == t[0]);
}

/// Packing the input sorted gives what packing the input gives: the sort
/// leaves an already sorted input as it is.
pub proof fn lemma_repack_sorted<I>(s: Seq<Sprite<I>>, options: PackOptions)
    ensures
        pack_model(sorted_by_side(s), options) == pack_model(s, options),
{
    lemma_sorted_descending(s);
    lemma_sorted_fixed(sorted_by_side(s));
    lemma_sorted_counts(s, options.spacing);
}

/// Moving placements keeps their identifiers and sizes.
pub proof fn lemma_shift_counts<I>(s: Seq<PackedSprite<I>>, offset: (u32, u32))
    ensures
        placed_sizes(s.map_values(|p: PackedSprite<I>| shifted(p, offset))) == placed_sizes(s),
        placed_ids(s.map_values(|p: PackedSprite<I>| shifted(p, offset))) == placed_ids(s),
    decreases s.len(),
{
    let t = s.map_values(|p: PackedSprite<I>| shifted(p, offset));
    if s.len() > 0 {
        lemma_shift_counts(s.drop_last(), offset);
        assert(t.drop_last() =~= s.drop_last().map_values(|p: PackedSprite<I>| shifted(p, offset)));
    } else {
        assert(t =~= s);
    }
}

/// The facts the laws of `pack` rest on, for a non-empty input that fits.
pub proof fn lemma_model<I>(s: Seq<Sprite<I>>, options: PackOptions)
    requires
        s.len() > 0,
        fits(s, options),
    ensures
        ({
            let t = sorted_by_side(s);
            let root = tree_of(t, options.spacing);
            let (size, placed) = pack_model(s, options);
            &&& root.wf(options.spacing)
            &&& root.bounds.x == 0
            &&& root.bounds.y == 0
            &&& t[0].size.0 + options.spacing.0 <= root.bounds.w
            &&& t[0].size.1 + options.spacing.1 <= root.bounds.h
            &&& root.bounds.w + 2 * options.padding.0 <= u32::MAX
            &&& root.bounds.h + 2 * options.padding.1 <= u32::MAX
            &&& size.0 == root.bounds.w - options.spacing.0 + 2 * options.padding.0
            &&& size.1 == root.bounds.h - options.spacing.1 + 2 * options.padding.1
            &&& cells_inside(placed, moved(root.bounds.rect(), options.padding), options.spacing)
            &&& cells_apart(placed, options.spacing)
            &&& placed_sizes(placed) == sprite_sizes(s)
            &&& placed_ids(placed) == sprite_ids(s)
        }),
{
    let t = sorted_by_side(s);
    lemma_sorted_counts(s, options.spacing);
    lemma_sorted_descending(s);
    lemma_total_nonneg(s, options.spacing);
    lemma_tree_of(t, options.spacing);
    let root = tree_of(t, options.spacing);
    lemma_layout(root, options.spacing);
    lemma_shift(root.packed(), root.bounds.rect(), options.padding, options.spacing);
    lemma_shift_counts(root.packed(), options.padding);
}

/// No two placements `pack` reports overlap.
pub proof fn lemma_no_overlap<I>(s: Seq<Sprite<I>>, options: PackOptions)
    requires
        fits(s, options),
    ensures
        ({
            let placed = pack_model(s, options).1;
            forall|i: int, j: int|
                0 <= i < placed.len() && 0 <= j < placed.len() && i != j ==> !(
                #[trigger] placed[i].bounds.rect()).intersects(#[trigger] placed[j].bounds.rect())
        }),
{
    if s.len() > 0 {
        lemma_model(s, options);
        let placed = pack_model(s, options).1;
        assert forall|i: int, j: int|
            0 <= i < placed.len() && 0 <= j < placed.len() && i != j implies !(
            #[trigger] placed[i].bounds.rect()).intersects(#[trigger] placed[j].bounds.rect()) by {
            assert(placed[i].bounds.cell(options.spacing).apart(placed[j].bounds.cell(options.spacing)));
        }
    }
}

/// Placements `pack` reports keep at least the spacing between them: the
/// rectangles grown by the gutter on their right and below do not overlap.
pub proof fn lemma_spacing_kept<I>(s: Seq<Sprite<I>>, options: PackOptions)
    requires
        fits(s, options),
    ensures
        cells_apart(pack_model(s, options).1, options.spacing),
{
    if s.len() > 0 {
        lemma_model(s, options);
    }
}

/// Each placement has the identifier and size of an input sprite, and each
/// input sprite is placed once.
pub proof fn lemma_size_fidelity<I>(s: Seq<Sprite<I>>, options: PackOptions)
    requires
        fits(s, options),
    ensures
        placed_sizes(pack_model(s, options).1) == sprite_sizes(s),
{
    if s.len() > 0 {
        lemma_model(s, options);
    } else {
        assert(pack_model(s, options).1 =~= Seq::<PackedSprite<I>>::empty());
    }
}

/// The identifiers placed are the input identifiers, with repetition.
pub proof fn lemma_completeness<I>(s: Seq<Sprite<I>>, options: PackOptions)
    requires
        fits(s, options),
    ensures
        placed_ids(pack_model(s, options).1) == sprite_ids(s),
{
    if s.len() > 0 {
        lemma_model(s, options);
    } else {
        assert(pack_model(s, options).1 =~= Seq::<PackedSprite<I>>::empty());
    }
}

/// Every placement lies inside the sheet.
pub proof fn lemma_containment<I>(s: Seq<Sprite<I>>, options: PackOptions)
    requires
        fits(s, options),
    ensures
        ({
            let (size, placed) = pack_model(s, options);
            forall|i: int|
                0 <= i < placed.len() ==> (#[trigger] placed[i].bounds.rect()).inside(
                    Rect { x: 0, y: 0, w: size.0 as int, h: size.1 as int },
                )
        }),
{
    if s.len() > 0 {
        lemma_model(s, options);
        let (size, placed) = pack_model(s, options);
        let root = tree_of(sorted_by_side(s), options.spacing);
        assert forall|i: int| 0 <= i < placed.len() implies (
        #[trigger] placed[i].bounds.rect()).inside(
            Rect { x: 0, y: 0, w: size.0 as int, h: size.1 as int },
        ) by {
            assert(placed[i].bounds.cell(options.spacing).inside(
                moved(root.bounds.rect(), options.padding),
            ));
        }
    }
}

/// Packs `sprites` into one sheet. Sprites go in by longest side, largest
/// first (ties keep their input order); the first seeds the tree and each
/// later one takes the first free node with room, or a strip the tree grows
/// by. Fails on a sprite without area and on inputs whose extent could
/// outgrow `u32`.
pub fn pack<I>(sprites: Vec<Sprite<I>>, options: &PackOptions) -> (r: Result<
    PackResult<I>,
    PackError,
>)
    ensures
        has_empty(sprites@) ==> r == Err::<PackResult<I>, PackError>(PackError::EmptySprite),
        !has_empty(sprites@) && !fits(sprites@, *options) ==> r == Err::<PackResult<I>, PackError>(
            PackError::TooLarge,
        ),
        accepted(sprites@, *options) ==> r is Ok,
        r is Ok ==> ({
            let (size, placed) = pack_model(sprites@, *options);
            &&& r->Ok_0.size == size
            &&& r->Ok_0.sprites@ == placed
            &&& placed_sizes(placed) == sprite_sizes(sprites@)
            &&& placed_ids(placed) == sprite_ids(sprites@)
            &&& cells_apart(placed, options.spacing)
            &&& forall|i: int, j: int|
                0 <= i < placed.len() && 0 <= j < placed.len() && i != j ==> !(
                #[trigger] placed[i].bounds.rect()).intersects(#[trigger] placed[j].bounds.rect())
            &&& forall|i: int|
                0 <= i < placed.len() ==> (#[trigger] placed[i].bounds.rect()).inside(
                    Rect { x: 0, y: 0, w: size.0 as int, h: size.1 as int },
                )
        }),
{
    let spacing = options.spacing;
    let padding = options.padding;
    let n = sprites.len();

    let mut i: usize = 0;
    while i < n
        invariant
            0 <= i <= n,
            n == sprites@.len(),
            forall|k: int| 0 <= k < i ==> !#[trigger] no_area(sprites@[k]),
        decreases n - i,
    {
        if sprites[i].size.0 == 0 || sprites[i].size.1 == 0 {
            proof {
                assert(no_area(sprites@[i as int]));
            }
            return Err(PackError::EmptySprite);
        }
        i = i + 1;
    }

    proof {
        assert(!has_empty(sprites@));
    }
    if 2 * padding.0 as u64 > u32::MAX as u64 || 2 * padding.1 as u64 > u32::MAX as u64 {
        proof {
            lemma_total_nonneg(sprites@, spacing);
        }
        return Err(PackError::TooLarge);
    }
    let limit_w: u64 = u32::MAX as u64 - 2 * padding.0 as u64;
    let limit_h: u64 = u32::MAX as u64 - 2 * padding.1 as u64;
    let mut sum_w: u64 = 0;
    let mut sum_h: u64 = 0;
    let mut i: usize = 0;
    while i < n
        invariant
            0 <= i <= n,
            n == sprites@.len(),
            spacing == options.spacing,
            padding == options.padding,
            !has_empty(sprites@),
            sum_w == total_w(sprites@.take(i as int), spacing.0),
            sum_h == total_h(sprites@.take(i as int), spacing.1),
            sum_w <= limit_w,
            sum_h <= limit_h,
            limit_w == u32::MAX - 2 * padding.0,
            limit_h == u32::MAX - 2 * padding.1,
        decreases n - i,
    {
        proof {
            assert(sprites@.take(i + 1).drop_last() =~= sprites@.take(i as int));
            lemma_total_prefix(sprites@, i + 1, spacing);
        }
        sum_w = sum_w + sprites[i].size.0 as u64 + spacing.0 as u64;
        sum_h = sum_h + sprites[i].size.1 as u64 + spacing.1 as u64;
        proof {
            assert(sprites@.take(i + 1).last() == sprites@[i as int]);
            assert(sum_w == total_w(sprites@.take(i + 1), spacing.0));
            assert(sum_h == total_h(sprites@.take(i + 1), spacing.1));
        }
        if sum_w > limit_w || sum_h > limit_h {
            proof {
                assert(total_w(sprites@.take(i + 1), spacing.0) <= total_w(sprites@, spacing.0));
                assert(total_h(sprites@.take(i + 1), spacing.1) <= total_h(sprites@, spacing.1));
                assert(!fits(sprites@, *options));
            }
            return Err(PackError::TooLarge);
        }
        i = i + 1;
    }
    proof {
        assert(sprites@.take(n as int) =~= sprites@);
    }

    let ghost input = sprites@;
    let mut sprites = sprites;
    sort_by_side(&mut sprites);
    let ghost sorted = sprites@;
    proof {
        lemma_sorted_counts(input, spacing);
        lemma_sorted_descending(input);
    }

    if sprites.len() == 0 {
        proof {
            assert(pack_model(input, *options).1 =~= Seq::<PackedSprite<I>>::empty());
            lemma_size_fidelity(input, *options);
            lemma_completeness(input, *options);
        }
        return Ok(PackResult { size: (0, 0), sprites: Vec::new() });
    }

    let first = sprites.remove(0);
    proof {
        lemma_total_nonneg(sorted, spacing);
        lemma_total_prefix(sorted, 1, spacing);
        assert(sorted.take(1) =~= seq![first]);
        assert(sorted.take(1).drop_last() =~= Seq::<Sprite<I>>::empty());
        assert(sorted.take(1).last() == first);
        assert(total_w(Seq::<Sprite<I>>::empty(), spacing.0) == 0);
        assert(total_h(Seq::<Sprite<I>>::empty(), spacing.1) == 0);
        assert(total_w(sorted.take(1), spacing.0) == first.size.0 + spacing.0);
        assert(total_h(sorted.take(1), spacing.1) == first.size.1 + spacing.1);
    }
    let mut root = Node::root(first, spacing);
    proof {
        assert(sorted.take(1).len() == 1);
    }

    let mut i: usize = 1;
    while sprites.len() > 0
        invariant
            1 <= i <= n,
            n == sorted.len(),
            spacing == options.spacing,
            padding == options.padding,
            descending(sorted),
            total_w(sorted, spacing.0) + 2 * padding.0 <= u32::MAX,
            total_h(sorted, spacing.1) + 2 * padding.1 <= u32::MAX,
            sprites@ == sorted.skip(i as int),
            root == tree_of(sorted.take(i as int), spacing),
        decreases sprites.len(),
    {
        let sprite = sprites.remove(0);
        proof {
            let u = sorted.take(i + 1);
            assert(u.drop_last() =~= sorted.take(i as int));
            assert(u.last() == sprite);
            assert(descending(u));
            lemma_total_nonneg(sorted, spacing);
            lemma_total_prefix(sorted, i + 1, spacing);
            lemma_tree_step(u, spacing);
        }
        root.insert(sprite, spacing);
        i = i + 1;
        proof {
            assert(sprites@ =~= sorted.skip(i as int));
        }
    }
    proof {
        assert(sorted.take(i as int) =~= sorted);
        lemma_model(input, *options);
        lemma_no_overlap(input, *options);
        lemma_containment(input, *options);
        lemma_offset_fits(root, spacing, padding);
    }

    let size = (
        root.bounds.w - spacing.0 + padding.0 + padding.0,
        root.bounds.h - spacing.1 + padding.1 + padding.1,
    );
    let mut placed = Vec::new();
    root.collect(&mut placed, padding);
    proof {
        assert(placed@ =~= pack_model(input, *options).1);
    }
    Ok(PackResult { size, sprites: placed })
}

} // verus!

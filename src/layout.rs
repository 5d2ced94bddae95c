//! Geometric facts about sequences of placements: where their cells lie and
//! that no two of them share a unit square.

use crate::bounds::Rect;
use crate::node::shifted;
use crate::sprite::PackedSprite;
use vstd::prelude::*;

verus! {

/// Every placement's cell (its rectangle plus the gutter) lies inside `r`.
pub open spec fn cells_inside<I>(s: Seq<PackedSprite<I>>, r: Rect, spacing: (u32, u32)) -> bool {
    forall|i: int| 0 <= i < s.len() ==> #[trigger] s[i].bounds.cell(spacing).inside(r)
}

/// No two placements' cells share a unit square.
pub open spec fn cells_apart<I>(s: Seq<PackedSprite<I>>, spacing: (u32, u32)) -> bool {
    forall|i: int, j: int|
        0 <= i < s.len() && 0 <= j < s.len() && i != j ==> #[trigger] s[i].bounds.cell(
            spacing,
        ).apart(#[trigger] s[j].bounds.cell(spacing))
}

/// Each cell of `a` is apart from each cell of `b`.
pub open spec fn cross_apart<I>(
    a: Seq<PackedSprite<I>>,
    b: Seq<PackedSprite<I>>,
    spacing: (u32, u32),
) -> bool {
    forall|i: int, j: int|
        0 <= i < a.len() && 0 <= j < b.len() ==> #[trigger] a[i].bounds.cell(spacing).apart(
            #[trigger] b[j].bounds.cell(spacing),
        )
}

/// Two sequences whose cells lie in regions apart are apart from each other.
pub proof fn lemma_regions_apart<I>(
    a: Seq<PackedSprite<I>>,
    b: Seq<PackedSprite<I>>,
    ra: Rect,
    rb: Rect,
    spacing: (u32, u32),
)
    requires
        cells_inside(a, ra, spacing),
        cells_inside(b, rb, spacing),
        ra.apart(rb),
    ensures
        cross_apart(a, b, spacing),
        cross_apart(b, a, spacing),
{
    assert forall|i: int, j: int| 0 <= i < a.len() && 0 <= j < b.len() implies #[trigger] a[i].bounds.cell(
        spacing,
    ).apart(#[trigger] b[j].bounds.cell(spacing)) by {
        assert(a[i].bounds.cell(spacing).inside(ra));
        assert(b[j].bounds.cell(spacing).inside(rb));
    }
    assert forall|i: int, j: int| 0 <= i < b.len() && 0 <= j < a.len() implies #[trigger] b[i].bounds.cell(
        spacing,
    ).apart(#[trigger] a[j].bounds.cell(spacing)) by {
        assert(b[i].bounds.cell(spacing).inside(rb));
        assert(a[j].bounds.cell(spacing).inside(ra));
    }
}

/// Cells inside a region are inside any region around it.
pub proof fn lemma_inside_wider<I>(s: Seq<PackedSprite<I>>, r1: Rect, r2: Rect, spacing: (u32, u32))
    requires
        cells_inside(s, r1, spacing),
        r1.inside(r2),
    ensures
        cells_inside(s, r2, spacing),
{
    assert forall|i: int| 0 <= i < s.len() implies #[trigger] s[i].bounds.cell(spacing).inside(r2) by {
        assert(s[i].bounds.cell(spacing).inside(r1));
    }
}

/// Joining two sequences keeps their cells inside a common region.
pub proof fn lemma_inside_concat<I>(
    a: Seq<PackedSprite<I>>,
    b: Seq<PackedSprite<I>>,
    r: Rect,
    spacing: (u32, u32),
)
    requires
        cells_inside(a, r, spacing),
        cells_inside(b, r, spacing),
    ensures
        cells_inside(a + b, r, spacing),
{
    assert forall|i: int| 0 <= i < (a + b).len() implies #[trigger] (a + b)[i].bounds.cell(
        spacing,
    ).inside(r) by {
        if i < a.len() {
            assert((a + b)[i] == a[i]);
        } else {
            assert((a + b)[i] == b[i - a.len()]);
        }
    }
}

/// Joining two sequences, each apart within and apart from the other, gives
/// a sequence apart within.
pub proof fn lemma_apart_concat<I>(a: Seq<PackedSprite<I>>, b: Seq<PackedSprite<I>>, spacing: (u32, u32))
    requires
        cells_apart(a, spacing),
        cells_apart(b, spacing),
        cross_apart(a, b, spacing),
    ensures
        cells_apart(a + b, spacing),
{
    let s = a + b;
    assert forall|i: int, j: int| 0 <= i < s.len() && 0 <= j < s.len() && i != j implies #[trigger] s[i].bounds.cell(
        spacing,
    ).apart(#[trigger] s[j].bounds.cell(spacing)) by {
        if i < a.len() && j < a.len() {
            assert(s[i] == a[i] && s[j] == a[j]);
        } else if i < a.len() {
            assert(s[i] == a[i] && s[j] == b[j - a.len()]);
            assert(a[i].bounds.cell(spacing).apart(b[j - a.len()].bounds.cell(spacing)));
        } else if j < a.len() {
            assert(s[j] == a[j] && s[i] == b[i - a.len()]);
            assert(a[j].bounds.cell(spacing).apart(b[i - a.len()].bounds.cell(spacing)));
        } else {
            assert(s[i] == b[i - a.len()] && s[j] == b[j - a.len()]);
        }
    }
}

/// Being apart from two sequences is being apart from their join.
pub proof fn lemma_cross_concat<I>(
    a: Seq<PackedSprite<I>>,
    b: Seq<PackedSprite<I>>,
    c: Seq<PackedSprite<I>>,
    spacing: (u32, u32),
)
    requires
        cross_apart(a, b, spacing),
        cross_apart(a, c, spacing),
    ensures
        cross_apart(a, b + c, spacing),
{
    let s = b + c;
    assert forall|i: int, j: int| 0 <= i < a.len() && 0 <= j < s.len() implies #[trigger] a[i].bounds.cell(
        spacing,
    ).apart(#[trigger] s[j].bounds.cell(spacing)) by {
        if j < b.len() {
            assert(s[j] == b[j]);
        } else {
            assert(s[j] == c[j - b.len()]);
        }
    }
}

/// The region `r` moved by `offset`.
pub open spec fn moved(r: Rect, offset: (u32, u32)) -> Rect {
    Rect { x: r.x + offset.0, y: r.y + offset.1, w: r.w, h: r.h }
}

/// Moving every placement by the same offset, within `u32`, keeps them apart
/// and moves the region they lie in.
pub proof fn lemma_shift<I>(s: Seq<PackedSprite<I>>, r: Rect, offset: (u32, u32), spacing: (u32, u32))
    requires
        cells_inside(s, r, spacing),
        cells_apart(s, spacing),
        0 <= r.x,
        0 <= r.y,
        r.right() + offset.0 <= u32::MAX,
        r.bottom() + offset.1 <= u32::MAX,
    ensures
        ({
            let t = s.map_values(|p: PackedSprite<I>| shifted(p, offset));
            &&& cells_inside(t, moved(r, offset), spacing)
            &&& cells_apart(t, spacing)
            &&& forall|i: int|
                0 <= i < s.len() ==> #[trigger] t[i].bounds.rect() == moved(s[i].bounds.rect(), offset)
        }),
{
    let t = s.map_values(|p: PackedSprite<I>| shifted(p, offset));
    assert forall|i: int| 0 <= i < s.len() implies #[trigger] t[i].bounds.rect() == moved(s[i].bounds.rect(), offset) by {
        assert(s[i].bounds.cell(spacing).inside(r));
    }
    assert forall|i: int| 0 <= i < t.len() implies #[trigger] t[i].bounds.cell(spacing).inside(moved(r, offset)) by {
        assert(s[i].bounds.cell(spacing).inside(r));
    }
    assert forall|i: int, j: int| 0 <= i < t.len() && 0 <= j < t.len() && i != j implies #[trigger] t[i].bounds.cell(
        spacing,
    ).apart(#[trigger] t[j].bounds.cell(spacing)) by {
        assert(s[i].bounds.cell(spacing).inside(r));
        assert(s[j].bounds.cell(spacing).inside(r));
        assert(s[i].bounds.cell(spacing).apart(s[j].bounds.cell(spacing)));
    }
}

} // verus!

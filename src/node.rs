use crate::bounds::{Bounds, Rect};
use crate::layout::{
    cells_apart, cells_inside, lemma_apart_concat, lemma_cross_concat, lemma_inside_concat,
    lemma_inside_wider, lemma_regions_apart,
};
use crate::sprite::{lemma_placed_counts_add, lemma_placed_counts_one, placed_ids, placed_sizes, PackedSprite, Sprite};
use vstd::multiset::Multiset;
use vstd::prelude::*;

verus! {

/// What a node of the packing tree holds.
#[derive(Debug)]
pub enum NodeState<I> {
    /// Free space, not yet handed out.
    Unused,
    /// A branch made when the tree grew: it holds no sprite itself.
    Used,
    /// A placed sprite, at the node's top-left corner.
    UsedLeaf(Sprite<I>),
}

impl<I> NodeState<I> {
    pub open spec fn used(&self) -> bool {
        !(self is Unused)
    }

    pub fn is_used(&self) -> (r: bool)
        ensures
            r == self.used(),
    {
        match self {
            NodeState::Unused => false,
            _ => true,
        }
    }
}

/// The two parts a node is split into: the strip to its right and the
/// strip below it.
#[derive(Debug)]
pub struct NodeChildren<I> {
    pub right: Node<I>,
    pub down: Node<I>,
}

/// A node of the binary space-partition tree. Bounds are in the coordinate
/// space of the root, whose top-left corner is the origin.
#[derive(Debug)]
pub struct Node<I> {
    pub state: NodeState<I>,
    pub bounds: Bounds,
    pub children: Option<Box<NodeChildren<I>>>,
}

/// The rectangle a sprite is reported at when its node has bounds `b`.
pub open spec fn placement<I>(b: Bounds, sprite: Sprite<I>) -> Bounds {
    Bounds { x: b.x, y: b.y, w: sprite.size.0, h: sprite.size.1 }
}

/// The size a sprite takes in the tree: its own plus the trailing gutter.
pub open spec fn needed<I>(sprite: Sprite<I>, spacing: (u32, u32)) -> (u32, u32) {
    ((sprite.size.0 + spacing.0) as u32, (sprite.size.1 + spacing.1) as u32)
}

/// A placement moved by `offset`.
pub open spec fn shifted<I>(p: PackedSprite<I>, offset: (u32, u32)) -> PackedSprite<I> {
    PackedSprite {
        id: p.id,
        bounds: Bounds {
            x: (p.bounds.x + offset.0) as u32,
            y: (p.bounds.y + offset.1) as u32,
            w: p.bounds.w,
            h: p.bounds.h,
        },
    }
}

impl<I> Node<I> {
    /// A free node with bounds `b`.
    pub open spec fn free(b: Bounds) -> Node<I> {
        Node { state: NodeState::Unused, bounds: b, children: None }
    }

    /// The tree that `root` starts with.
    pub open spec fn seed(sprite: Sprite<I>, spacing: (u32, u32)) -> Node<I> {
        let (w, h) = needed(sprite, spacing);
        Node {
            state: NodeState::UsedLeaf(sprite),
            bounds: Bounds { x: 0, y: 0, w, h },
            children: None,
        }
    }

    /// `self` holding `sprite` in a `w` by `h` corner, split into the strip
    /// to the right (full height) and the strip below (placed width).
    pub open spec fn with_sprite(self, sprite: Sprite<I>, w: u32, h: u32) -> Node<I> {
        let b = self.bounds;
        Node {
            state: NodeState::UsedLeaf(sprite),
            bounds: b,
            children: Some(
                Box::new(
                    NodeChildren {
                        right: Node::free(
                            Bounds { x: (b.x + w) as u32, y: b.y, w: (b.w - w) as u32, h: b.h },
                        ),
                        down: Node::free(
                            Bounds { x: b.x, y: (b.y + h) as u32, w, h: (b.h - h) as u32 },
                        ),
                    },
                ),
            ),
        }
    }

    /// `self` with new children.
    pub open spec fn with_children(self, right: Node<I>, down: Node<I>) -> Node<I> {
        Node {
            state: self.state,
            bounds: self.bounds,
            children: Some(Box::new(NodeChildren { right, down })),
        }
    }

    /// First fit: the tree after `sprite` is put in the first free node, in
    /// depth-first order with the right strip before the lower one, that
    /// has room for `w` by `h`; `None` when no free node has.
    pub open spec fn placed(self, sprite: Sprite<I>, w: u32, h: u32) -> Option<Node<I>>
        decreases self,
    {
        match self.state {
            NodeState::Unused => {
                if w <= self.bounds.w && h <= self.bounds.h {
                    Some(self.with_sprite(sprite, w, h))
                } else {
                    None
                }
            },
            _ => match self.children {
                None => None,
                Some(c) => match c.right.placed(sprite, w, h) {
                    Some(r) => Some(self.with_children(r, c.down)),
                    None => match c.down.placed(sprite, w, h) {
                        Some(d) => Some(self.with_children(c.right, d)),
                        None => None,
                    },
                },
            },
        }
    }

    /// The tree can grow to take a `w` by `h` sprite along some axis.
    pub open spec fn can_grow(self, w: u32, h: u32) -> bool {
        h <= self.bounds.h || w <= self.bounds.w
    }

    /// Growth picks the right side: it keeps the sheet closer to square, or
    /// growing down is not both possible and better.
    pub open spec fn grows_right(self, w: u32, h: u32) -> bool {
        let b = self.bounds;
        let can_right = h <= b.h;
        let can_down = w <= b.w;
        let should_right = can_right && b.w + w <= b.h;
        let should_down = can_down && b.h + h <= b.w;
        should_right || (!should_down && can_right)
    }

    /// The tree after it grew and put `sprite` in the new strip.
    pub open spec fn grown(self, sprite: Sprite<I>, w: u32, h: u32) -> Node<I> {
        let b = self.bounds;
        if self.grows_right(w, h) {
            Node {
                state: NodeState::Used,
                bounds: Bounds { x: 0, y: 0, w: (b.w + w) as u32, h: b.h },
                children: Some(
                    Box::new(
                        NodeChildren {
                            right: Node::free(Bounds { x: b.w, y: 0, w, h: b.h }).with_sprite(
                                sprite,
                                w,
                                h,
                            ),
                            down: self,
                        },
                    ),
                ),
            }
        } else {
            Node {
                state: NodeState::Used,
                bounds: Bounds { x: 0, y: 0, w: b.w, h: (b.h + h) as u32 },
                children: Some(
                    Box::new(
                        NodeChildren {
                            right: self,
                            down: Node::free(Bounds { x: 0, y: b.h, w: b.w, h }).with_sprite(
                                sprite,
                                w,
                                h,
                            ),
                        },
                    ),
                ),
            }
        }
    }

    /// The tree after `insert`.
    pub open spec fn inserted(self, sprite: Sprite<I>, spacing: (u32, u32)) -> Node<I> {
        let (w, h) = needed(sprite, spacing);
        match self.placed(sprite, w, h) {
            Some(n) => n,
            None => self.grown(sprite, w, h),
        }
    }

    /// `insert` is defined on `self`: the root is at the origin, the sizes
    /// fit in `u32`, and the sprite either fits in a free node or the tree
    /// can grow to take it.
    pub open spec fn can_insert(self, sprite: Sprite<I>, spacing: (u32, u32)) -> bool {
        let (w, h) = needed(sprite, spacing);
        &&& self.bounds.x == 0
        &&& self.bounds.y == 0
        &&& sprite.size.0 + spacing.0 <= u32::MAX
        &&& sprite.size.1 + spacing.1 <= u32::MAX
        &&& self.placed(sprite, w, h) is None ==> {
            &&& self.can_grow(w, h)
            &&& self.grows_right(w, h) ==> self.bounds.w + w <= u32::MAX
            &&& !self.grows_right(w, h) ==> self.bounds.h + h <= u32::MAX
        }
    }

    /// The structural invariant: children lie inside their parent and apart
    /// from each other, a placed sprite's cell (its size plus spacing) lies
    /// inside its node and apart from the node's children, and free nodes
    /// have no children.
    pub open spec fn wf(self, spacing: (u32, u32)) -> bool
        decreases self,
    {
        let r = self.bounds.rect();
        match self.state {
            NodeState::Unused => self.children is None,
            NodeState::Used => match self.children {
                None => true,
                Some(c) => {
                    &&& c.right.bounds.rect().inside(r)
                    &&& c.down.bounds.rect().inside(r)
                    &&& c.right.bounds.rect().apart(c.down.bounds.rect())
                    &&& c.right.wf(spacing)
                    &&& c.down.wf(spacing)
                },
            },
            NodeState::UsedLeaf(s) => {
                let cell = placement(self.bounds, s).cell(spacing);
                &&& cell.inside(r)
                &&& match self.children {
                    None => true,
                    Some(c) => {
                        &&& c.right.bounds.rect().inside(r)
                        &&& c.down.bounds.rect().inside(r)
                        &&& c.right.bounds.rect().apart(c.down.bounds.rect())
                        &&& cell.apart(c.right.bounds.rect())
                        &&& cell.apart(c.down.bounds.rect())
                        &&& c.right.wf(spacing)
                        &&& c.down.wf(spacing)
                    },
                }
            },
        }
    }

    /// The placed sprites, in the order of a depth-first walk that lists a
    /// node before its lower strip and the lower strip before the right one.
    pub open spec fn packed(self) -> Seq<PackedSprite<I>>
        decreases self,
    {
        let own = match self.state {
            NodeState::UsedLeaf(s) => seq![PackedSprite { id: s.id, bounds: placement(self.bounds, s) }],
            _ => Seq::empty(),
        };
        let rest = match self.state {
            NodeState::Unused => Seq::empty(),
            _ => match self.children {
                None => Seq::empty(),
                Some(c) => c.down.packed() + c.right.packed(),
            },
        };
        own + rest
    }

    /// Every node still has its top-left corner in `u32` once moved by
    /// `offset`.
    pub open spec fn offset_fits(self, offset: (u32, u32)) -> bool
        decreases self,
    {
        &&& self.bounds.x + offset.0 <= u32::MAX
        &&& self.bounds.y + offset.1 <= u32::MAX
        &&& match self.children {
            None => true,
            Some(c) => c.right.offset_fits(offset) && c.down.offset_fits(offset),
        }
    }
}

impl<I> Node<I> {
    /// A tree of one leaf holding `sprite` at the origin, with room for the
    /// sprite and its trailing gutter.
    pub fn root(sprite: Sprite<I>, spacing: (u32, u32)) -> (r: Self)
        requires
            sprite.size.0 + spacing.0 <= u32::MAX,
            sprite.size.1 + spacing.1 <= u32::MAX,
        ensures
            r == Node::seed(sprite, spacing),
            r.wf(spacing),
    {
        let w = sprite.size.0 + spacing.0;
        let h = sprite.size.1 + spacing.1;

        Node { state: NodeState::UsedLeaf(sprite), bounds: Bounds::new(0, 0, w, h), children: None }
    }

    /// A free node with the given bounds.
    pub fn unused(x: u32, y: u32, w: u32, h: u32) -> (r: Self)
        ensures
            r == Node::<I>::free(Bounds { x, y, w, h }),
    {
        Node { state: NodeState::Unused, bounds: Bounds::new(x, y, w, h), children: None }
    }

    fn empty() -> (r: Self)
        ensures
            r == Node::<I>::free(Bounds { x: 0, y: 0, w: 0, h: 0 }),
    {
        Node { state: NodeState::Unused, bounds: Bounds::new(0, 0, 0, 0), children: None }
    }

    /// Marks this free node as holding `sprite` in its `w` by `h` corner and
    /// splits the rest into two free strips.
    fn set_used(&mut self, sprite: Sprite<I>, w: u32, h: u32)
        requires
            w <= old(self).bounds.w,
            h <= old(self).bounds.h,
            old(self).bounds.rect().right() <= u32::MAX,
            old(self).bounds.rect().bottom() <= u32::MAX,
        ensures
            *final(self) == old(self).with_sprite(sprite, w, h),
    {
        self.state = NodeState::UsedLeaf(sprite);

        let bounds = self.bounds;
        self.children = Some(
            Box::new(
                NodeChildren {
                    right: Self::unused(bounds.x + w, bounds.y, bounds.w - w, bounds.h),
                    down: Self::unused(bounds.x, bounds.y + h, w, bounds.h - h),
                },
            ),
        );
    }

    /// Puts `sprite` in the first free node with room for `w` by `h`, as
    /// `placed` describes, and returns `None`; hands the sprite back and
    /// leaves the tree as it was when there is no such node.
    fn find(&mut self, sprite: Sprite<I>, w: u32, h: u32, Ghost(spacing): Ghost<(u32, u32)>) -> (r:
        Option<Sprite<I>>)
        requires
            old(self).wf(spacing),
            old(self).bounds.rect().right() <= u32::MAX,
            old(self).bounds.rect().bottom() <= u32::MAX,
        ensures
            match old(self).placed(sprite, w, h) {
                Some(n) => r is None && *final(self) == n,
                None => r == Some(sprite) && *final(self) == *old(self),
            },
        decreases *old(self),
    {
        if !self.state.is_used() {
            if w <= self.bounds.w && h <= self.bounds.h {
                self.set_used(sprite, w, h);
                None
            } else {
                Some(sprite)
            }
        } else {
            match self.children.take() {
                None => Some(sprite),
                Some(boxed) => {
                    let mut children = *boxed;
                    let r = match children.right.find(sprite, w, h, Ghost(spacing)) {
                        None => None,
                        Some(sprite) => children.down.find(sprite, w, h, Ghost(spacing)),
                    };
                    self.children = Some(Box::new(children));
                    r
                },
            }
        }
    }

    /// Grows the tree to take a `w` by `h` sprite, to the right or down as
    /// `grows_right` decides, and puts `sprite` in the new strip.
    fn grow(&mut self, sprite: Sprite<I>, w: u32, h: u32)
        requires
            old(self).bounds.x == 0,
            old(self).bounds.y == 0,
            old(self).can_grow(w, h),
            old(self).grows_right(w, h) ==> old(self).bounds.w + w <= u32::MAX,
            !old(self).grows_right(w, h) ==> old(self).bounds.h + h <= u32::MAX,
        ensures
            *final(self) == old(self).grown(sprite, w, h),
    {
        let can_grow_right = h <= self.bounds.h;
        let can_grow_down = w <= self.bounds.w;

        let should_grow_right = can_grow_right && (self.bounds.w as u64 + w as u64
            <= self.bounds.h as u64);
        let should_grow_down = can_grow_down && (self.bounds.h as u64 + h as u64
            <= self.bounds.w as u64);

        if should_grow_right {
            self.grow_right(sprite, w, h)
        } else if should_grow_down {
            self.grow_down(sprite, w, h)
        } else if can_grow_right {
            self.grow_right(sprite, w, h)
        } else {
            self.grow_down(sprite, w, h)
        }
    }

    /// The current tree becomes the lower part of a new root `w` wider; the
    /// sprite goes at the top of the new strip on the right.
    fn grow_right(&mut self, sprite: Sprite<I>, w: u32, h: u32)
        requires
            old(self).bounds.x == 0,
            old(self).bounds.y == 0,
            h <= old(self).bounds.h,
            old(self).bounds.w + w <= u32::MAX,
        ensures
            *final(self) == (Node {
                state: NodeState::Used,
                bounds: Bounds { x: 0, y: 0, w: (old(self).bounds.w + w) as u32, h: old(self).bounds.h },
                children: Some(
                    Box::new(
                        NodeChildren {
                            right: Node::free(
                                Bounds { x: old(self).bounds.w, y: 0, w, h: old(self).bounds.h },
                            ).with_sprite(sprite, w, h),
                            down: *old(self),
                        },
                    ),
                ),
            }),
    {
        let bounds = self.bounds;
        let mut right = Self::unused(bounds.w, 0, w, bounds.h);
        right.set_used(sprite, w, h);

        let mut down = Self::empty();
        std::mem::swap(self, &mut down);

        *self = Node {
            state: NodeState::Used,
            bounds: Bounds::new(0, 0, bounds.w + w, bounds.h),
            children: Some(Box::new(NodeChildren { right, down })),
        };
    }

    /// The current tree becomes the right part of a new root `h` taller; the
    /// sprite goes at the left of the new strip below.
    fn grow_down(&mut self, sprite: Sprite<I>, w: u32, h: u32)
        requires
            old(self).bounds.x == 0,
            old(self).bounds.y == 0,
            w <= old(self).bounds.w,
            old(self).bounds.h + h <= u32::MAX,
        ensures
            *final(self) == (Node {
                state: NodeState::Used,
                bounds: Bounds { x: 0, y: 0, w: old(self).bounds.w, h: (old(self).bounds.h + h) as u32 },
                children: Some(
                    Box::new(
                        NodeChildren {
                            right: *old(self),
                            down: Node::free(
                                Bounds { x: 0, y: old(self).bounds.h, w: old(self).bounds.w, h },
                            ).with_sprite(sprite, w, h),
                        },
                    ),
                ),
            }),
    {
        let bounds = self.bounds;
        let mut down = Self::unused(0, bounds.h, bounds.w, h);
        down.set_used(sprite, w, h);

        let mut right = Self::empty();
        std::mem::swap(self, &mut right);

        *self = Node {
            state: NodeState::Used,
            bounds: Bounds::new(0, 0, bounds.w, bounds.h + h),
            children: Some(Box::new(NodeChildren { right, down })),
        };
    }

    /// Places `sprite`, with `spacing` as its trailing gutter: in the first
    /// free node with room, else in a strip the tree grows by.
    pub fn insert(&mut self, sprite: Sprite<I>, spacing: (u32, u32))
        requires
            old(self).wf(spacing),
            old(self).can_insert(sprite, spacing),
        ensures
            *final(self) == old(self).inserted(sprite, spacing),
            final(self).wf(spacing),
            final(self).bounds.x == 0,
            final(self).bounds.y == 0,
            old(self).bounds.w <= final(self).bounds.w <= old(self).bounds.w + sprite.size.0
                + spacing.0,
            old(self).bounds.h <= final(self).bounds.h <= old(self).bounds.h + sprite.size.1
                + spacing.1,
            placed_sizes(final(self).packed()) == placed_sizes(old(self).packed()).insert(
                (sprite.id, sprite.size.0, sprite.size.1),
            ),
            placed_ids(final(self).packed()) == placed_ids(old(self).packed()).insert(sprite.id),
    {
        let w = sprite.size.0 + spacing.0;
        let h = sprite.size.1 + spacing.1;
        proof {
            lemma_inserted(*self, sprite, spacing);
        }

        match self.find(sprite, w, h, Ghost(spacing)) {
            None => {},
            Some(sprite) => self.grow(sprite, w, h),
        }
    }

    /// The placed sprites with their reported rectangles, each of the
    /// sprite's own size (the gutter left out).
    pub fn into_packed_sprites(self) -> (r: Vec<PackedSprite<I>>)
        ensures
            r@ == self.packed(),
    {
        let mut out = Vec::new();
        proof {
            lemma_offset_zero_fits(self);
        }
        self.collect(&mut out, (0, 0));
        proof {
            assert(self.packed().map_values(|p: PackedSprite<I>| shifted(p, (0u32, 0u32))) =~= self.packed());
        }
        out
    }

    /// Appends the placed sprites, moved by `offset`, to `out`.
    pub(crate) fn collect(self, out: &mut Vec<PackedSprite<I>>, offset: (u32, u32))
        requires
            self.offset_fits(offset),
        ensures
            final(out)@ == old(out)@ + self.packed().map_values(
                |p: PackedSprite<I>| shifted(p, offset),
            ),
        decreases self,
    {
        let ghost packed = self.packed();
        let Node { state, bounds, children } = self;
        let used = state.is_used();
        match state {
            NodeState::UsedLeaf(sprite) => {
                out.push(
                    PackedSprite {
                        id: sprite.id,
                        bounds: Bounds::new(
                            bounds.x + offset.0,
                            bounds.y + offset.1,
                            sprite.size.0,
                            sprite.size.1,
                        ),
                    },
                );
            },
            _ => {},
        }
        if used {
            match children {
                Some(boxed) => {
                    let NodeChildren { right, down } = *boxed;
                    down.collect(out, offset);
                    right.collect(out, offset);
                },
                None => {},
            }
        }
        proof {
            assert(final(out)@ =~= old(out)@ + packed.map_values(|p: PackedSprite<I>| shifted(p, offset)));
        }
    }
}

/// Every tree has its corners in `u32` when not moved.
pub proof fn lemma_offset_zero_fits<I>(n: Node<I>)
    ensures
        n.offset_fits((0, 0)),
    decreases n,
{
    match n.children {
        None => {},
        Some(c) => {
            lemma_offset_zero_fits(c.right);
            lemma_offset_zero_fits(c.down);
        },
    }
}

/// In a well-formed tree every placed sprite's cell lies inside the root,
/// and no two cells share a unit square.
pub proof fn lemma_layout<I>(n: Node<I>, spacing: (u32, u32))
    requires
        n.wf(spacing),
    ensures
        cells_inside(n.packed(), n.bounds.rect(), spacing),
        cells_apart(n.packed(), spacing),
    decreases n,
{
    let r = n.bounds.rect();
    let none = Seq::<PackedSprite<I>>::empty();
    match n.state {
        NodeState::Unused => {
            assert(n.packed() =~= none);
        },
        NodeState::Used => match n.children {
            None => {
                assert(n.packed() =~= none);
            },
            Some(c) => {
                let d = c.down.packed();
                let rt = c.right.packed();
                lemma_layout(c.down, spacing);
                lemma_layout(c.right, spacing);
                lemma_regions_apart(d, rt, c.down.bounds.rect(), c.right.bounds.rect(), spacing);
                lemma_apart_concat(d, rt, spacing);
                lemma_inside_wider(d, c.down.bounds.rect(), r, spacing);
                lemma_inside_wider(rt, c.right.bounds.rect(), r, spacing);
                lemma_inside_concat(d, rt, r, spacing);
                assert(n.packed() =~= d + rt);
            },
        },
        NodeState::UsedLeaf(s) => {
            let cell = placement(n.bounds, s).cell(spacing);
            let own = seq![PackedSprite { id: s.id, bounds: placement(n.bounds, s) }];
            assert(own[0].bounds.cell(spacing) == cell);
            assert(cells_inside(own, cell, spacing));
            assert(cells_apart(own, spacing));
            lemma_inside_wider(own, cell, r, spacing);
            match n.children {
                None => {
                    assert(n.packed() =~= own);
                },
                Some(c) => {
                    let d = c.down.packed();
                    let rt = c.right.packed();
                    lemma_layout(c.down, spacing);
                    lemma_layout(c.right, spacing);
                    lemma_regions_apart(d, rt, c.down.bounds.rect(), c.right.bounds.rect(), spacing);
                    lemma_apart_concat(d, rt, spacing);
                    lemma_regions_apart(own, d, cell, c.down.bounds.rect(), spacing);
                    lemma_regions_apart(own, rt, cell, c.right.bounds.rect(), spacing);
                    lemma_cross_concat(own, d, rt, spacing);
                    lemma_apart_concat(own, d + rt, spacing);
                    lemma_inside_wider(d, c.down.bounds.rect(), r, spacing);
                    lemma_inside_wider(rt, c.right.bounds.rect(), r, spacing);
                    lemma_inside_concat(d, rt, r, spacing);
                    lemma_inside_concat(own, d + rt, r, spacing);
                    assert(n.packed() =~= own + (d + rt));
                },
            }
        },
    }
}

/// A free node's placements are none.
pub proof fn lemma_free_packed<I>(b: Bounds)
    ensures
        Node::<I>::free(b).packed() == Seq::<PackedSprite<I>>::empty(),
{
    assert(Node::<I>::free(b).packed() =~= Seq::<PackedSprite<I>>::empty());
}

/// Placing a sprite in the first fitting free node keeps the tree
/// well-formed and its bounds, and adds exactly that sprite, of its own
/// size, to the placements.
pub proof fn lemma_placed<I>(n: Node<I>, sprite: Sprite<I>, spacing: (u32, u32))
    requires
        n.wf(spacing),
        n.bounds.rect().right() <= u32::MAX,
        n.bounds.rect().bottom() <= u32::MAX,
        sprite.size.0 + spacing.0 <= u32::MAX,
        sprite.size.1 + spacing.1 <= u32::MAX,
        n.placed(sprite, needed(sprite, spacing).0, needed(sprite, spacing).1) is Some,
    ensures
        ({
            let m = n.placed(sprite, needed(sprite, spacing).0, needed(sprite, spacing).1).unwrap();
            &&& m.wf(spacing)
            &&& m.bounds == n.bounds
            &&& placed_sizes(m.packed()) == placed_sizes(n.packed()).insert(
                (sprite.id, sprite.size.0, sprite.size.1),
            )
            &&& placed_ids(m.packed()) == placed_ids(n.packed()).insert(sprite.id)
        }),
    decreases n,
{
    let (w, h) = needed(sprite, spacing);
    let m = n.placed(sprite, w, h).unwrap();
    let none = Seq::<PackedSprite<I>>::empty();
    match n.state {
        NodeState::Unused => {
            let own = PackedSprite { id: sprite.id, bounds: placement(n.bounds, sprite) };
            let c = m.children.unwrap();
            lemma_free_packed::<I>(c.right.bounds);
            lemma_free_packed::<I>(c.down.bounds);
            assert(c.right.wf(spacing));
            assert(c.down.wf(spacing));
            assert(m.wf(spacing));
            assert(m.packed() =~= seq![own]);
            assert(n.packed() =~= none);
            lemma_placed_counts_one(own);
            assert(placed_sizes(none) == Multiset::<(I, u32, u32)>::empty());
            assert(placed_ids(none) == Multiset::<I>::empty());
        },
        _ => {
            let c = n.children.unwrap();
            let own = match n.state {
                NodeState::UsedLeaf(s) => seq![PackedSprite { id: s.id, bounds: placement(n.bounds, s) }],
                _ => none,
            };
            assert(n.packed() =~= own + (c.down.packed() + c.right.packed()));
            lemma_placed_counts_add(c.down.packed(), c.right.packed());
            lemma_placed_counts_add(own, c.down.packed() + c.right.packed());
            match c.right.placed(sprite, w, h) {
                Some(r) => {
                    lemma_placed(c.right, sprite, spacing);
                    assert(m.wf(spacing));
                    assert(m.packed() =~= own + (c.down.packed() + r.packed()));
                    lemma_placed_counts_add(c.down.packed(), r.packed());
                    lemma_placed_counts_add(own, c.down.packed() + r.packed());
                    assert(placed_sizes(m.packed()) =~= placed_sizes(n.packed()).insert(
                        (sprite.id, sprite.size.0, sprite.size.1),
                    ));
                    assert(placed_ids(m.packed()) =~= placed_ids(n.packed()).insert(sprite.id));
                },
                None => {
                    let d = c.down.placed(sprite, w, h).unwrap();
                    lemma_placed(c.down, sprite, spacing);
                    assert(m.wf(spacing));
                    assert(m.packed() =~= own + (d.packed() + c.right.packed()));
                    lemma_placed_counts_add(d.packed(), c.right.packed());
                    lemma_placed_counts_add(own, d.packed() + c.right.packed());
                    assert(placed_sizes(m.packed()) =~= placed_sizes(n.packed()).insert(
                        (sprite.id, sprite.size.0, sprite.size.1),
                    ));
                    assert(placed_ids(m.packed()) =~= placed_ids(n.packed()).insert(sprite.id));
                },
            }
        },
    }
}

/// Growing keeps the tree well-formed with its root at the origin, widens
/// or heightens it by the needed size, and adds exactly the sprite.
pub proof fn lemma_grown<I>(n: Node<I>, sprite: Sprite<I>, spacing: (u32, u32))
    requires
        n.wf(spacing),
        n.bounds.x == 0,
        n.bounds.y == 0,
        sprite.size.0 + spacing.0 <= u32::MAX,
        sprite.size.1 + spacing.1 <= u32::MAX,
        n.can_grow(needed(sprite, spacing).0, needed(sprite, spacing).1),
        n.grows_right(needed(sprite, spacing).0, needed(sprite, spacing).1) ==> n.bounds.w
            + needed(sprite, spacing).0 <= u32::MAX,
        !n.grows_right(needed(sprite, spacing).0, needed(sprite, spacing).1) ==> n.bounds.h
            + needed(sprite, spacing).1 <= u32::MAX,
    ensures
        ({
            let (w, h) = needed(sprite, spacing);
            let m = n.grown(sprite, w, h);
            &&& m.wf(spacing)
            &&& m.bounds.x == 0
            &&& m.bounds.y == 0
            &&& n.grows_right(w, h) ==> m.bounds.w == n.bounds.w + w && m.bounds.h == n.bounds.h
            &&& !n.grows_right(w, h) ==> m.bounds.w == n.bounds.w && m.bounds.h == n.bounds.h + h
            &&& placed_sizes(m.packed()) == placed_sizes(n.packed()).insert(
                (sprite.id, sprite.size.0, sprite.size.1),
            )
            &&& placed_ids(m.packed()) == placed_ids(n.packed()).insert(sprite.id)
        }),
{
    let (w, h) = needed(sprite, spacing);
    let m = n.grown(sprite, w, h);
    let b = n.bounds;
    let none = Seq::<PackedSprite<I>>::empty();
    let strip = if n.grows_right(w, h) {
        Node::<I>::free(Bounds { x: b.w, y: 0, w, h: b.h })
    } else {
        Node::<I>::free(Bounds { x: 0, y: b.h, w: b.w, h })
    };
    assert(strip.packed() =~= none);
    assert(strip.placed(sprite, w, h) == Some(strip.with_sprite(sprite, w, h)));
    lemma_placed(strip, sprite, spacing);
    let placed = strip.with_sprite(sprite, w, h);
    if n.grows_right(w, h) {
        assert(m.packed() =~= n.packed() + placed.packed());
        lemma_placed_counts_add(n.packed(), placed.packed());
    } else {
        assert(m.packed() =~= placed.packed() + n.packed());
        lemma_placed_counts_add(placed.packed(), n.packed());
    }
    assert(placed_sizes(none) == Multiset::<(I, u32, u32)>::empty());
    assert(placed_ids(none) == Multiset::<I>::empty());
    assert(placed_sizes(m.packed()) =~= placed_sizes(n.packed()).insert(
        (sprite.id, sprite.size.0, sprite.size.1),
    ));
    assert(placed_ids(m.packed()) =~= placed_ids(n.packed()).insert(sprite.id));
}

/// What `insert` keeps and what it adds.
pub proof fn lemma_inserted<I>(n: Node<I>, sprite: Sprite<I>, spacing: (u32, u32))
    requires
        n.wf(spacing),
        n.can_insert(sprite, spacing),
    ensures
        ({
            let m = n.inserted(sprite, spacing);
            &&& m.wf(spacing)
            &&& m.bounds.x == 0
            &&& m.bounds.y == 0
            &&& n.bounds.w <= m.bounds.w <= n.bounds.w + sprite.size.0 + spacing.0
            &&& n.bounds.h <= m.bounds.h <= n.bounds.h + sprite.size.1 + spacing.1
            &&& placed_sizes(m.packed()) == placed_sizes(n.packed()).insert(
                (sprite.id, sprite.size.0, sprite.size.1),
            )
            &&& placed_ids(m.packed()) == placed_ids(n.packed()).insert(sprite.id)
        }),
{
    let (w, h) = needed(sprite, spacing);
    if n.placed(sprite, w, h) is Some {
        lemma_placed(n, sprite, spacing);
    } else {
        lemma_grown(n, sprite, spacing);
    }
}

/// A well-formed tree whose far corner stays in `u32` once moved by
/// `offset` has every node's corner there too.
pub proof fn lemma_offset_fits<I>(n: Node<I>, spacing: (u32, u32), offset: (u32, u32))
    requires
        n.wf(spacing),
        n.bounds.rect().right() + offset.0 <= u32::MAX,
        n.bounds.rect().bottom() + offset.1 <= u32::MAX,
    ensures
        n.offset_fits(offset),
    decreases n,
{
    match n.children {
        None => {},
        Some(c) => {
            lemma_offset_fits(c.right, spacing, offset);
            lemma_offset_fits(c.down, spacing, offset);
        },
    }
}

} // verus!

//! Packing a list of image sizes: each image is known by its index, and the
//! result gives the sheet size and each image's top-left corner.

use crate::bounds::{Position, Size};
use crate::pack::{accepted, has_empty, pack, pack_model, PackError, PackOptions};
use crate::sprite::{PackedSprite, Sprite as Item};
use vstd::prelude::*;

verus! {

/// Where an image went: its index among the inputs and its corner.
#[derive(Clone, Copy, Debug, PartialEq, Eq, Structural)]
pub struct Sprite {
    pub image_index: usize,
    pub position: Position,
}

/// The sheet size and the placed images.
#[derive(Debug)]
pub struct PackerResult {
    pub size: Size,
    pub sprites: Vec<Sprite>,
}

/// The sprites to pack: each size, identified by its index.
pub open spec fn indexed(sizes: Seq<Size>) -> Seq<Item<usize>> {
    Seq::new(sizes.len(), |i: int| Item { id: i as usize, size: (sizes[i].w, sizes[i].h) })
}

/// The options for a spacing and a padding given as sizes.
pub open spec fn options_of(spacing: Size, padding: Size) -> PackOptions {
    PackOptions { spacing: (spacing.w, spacing.h), padding: (padding.w, padding.h) }
}

/// A placement as an image index and a corner.
pub open spec fn corner_of(p: PackedSprite<usize>) -> Sprite {
    Sprite { image_index: p.id, position: Position { x: p.bounds.x, y: p.bounds.y } }
}

/// Packs the images of the given sizes with `spacing` between them and
/// `padding` around the sheet.
pub fn run(sizes: &Vec<Size>, spacing: Size, padding: Size) -> (r: Result<PackerResult, PackError>)
    ensures
        r is Ok <==> accepted(indexed(sizes@), options_of(spacing, padding)),
        r is Err ==> r->Err_0 == (if has_empty(indexed(sizes@)) {
            PackError::EmptySprite
        } else {
            PackError::TooLarge
        }),
        r is Ok ==> ({
            let (size, placed) = pack_model(indexed(sizes@), options_of(spacing, padding));
            &&& r->Ok_0.size == (Size { w: size.0, h: size.1 })
            &&& r->Ok_0.sprites@ == placed.map_values(|p: PackedSprite<usize>| corner_of(p))
        }),
{
    let mut items: Vec<Item<usize>> = Vec::new();
    let mut i: usize = 0;
    while i < sizes.len()
        invariant
            0 <= i <= sizes@.len(),
            items@ == indexed(sizes@).take(i as int),
        decreases sizes@.len() - i,
    {
        items.push(Item { id: i, size: (sizes[i].w, sizes[i].h) });
        i = i + 1;
        proof {
            assert(items@ =~= indexed(sizes@).take(i as int));
        }
    }
    proof {
        assert(items@ =~= indexed(sizes@));
    }
    let options = PackOptions { spacing: (spacing.w, spacing.h), padding: (padding.w, padding.h) };
    let packed = match pack(items, &options) {
        Ok(packed) => packed,
        Err(e) => {
            return Err(e);
        },
    };
    let ghost placed = packed.sprites@;
    let mut sprites: Vec<Sprite> = Vec::new();
    let mut i: usize = 0;
    while i < packed.sprites.len()
        invariant
            0 <= i <= placed.len(),
            placed == packed.sprites@,
            sprites@ == placed.take(i as int).map_values(|p: PackedSprite<usize>| corner_of(p)),
        decreases placed.len() - i,
    {
        let p = &packed.sprites[i];
        sprites.push(Sprite { image_index: p.id, position: Position::new(p.bounds.x, p.bounds.y) });
        i = i + 1;
        proof {
            assert(sprites@ =~= placed.take(i as int).map_values(
                |p: PackedSprite<usize>| corner_of(p),
            ));
        }
    }
    proof {
        assert(placed.take(placed.len() as int) =~= placed);
    }
    Ok(PackerResult { size: Size::new(packed.size.0, packed.size.1), sprites })
}

} // verus!

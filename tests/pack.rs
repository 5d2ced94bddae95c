use sprite_pack::bounds::Bounds;
use sprite_pack::pack::{pack, PackError, PackOptions, PackResult};
use sprite_pack::sprite::{PackedSprite, Sprite};

fn sprite(id: char, w: u32, h: u32) -> Sprite<char> {
    Sprite { id, size: (w, h) }
}

fn options(spacing: (u32, u32), padding: (u32, u32)) -> PackOptions {
    PackOptions { spacing, padding }
}

fn intersects(a: &Bounds, b: &Bounds) -> bool {
    a.x < b.x + b.w && b.x < a.x + a.w && a.y < b.y + b.h && b.y < a.y + a.h
}

fn find(result: &PackResult<char>, id: char) -> Bounds {
    let found: Vec<&PackedSprite<char>> = result.sprites.iter().filter(|p| p.id == id).collect();
    assert_eq!(found.len(), 1);
    found[0].bounds
}

#[test]
fn empty_input_gives_empty_sheet() {
    let r = pack::<char>(vec![], &options((1, 1), (0, 0))).unwrap();
    assert_eq!(r.size, (0, 0));
    assert!(r.sprites.is_empty());
}

#[test]
fn empty_input_ignores_padding() {
    let r = pack::<char>(vec![], &options((3, 3), (5, 5))).unwrap();
    assert_eq!(r.size, (0, 0));
    assert!(r.sprites.is_empty());
}

#[test]
fn single_sprite() {
    let r = pack(vec![sprite('A', 10, 20)], &options((0, 0), (0, 0))).unwrap();
    assert_eq!(r.size, (10, 20));
    assert_eq!(r.sprites.len(), 1);
    assert_eq!(r.sprites[0].id, 'A');
    assert_eq!(r.sprites[0].bounds, Bounds { x: 0, y: 0, w: 10, h: 20 });
}

#[test]
fn two_sprites_side_by_side() {
    let r = pack(vec![sprite('A', 10, 10), sprite('B', 10, 10)], &options((0, 0), (0, 0)))
        .unwrap();
    assert!(r.size == (20, 10) || r.size == (10, 20));
    let a = find(&r, 'A');
    let b = find(&r, 'B');
    assert!(!intersects(&a, &b));
    // Neither side keeps the sheet square; growing right is the fallback.
    assert_eq!(r.size, (20, 10));
    assert_eq!(a, Bounds { x: 0, y: 0, w: 10, h: 10 });
    assert_eq!(b, Bounds { x: 10, y: 0, w: 10, h: 10 });
}

#[test]
fn spacing_respected() {
    let r = pack(vec![sprite('A', 10, 10), sprite('B', 10, 10)], &options((2, 2), (0, 0)))
        .unwrap();
    let a = find(&r, 'A');
    let b = find(&r, 'B');
    // Side by side along the x axis, with a gap of exactly the spacing.
    assert_eq!(a.y, b.y);
    assert_eq!(b.x - (a.x + a.w), 2);
    // One trailing gutter is dropped: 10 + 2 + 10, not 10 + 2 + 10 + 2.
    assert_eq!(r.size, (22, 10));
}

#[test]
fn padding_moves_sprites_and_grows_sheet() {
    let r = pack(vec![sprite('A', 10, 20)], &options((1, 1), (3, 4))).unwrap();
    assert_eq!(r.size, (16, 28));
    assert_eq!(r.sprites[0].bounds, Bounds { x: 3, y: 4, w: 10, h: 20 });
}

#[test]
fn largest_sprite_seeds_the_root() {
    let r = pack(vec![sprite('s', 4, 4), sprite('L', 30, 8)], &options((0, 0), (0, 0)))
        .unwrap();
    assert_eq!(find(&r, 'L'), Bounds { x: 0, y: 0, w: 30, h: 8 });
    assert_eq!(find(&r, 's'), Bounds { x: 0, y: 8, w: 4, h: 4 });
    assert_eq!(r.size, (30, 12));
}

#[test]
fn small_sprite_fills_free_space() {
    // The second sprite leaves free space that the third then uses.
    let r = pack(
        vec![sprite('a', 20, 20), sprite('b', 10, 10), sprite('c', 10, 10)],
        &options((0, 0), (0, 0)),
    )
    .unwrap();
    assert_eq!(find(&r, 'a'), Bounds { x: 0, y: 0, w: 20, h: 20 });
    assert_eq!(find(&r, 'b'), Bounds { x: 20, y: 0, w: 10, h: 10 });
    assert_eq!(find(&r, 'c'), Bounds { x: 20, y: 10, w: 10, h: 10 });
    assert_eq!(r.size, (30, 20));
}

#[test]
fn duplicate_ids_are_kept() {
    let r = pack(
        vec![sprite('x', 3, 3), sprite('x', 5, 2), sprite('y', 1, 1)],
        &options((1, 1), (0, 0)),
    )
    .unwrap();
    let mut ids: Vec<char> = r.sprites.iter().map(|p| p.id).collect();
    ids.sort();
    assert_eq!(ids, vec!['x', 'x', 'y']);
}

#[test]
fn many_sprites_are_apart_and_inside() {
    let mut sprites = Vec::new();
    let mut i: u32 = 0;
    while i < 40 {
        sprites.push(Sprite { id: i, size: (1 + (i * 7) % 13, 1 + (i * 5) % 11) });
        i += 1;
    }
    let sizes: Vec<(u32, (u32, u32))> = sprites.iter().map(|s| (s.id, s.size)).collect();
    let r = pack(sprites, &options((1, 2), (2, 1))).unwrap();
    assert_eq!(r.sprites.len(), 40);
    for (id, size) in &sizes {
        let found: Vec<&PackedSprite<u32>> = r.sprites.iter().filter(|p| p.id == *id).collect();
        assert_eq!(found.len(), 1);
        assert_eq!((found[0].bounds.w, found[0].bounds.h), *size);
    }
    for (i, a) in r.sprites.iter().enumerate() {
        assert!(a.bounds.x + a.bounds.w <= r.size.0);
        assert!(a.bounds.y + a.bounds.h <= r.size.1);
        for b in r.sprites.iter().skip(i + 1) {
            // Cells grown by the spacing stay apart.
            let apart = a.bounds.x + a.bounds.w + 1 <= b.bounds.x
                || b.bounds.x + b.bounds.w + 1 <= a.bounds.x
                || a.bounds.y + a.bounds.h + 2 <= b.bounds.y
                || b.bounds.y + b.bounds.h + 2 <= a.bounds.y;
            assert!(apart);
        }
    }
}

#[test]
fn repacking_is_identical() {
    let make = || vec![sprite('a', 5, 9), sprite('b', 9, 5), sprite('c', 3, 3), sprite('d', 9, 9)];
    let r1 = pack(make(), &options((1, 1), (1, 1))).unwrap();
    let r2 = pack(make(), &options((1, 1), (1, 1))).unwrap();
    assert_eq!(r1.size, r2.size);
    let first: Vec<(char, Bounds)> = r1.sprites.iter().map(|p| (p.id, p.bounds)).collect();
    let second: Vec<(char, Bounds)> = r2.sprites.iter().map(|p| (p.id, p.bounds)).collect();
    assert_eq!(first, second);
}

#[test]
fn zero_sized_sprite_is_rejected() {
    let r = pack(vec![sprite('a', 5, 5), sprite('b', 0, 5)], &options((0, 0), (0, 0)));
    assert_eq!(r.err(), Some(PackError::EmptySprite));
    let r = pack(vec![sprite('a', 5, 0)], &options((0, 0), (0, 0)));
    assert_eq!(r.err(), Some(PackError::EmptySprite));
}

#[test]
fn oversized_input_is_rejected() {
    let r = pack(vec![sprite('a', u32::MAX, 1)], &options((1, 0), (0, 0)));
    assert_eq!(r.err(), Some(PackError::TooLarge));
    let r = pack(vec![sprite('a', 1, 1)], &options((0, 0), (u32::MAX / 2 + 1, 0)));
    assert_eq!(r.err(), Some(PackError::TooLarge));
    let r = pack(
        vec![sprite('a', u32::MAX / 2, 1), sprite('b', u32::MAX / 2, 1), sprite('c', 2, 1)],
        &options((0, 0), (0, 0)),
    );
    assert_eq!(r.err(), Some(PackError::TooLarge));
}

#[test]
fn default_options() {
    let o = PackOptions::default();
    assert_eq!(o.spacing, (1, 1));
    assert_eq!(o.padding, (0, 0));
}

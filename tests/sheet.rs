use sprite_pack::bounds::{Bounds, Position, Size};
use sprite_pack::cli::{SpriteSheetFormat as CliFormat, SpriteSheetKind};
use sprite_pack::packer;
use sprite_pack::pack::PackError;
use sprite_pack::sheet::{
    record_placements, GenericSpriteSheetData, SpriteData, SpriteSheetData, SpriteSheetFormat,
};
use sprite_pack::sprite::PackedSprite;

fn b(x: u32, y: u32, w: u32, h: u32) -> Bounds {
    Bounds::new(x, y, w, h)
}

fn pairs(records: &Vec<SpriteData>) -> Vec<(String, Bounds)> {
    records.iter().map(|r| (r.name.clone(), r.bounds)).collect()
}

#[test]
fn format_extensions() {
    assert_eq!(SpriteSheetFormat::Json.extension(), "json");
    assert_eq!(SpriteSheetFormat::Ron.extension(), "ron");
    assert_eq!(SpriteSheetFormat::Yaml.extension(), "yml");
}

#[test]
fn cli_format_maps_to_core() {
    assert_eq!(CliFormat::Json.to_core_format(), SpriteSheetFormat::Json);
    assert_eq!(CliFormat::Ron.to_core_format(), SpriteSheetFormat::Ron);
    assert_eq!(CliFormat::Yaml.to_core_format(), SpriteSheetFormat::Yaml);
}

#[test]
fn list_keeps_every_record() {
    let mut data = GenericSpriteSheetData::new_vec();
    data.add_sprite("a".to_string(), b(0, 0, 1, 1));
    data.add_sprite("b".to_string(), b(1, 0, 1, 1));
    data.add_sprite("a".to_string(), b(2, 0, 1, 1));
    assert_eq!(
        pairs(data.records()),
        vec![
            ("a".to_string(), b(0, 0, 1, 1)),
            ("b".to_string(), b(1, 0, 1, 1)),
            ("a".to_string(), b(2, 0, 1, 1)),
        ]
    );
}

#[test]
fn map_replaces_by_name() {
    let mut data = GenericSpriteSheetData::new_map();
    data.add_sprite("a".to_string(), b(0, 0, 1, 1));
    data.add_sprite("b".to_string(), b(1, 0, 1, 1));
    data.add_sprite("a".to_string(), b(2, 0, 1, 1));
    assert_eq!(
        pairs(data.records()),
        vec![("a".to_string(), b(2, 0, 1, 1)), ("b".to_string(), b(1, 0, 1, 1))]
    );
}

#[test]
fn vec_of_records_appends() {
    let mut v: Vec<SpriteData> = Vec::new();
    v.add_sprite("x".to_string(), b(0, 0, 2, 2));
    v.add_sprite("x".to_string(), b(2, 0, 2, 2));
    assert_eq!(pairs(&v), vec![("x".to_string(), b(0, 0, 2, 2)), ("x".to_string(), b(2, 0, 2, 2))]);
}

#[test]
fn kind_gives_empty_index() {
    assert!(matches!(SpriteSheetKind::Array.new_data(), GenericSpriteSheetData::Vec(v) if v.is_empty()));
    assert!(matches!(SpriteSheetKind::ByName.new_data(), GenericSpriteSheetData::ByName(v) if v.is_empty()));
}

#[test]
fn placements_recorded_by_name() {
    let names = vec!["one.png".to_string(), "two.png".to_string()];
    let placed = vec![
        PackedSprite { id: 1, bounds: b(0, 0, 5, 5) },
        PackedSprite { id: 0, bounds: b(5, 0, 3, 3) },
    ];
    let mut data = GenericSpriteSheetData::new_vec();
    record_placements(&mut data, &names, &placed);
    assert_eq!(
        pairs(data.records()),
        vec![("two.png".to_string(), b(0, 0, 5, 5)), ("one.png".to_string(), b(5, 0, 3, 3))]
    );
}

#[test]
fn image_sizes_packed_with_padding() {
    let sizes = vec![Size::new(4, 4), Size::new(8, 6)];
    let r = packer::run(&sizes, Size::new(1, 1), Size::new(2, 3)).unwrap();
    // Root 9x7 grows right by 5: 14x7, less the gutter, plus padding.
    assert_eq!(r.size, Size { w: 17, h: 12 });
    assert_eq!(
        r.sprites,
        vec![
            packer::Sprite { image_index: 1, position: Position::new(2, 3) },
            packer::Sprite { image_index: 0, position: Position::new(11, 3) },
        ]
    );
}

#[test]
fn image_sizes_errors() {
    let r = packer::run(&vec![Size::new(4, 0)], Size::new(0, 0), Size::new(0, 0));
    assert_eq!(r.err(), Some(PackError::EmptySprite));
    let r = packer::run(&vec![Size::new(u32::MAX, 1)], Size::new(1, 0), Size::new(0, 0));
    assert_eq!(r.err(), Some(PackError::TooLarge));
}

#[test]
fn bounds_accessors() {
    let bounds = Bounds::new(1, 2, 3, 4);
    assert_eq!(bounds.position(), (1, 2));
    assert_eq!(bounds.size(), Size::new(3, 4));
    assert_eq!(Position::new(5, 6), Position { x: 5, y: 6 });
}

//! The choices a command line offers for the index it writes.

use crate::sheet;
use crate::sheet::SpriteSheetData;
use vstd::prelude::*;

verus! {

/// How the index is kept: a list of records, or a map by name.
#[derive(Clone, Copy, Debug, PartialEq, Eq, Structural)]
pub enum SpriteSheetKind {
    Array,
    ByName,
}

/// The text format the index is written in.
#[derive(Clone, Copy, Debug, PartialEq, Eq, Structural)]
pub enum SpriteSheetFormat {
    Json,
    Ron,
    Yaml,
}

impl SpriteSheetFormat {
    /// The same format, as the index writer names it.
    pub fn to_core_format(&self) -> (r: sheet::SpriteSheetFormat)
        ensures
            *self == SpriteSheetFormat::Json ==> r == sheet::SpriteSheetFormat::Json,
            *self == SpriteSheetFormat::Ron ==> r == sheet::SpriteSheetFormat::Ron,
            *self == SpriteSheetFormat::Yaml ==> r == sheet::SpriteSheetFormat::Yaml,
    {
        match self {
            SpriteSheetFormat::Json => sheet::SpriteSheetFormat::Json,
            SpriteSheetFormat::Ron => sheet::SpriteSheetFormat::Ron,
            SpriteSheetFormat::Yaml => sheet::SpriteSheetFormat::Yaml,
        }
    }
}

impl SpriteSheetKind {
    /// An empty index of this kind.
    pub fn new_data(&self) -> (r: sheet::GenericSpriteSheetData)
        ensures
            r.inv(),
            *self == SpriteSheetKind::Array ==> r is Vec && r->Vec_0@.len() == 0,
            *self == SpriteSheetKind::ByName ==> r is ByName && r->ByName_0@.len() == 0,
    {
        match self {
            SpriteSheetKind::Array => sheet::GenericSpriteSheetData::new_vec(),
            SpriteSheetKind::ByName => sheet::GenericSpriteSheetData::new_map(),
        }
    }
}

} // verus!

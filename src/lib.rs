//! Rectangle packing for sprite atlases: a growing binary space-partition
//! tree that places independently sized sprites without overlap inside a
//! near-square sheet, plus the small value types around it.

pub mod bounds;
pub mod cli;
pub mod color;
pub mod layout;
pub mod node;
pub mod pack;
pub mod packer;
pub mod sheet;
pub mod sort;
pub mod sprite;

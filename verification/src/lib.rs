//! Forever World pack tool: the pack manifest, its lockfile, the generated
//! launcher overlay, the exported Modrinth and CurseForge indexes, and the
//! release metadata, with their rules stated and proved.

pub mod authoring;
pub mod cli;
pub mod curseforge;
pub mod error;
pub mod export;
pub mod fetch;
pub mod order;
pub mod publish;
pub mod resolve;
pub mod overlay;
pub mod root;
pub mod spec;
pub mod text;
pub mod verify;
pub mod versions;

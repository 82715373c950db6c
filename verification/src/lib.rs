//! Core rules of the GIF Library desktop application: input normalisation,
//! duplicate detection, transfer (backup) validation, export naming,
//! keyboard-shortcut policy and managed-storage naming.

pub mod text;
pub mod paths;
pub mod order;
pub mod export_settings;
pub mod media;
pub mod duplicates;
pub mod storage;
pub mod transfer;
pub mod maintenance;
pub mod folders;
pub mod keybinds;
pub mod schema;

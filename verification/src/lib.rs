//! Verified core of a small Minecraft mod manager: modpack descriptions,
//! the choice of a compatible mod version, dependency collection and
//! de-duplication, and the decisions that the command-line front end acts on.

pub mod text;
pub mod json_text;
pub mod version;
pub mod mod_entry;
pub mod modpack;
pub mod modpacks;
pub mod download;

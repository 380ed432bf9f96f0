//! Verified core of the korangar client: the GRF archive formats and their
//! decryption schemes, the paths assets are stored under, skill targeting
//! and casting decisions, the hotbar and inventory, the cached texts of the
//! interface, and text color spans.

pub mod animation;
pub mod archive;
pub mod chat;
pub mod color_span;
pub mod des;
pub mod effect;
pub mod file_table;
pub mod gamefile;
pub mod inventory;
pub mod map;
pub mod mixcrypt;
pub mod model;
pub mod native;
pub mod native_archive;
pub mod resources;
pub mod skill_casting;
pub mod text;
pub mod windows;
pub mod world;

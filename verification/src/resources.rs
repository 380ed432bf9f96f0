//! Plain records of the resource loaders: texture lookups of the cache,
//! font overflow handling and the services of the client info.

use vstd::prelude::*;

verus! {

/// Where a texture of the cache lives in the texture atlas.
pub struct LookupEntry {
    /// The name of the asset texture.
    pub name: String,
    /// The ID of the allocation for this texture.
    pub allocation_id: u32,
    /// Marker if the texture contains pixel with an alpha value that is not
    /// 255.
    pub transparent: u32,
}

/// What text does when it does not fit its space.
#[derive(Clone, Copy, Debug, PartialEq, Eq, Structural, Hash)]
pub enum OverflowBehavior {
    Shrink,
    LineBreak,
}

/// A login service of the client info, by its position in the list.
#[derive(Debug, Clone, Copy, PartialEq, Eq, Structural, Hash)]
pub struct ServiceId(pub usize);

} // verus!

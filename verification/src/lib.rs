//! A self-describing binary serialization codec with schema evolution,
//! together with the small data structures of the surrounding tooling:
//! a rectangle packer, a composite image buffer, and an archive builder.
pub mod composite;
pub mod de;
pub mod laws;
pub mod num;
pub mod packer;
pub mod panel;
pub mod rectpack;
pub mod ser;
pub mod types;
pub mod utils;
pub mod version;
pub mod wad;

use vstd::prelude::*;

verus! {

/// The number of distinct wire type tags.
pub const TAG_COUNT: u8 = 22;

/// What the surrounding application is asked to start with.
#[derive(Debug, Clone, Copy, PartialEq, Eq, Structural)]
pub struct StartInfo {
    /// whether the starting screen state is enabled
    pub start_state: bool,
}

} // verus!

//! A proof-of-existence claim registry.
//!
//! The registry tracks which actor owns which claim key and at which point of
//! a monotone sequence ("block number") the claim was last registered.  Three
//! operations — create, revoke, transfer — guard the single invariant that
//! every claim key has at most one current owner.  An ancillary [`Content`]
//! tagged union pairs a byte payload with an encoding discriminator and round
//! trips through the SCALE wire format.

pub mod content;
pub mod laws;
pub mod registry;
pub mod scale;

pub use content::Content;
pub use content::ContentModel;
pub use content::Post;
pub use content::PostId;
pub use content::PostModel;
pub use registry::Error;
pub use registry::Event;
pub use registry::EventModel;
pub use registry::Pallet;
pub use registry::RegistryEntry;

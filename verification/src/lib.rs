//! Organising, scoring and directing large ensembles of cooperative agents,
//! grouped into the four classical voice sections.
//!
//! At quartet scale every agent hears every other; at choir scale agents are
//! grouped into sections that share a role, a range and a blend target. This
//! library holds the sections, assigns singers to parts, and tells each
//! section what it should do next.
pub mod allocation;
pub mod allocation_laws;
pub mod balance;
pub mod director;
pub mod ieee;
pub mod partmap;
pub mod section;
pub mod voice;

pub use allocation::{allocate_parts, Allocation};
pub use balance::section_sizes;
pub use director::{ChoirDirector, Directive};
pub use partmap::PartMap;
pub use section::{Singer, VoiceSection};
pub use voice::VoicePart;

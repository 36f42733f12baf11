use vstd::prelude::*;

pub mod bounded;
pub mod cache;
pub mod content;
pub mod delivery;
pub mod error;
pub mod listing;
pub mod range;
pub mod resolve;
pub mod text;

pub use bounded::BoundedReader;
pub use content::determine_content_type;
pub use text::format_size;

verus! {

/// Largest file size, in bytes, whose whole content is kept in the small-file cache.
pub const MAX_CACHE_FILE_SIZE: u64 = 1048576;

/// Who made and publishes the server, as shown in the listing page's header.
#[derive(Clone)]
pub struct Author {
    pub name: String,
    pub email: Option<String>,
    pub website: Option<String>,
    pub github: Option<String>,
}

} // verus!

//! Images and videos: their kinds, the links to them, and the tasks that make them.

pub mod generate;
pub mod kind;
pub mod laws;
pub mod task;
pub mod urls;

pub use crate::media::generate::{GenOutcome, Generation};
pub use crate::media::kind::MediaKind;
pub use crate::media::task::{MediaQueue, MediaStore, MediaTask};
pub use crate::media::urls::scrape_urls;

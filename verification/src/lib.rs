//! A multi-source font registry: normalized font descriptors gathered from
//! pluggable discovery backends, symlink-aware deduplication, family/style
//! matching, and a per-backend face-loading cache.

pub mod cache;
pub mod catalog;
pub mod font_info;
pub mod manager;
pub mod pango;
pub mod resolver;
pub mod sort;
pub mod sources;
pub mod text;

pub use cache::FaceCache;
pub use font_info::FontInfo;
pub use font_info::FontRecord;
pub use font_info::FontSourceType;
pub use font_info::FontStyle;
pub use font_info::LoadError;
pub use manager::FontManager;
pub use resolver::SymlinkResolver;
pub use sources::FontSource;

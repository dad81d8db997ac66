//! The core of a reader for the Hacker News feed: which stories and comments
//! to fetch, how the fetched records are put together, and what the preview
//! of the selected story shows.
//!
//! Nothing in this crate performs a fetch. Every operation that needs the
//! network is split into steps that name what to fetch and steps that take
//! the outcomes of those fetches, so that the decisions can be stated and
//! proved, and a caller is left with the fetching alone.
pub mod item;
pub mod endpoint;
pub mod forest;
pub mod resolution;
pub mod comment;
pub mod story;
pub mod preview;

//! A line-oriented text search library: a match engine that scans file
//! contents for a query (case-sensitive or not), highlights the matched
//! substring inside each matching line, and a pager state machine that
//! presents the result set one viewport at a time.
#![verifier::loop_isolation(false)]

mod config;
mod engine;
mod pager;
mod text;

pub use config::Config;
pub use config::EnvFlags;
pub use engine::conditional_lowercase;
pub use engine::highlight;
pub use engine::highlight_line;
pub use engine::search;
pub use pager::page_height_for;
pub use pager::render_page;
pub use pager::Frame;
pub use pager::PagerCommand;
pub use pager::PagerState;
pub use text::find_in_str;
pub use text::split_lines;
pub use text::split_whitespace_tokens;
pub use text::str_eq;
pub use text::usize_to_string;

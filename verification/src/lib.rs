pub mod text;
pub mod json;
pub mod toml;
pub mod toml_doc;
pub mod paths;
pub mod pathparts;
pub mod usage;
pub mod usage_tally;
pub mod providers;
pub mod dav;
pub mod webdav;
pub mod manifest;
pub mod sync_plan;
pub mod bridge;
pub mod codex_threads;
pub mod models;
pub mod tray;

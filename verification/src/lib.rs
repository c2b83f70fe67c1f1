//! Core logic of a Markdown previewer: Markdown-to-HTML rendering, request routing,
//! source diffs, themes, launch configuration and the single-instance wire format.
//! Everything that touches the file system, the clock or the GUI lives outside this
//! library and hands it plain values.

pub mod text;
pub mod names;
pub mod html;
pub mod instance;
pub mod lines;
pub mod diff;
pub mod markdown;
pub mod paths;
pub mod request;
pub mod urlpath;
pub mod embed;
pub mod page;
pub mod theme;
pub mod cli;
pub mod app_config;
pub mod uninstall;
pub mod launch;
pub mod bundle;
pub mod focus_probe;
pub mod listing;

//! Norgolith, the static site generator for Norg content: the decisions and
//! data of a build, a check, the development server, plugins and the
//! documentation server, each stated and proved with Verus.
pub mod text;
pub mod paths;
pub mod pattern;
pub mod meta_spans;
pub mod schema;
pub mod hierarchy;
pub mod check;
pub mod search;
pub mod links;
pub mod plugin;
pub mod timings;
pub mod toc;
pub mod shortcode;
pub mod explain;
pub mod dev;
pub mod site;
pub mod build_flow;
pub mod posts;
pub mod docs;

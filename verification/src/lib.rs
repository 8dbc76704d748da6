//! Lints the `<head>` of a web page (OGP, title, favicon, canonical, meta
//! robots) and its robots.txt. The decisions are verified here; fetching,
//! terminal drawing and JSON output live in the surrounding application.

pub mod binary64;
pub mod check;
pub mod cli;
pub mod fetch;
pub mod lint;
pub mod page;
pub mod pattern;
pub mod report;
pub mod robots;
pub mod robots_txt;
pub mod text;
pub mod tui;

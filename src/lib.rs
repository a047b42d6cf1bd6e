//! Rendering of Markdown pages with front-matter configuration, style
//! tokens, breadcrumbs and template placeholders into HTML.

pub mod text;
pub mod config;
pub mod style;
pub mod breadcrumb;
pub mod page;

//! Server-side page templating with a page cache.
//!
//! Pages are HTML files that may pull in other HTML or Markdown fragments
//! through `<?groon insert="...">` directives. Rendered pages are cached by
//! path, together with the files they directly depend on, and are rendered
//! again only when a file has changed on disk.

pub mod cache;
pub mod errors;
pub mod laws;
pub mod markup;
pub mod model;
pub mod parse;
pub mod path;
pub mod render;
pub mod text;

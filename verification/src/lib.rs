//! A minimal static blog generator: posts with a three-line header
//! (title, date, tags) and a body, rendered through templates into
//! a static site.

pub mod pipeline;
pub mod errors;
pub mod render;
pub mod scaffold;
pub mod json;
pub mod post;
pub mod text;

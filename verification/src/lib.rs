//! Line layout for wiki articles shown in a terminal: a document tree is
//! turned into lines of styled words, wrapped to a target width.

pub mod style;
pub mod word;
pub mod wrap;
pub mod text;
pub mod document;
pub mod renderer;
pub mod laws;
pub mod layout;

pub use renderer::{RenderedDocument, Renderer, render_document};
pub mod growth;
pub mod search_bar;
pub mod text_law;
pub mod settings;
pub mod layout_laws;
pub mod style_laws;

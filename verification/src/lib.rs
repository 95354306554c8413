pub mod content;
pub mod differ;
pub mod files;
pub mod highlight;
pub mod lessons;
pub mod render;
pub mod text;
pub mod toc;
pub mod toc_laws;
pub mod transform;

//! Ray casting of a fixed scene into a plain-text pixel image: the integer
//! side of the pipeline (scene layout, scan order, colour rules, encoding).

pub mod color;
pub mod shading;
pub mod text;
pub mod image;
pub mod scene;

//! Chat text: colors and the component tree of Minecraft's JSON text
//! format.
pub mod color;
pub mod component;

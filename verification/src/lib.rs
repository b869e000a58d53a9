//! Text layout and glyph-atlas caching for a 2D renderer, with the small
//! containers and pixel types that go with it.
pub mod animation;
pub mod atlas;
pub mod binary_tree;
pub mod binarytree;
pub mod compose;
pub mod entries;
pub mod events;
pub mod font;
pub mod geometry;
pub mod grid;
pub mod layout;
pub mod linebreak;
pub mod lru;
pub mod packing;
pub mod pixel;
pub mod pixels;
pub mod sprite;
pub mod text;

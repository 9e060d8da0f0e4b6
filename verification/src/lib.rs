//! The search-and-render engine of an application launcher.
//!
//! The launcher indexes launchable items (`desktop`, `items`), puts them in their
//! default order by how often and how recently they were used (`frecency`,
//! `ranking`), filters them as the user types (`matching`), lays them out in a
//! grid (`grid`), keeps the interaction state (`launcher`), and draws its frame
//! into a pixel buffer (`pixels`, `render`, `theme`). Reading files, talking to the
//! window system and shaping text are left to the program around it.

pub mod desktop;
pub mod frecency;
pub mod grid;
pub mod items;
pub mod launcher;
pub mod matching;
pub mod pixels;
pub mod ranking;
pub mod render;
pub mod text;
pub mod theme;

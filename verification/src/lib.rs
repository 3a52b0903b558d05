//! A writing app that keeps a real 80x25 grid of character cells: the
//! document, its wrap, the screen it paints, and the rules behind every
//! command.

pub mod text;
pub mod cp437;
pub mod vga;
pub mod wrap;
pub mod editor;
pub mod keymap;
pub mod input;
pub mod menu;
pub mod overlay;
pub mod status;
pub mod print;
pub mod paths;
pub mod config;
pub mod paint;
pub mod app;

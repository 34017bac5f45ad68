//! A small text console for a kernel-mode debug shell: a framebuffer model,
//! a glyph-drawing text writer with scrolling, keyboard line input, command
//! dispatch, tab switching and a bump allocator.

pub mod allocator;
pub mod boot;
pub mod chars;
pub mod demo;
pub mod clear;
pub mod font;
pub mod input;
pub mod framebuffer;
pub mod pathtracer;
pub mod shell;
pub mod tab_handler;
pub mod text;

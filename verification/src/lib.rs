//! mterm: a terminal engine (VT parsing, cell grid, scrollback, kitty
//! graphics, mouse encoding) and the pure logic of its command-line tools.

pub mod grid;
pub mod mouse;
pub mod text;
pub mod kitty;
pub mod vt;
pub mod terminal;
pub mod dispatch;
pub mod graphics;
pub mod feed;
pub mod registry;
pub mod render;
pub mod tool;
pub mod runtime;
pub mod distro;
pub mod laws;
pub mod pkg;
pub mod agent;
pub mod pidfile;
pub mod names;
pub mod profile;

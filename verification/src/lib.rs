//! SHER Display: the native display server, compositor and window-management
//! subsystem, as a verified library.

pub mod common;
pub mod idmap;
pub mod scene;
pub mod surfaces;
pub mod windows;
pub mod compositor;
pub mod wayland;
pub mod text;
pub mod workspaces;
pub mod outputs;
pub mod session;
pub mod security;
pub mod cursor;
pub mod xwayland;
pub mod input;
pub mod diagnostics;
pub mod configuration;

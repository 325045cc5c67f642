//! Brightness, contrast and volume control for displays: DDC/CI framing and
//! exchange logic, the local state files, and command decisions.
pub mod text;
pub mod ddc;
pub mod cache;
pub mod ioav;
pub mod display_map;
pub mod control;
pub mod system_audio;

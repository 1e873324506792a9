//! Dynamic Discord Rich Presence: the logic that turns the focused window of a
//! Wayland compositor into a Discord activity, with its contracts.

pub mod text;
pub mod settings;
pub mod rules;
pub mod browser;
pub mod toplevel;
pub mod hyprland;
pub mod os_release;
pub mod rpc;

//! Verified core of the Monlam audio workstation: the arithmetic helpers,
//! the path rules, the file browser and box panels, the tab bar and the
//! track model that the user interface drives.

pub mod dsp;
pub mod text;
pub mod tabs;
pub mod sorting;
pub mod named;
pub mod paths;
pub mod tracks;
pub mod project;
pub mod file_browser;
pub mod audio_box_panel;
pub mod groups;
pub mod group_panel;
pub mod grid;
pub mod config;
pub mod project_files;

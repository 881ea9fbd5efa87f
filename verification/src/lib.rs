//! The decisions of a Wayland wallpaper daemon and of its picker: which files
//! are wallpapers, where state is kept, what a palette holds, what a request
//! does to the daemon and what it is answered, what is painted on an output,
//! and how the picker's carousel moves.
//!
//! Reading files, talking to the compositor and serving the control socket are
//! left to the program around this library.

pub mod buffers;
pub mod catalog;
pub mod daemon;
pub mod frame;
pub mod json;
pub mod outputs;
pub mod path;
pub mod picker;
pub mod protocol;
pub mod store;
pub mod surface;
pub mod text;
pub mod text_map;
pub mod theme;
pub mod thumbnails;

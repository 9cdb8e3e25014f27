//! Decision logic of a wallpaper rotation daemon: which files of a directory
//! are wallpapers, which one comes next, and where its state is kept.

pub mod lister;
pub mod selector;
pub mod state_dir;

pub mod autoremove;
pub mod constants;
pub mod dbsync;
pub mod draw;
pub mod format;
pub mod handle;
pub mod history;
pub mod keyed;
pub mod packages;
pub mod pacman_conf;
pub mod pkginfo;
pub mod render;
pub mod siglevel;
pub mod sort;
pub mod style;
pub mod summary;
pub mod table;
pub mod text;

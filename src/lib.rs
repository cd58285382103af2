//! Decision logic for building bootable Windows installation media: configuration,
//! catalog resolution, content-addressed caching, verified downloads, WIM image
//! selection, disk layout and FAT/ISO planning.

pub mod text;
pub mod config;
pub mod cabinet;
pub mod catalog;
pub mod download;
pub mod cache;
pub mod disk;
pub mod stream;
pub mod fat;
pub mod wim;
pub mod iso;

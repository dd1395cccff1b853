pub mod archive;
pub mod checksum;
pub mod config;
pub mod conflict;
pub mod db;
pub mod deps;
pub mod elf;
pub mod error;
pub mod index;
pub mod meta;
pub mod names;
pub mod pkgbuild;
pub mod remote;
pub mod text;

//! Recovery of deleted files from raw disk images: NTFS and FAT32 metadata
//! scans and signature-based carving.
pub mod text;
pub mod types;
pub mod bytes;
pub mod carver;
pub mod control;
pub mod disk;
pub mod ntfs;
pub mod fat;
pub mod recovery;
pub mod cli;
pub mod android;
pub mod dto;

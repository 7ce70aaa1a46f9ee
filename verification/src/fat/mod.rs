//! FAT32 quick scan: deleted entries of the root directory.
pub mod fat32;

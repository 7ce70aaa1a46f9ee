//! NTFS quick scan: deleted records of the Master File Table.
pub mod attribute;
pub mod mft;

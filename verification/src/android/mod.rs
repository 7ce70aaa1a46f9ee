//! Android devices reached over ADB.
pub mod adb;

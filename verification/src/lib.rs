//! Verified decoder for the Windows AppCompatCache (ShimCache) registry value blob — the
//! `HKLM\SYSTEM\CurrentControlSet\Control\Session Manager\AppCompatCache` value — and a small
//! analyzer that grades masquerading and staging-directory entries.
//!
//! The decoder turns the versioned blob (Windows XP, 2003/Vista, 7, 8.0, 8.1, 10/11) into typed
//! [`ShimcacheEntry`]s: the executable path, the file's last-modification `FILETIME` and, where
//! the format records it, the execution flag. Every read is bounds-checked; a malformed blob
//! yields an error or a skipped entry. [`analyze_blob`] decodes and audits in one call.

pub mod bytes;
pub mod utf16;
pub mod model;
pub mod detect;
pub mod parse;
pub mod message;
pub mod text;
pub mod audit;
pub mod report;
pub mod render;
pub mod hive;
pub mod laws;
pub mod roundtrip;

pub use audit::{audit, ShimcacheAnomaly};
pub use detect::detect_format;
pub use model::{ShimcacheEntry, ShimcacheError, ShimcacheFormat};
pub use parse::parse;
pub use report::{analyze_blob, subject_path, ShimcacheReport};

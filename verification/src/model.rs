//! The decoder's public types and their mathematical models.

use vstd::prelude::*;

verus! {

/// The detected AppCompatCache format variant.
#[derive(Debug, Clone, Copy, PartialEq, Eq, Structural)]
pub enum ShimcacheFormat {
    /// Windows XP 32-bit (fixed 552-byte entries with an inline 528-byte path).
    WinXp,
    /// Windows Server 2003 / Vista / 2008 (`0xbadc0ffe`), 32-bit cached entries.
    Win2003_32,
    /// Windows Server 2003 / Vista / 2008 (`0xbadc0ffe`), 64-bit cached entries.
    Win2003_64,
    /// Windows 7 / Server 2008 R2, 32-bit cached entries.
    Win7_32,
    /// Windows 7 / Server 2008 R2, 64-bit cached entries.
    Win7_64,
    /// Windows 8.0 / Server 2012.
    Win8_0,
    /// Windows 8.1 / Server 2012 R2.
    Win8_1,
    /// Windows 10 / 11 (both the pre-Creators `0x30` and Creators `0x34` header sizes).
    Win10,
}

/// One decoded AppCompatCache entry.
#[derive(Debug, Clone, PartialEq, Eq)]
pub struct ShimcacheEntry {
    /// The executable path, with a leading `\??\` device prefix stripped.
    pub path: String,
    /// The file's last-modification time as a raw Windows `FILETIME` (100 ns ticks since
    /// 1601-01-01 UTC). `0` when the entry carries no timestamp.
    pub last_modified_filetime: u64,
    /// Whether the entry's execution flag is set. `Some(true)`/`Some(false)` on Windows 7/8
    /// (the `insertion_flags & 0x2` bit); `None` where the format records no flag.
    pub executed: Option<bool>,
}

/// The mathematical value of a [`ShimcacheEntry`].
pub ghost struct EntryModel {
    pub path: Seq<char>,
    pub last_modified_filetime: u64,
    pub executed: Option<bool>,
}

impl View for ShimcacheEntry {
    type V = EntryModel;

    open spec fn view(&self) -> EntryModel {
        EntryModel {
            path: self.path@,
            last_modified_filetime: self.last_modified_filetime,
            executed: self.executed,
        }
    }
}

/// The models of a sequence of entries.
pub open spec fn entries_model(es: Seq<ShimcacheEntry>) -> Seq<EntryModel> {
    es.map_values(|e: ShimcacheEntry| e@)
}

/// A decode failure. Unknown signatures name the offending value so an examiner can identify
/// the blob (never a bare "unsupported").
#[derive(Debug, Clone, PartialEq, Eq, Structural)]
pub enum ShimcacheError {
    /// The blob is shorter than the smallest possible header.
    TooShort {
        /// Actual blob length.
        len: usize,
    },
    /// The header signature is not a recognized AppCompatCache format.
    UnknownSignature {
        /// The 4-byte signature that was found (little-endian u32).
        signature: u32,
    },
}

} // verus!

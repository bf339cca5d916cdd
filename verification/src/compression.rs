//! The compression algorithm chosen for output files, and its textual forms.
//! The writers themselves perform file I/O and live with the program around
//! the library.

use vstd::prelude::*;
use crate::text::{matches_ignore_ascii_case, eq_ignore_ascii_case};

verus! {

/// The compression applied to output files.
#[derive(Debug, Clone, Copy, PartialEq, Eq, Structural)]
pub enum CompressionType {
    Gzip,
    Zstd,
    Uncompressed,
}

impl CompressionType {
    /// Parses a compression name, ignoring ASCII case.
    pub fn from_str(s: &str) -> (r: Option<Self>)
        ensures
            match r {
                Some(CompressionType::Gzip) => matches_ignore_ascii_case(s@, "gzip"@)
                    || matches_ignore_ascii_case(s@, "gz"@),
                Some(CompressionType::Zstd) => matches_ignore_ascii_case(s@, "zstd"@)
                    || matches_ignore_ascii_case(s@, "zst"@),
                Some(CompressionType::Uncompressed) => matches_ignore_ascii_case(s@, "none"@)
                    || matches_ignore_ascii_case(s@, "uncompressed"@),
                None => !matches_ignore_ascii_case(s@, "gzip"@) && !matches_ignore_ascii_case(
                    s@,
                    "gz"@,
                ) && !matches_ignore_ascii_case(s@, "zstd"@) && !matches_ignore_ascii_case(
                    s@,
                    "zst"@,
                ) && !matches_ignore_ascii_case(s@, "none"@) && !matches_ignore_ascii_case(
                    s@,
                    "uncompressed"@,
                ),
            },
    {
        if eq_ignore_ascii_case(s, "gzip") || eq_ignore_ascii_case(s, "gz") {
            Some(CompressionType::Gzip)
        } else if eq_ignore_ascii_case(s, "zstd") || eq_ignore_ascii_case(s, "zst") {
            Some(CompressionType::Zstd)
        } else if eq_ignore_ascii_case(s, "none") || eq_ignore_ascii_case(s, "uncompressed") {
            Some(CompressionType::Uncompressed)
        } else {
            None
        }
    }

    /// The file extension the compression adds.
    pub fn extension(&self) -> (r: &'static str)
        ensures
            *self == CompressionType::Gzip ==> r@ == ".gz"@,
            *self == CompressionType::Zstd ==> r@ == ".zst"@,
            *self == CompressionType::Uncompressed ==> r@ == ""@,
    {
        match self {
            CompressionType::Gzip => ".gz",
            CompressionType::Zstd => ".zst",
            CompressionType::Uncompressed => "",
        }
    }
}

} // verus!

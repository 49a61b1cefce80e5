//! Choosing how the bytes of a log file are decompressed.

use vstd::prelude::*;

verus! {

/// How the bytes of a log file become the text of the log.
#[derive(Clone, Copy, Debug, PartialEq, Eq, Structural)]
pub enum Decompressor {
    /// The file is a gzip stream.
    Gzip,
    /// The file is a zstd stream.
    Zstd,
    /// The file is the text itself.
    Passthrough,
}

/// The extension of a log file names a format that cannot be decompressed.
#[derive(Debug)]
pub struct UnsupportedFormat {
    pub extension: String,
}

/// The decompressor for a file extension: `gz` and `zst` name their
/// formats, no extension means plain text, and any other extension is not
/// supported.
pub open spec fn decompressor_for(extension: Option<Seq<char>>) -> Option<Decompressor> {
    match extension {
        None => Some(Decompressor::Passthrough),
        Some(ext) => if ext == "gz"@ {
            Some(Decompressor::Gzip)
        } else if ext == "zst"@ {
            Some(Decompressor::Zstd)
        } else {
            None
        },
    }
}

impl Decompressor {
    /// Chooses the decompressor by the extension of the file alone, before
    /// anything is read from it.
    pub fn from_extension(extension: Option<&str>) -> (chosen: Result<
        Decompressor,
        UnsupportedFormat,
    >)
        ensures
            match chosen {
                Ok(d) => decompressor_for(
                    match extension {
                        Some(e) => Some(e@),
                        None => None,
                    },
                ) == Some(d),
                Err(e) => extension matches Some(given) && e.extension@ == given@
                    && decompressor_for(Some(given@)) is None,
            },
    {
        match extension {
            None => Ok(Decompressor::Passthrough),
            Some(ext) => {
                let owned = ext.to_owned();
                if owned == "gz".to_owned() {
                    Ok(Decompressor::Gzip)
                } else if owned == "zst".to_owned() {
                    Ok(Decompressor::Zstd)
                } else {
                    Err(UnsupportedFormat { extension: owned })
                }
            },
        }
    }
}

} // verus!

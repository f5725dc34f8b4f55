//! Error values produced by asset resolution, decoding, and root-path
//! selection, together with their mathematical models.

use vstd::prelude::*;

verus! {

/// Mathematical model of an [`AssetLoadError`]: the same three cases over
/// character sequences, usable in specifications.
pub enum LoadErrorModel {
    /// No storage provider had content for the path.
    NotFound { path: Seq<char> },
    /// A provider failed with a hard I/O error while looking for the path.
    Io { path: Seq<char>, message: Seq<char> },
    /// The bytes were found but the loader could not decode them.
    Decode { path: Seq<char>, message: Seq<char> },
}

/// An error raised while loading one asset.
///
/// `NotFound` is produced only after every provider has been consulted
/// without a hit; `Io` aborts resolution at the failing provider; `Decode`
/// means the bytes were found but did not parse.
#[derive(Debug)]
pub enum AssetLoadError {
    NotFound { path: String },
    Io { path: String, message: String },
    Decode { path: String, message: String },
}

impl View for AssetLoadError {
    type V = LoadErrorModel;

    open spec fn view(&self) -> LoadErrorModel {
        match self {
            AssetLoadError::NotFound { path } => LoadErrorModel::NotFound { path: path@ },
            AssetLoadError::Io { path, message } => LoadErrorModel::Io {
                path: path@,
                message: message@,
            },
            AssetLoadError::Decode { path, message } => LoadErrorModel::Decode {
                path: path@,
                message: message@,
            },
        }
    }
}

/// An error raised while configuring the asset server, before any load
/// traffic exists.
#[derive(Debug)]
pub enum AssetServerError {
    /// The executable's location gives no usable root directory.
    InvalidRootPath,
    /// Asking the platform for the executable's location failed.
    Io { message: String },
}

} // verus!

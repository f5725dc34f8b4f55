//! The filesystem-backed storage provider's verifiable half: root-path
//! selection and the classification of a file read's outcome. The reads
//! themselves are I/O and live with the embedding application, which hands
//! their outcomes in as plain values.

use vstd::prelude::*;
use vstd::string::StringExecFns;
use crate::error::AssetLoadError;
use crate::error::AssetServerError;
use crate::error::LoadErrorModel;
use crate::storage_provider::AssetStorage;
use crate::storage_provider::ProviderFind;
use crate::storage_provider::find_matches;

verus! {

/// How one attempt to read a file ended, as plain values.
pub enum FileReadOutcome {
    /// The file was read whole.
    Data(Vec<u8>),
    /// The file does not exist.
    Missing,
    /// Any other I/O failure, with its message.
    Failed(String),
}

/// What a read outcome means to the provider contract: bytes are a hit, a
/// missing file is a miss that defers to the next provider, and any other
/// failure is a hard error carrying the requested path.
pub open spec fn spec_classify_read(path: Seq<char>, outcome: FileReadOutcome) -> ProviderFind {
    match outcome {
        FileReadOutcome::Data(bytes) => Ok(Some(bytes@)),
        FileReadOutcome::Missing => Ok(None),
        FileReadOutcome::Failed(message) => Err(
            LoadErrorModel::Io { path, message: message@ },
        ),
    }
}

/// The default, filesystem-backed storage provider's configuration: logical
/// paths are joined against this root directory.
pub struct DefaultStorageProvider {
    root: String,
}

impl View for DefaultStorageProvider {
    type V = Seq<char>;

    closed spec fn view(&self) -> Seq<char> {
        self.root@
    }
}

impl DefaultStorageProvider {
    /// A provider rooted at the given directory.
    pub fn new(root: String) -> (r: Self)
        ensures
            r@ == root@,
    {
        DefaultStorageProvider { root }
    }

    /// The root directory the provider joins logical paths against.
    pub fn root(&self) -> (r: &String)
        ensures
            r@ == self@,
    {
        &self.root
    }

    /// Join a logical, slash-separated relative path against the root.
    pub fn full_path(&self, path: &str) -> (r: String)
        ensures
            r@ == self@ + "/"@ + path@,
    {
        let mut full = self.root.clone();
        full.append("/");
        full.append(path);
        full
    }

    /// Turn the outcome of reading the joined path into the provider
    /// contract's result: found bytes, try-the-next-provider, or a hard
    /// error carrying the requested path.
    pub fn storage_from_read<'a>(path: &str, outcome: FileReadOutcome) -> (r: Result<
        Option<AssetStorage<'a>>,
        AssetLoadError,
    >)
        ensures
            find_matches(spec_classify_read(path@, outcome), &r),
    {
        match outcome {
            FileReadOutcome::Data(bytes) => Ok(Some(AssetStorage::Boxed(bytes))),
            FileReadOutcome::Missing => Ok(None),
            FileReadOutcome::Failed(message) => Err(
                AssetLoadError::Io { path: path.to_owned(), message },
            ),
        }
    }
}

/// Choose the repository root directory: an explicit build-time override
/// wins; otherwise the directory containing the running executable; an
/// executable without a parent directory is a fatal configuration error, and
/// a failed lookup surfaces as an I/O error.
pub fn select_root(manifest_dir: Option<String>, exe_parent: Result<Option<String>, String>) -> (r:
    Result<String, AssetServerError>)
    ensures
        ({
            match (manifest_dir, exe_parent) {
                (Some(dir), _) => r == Ok::<String, AssetServerError>(dir),
                (None, Ok(Some(parent))) => r == Ok::<String, AssetServerError>(parent),
                (None, Ok(None)) => r == Err::<String, AssetServerError>(
                    AssetServerError::InvalidRootPath,
                ),
                (None, Err(message)) => r == Err::<String, AssetServerError>(
                    (AssetServerError::Io { message }),
                ),
            }
        }),
{
    match manifest_dir {
        Some(dir) => Ok(dir),
        None => match exe_parent {
            Ok(Some(parent)) => Ok(parent),
            Ok(None) => Err(AssetServerError::InvalidRootPath),
            Err(message) => Err(AssetServerError::Io { message }),
        },
    }
}

} // verus!

//! The decoder for font assets, claiming the `ttf` extension.

use vstd::prelude::*;
use crate::error::AssetLoadError;
use crate::error::LoadErrorModel;
use crate::loader::AssetLoader;
use crate::loader::decode_matches;
use crate::storage_provider::AssetStorage;

verus! {

/// An in-memory font asset: the raw font bytes, owned. Shaping and
/// rasterisation belong to the text system that consumes the asset, not to
/// the loading pipeline.
pub struct Font {
    data: Vec<u8>,
}

impl View for Font {
    type V = Seq<u8>;

    closed spec fn view(&self) -> Seq<u8> {
        self.data@
    }
}

impl Font {
    /// A font holding exactly the given bytes.
    pub fn from_bytes(data: Vec<u8>) -> (r: Font)
        ensures
            r@ == data@,
    {
        Font { data }
    }

    /// The raw font bytes.
    pub fn data(&self) -> (r: &Vec<u8>)
        ensures
            r@ == self@,
    {
        &self.data
    }
}

/// The font decoder: takes the found bytes as the font's content.
#[derive(Default)]
pub struct FontLoader;

impl AssetLoader<Font> for FontLoader {
    open spec fn spec_decode(&self, path: Seq<char>, bytes: Seq<u8>) -> Result<
        Seq<u8>,
        LoadErrorModel,
    > {
        Ok(bytes)
    }

    open spec fn spec_extensions(&self) -> Seq<Seq<char>> {
        seq!["ttf"@]
    }

    fn from_storage(&self, asset_path: &str, storage: AssetStorage<'_>) -> (r: Result<
        Font,
        AssetLoadError,
    >) {
        let r = Ok(Font::from_bytes(storage.into_vec()));
        proof {
            assert(decode_matches::<Font>(self.spec_decode(asset_path@, storage@), &r));
        }
        r
    }

    fn extensions(&self) -> (r: Vec<String>) {
        let mut r = Vec::new();
        r.push("ttf".to_owned());
        proof {
            assert(r@.map_values(|s: String| s@) =~= self.spec_extensions());
        }
        r
    }
}

} // verus!

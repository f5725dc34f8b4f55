use asset_pipeline::AssetLoadError;
use asset_pipeline::AssetLoadRequestHandler;
use asset_pipeline::AssetLoader;
use asset_pipeline::AssetStorage;
use asset_pipeline::AssetStorageResolver;
use asset_pipeline::ChannelAssetHandler;
use asset_pipeline::Font;
use asset_pipeline::FontLoader;
use asset_pipeline::LoadRequest;
use asset_pipeline::StaticStorageProvider;

fn table(entries: &[(&str, &[u8])]) -> StaticStorageProvider {
    let mut provider = StaticStorageProvider::new();
    for (path, bytes) in entries {
        provider.add_entry(path.to_string(), bytes.to_vec());
    }
    provider
}

#[test]
fn handle_request_delivers_success_outcome() {
    let (sender, receiver) = crossbeam_channel::unbounded();
    let handler = ChannelAssetHandler::new(FontLoader, sender);
    let request = LoadRequest {
        path: "fonts/a.ttf".to_string(),
        handle_id: 7,
        version: 3,
        resolver: AssetStorageResolver::with_provider(table(&[("fonts/a.ttf", &[1, 2, 3])])),
    };
    handler.handle_request(&request);
    let outcome = receiver.try_recv().expect("an outcome must have been delivered");
    assert_eq!(outcome.handle_id, 7);
    assert_eq!(outcome.version, 3);
    assert_eq!(outcome.path, "fonts/a.ttf");
    assert_eq!(outcome.result.unwrap().data(), &vec![1, 2, 3]);
}

#[test]
fn handle_request_delivers_not_found_outcome() {
    let (sender, receiver) = crossbeam_channel::unbounded();
    let handler = ChannelAssetHandler::new(FontLoader, sender);
    let request = LoadRequest {
        path: "missing.ttf".to_string(),
        handle_id: 1,
        version: 1,
        resolver: AssetStorageResolver::<StaticStorageProvider>::new(),
    };
    handler.handle_request(&request);
    let outcome = receiver.try_recv().expect("an outcome must have been delivered");
    assert_eq!(outcome.handle_id, 1);
    match outcome.result {
        Err(AssetLoadError::NotFound { path }) => assert_eq!(path, "missing.ttf"),
        _ => panic!("expected a not-found outcome"),
    }
}

#[test]
fn load_asset_resolves_then_decodes() {
    let (sender, _receiver) = crossbeam_channel::unbounded();
    let handler = ChannelAssetHandler::new(FontLoader, sender);
    let request = LoadRequest {
        path: "a.ttf".to_string(),
        handle_id: 2,
        version: 1,
        resolver: AssetStorageResolver::with_provider(table(&[("a.ttf", &[8, 9])])),
    };
    let font = handler.load_asset(&request).unwrap();
    assert_eq!(font.data(), &vec![8, 9]);
}

#[test]
fn handler_forwards_loader_extensions() {
    let (sender, _receiver) = crossbeam_channel::unbounded();
    let handler: ChannelAssetHandler<FontLoader, Font> = ChannelAssetHandler::new(FontLoader, sender);
    let extensions =
        <ChannelAssetHandler<FontLoader, Font> as AssetLoadRequestHandler<
            StaticStorageProvider,
        >>::extensions(&handler);
    assert_eq!(extensions, vec!["ttf".to_string()]);
}

/// A decoder that rejects content without its magic byte, for exercising the
/// decode-failure path.
struct MagicDecoder;

impl AssetLoader<Font> for MagicDecoder {
    // The trait's ghost members survive compilation as ordinary items; they
    // are never called at runtime.
    fn spec_decode(
        &self,
        _path: vstd::seq::Seq<char>,
        _bytes: vstd::seq::Seq<u8>,
    ) -> Result<vstd::seq::Seq<u8>, asset_pipeline::LoadErrorModel> {
        unreachable!()
    }

    fn spec_extensions(&self) -> vstd::seq::Seq<vstd::seq::Seq<char>> {
        unreachable!()
    }

    fn from_storage(
        &self,
        asset_path: &str,
        storage: AssetStorage<'_>,
    ) -> Result<Font, AssetLoadError> {
        let bytes = storage.into_vec();
        if bytes.first() == Some(&0xF0) {
            Ok(Font::from_bytes(bytes))
        } else {
            Err(AssetLoadError::Decode {
                path: asset_path.to_string(),
                message: "missing magic byte".to_string(),
            })
        }
    }

    fn extensions(&self) -> Vec<String> {
        vec!["bin".to_string()]
    }
}

#[test]
fn decode_failure_is_a_decode_error_not_fallback() {
    let (sender, receiver) = crossbeam_channel::unbounded();
    let handler = ChannelAssetHandler::new(MagicDecoder, sender);
    let request = LoadRequest {
        path: "a.bin".to_string(),
        handle_id: 4,
        version: 1,
        resolver: AssetStorageResolver::with_provider(table(&[("a.bin", &[1, 2])])),
    };
    handler.handle_request(&request);
    let outcome = receiver.try_recv().expect("an outcome must have been delivered");
    match outcome.result {
        Err(AssetLoadError::Decode { path, message }) => {
            assert_eq!(path, "a.bin");
            assert_eq!(message, "missing magic byte");
        }
        _ => panic!("expected a decode error"),
    }
}

#[test]
fn decode_success_needs_found_bytes_and_magic() {
    let (sender, _receiver) = crossbeam_channel::unbounded();
    let handler = ChannelAssetHandler::new(MagicDecoder, sender);
    let request = LoadRequest {
        path: "a.bin".to_string(),
        handle_id: 4,
        version: 1,
        resolver: AssetStorageResolver::with_provider(table(&[("a.bin", &[0xF0, 2])])),
    };
    let font = handler.load_asset(&request).unwrap();
    assert_eq!(font.data(), &vec![0xF0, 2]);
}

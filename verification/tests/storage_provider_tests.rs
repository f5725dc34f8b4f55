use asset_pipeline::AssetLoadError;
use asset_pipeline::AssetStorage;
use asset_pipeline::AssetStorageProvider;
use asset_pipeline::AssetStorageResolver;
use asset_pipeline::StaticStorageProvider;

/// A provider for exercising the resolver: an in-memory table, a provider
/// that always fails hard, or one that must never be consulted.
enum TestProvider {
    Table(StaticStorageProvider),
    Failing(String),
    Untouchable(StaticStorageProvider),
}

impl AssetStorageProvider for TestProvider {
    // The trait's ghost member survives compilation as an ordinary item; it
    // is never called at runtime.
    fn spec_find(
        &self,
        _path: vstd::seq::Seq<char>,
    ) -> Result<Option<vstd::seq::Seq<u8>>, asset_pipeline::LoadErrorModel> {
        unreachable!()
    }

    fn find_asset_storage_sync<'a>(
        &'a self,
        path: &str,
    ) -> Result<Option<AssetStorage<'a>>, AssetLoadError> {
        match self {
            TestProvider::Table(table) => table.find_asset_storage_sync(path),
            TestProvider::Failing(message) => Err(AssetLoadError::Io {
                path: path.to_string(),
                message: message.clone(),
            }),
            TestProvider::Untouchable(_) => {
                panic!("a provider past the deciding one was consulted")
            }
        }
    }
}

fn table(entries: &[(&str, &[u8])]) -> StaticStorageProvider {
    let mut provider = StaticStorageProvider::new();
    for (path, bytes) in entries {
        provider.add_entry(path.to_string(), bytes.to_vec());
    }
    provider
}

#[test]
fn storage_into_vec_and_as_slice() {
    let owned = AssetStorage::Boxed(vec![1, 2, 3]);
    assert_eq!(owned.as_slice(), &[1, 2, 3]);
    assert_eq!(owned.into_vec(), vec![1, 2, 3]);

    let data = [4u8, 5];
    let borrowed = AssetStorage::Borrowed(&data);
    assert_eq!(borrowed.as_slice(), &[4, 5]);
    assert_eq!(borrowed.into_vec(), vec![4, 5]);

    let embedded = AssetStorage::Static(&[9]);
    assert_eq!(embedded.as_slice(), &[9]);
    assert_eq!(embedded.into_vec(), vec![9]);
}

#[test]
fn first_backend_wins() {
    let mut resolver =
        AssetStorageResolver::with_provider(TestProvider::Table(table(&[("a.data", &[1, 2, 3])])));
    resolver.add_provider(TestProvider::Table(table(&[("a.data", &[9, 9, 9])])));
    let storage = resolver.resolve_sync("a.data").unwrap();
    assert_eq!(storage.into_vec(), vec![1, 2, 3]);
}

#[test]
fn hit_skips_later_backends() {
    let mut resolver =
        AssetStorageResolver::with_provider(TestProvider::Table(table(&[("a.data", &[1, 2, 3])])));
    resolver.add_provider(TestProvider::Untouchable(table(&[("a.data", &[9])])));
    let storage = resolver.resolve_sync("a.data").unwrap();
    assert_eq!(storage.into_vec(), vec![1, 2, 3]);
}

#[test]
fn miss_falls_through_to_next_backend() {
    let mut resolver =
        AssetStorageResolver::with_provider(TestProvider::Table(table(&[("other.data", &[7])])));
    resolver.add_provider(TestProvider::Table(table(&[("a.data", &[4, 5])])));
    let storage = resolver.resolve_sync("a.data").unwrap();
    assert_eq!(storage.into_vec(), vec![4, 5]);
}

#[test]
fn not_found_after_every_backend_misses() {
    let mut resolver =
        AssetStorageResolver::with_provider(TestProvider::Table(table(&[("b.data", &[1])])));
    resolver.add_provider(TestProvider::Table(table(&[])));
    match resolver.resolve_sync("a.data") {
        Err(AssetLoadError::NotFound { path }) => assert_eq!(path, "a.data"),
        _ => panic!("expected a not-found error"),
    }
}

#[test]
fn zero_backends_always_not_found() {
    let resolver: AssetStorageResolver<TestProvider> = AssetStorageResolver::new();
    match resolver.resolve_sync("anything.data") {
        Err(AssetLoadError::NotFound { path }) => assert_eq!(path, "anything.data"),
        _ => panic!("expected a not-found error"),
    }
}

#[test]
fn hard_error_stops_resolution() {
    let mut resolver =
        AssetStorageResolver::with_provider(TestProvider::Table(table(&[("b.data", &[1])])));
    resolver.add_provider(TestProvider::Failing("permission denied".to_string()));
    // The last provider even holds the path, but must never be reached.
    resolver.add_provider(TestProvider::Untouchable(table(&[("a.data", &[1])])));
    match resolver.resolve_sync("a.data") {
        Err(AssetLoadError::Io { path, message }) => {
            assert_eq!(path, "a.data");
            assert_eq!(message, "permission denied");
        }
        _ => panic!("expected a hard I/O error"),
    }
}

#[test]
fn duplicate_paths_resolve_by_priority() {
    let mut provider = StaticStorageProvider::new();
    provider.add_entry("a.data".to_string(), vec![1]);
    provider.add_entry("a.data".to_string(), vec![2]);
    let resolver = AssetStorageResolver::with_provider(provider);
    let storage = resolver.resolve_sync("a.data").unwrap();
    assert_eq!(storage.into_vec(), vec![1]);
}

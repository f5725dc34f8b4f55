use asset_pipeline::AssetLoadError;
use asset_pipeline::AssetServerError;
use asset_pipeline::DefaultStorageProvider;
use asset_pipeline::FileReadOutcome;
use asset_pipeline::select_root;

#[test]
fn select_root_prefers_the_explicit_override() {
    let root = select_root(
        Some("/project".to_string()),
        Err("unused".to_string()),
    );
    assert!(matches!(root, Ok(dir) if dir == "/project"));
}

#[test]
fn select_root_falls_back_to_the_executable_directory() {
    let root = select_root(None, Ok(Some("/bin/dir".to_string())));
    assert!(matches!(root, Ok(dir) if dir == "/bin/dir"));
}

#[test]
fn select_root_without_a_parent_directory_is_fatal() {
    let root = select_root(None, Ok(None));
    assert!(matches!(root, Err(AssetServerError::InvalidRootPath)));
}

#[test]
fn select_root_surfaces_the_lookup_failure() {
    let root = select_root(None, Err("no executable".to_string()));
    assert!(matches!(root, Err(AssetServerError::Io { message }) if message == "no executable"));
}

#[test]
fn full_path_joins_against_the_root() {
    let provider = DefaultStorageProvider::new("/assets".to_string());
    assert_eq!(provider.full_path("fonts/a.ttf"), "/assets/fonts/a.ttf");
    assert_eq!(provider.root(), "/assets");
}

#[test]
fn read_outcomes_classify_as_the_provider_contract_asks() {
    let found = DefaultStorageProvider::storage_from_read("a.ttf", FileReadOutcome::Data(vec![1]));
    assert_eq!(found.unwrap().unwrap().into_vec(), vec![1]);

    let missing = DefaultStorageProvider::storage_from_read("a.ttf", FileReadOutcome::Missing);
    assert!(missing.unwrap().is_none());

    let failed = DefaultStorageProvider::storage_from_read(
        "a.ttf",
        FileReadOutcome::Failed("device failure".to_string()),
    );
    match failed {
        Err(AssetLoadError::Io { path, message }) => {
            assert_eq!(path, "a.ttf");
            assert_eq!(message, "device failure");
        }
        _ => panic!("expected a hard I/O error"),
    }
}

use asset_pipeline::AssetResult;
use asset_pipeline::AssetStore;
use asset_pipeline::Font;

fn outcome(handle_id: u64, version: u64, data: Vec<u8>) -> AssetResult<Font> {
    AssetResult {
        handle_id,
        result: Ok(Font::from_bytes(data)),
        path: "a.ttf".to_string(),
        version,
    }
}

#[test]
fn newer_version_wins_in_arrival_order() {
    let mut store: AssetStore<Font> = AssetStore::new();
    store.integrate(outcome(1, 1, vec![1]));
    store.integrate(outcome(1, 2, vec![2]));
    let stored = store.get(1).unwrap();
    assert_eq!(stored.version, 2);
    assert_eq!(stored.result.as_ref().unwrap().data(), &vec![2]);
}

#[test]
fn newer_version_wins_against_arrival_order() {
    // The older request's outcome arrives after the newer one and must be
    // discarded.
    let mut store: AssetStore<Font> = AssetStore::new();
    store.integrate(outcome(1, 2, vec![2]));
    store.integrate(outcome(1, 1, vec![1]));
    let stored = store.get(1).unwrap();
    assert_eq!(stored.version, 2);
    assert_eq!(stored.result.as_ref().unwrap().data(), &vec![2]);
}

#[test]
fn handles_are_tracked_independently() {
    let mut store: AssetStore<Font> = AssetStore::new();
    store.integrate(outcome(1, 5, vec![1]));
    store.integrate(outcome(2, 1, vec![2]));
    assert_eq!(store.get(1).unwrap().version, 5);
    assert_eq!(store.get(2).unwrap().version, 1);
    assert!(store.get(3).is_none());
}

#[test]
fn failed_outcome_is_retained_like_a_success() {
    let mut store: AssetStore<Font> = AssetStore::new();
    store.integrate(AssetResult {
        handle_id: 9,
        result: Err(asset_pipeline::AssetLoadError::NotFound {
            path: "a.ttf".to_string(),
        }),
        path: "a.ttf".to_string(),
        version: 1,
    });
    let stored = store.get(9).unwrap();
    assert_eq!(stored.version, 1);
    assert!(stored.result.is_err());
}

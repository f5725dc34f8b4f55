use asset_pipeline::PluginGroupBuilder;

const A: u64 = 1;
const B: u64 = 2;
const C: u64 = 3;

#[test]
fn add_appends_in_registration_order() {
    let mut group: PluginGroupBuilder<&str> = PluginGroupBuilder::new();
    group.add(A, "a");
    group.add(B, "b");
    assert_eq!(group.finish(), vec!["a", "b"]);
}

#[test]
fn add_before_inserts_at_the_target() {
    let mut group: PluginGroupBuilder<&str> = PluginGroupBuilder::new();
    group.add(A, "a");
    group.add(B, "b");
    group.add_before(B, C, "c");
    assert_eq!(group.finish(), vec!["a", "c", "b"]);
}

#[test]
fn add_after_inserts_past_the_target() {
    let mut group: PluginGroupBuilder<&str> = PluginGroupBuilder::new();
    group.add(A, "a");
    group.add(B, "b");
    group.add_after(A, C, "c");
    assert_eq!(group.finish(), vec!["a", "c", "b"]);
}

#[test]
fn disabled_plugin_is_never_applied() {
    let mut group: PluginGroupBuilder<&str> = PluginGroupBuilder::new();
    group.add(A, "a");
    group.add(B, "b");
    group.disable(A);
    assert_eq!(group.finish(), vec!["b"]);
}

#[test]
fn enable_restores_a_disabled_plugin() {
    let mut group: PluginGroupBuilder<&str> = PluginGroupBuilder::new();
    group.add(A, "a");
    group.add(B, "b");
    group.disable(A);
    group.enable(A);
    assert_eq!(group.finish(), vec!["a", "b"]);
}

#[test]
fn finish_applies_each_enabled_plugin_exactly_once() {
    let mut group: PluginGroupBuilder<u64> = PluginGroupBuilder::new();
    group.add(A, 10);
    group.add(B, 20);
    group.add(C, 30);
    group.disable(B);
    assert_eq!(group.finish(), vec![10, 30]);
}

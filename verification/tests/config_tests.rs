use audiacore::config::{hash_part, ConfigLayerId, ConfigLayers, ConfigRevision, FNV_OFFSET_BASIS};
use audiacore::errors::CodedError;

fn layer(id: &str) -> ConfigLayerId {
    ConfigLayerId::new(id).unwrap()
}

fn integer(table: &toml::Table, path: &[&str]) -> i64 {
    let mut current = table;
    for key in &path[..path.len() - 1] {
        current = current[*key].as_table().unwrap();
    }
    current[path[path.len() - 1]].as_integer().unwrap()
}

#[test]
fn default_and_new_share_the_same_provenance_basis() {
    assert_eq!(
        ConfigLayers::default().revision(),
        ConfigLayers::new().revision()
    );
    assert_eq!(ConfigLayers::new().revision().as_u64(), FNV_OFFSET_BASIS);
}

#[test]
fn ordered_layers_recursively_override_without_external_sources() {
    let resolved = ConfigLayers::new()
        .merge_toml(
            layer("defaults"),
            r#"
                [events]
                retention = 8
                mode = "durable"
                [nested]
                left = 1
                right = 2
            "#,
        )
        .unwrap()
        .merge_toml(
            layer("project"),
            r#"
                [events]
                retention = 4
                [nested]
                right = 9
            "#,
        )
        .unwrap()
        .resolve::<toml::Table>()
        .unwrap();

    assert_eq!(integer(resolved.value(), &["events", "retention"]), 4);
    assert_eq!(
        resolved.value()["events"]["mode"].as_str().unwrap(),
        "durable"
    );
    assert_eq!(integer(resolved.value(), &["nested", "left"]), 1);
    assert_eq!(integer(resolved.value(), &["nested", "right"]), 9);
    assert_eq!(
        resolved
            .layers()
            .iter()
            .map(ConfigLayerId::as_str)
            .collect::<Vec<_>>(),
        vec!["defaults", "project"]
    );
}

#[test]
fn revision_tracks_exact_ordered_inputs_not_semantic_equivalence() {
    let first = ConfigLayers::new()
        .merge_toml(layer("defaults"), "value = 1\n")
        .unwrap();
    let second = ConfigLayers::new()
        .merge_toml(layer("defaults"), "value=1\n")
        .unwrap();

    let first = first.resolve::<toml::Table>().unwrap();
    let second = second.resolve::<toml::Table>().unwrap();
    assert_eq!(
        integer(first.value(), &["value"]),
        integer(second.value(), &["value"])
    );
    assert_ne!(first.revision(), second.revision());
}

#[test]
fn layer_order_changes_revision_and_effective_value() {
    let first = ConfigLayers::new()
        .merge_toml(layer("one"), "value = 1")
        .unwrap()
        .merge_toml(layer("two"), "value = 2")
        .unwrap()
        .resolve::<toml::Table>()
        .unwrap();
    let reversed = ConfigLayers::new()
        .merge_toml(layer("two"), "value = 2")
        .unwrap()
        .merge_toml(layer("one"), "value = 1")
        .unwrap()
        .resolve::<toml::Table>()
        .unwrap();

    assert_eq!(integer(first.value(), &["value"]), 2);
    assert_eq!(integer(reversed.value(), &["value"]), 1);
    assert_ne!(first.revision(), reversed.revision());
}

#[test]
fn invalid_layer_and_resolution_have_distinct_stable_codes() {
    let parse = ConfigLayers::new()
        .merge_toml(layer("broken"), "[not closed")
        .unwrap_err();
    assert_eq!(parse.code().as_str(), "CFG-CONFIG-001");
    assert_eq!(parse.message(), "configuration layer broken is invalid TOML");

    let resolution = ConfigLayers::new()
        .merge_toml(layer("wrong-type"), "value = true")
        .unwrap()
        .resolve::<u32>()
        .unwrap_err();
    assert_eq!(resolution.code().as_str(), "CFG-CONFIG-002");
    assert!(resolution.source_error().is_some());
}

#[test]
fn empty_layer_id_is_rejected_with_stable_identity() {
    let error = ConfigLayerId::new(" ").unwrap_err();
    assert_eq!(error.code().as_str(), "VAL-CONFIG-001");
    assert_eq!(error.message(), "configuration layer id must not be empty");
}

#[test]
fn hash_part_is_length_prefixed_fnv1a() {
    // FNV-1a of eight zero bytes (an empty part's length prefix).
    let mut expected = FNV_OFFSET_BASIS;
    for _ in 0..8 {
        expected = expected.wrapping_mul(0x00000100000001b3);
    }
    assert_eq!(hash_part(FNV_OFFSET_BASIS, b""), expected);
    let mut with_byte = FNV_OFFSET_BASIS;
    for byte in [1u8, 0, 0, 0, 0, 0, 0, 0, b'a'] {
        with_byte = (with_byte ^ byte as u64).wrapping_mul(0x00000100000001b3);
    }
    assert_eq!(hash_part(FNV_OFFSET_BASIS, b"a"), with_byte);
}

#[test]
fn revision_renders_as_sixteen_hex_digits() {
    let layers = ConfigLayers::new();
    assert_eq!(layers.revision().to_hex(), "cbf29ce484222325");
    let revision: ConfigRevision = layers.revision();
    assert_eq!(revision.as_u64(), 0xcbf29ce484222325);
}

#[test]
fn tables_replace_leaves_and_leaves_replace_tables() {
    let resolved = ConfigLayers::new()
        .merge_toml(layer("base"), "a = 1\n[b]\nc = 2\n")
        .unwrap()
        .merge_toml(layer("over"), "b = 3\n[a]\nd = 4\n")
        .unwrap()
        .resolve::<toml::Table>()
        .unwrap();
    assert_eq!(integer(resolved.value(), &["b"]), 3);
    assert_eq!(integer(resolved.value(), &["a", "d"]), 4);
    assert_eq!(resolved.value().len(), 2);
}

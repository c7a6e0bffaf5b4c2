use seed_io::registry::extension_key;

#[test]
fn extension_keys() {
    assert_eq!(extension_key("..GLB"), "glb");
    assert_eq!(extension_key(".usda"), "usda");
    assert_eq!(extension_key("Step"), "step");
    assert_eq!(extension_key("."), "");
    assert_eq!(extension_key("a.b"), "a.b");
}

#[test]
fn leading_dot_is_ignored() {
    for ext in ["glb", "USDA", "p21", ""] {
        assert_eq!(extension_key(&format!(".{}", ext)), extension_key(ext));
    }
}

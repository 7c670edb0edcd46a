use spr_core::paths::sibling;
use std::path::{Path, PathBuf};

#[test]
fn siblings_lie_in_the_same_directory() {
    let paths = ["config/settings.toml", "settings.toml", "/etc/spr/settings.toml", "/settings.toml", "./settings.toml", "a//b", "a/./b", "a/b/", "a/.", ".", "..", "../x", "/", "", "a/b/./", "/./a"];
    for p in paths {
        let dir = Path::new(p).parent().map(|d| d.to_path_buf()).unwrap_or_else(|| PathBuf::from("."));
        assert_eq!(sibling(p, "overrides.json"), dir.join("overrides.json").to_string_lossy(), "{p}");
    }
}

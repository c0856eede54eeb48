use rediff::lang::detect;

#[test]
fn detect_maps_known_extensions() {
    assert_eq!(detect("src/main.rs").as_deref(), Some("rust"));
    assert_eq!(detect("a/b.test.tsx").as_deref(), Some("tsx"));
    assert_eq!(detect("x.cjs").as_deref(), Some("javascript"));
    assert_eq!(detect("lib.hpp").as_deref(), Some("cpp"));
    assert_eq!(detect("conf.yml").as_deref(), Some("yaml"));
    assert_eq!(detect("README.markdown").as_deref(), Some("markdown"));
}

#[test]
fn detect_unknown_or_missing_extension() {
    assert_eq!(detect("Makefile"), None);
    assert_eq!(detect("archive.tar.gz"), None);
    assert_eq!(detect("dir.rs/file"), None, "the last dot is inside a directory name");
    assert_eq!(detect("rs"), None, "no dot: no extension");
    assert_eq!(detect("go"), None);
    assert_eq!(detect("dir.d/sh"), None);
    assert_eq!(detect(".bashrc"), None);
    assert_eq!(detect("x.sh").as_deref(), Some("bash"));
    assert_eq!(detect(""), None);
}

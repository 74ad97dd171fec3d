use starlists::ids::{new_plan_id, slugify, unique_slug};

#[test]
fn slugify_basic() {
    assert_eq!(slugify("Web Mapping"), "web-mapping");
    assert_eq!(slugify("  Emacs / Lisp "), "emacs-lisp");
    assert_eq!(slugify("AI"), "ai");
}

#[test]
fn unique_slug_suffixes() {
    let taken = vec!["web".into(), "web-2".into()];
    assert_eq!(unique_slug("web", &taken), "web-3");
    assert_eq!(unique_slug("gis", &taken), "gis");
}

#[test]
fn slugify_drops_edge_dashes_and_symbols() {
    assert_eq!(slugify("--C++ Tools!--"), "c-tools");
    assert_eq!(slugify("   "), "");
    assert_eq!(slugify("Ünïcode Names"), "n-code-names");
}

#[test]
fn unique_slug_falls_back_to_x() {
    let mut taken: Vec<String> = vec!["a".into()];
    for i in 2..1000 {
        taken.push(format!("a-{i}"));
    }
    assert_eq!(unique_slug("a", &taken), "a-x");
}

#[test]
fn plan_id_keeps_fourteen_digits() {
    assert_eq!(new_plan_id("2026-01-02T03:04:05.678Z"), "PLAN_20260102030405");
    assert_eq!(new_plan_id("no digits"), "PLAN_");
}

#[test]
fn slugs_have_no_doubled_or_edge_dashes() {
    for name in ["a -- b", "!!x!!y!!", "Rust / Go / C", "  -__-  ", "Tab\there"] {
        let s = slugify(name);
        assert!(s.chars().all(|c| c.is_ascii_lowercase() || c.is_ascii_digit() || c == '-'), "{s}");
        assert!(!s.starts_with('-') && !s.ends_with('-'), "{s}");
        assert!(!s.contains("--"), "{s}");
    }
    assert_eq!(slugify("a -- b"), "a-b");
    assert_eq!(slugify("!!x!!y!!"), "x-y");
}

#[test]
fn slugify_is_idempotent() {
    for name in ["Web Mapping", "  Emacs / Lisp ", "--C++ Tools!--", "a-b-c", "x9", ""] {
        let s = slugify(name);
        assert_eq!(slugify(&s), s);
    }
    assert_eq!(slugify("HELLO World"), "hello-world");
}

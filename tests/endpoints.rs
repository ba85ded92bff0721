use debian_repro_status::args::Args;
use debian_repro_status::endpoints::{
    default_arch_rebuilderd, detected_endpoints, explicit_endpoints, list_url, trim_trailing_slashes,
};

fn args(rebuilderd: Option<&str>, architecture: Option<&str>) -> Args {
    Args {
        architecture: architecture.map(String::from),
        rebuilderd: rebuilderd.map(String::from),
        dpkg_query_output: None,
        rebuilderd_query_output: None,
        filter: None,
        summary: false,
    }
}

#[test]
fn default_endpoint_of_arch() {
    assert_eq!(default_arch_rebuilderd("amd64".to_string()), "https://reproduce.debian.net/amd64");
}

#[test]
fn list_url_appends_path() {
    assert_eq!(list_url("https://example.org"), "https://example.org/api/v0/pkgs/list");
}

#[test]
fn trailing_slashes_trimmed() {
    assert_eq!(trim_trailing_slashes("https://example.org//"), "https://example.org");
    assert_eq!(trim_trailing_slashes("https://example.org"), "https://example.org");
    assert_eq!(trim_trailing_slashes("///"), "");
}

#[test]
fn explicit_url_wins() {
    let e = explicit_endpoints(&args(Some("https://example.org/"), Some("arm64"))).unwrap();
    assert_eq!(e, vec!["https://example.org".to_string()]);
}

#[test]
fn explicit_architecture_and_all() {
    let e = explicit_endpoints(&args(None, Some("arm64"))).unwrap();
    assert_eq!(
        e,
        vec![
            "https://reproduce.debian.net/arm64".to_string(),
            "https://reproduce.debian.net/all".to_string()
        ]
    );
}

#[test]
fn nothing_explicit_needs_detection() {
    assert!(explicit_endpoints(&args(None, None)).is_none());
}

#[test]
fn detected_native_foreign_and_all() {
    let e = detected_endpoints("amd64", &vec!["i386".to_string(), "arm64".to_string()]);
    assert_eq!(
        e,
        vec![
            "https://reproduce.debian.net/amd64".to_string(),
            "https://reproduce.debian.net/i386".to_string(),
            "https://reproduce.debian.net/arm64".to_string(),
            "https://reproduce.debian.net/all".to_string()
        ]
    );
    let only = detected_endpoints("riscv64", &Vec::new());
    assert_eq!(only.len(), 2);
    assert_eq!(only[1], "https://reproduce.debian.net/all");
}

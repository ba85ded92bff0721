use debian_repro_status::dpkg::{parse_installed, DpkgPackage, ParseError};

fn package(status: &str, name: &str, architecture: &str, version: &str) -> DpkgPackage {
    DpkgPackage {
        status: status.to_string(),
        name: name.to_string(),
        architecture: architecture.to_string(),
        version: version.to_string(),
    }
}

fn lines(ls: &[&str]) -> Vec<String> {
    ls.iter().map(|l| l.to_string()).collect()
}

#[test]
fn parse_dpkg_query_line() {
    let line = "installed login amd64 1:4.16.0-2+really2.40.2-11";
    let pkg = DpkgPackage::from_str(line).unwrap();
    assert_eq!(
        pkg,
        DpkgPackage {
            status: "installed".to_string(),
            name: "login".to_string(),
            architecture: "amd64".to_string(),
            version: "1:4.16.0-2+really2.40.2-11".to_string(),
        }
    );
    assert!(pkg.is_installed());
}

#[test]
fn parse_dpkg_query_arch_suffixed_line() {
    let line = "installed libudev1:amd64 amd64 257~rc3-1";
    let pkg = DpkgPackage::from_str(line).unwrap();
    assert_eq!(
        pkg,
        DpkgPackage {
            status: "installed".to_string(),
            name: "libudev1".to_string(),
            architecture: "amd64".to_string(),
            version: "257~rc3-1".to_string(),
        }
    );
}

#[test]
fn parse_dpkg_query_removed() {
    let line = "config-files nginx-common all 1.26.3-2";
    let pkg = DpkgPackage::from_str(line).unwrap();
    assert_eq!(
        pkg,
        DpkgPackage {
            status: "config-files".to_string(),
            name: "nginx-common".to_string(),
            architecture: "all".to_string(),
            version: "1.26.3-2".to_string(),
        }
    );
    assert!(!pkg.is_installed());
}

#[test]
fn version_keeps_its_spaces() {
    let pkg = DpkgPackage::from_str("installed odd amd64 1.0 with spaces").unwrap();
    assert_eq!(pkg, package("installed", "odd", "amd64", "1.0 with spaces"));
}

#[test]
fn qualifier_dropped_whatever_its_architecture() {
    let pkg = DpkgPackage::from_str("installed libc6:i386 amd64 2.40-1").unwrap();
    assert_eq!(pkg, package("installed", "libc6", "amd64", "2.40-1"));
}

#[test]
fn only_the_last_colon_ends_the_name() {
    let pkg = DpkgPackage::from_str("installed a:b:i386 i386 1").unwrap();
    assert_eq!(pkg.name, "a:b");
}

#[test]
fn missing_name_delimiter() {
    assert_eq!(DpkgPackage::from_str("installed"), Err(ParseError::MissingNameDelimiter));
    assert_eq!(DpkgPackage::from_str(""), Err(ParseError::MissingNameDelimiter));
}

#[test]
fn missing_architecture_delimiter() {
    assert_eq!(
        DpkgPackage::from_str("installed login"),
        Err(ParseError::MissingArchitectureDelimiter)
    );
}

#[test]
fn missing_version_delimiter() {
    assert_eq!(
        DpkgPackage::from_str("installed login amd64"),
        Err(ParseError::MissingVersionDelimiter)
    );
}

#[test]
fn empty_fields_are_kept() {
    let pkg = DpkgPackage::from_str("installed login amd64 ").unwrap();
    assert_eq!(pkg, package("installed", "login", "amd64", ""));
}

#[test]
fn listing_keeps_installed_only() {
    let input = lines(&[
        "installed login amd64 1:4.16.0-2+really2.40.2-11",
        "config-files nginx-common all 1.26.3-2",
    ]);
    let pkgs = parse_installed(&input).unwrap();
    assert_eq!(
        pkgs,
        vec![package("installed", "login", "amd64", "1:4.16.0-2+really2.40.2-11")]
    );
}

#[test]
fn listing_drops_every_other_status() {
    let input = lines(&[
        "not-installed foo amd64 1",
        "installed bar:amd64 amd64 2",
        "half-configured baz all 3",
        "installed qux all 4",
    ]);
    let pkgs = parse_installed(&input).unwrap();
    assert_eq!(
        pkgs,
        vec![package("installed", "bar", "amd64", "2"), package("installed", "qux", "all", "4")]
    );
}

#[test]
fn listing_fails_on_its_first_malformed_line() {
    let input = lines(&["installed login amd64 1", "installed broken", "garbage"]);
    assert_eq!(parse_installed(&input), Err(ParseError::MissingArchitectureDelimiter));
}

#[test]
fn empty_listing_is_empty() {
    assert_eq!(parse_installed(&Vec::new()), Ok(Vec::new()));
}

use debian_repro_status::dpkg::DpkgPackage;
use debian_repro_status::remote::{parse_release_list, ListError};
use debian_repro_status::report::{summarize, Summary, SummaryStats};
use debian_repro_status::verification::{reconcile, Outcome, VerificationIndex, VerificationRecord};

fn package(name: &str, architecture: &str, version: &str) -> DpkgPackage {
    DpkgPackage {
        status: "installed".to_string(),
        name: name.to_string(),
        architecture: architecture.to_string(),
        version: version.to_string(),
    }
}

fn record(name: &str, architecture: &str, version: &str, status: Outcome) -> VerificationRecord {
    VerificationRecord {
        name: name.to_string(),
        architecture: architecture.to_string(),
        version: version.to_string(),
        status,
    }
}

#[test]
fn join_takes_matching_record() {
    let index = VerificationIndex::from_responses(vec![vec![
        record("login", "amd64", "1", Outcome::Bad),
        record("login", "i386", "2", Outcome::Bad),
        record("login", "amd64", "2", Outcome::Good),
    ]]);
    let installed = vec![package("login", "amd64", "2")];
    assert_eq!(reconcile(&installed, &index), vec![Outcome::Good]);
}

#[test]
fn join_without_entry_is_unknown() {
    let index = VerificationIndex::from_responses(vec![vec![record("bash", "amd64", "5", Outcome::Good)]]);
    let installed = vec![package("login", "amd64", "5")];
    assert_eq!(reconcile(&installed, &index), vec![Outcome::Unknown]);
}

#[test]
fn join_without_matching_version_is_unknown() {
    let index = VerificationIndex::from_responses(vec![vec![
        record("login", "amd64", "1", Outcome::Good),
        record("login", "arm64", "2", Outcome::Good),
    ]]);
    let installed = vec![package("login", "amd64", "2")];
    assert_eq!(reconcile(&installed, &index), vec![Outcome::Unknown]);
}

#[test]
fn first_inserted_record_wins() {
    for _ in 0..10 {
        let index = VerificationIndex::from_responses(vec![
            vec![record("login", "amd64", "2", Outcome::Bad)],
            vec![record("login", "amd64", "2", Outcome::Good)],
        ]);
        let installed = vec![package("login", "amd64", "2")];
        assert_eq!(reconcile(&installed, &index), vec![Outcome::Bad]);
    }
}

#[test]
fn join_keeps_order_and_length() {
    let index = VerificationIndex::from_responses(vec![
        vec![record("a", "amd64", "1", Outcome::Good)],
        vec![],
        vec![record("c", "all", "3", Outcome::Bad)],
    ]);
    let installed = vec![package("c", "all", "3"), package("b", "amd64", "2"), package("a", "amd64", "1")];
    assert_eq!(
        reconcile(&installed, &index),
        vec![Outcome::Bad, Outcome::Unknown, Outcome::Good]
    );
}

#[test]
fn index_extend_appends() {
    let mut index = VerificationIndex::new();
    index.extend(vec![record("a", "amd64", "1", Outcome::Bad)]);
    index.extend(vec![record("a", "amd64", "1", Outcome::Good)]);
    assert_eq!(index.records.len(), 2);
    assert_eq!(index.resolve(&package("a", "amd64", "1")), Outcome::Bad);
}

#[test]
fn summary_of_nothing() {
    let stats = summarize(&Vec::new());
    assert_eq!(stats, SummaryStats { total: 0, negatives: 0 });
    assert_eq!(stats.summary(), Summary::NoPackages);
}

#[test]
fn summary_all_good() {
    let stats = summarize(&vec![Outcome::Good, Outcome::Good]);
    assert_eq!(stats.summary(), Summary::AllReproducible { total: 2 });
    assert_eq!(stats.reproducible(), 2);
}

#[test]
fn summary_one_negative_of_many() {
    let stats = summarize(&vec![Outcome::Good, Outcome::Unknown, Outcome::Good]);
    assert_eq!(stats, SummaryStats { total: 3, negatives: 1 });
    assert_eq!(stats.summary(), Summary::OneUnreproducible { total: 3, almost_there: true });
    assert_eq!(stats.reproducible(), 2);
}

#[test]
fn summary_one_negative_alone() {
    let stats = summarize(&vec![Outcome::Bad]);
    assert_eq!(stats.summary(), Summary::OneUnreproducible { total: 1, almost_there: false });
}

#[test]
fn summary_several_negatives() {
    let stats = summarize(&vec![Outcome::Bad, Outcome::Unknown, Outcome::Good, Outcome::Bad]);
    assert_eq!(stats.summary(), Summary::Unreproducible { negatives: 3, total: 4 });
}

#[test]
fn filter_matches_labels() {
    assert!(Outcome::Good.passes_filter(&None));
    assert!(Outcome::Good.passes_filter(&Some("GOOD".to_string())));
    assert!(!Outcome::Bad.passes_filter(&Some("GOOD".to_string())));
    assert!(Outcome::Unknown.passes_filter(&Some("UNKWN".to_string())));
    assert_eq!(Outcome::Bad.label(), "BAD");
}

#[test]
fn release_list_decodes() {
    let json = br#"[{"name":"login","version":"1:4.16","status":"GOOD","distro":"debian","suite":"main","architecture":"amd64","artifact_url":"https://example.org/a","build_id":7,"built_at":null,"has_diffoscope":false,"has_attestation":true},
{"name":"bash","version":"5.2","status":"UNKWN","distro":"debian","suite":"main","architecture":"all","artifact_url":"","has_diffoscope":false,"has_attestation":false}]"#;
    let records = parse_release_list(json).unwrap();
    assert_eq!(records.len(), 2);
    assert_eq!(records[0].name, "login");
    assert_eq!(records[0].architecture, "amd64");
    assert_eq!(records[0].version, "1:4.16");
    assert_eq!(records[0].status, Outcome::Good);
    assert_eq!(records[1].name, "bash");
    assert_eq!(records[1].status, Outcome::Unknown);
}

#[test]
fn release_list_rejects_other_json() {
    assert_eq!(parse_release_list(b"{\"name\":\"login\"}").unwrap_err(), ListError::MalformedList);
    assert_eq!(parse_release_list(b"not json").unwrap_err(), ListError::MalformedList);
    assert_eq!(parse_release_list(b"[]").unwrap().len(), 0);
}

use hmum::error::Error;
use hmum::index::{chart_versions, latest_version, version_of, version_record};
use hmum::yaml::Yaml;

fn text(s: &str) -> Yaml {
    Yaml::Str(s.to_string())
}

fn mapping(entries: Vec<(&str, Yaml)>) -> Yaml {
    Yaml::Mapping(entries.into_iter().map(|(k, v)| (text(k), v)).collect())
}

fn record(version: &str) -> Yaml {
    mapping(vec![
        ("name", text("nginx")),
        ("version", text(version)),
        ("urls", Yaml::Sequence(vec![text(&format!("nginx-{version}.tgz"))])),
    ])
}

fn index() -> Yaml {
    mapping(vec![(
        "entries",
        mapping(vec![
            ("nginx", Yaml::Sequence(vec![record("1.10.0"), record("2.0.0"), record("1.9.0")])),
            ("empty", Yaml::Sequence(vec![])),
            ("odd", text("x")),
        ]),
    )])
}

#[test]
fn latest_is_the_first_listed_whatever_its_version() {
    let idx = index();
    let latest = latest_version(&idx, "nginx").unwrap();
    assert_eq!(version_of(latest).unwrap(), "1.10.0");
}

#[test]
fn latest_errors() {
    let idx = index();
    assert_eq!(latest_version(&idx, "redis"), Err(Error::ChartNotFound));
    assert_eq!(latest_version(&idx, "empty"), Err(Error::ChartNotFound));
    assert_eq!(latest_version(&idx, "odd"), Err(Error::IndexShapeInvalid));
    assert_eq!(latest_version(&mapping(vec![]), "nginx"), Err(Error::IndexShapeInvalid));
    assert_eq!(latest_version(&mapping(vec![("entries", text("x"))]), "nginx"), Err(Error::IndexShapeInvalid));
}

#[test]
fn version_record_matches_exactly() {
    let idx = index();
    let rec = version_record(&idx, "nginx", "1.9.0").unwrap();
    assert_eq!(version_of(rec).unwrap(), "1.9.0");
    assert_eq!(version_record(&idx, "nginx", "1.9"), Err(Error::VersionNotFound));
    assert_eq!(version_record(&idx, "nginx", "1.9.0 "), Err(Error::VersionNotFound));
    assert_eq!(version_record(&idx, "nginx", "3.0.0"), Err(Error::VersionNotFound));
    assert_eq!(version_record(&idx, "redis", "1.9.0"), Err(Error::ChartNotFound));
}

#[test]
fn chart_versions_keeps_index_order() {
    let idx = index();
    let versions: Vec<&str> =
        chart_versions(&idx, "nginx").unwrap().iter().map(|r| version_of(r).unwrap().as_str()).collect();
    assert_eq!(versions, vec!["1.10.0", "2.0.0", "1.9.0"]);
}

#[test]
fn record_without_version_is_malformed() {
    assert_eq!(version_of(&mapping(vec![("name", text("x"))])), Err(Error::IndexShapeInvalid));
}

#[test]
fn get_finds_the_first_string_key() {
    let m = Yaml::Mapping(vec![(Yaml::Number("1".to_string()), text("n")), (text("k"), text("a")), (text("k"), text("b"))]);
    assert_eq!(m.get("k"), Some(&text("a")));
    assert_eq!(m.get("1"), None);
    assert_eq!(text("k").get("k"), None);
}

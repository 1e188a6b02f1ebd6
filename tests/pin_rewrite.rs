use hmum::error::Error;
use hmum::rewrite::rewrite_version;
use hmum::yaml::Yaml;

#[test]
fn single_pin_is_rewritten_and_nothing_else() {
    let before = "apps:\n  web:\n    chart: stable/nginx\n    version: \"1.2.3\" # pinned\n";
    let mut doc = before.to_string();
    assert_eq!(rewrite_version(&mut doc, "1.2.3", "1.3.0"), Ok(()));
    assert_eq!(doc, before.replace("1.2.3", "1.3.0"));
}

#[test]
fn white_space_after_the_key_is_kept() {
    let mut doc = "version:\t  \"0.1\"\nname: x\n".to_string();
    assert_eq!(rewrite_version(&mut doc, "0.1", "0.2.0"), Ok(()));
    assert_eq!(doc, "version:\t  \"0.2.0\"\nname: x\n");
}

#[test]
fn two_pins_are_ambiguous_and_leave_the_text() {
    let before = "a:\n  version: \"1.0.0\"\nb:\n  version: \"1.0.0\"\n";
    let mut doc = before.to_string();
    assert_eq!(rewrite_version(&mut doc, "1.0.0", "2.0.0"), Err(Error::AmbiguousVersionPin));
    assert_eq!(doc, before);
}

#[test]
fn missing_pin_is_reported_and_leaves_the_text() {
    let before = "a:\n  version: 1.0.0\nb:\n  version: \"1.0.01\"\n  other: \"1.0.0\"\n";
    let mut doc = before.to_string();
    assert_eq!(rewrite_version(&mut doc, "1.0.0", "2.0.0"), Err(Error::VersionPinNotFound));
    assert_eq!(doc, before);
}

#[test]
fn version_is_matched_literally() {
    let mut doc = "version: \"1x0\"\n".to_string();
    assert_eq!(rewrite_version(&mut doc, "1.0", "2.0"), Err(Error::VersionPinNotFound));
    let mut doc = "version: \"1.0\"\n".to_string();
    assert_eq!(rewrite_version(&mut doc, "1.0", "2.0"), Ok(()));
    assert_eq!(doc, "version: \"2.0\"\n");
}

#[test]
fn non_ascii_text_around_the_pin_is_kept() {
    let mut doc = "# café ☕\nversion: \"1\"\n# ünï\n".to_string();
    assert_eq!(rewrite_version(&mut doc, "1", "2"), Ok(()));
    assert_eq!(doc, "# café ☕\nversion: \"2\"\n# ünï\n");
}

fn to_tree(value: &serde_yaml::Value) -> Yaml {
    match value {
        serde_yaml::Value::Null => Yaml::Null,
        serde_yaml::Value::Bool(b) => Yaml::Bool(*b),
        serde_yaml::Value::Number(n) => Yaml::Number(n.to_string()),
        serde_yaml::Value::String(s) => Yaml::Str(s.clone()),
        serde_yaml::Value::Sequence(items) => Yaml::Sequence(items.iter().map(to_tree).collect()),
        serde_yaml::Value::Mapping(entries) => {
            Yaml::Mapping(entries.iter().map(|(k, v)| (to_tree(k), to_tree(v))).collect())
        }
    }
}

#[test]
fn rewritten_document_loads_with_the_new_version() {
    let before = "helmRepos:\n  stable: https://charts.example.com/stable\napps:\n  web:\n    chart: stable/nginx\n    version: \"1.2.3\"\n  db:\n    chart: stable/postgres\n    version: \"9.9.9\"\n";
    let mut doc = before.to_string();
    assert_eq!(rewrite_version(&mut doc, "1.2.3", "1.3.0"), Ok(()));
    assert_eq!(doc, before.replacen("\"1.2.3\"", "\"1.3.0\"", 1));
    let tree = to_tree(&serde_yaml::from_str(&doc).unwrap());
    let spec = hmum::model::ReleaseSpec::load("spec.yaml", ".", &tree).unwrap();
    assert_eq!(spec.apps[0].current_version, "1.3.0");
    assert_eq!(spec.apps[1].current_version, "9.9.9");
}

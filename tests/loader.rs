use hmum::error::Error;
use hmum::model::{parse_chart_ref, split_chart_ref, ReleaseSpec, INDEX_FILE};
use hmum::yaml::Yaml;

fn text(s: &str) -> Yaml {
    Yaml::Str(s.to_string())
}

fn mapping(entries: Vec<(&str, Yaml)>) -> Yaml {
    Yaml::Mapping(entries.into_iter().map(|(k, v)| (text(k), v)).collect())
}

fn app(chart: &str, version: &str) -> Yaml {
    mapping(vec![("chart", text(chart)), ("version", text(version))])
}

fn sample_doc() -> Yaml {
    mapping(vec![
        ("helmRepos", mapping(vec![("stable", text("https://charts.example.com/stable"))])),
        (
            "apps",
            mapping(vec![
                ("web", app("stable/nginx", "1.2.3")),
                ("db", app("postgres", "9.0.0")),
                (
                    "cache",
                    mapping(vec![
                        ("chart", text("stable/redis")),
                        ("version", text("5.0.0")),
                        ("valuesFiles", Yaml::Sequence(vec![text("redis.yaml"), text("other.yaml")])),
                    ]),
                ),
            ]),
        ),
    ])
}

#[test]
fn load_reads_repositories_and_applications_in_order() {
    let spec = ReleaseSpec::load("/srv/spec.yaml", "/srv", &sample_doc()).unwrap();
    assert_eq!(spec.path, "/srv/spec.yaml");
    assert_eq!(spec.repos.len(), 1);
    assert_eq!(spec.repos[0].name, "stable");
    assert_eq!(spec.repos[0].url, "https://charts.example.com/stable/");
    assert_eq!(spec.repos[0].index_url, "https://charts.example.com/stable/index.yaml");
    let names: Vec<&str> = spec.apps.iter().map(|a| a.name.as_str()).collect();
    assert_eq!(names, vec!["web", "db", "cache"]);
    let web = spec.apps[0].chart.as_ref().unwrap();
    assert_eq!((web.repo.as_str(), web.chart.as_str()), ("stable", "nginx"));
    assert_eq!(spec.apps[0].current_version, "1.2.3");
    assert_eq!(spec.apps[0].overlay_path, None);
    assert!(spec.apps[1].chart.is_none());
    assert_eq!(spec.apps[2].overlay_path.as_deref(), Some("/srv/redis.yaml"));
}

#[test]
fn load_twice_gives_the_same_entities() {
    let doc = sample_doc();
    let first = ReleaseSpec::load("/srv/spec.yaml", "/srv", &doc).unwrap();
    let second = ReleaseSpec::load("/srv/spec.yaml", "/srv", &doc).unwrap();
    assert_eq!(first, second);
}

#[test]
fn index_file_name() {
    assert_eq!(INDEX_FILE, "index.yaml");
}

#[test]
fn chart_declarations_of_the_wrong_shape_are_untracked() {
    for decl in ["nginx", "a/b/c", "/nginx", "stable/", "", "sta ble/nginx", "stable//nginx"] {
        assert!(parse_chart_ref(decl).is_none(), "{decl}");
    }
    let c = parse_chart_ref("my-repo/my_chart2").unwrap();
    assert_eq!(c.repo, "my-repo");
    assert_eq!(c.chart, "my_chart2");
}

#[test]
fn untracked_application_loads_without_error() {
    let doc = mapping(vec![("apps", mapping(vec![("tool", app("a/b/c", "1.0.0"))]))]);
    let spec = ReleaseSpec::load("spec.yaml", ".", &doc).unwrap();
    assert!(spec.repos.is_empty());
    assert!(spec.apps[0].chart.is_none());
}

#[test]
fn missing_apps_section_is_malformed() {
    let doc = mapping(vec![("helmRepos", mapping(vec![]))]);
    assert_eq!(ReleaseSpec::load("s", ".", &doc), Err(Error::DocumentMalformed));
}

#[test]
fn malformed_sections_and_fields() {
    let bad_repos = mapping(vec![("helmRepos", Yaml::Sequence(vec![])), ("apps", mapping(vec![]))]);
    assert_eq!(ReleaseSpec::load("s", ".", &bad_repos), Err(Error::DocumentMalformed));
    let bad_url = mapping(vec![("helmRepos", mapping(vec![("r", text("not a url"))])), ("apps", mapping(vec![]))]);
    assert_eq!(ReleaseSpec::load("s", ".", &bad_url), Err(Error::DocumentMalformed));
    let no_version = mapping(vec![("apps", mapping(vec![("x", mapping(vec![("chart", text("r/c"))]))]))]);
    assert_eq!(ReleaseSpec::load("s", ".", &no_version), Err(Error::DocumentMalformed));
    let empty_files = mapping(vec![(
        "apps",
        mapping(vec![(
            "x",
            mapping(vec![("chart", text("r/c")), ("version", text("1")), ("valuesFiles", Yaml::Sequence(vec![]))]),
        )]),
    )]);
    assert_eq!(ReleaseSpec::load("s", ".", &empty_files), Err(Error::DocumentMalformed));
}

#[test]
fn duplicate_repository_names_are_malformed() {
    let doc = Yaml::Mapping(vec![
        (
            text("helmRepos"),
            Yaml::Mapping(vec![
                (text("r"), text("https://a.example.com/")),
                (text("r"), text("https://b.example.com/")),
            ]),
        ),
        (text("apps"), mapping(vec![])),
    ]);
    assert_eq!(ReleaseSpec::load("s", ".", &doc), Err(Error::DocumentMalformed));
}

#[test]
fn absent_overlays_are_dropped() {
    let doc = mapping(vec![(
        "apps",
        mapping(vec![
            ("a", mapping(vec![("chart", text("r/a")), ("version", text("1")), ("valuesFile", text("a.yaml"))])),
            ("b", mapping(vec![("chart", text("r/b")), ("version", text("1")), ("valuesFile", text("b.yaml"))])),
        ]),
    )]);
    let mut spec = ReleaseSpec::load("s", "/d", &doc).unwrap();
    spec.keep_present_overlays(&vec![true, false]);
    assert_eq!(spec.apps[0].overlay_path.as_deref(), Some("/d/a.yaml"));
    assert_eq!(spec.apps[1].overlay_path, None);
    assert_eq!(spec.apps[1].name, "b");
}

#[test]
fn repository_url_is_normalised_by_the_url_parser() {
    let doc = mapping(vec![
        ("helmRepos", mapping(vec![("r", text("HTTPS://Charts.Example.COM/stable"))])),
        ("apps", mapping(vec![])),
    ]);
    let spec = ReleaseSpec::load("s", ".", &doc).unwrap();
    assert_eq!(spec.repos[0].url, "https://charts.example.com/stable/");
    assert_eq!(spec.repos[0].index_url, "https://charts.example.com/stable/index.yaml");
}

#[test]
fn split_follows_the_match_result() {
    assert!(split_chart_ref("stable/nginx", None).is_none());
    assert!(split_chart_ref("stable/nginx", Some(false)).is_none());
    assert!(split_chart_ref("nginx", Some(true)).is_none());
    let c = split_chart_ref("stable/nginx", Some(true)).unwrap();
    assert_eq!((c.repo.as_str(), c.chart.as_str()), ("stable", "nginx"));
}

use hmum::archive::{archive_url, default_config_path};
use hmum::error::Error;
use hmum::merge::{merge_outcome, MergeOutcome};
use hmum::scratch::{fresh_entry, NAME_LEN};
use hmum::yaml::Yaml;

fn text(s: &str) -> Yaml {
    Yaml::Str(s.to_string())
}

fn record(urls: Vec<Yaml>) -> Yaml {
    Yaml::Mapping(vec![
        (text("name"), text("redis")),
        (text("version"), text("1.0.0")),
        (text("urls"), Yaml::Sequence(urls)),
    ])
}

#[test]
fn absolute_archive_url_is_kept() {
    let r = record(vec![text("https://cdn.example.com/redis-1.0.0.tgz"), text("other")]);
    assert_eq!(archive_url(&r, "https://charts.example.com/").unwrap(), "https://cdn.example.com/redis-1.0.0.tgz");
}

#[test]
fn relative_archive_url_is_resolved_against_the_repository() {
    let r = record(vec![text("redis-1.0.0.tgz")]);
    assert_eq!(archive_url(&r, "https://charts.example.com/stable/").unwrap(), "https://charts.example.com/stable/redis-1.0.0.tgz");
}

#[test]
fn unusable_archive_urls() {
    assert_eq!(archive_url(&record(vec![]), "https://charts.example.com/"), Err(Error::ArchiveUrlInvalid));
    assert_eq!(archive_url(&record(vec![Yaml::Null]), "https://charts.example.com/"), Err(Error::ArchiveUrlInvalid));
    assert_eq!(archive_url(&record(vec![text("x.tgz")]), "not a base"), Err(Error::ArchiveUrlInvalid));
    assert_eq!(archive_url(&text("x"), "https://charts.example.com/"), Err(Error::ArchiveUrlInvalid));
}

#[test]
fn default_configuration_lies_under_the_chart_directory() {
    let r = record(vec![]);
    assert_eq!(default_config_path("/tmp/x", &r).unwrap(), "/tmp/x/redis/values.yaml");
    assert_eq!(default_config_path("/tmp/x", &text("x")), Err(Error::IndexShapeInvalid));
}

#[test]
fn merge_status_meanings() {
    assert_eq!(merge_outcome(Some(0)), Ok(MergeOutcome::Clean));
    assert_eq!(merge_outcome(Some(1)), Ok(MergeOutcome::Conflicted));
    assert_eq!(merge_outcome(Some(127)), Ok(MergeOutcome::Conflicted));
    assert_eq!(merge_outcome(Some(128)), Err(Error::MergeIOError));
    assert_eq!(merge_outcome(Some(255)), Err(Error::MergeIOError));
    assert_eq!(merge_outcome(Some(-1)), Err(Error::MergeIOError));
    assert_eq!(merge_outcome(None), Err(Error::MergeToolUnavailable));
}

#[test]
fn scratch_entries_get_fresh_random_names() {
    let a = fresh_entry("/tmp/area");
    let b = fresh_entry("/tmp/area");
    let name = a.strip_prefix("/tmp/area/").unwrap();
    assert_eq!(name.len(), NAME_LEN);
    assert!(name.chars().all(|c| c.is_ascii_alphanumeric()));
    assert_ne!(a, b);
}

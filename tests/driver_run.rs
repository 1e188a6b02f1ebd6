use hmum::driver::{AppRun, Event, Finish, Phase, Step};
use hmum::error::Error;
use hmum::merge::MergeOutcome;
use hmum::model::ReleaseSpec;
use hmum::yaml::Yaml;

fn text(s: &str) -> Yaml {
    Yaml::Str(s.to_string())
}

fn mapping(entries: Vec<(&str, Yaml)>) -> Yaml {
    Yaml::Mapping(entries.into_iter().map(|(k, v)| (text(k), v)).collect())
}

fn record(version: &str, url: &str) -> Yaml {
    mapping(vec![("name", text("nginx")), ("version", text(version)), ("urls", Yaml::Sequence(vec![text(url)]))])
}

fn index(latest: &str) -> Yaml {
    mapping(vec![(
        "entries",
        mapping(vec![(
            "nginx",
            Yaml::Sequence(vec![
                record(latest, "charts/nginx-latest.tgz"),
                record("1.0.0", "https://mirror.example.com/nginx-1.0.0.tgz"),
            ]),
        )]),
    )])
}

fn spec(app: Yaml) -> ReleaseSpec {
    let doc = mapping(vec![
        ("helmRepos", mapping(vec![("stable", text("https://charts.example.com/stable"))])),
        ("apps", mapping(vec![("web", app)])),
    ]);
    ReleaseSpec::load("/srv/spec.yaml", "/srv", &doc).unwrap()
}

fn pinned(chart: &str, version: &str) -> Yaml {
    mapping(vec![("chart", text(chart)), ("version", text(version)), ("valuesFile", text("web.yaml"))])
}

#[test]
fn up_to_date_application_fetches_and_rewrites_nothing() {
    let doc = spec(pinned("stable/nginx", "1.0.0"));
    let (mut run, step) = AppRun::start(&doc, 0);
    assert_eq!(step, Step::ReadIndex { repo: 0 });
    let event = Event::Index(index("1.0.0"));
    assert!(run.awaits(&event));
    assert_eq!(run.on_event(event), Step::Finished(Finish::UpToDate));
    assert_eq!(run.phase, Phase::Done);
}

#[test]
fn untracked_application_is_skipped() {
    let doc = spec(pinned("nginx", "1.0.0"));
    let (run, step) = AppRun::start(&doc, 0);
    assert_eq!(step, Step::Finished(Finish::Skipped));
    assert_eq!(run.phase, Phase::Done);
}

#[test]
fn undeclared_repository_fails() {
    let doc = spec(pinned("other/nginx", "1.0.0"));
    let (_, step) = AppRun::start(&doc, 0);
    assert_eq!(step, Step::Failed(Error::RepositoryUndeclared));
}

#[test]
fn newer_version_with_overlay_goes_through_merge_and_rewrite() {
    let doc = spec(pinned("stable/nginx", "1.0.0"));
    let (mut run, _) = AppRun::start(&doc, 0);
    assert_eq!(
        run.on_event(Event::Index(index("1.1.0"))),
        Step::FetchArchive { url: "https://charts.example.com/stable/charts/nginx-latest.tgz".to_string() }
    );
    assert_eq!(
        run.on_event(Event::Unpacked("/tmp/a".to_string())),
        Step::FetchArchive { url: "https://mirror.example.com/nginx-1.0.0.tgz".to_string() }
    );
    assert_eq!(
        run.on_event(Event::Unpacked("/tmp/b".to_string())),
        Step::Merge {
            overlay: "/srv/web.yaml".to_string(),
            base: "/tmp/b/nginx/values.yaml".to_string(),
            latest: "/tmp/a/nginx/values.yaml".to_string(),
        }
    );
    assert_eq!(
        run.on_event(Event::MergeStatus(Some(1))),
        Step::RewritePin { current: "1.0.0".to_string(), latest: "1.1.0".to_string() }
    );
    let event = Event::Rewritten(Ok(()));
    assert!(run.awaits(&event));
    assert_eq!(run.on_event(event), Step::Finished(Finish::PinRewritten(Some(MergeOutcome::Conflicted))));
}

#[test]
fn newer_version_without_overlay_rewrites_directly() {
    let doc = spec(mapping(vec![("chart", text("stable/nginx")), ("version", text("1.0.0"))]));
    let (mut run, _) = AppRun::start(&doc, 0);
    assert_eq!(
        run.on_event(Event::Index(index("2.0.0"))),
        Step::RewritePin { current: "1.0.0".to_string(), latest: "2.0.0".to_string() }
    );
    assert!(!run.awaits(&Event::Unpacked("/tmp".to_string())));
    assert_eq!(run.on_event(Event::Rewritten(Ok(()))), Step::Finished(Finish::PinRewritten(None)));
}

#[test]
fn failures_end_the_run() {
    let doc = spec(pinned("stable/nginx", "1.0.0"));
    let (mut run, _) = AppRun::start(&doc, 0);
    assert_eq!(run.on_event(Event::Failed(Error::IndexUnreachable)), Step::Failed(Error::IndexUnreachable));
    assert!(!run.awaits(&Event::Failed(Error::IndexUnreachable)));

    let (mut run, _) = AppRun::start(&doc, 0);
    assert_eq!(run.on_event(Event::Index(mapping(vec![]))), Step::Failed(Error::IndexShapeInvalid));

    let (mut run, _) = AppRun::start(&doc, 0);
    run.on_event(Event::Index(index("1.1.0")));
    run.on_event(Event::Unpacked("/tmp/a".to_string()));
    run.on_event(Event::Unpacked("/tmp/b".to_string()));
    assert_eq!(run.on_event(Event::MergeStatus(None)), Step::Failed(Error::MergeToolUnavailable));

    let (mut run, _) = AppRun::start(&doc, 0);
    run.on_event(Event::Index(index("1.1.0")));
    run.on_event(Event::Unpacked("/tmp/a".to_string()));
    run.on_event(Event::Unpacked("/tmp/b".to_string()));
    run.on_event(Event::MergeStatus(Some(0)));
    assert_eq!(
        run.on_event(Event::Rewritten(Err(Error::AmbiguousVersionPin))),
        Step::Failed(Error::AmbiguousVersionPin)
    );
}

#[test]
fn pinned_version_missing_from_index_fails() {
    let doc = spec(pinned("stable/nginx", "0.9.0"));
    let (mut run, _) = AppRun::start(&doc, 0);
    run.on_event(Event::Index(index("1.1.0")));
    assert_eq!(run.on_event(Event::Unpacked("/tmp/a".to_string())), Step::Failed(Error::VersionNotFound));
}

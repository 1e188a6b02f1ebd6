//! The release-spec document: its repositories and applications, and how
//! they are read from the document's tree.
use vstd::prelude::*;
use crate::error::Error;
use crate::support::{
    chars_of, join_path, join_url, opt_view, parse_url, path_join_text, regex_is_match,
    regex_match, url_join_text, url_parse_text,
};
use crate::yaml::{field, text_field, text_of, Yaml};

verus! {

/// A chart declaration must have this shape: a repository name and a chart name.
pub const CHART_REF_PATTERN: &'static str = r"^[\w-]+/[\w-]+$";

/// The repository index, relative to the repository's base URL.
pub const INDEX_FILE: &'static str = "index.yaml";

/// The repository and chart that an application tracks.
#[derive(Debug, PartialEq, Eq)]
pub struct ChartRef {
    pub repo: String,
    pub chart: String,
}

pub struct ChartRefView {
    pub repo: Seq<char>,
    pub chart: Seq<char>,
}

impl View for ChartRef {
    type V = ChartRefView;

    open spec fn view(&self) -> ChartRefView {
        ChartRefView { repo: self.repo@, chart: self.chart@ }
    }
}

/// A chart repository that a document declares.
#[derive(Debug, PartialEq, Eq)]
pub struct Repo {
    pub name: String,
    /// The base URL, ending in a slash, as the URL parser writes it.
    pub url: String,
    /// Where the repository publishes its index.
    pub index_url: String,
}

pub struct RepoView {
    pub name: Seq<char>,
    pub url: Seq<char>,
    pub index_url: Seq<char>,
}

impl View for Repo {
    type V = RepoView;

    open spec fn view(&self) -> RepoView {
        RepoView { name: self.name@, url: self.url@, index_url: self.index_url@ }
    }
}

/// An application that a document declares.
#[derive(Debug, PartialEq, Eq)]
pub struct App {
    pub name: String,
    /// Absent when the declaration does not have the `repo/chart` shape:
    /// the application is then not tracked.
    pub chart: Option<ChartRef>,
    pub current_version: String,
    /// The operator's configuration overlay, when declared and present on disk.
    pub overlay_path: Option<String>,
}

pub struct AppView {
    pub name: Seq<char>,
    pub chart: Option<ChartRefView>,
    pub current_version: Seq<char>,
    pub overlay_path: Option<Seq<char>>,
}

impl View for App {
    type V = AppView;

    open spec fn view(&self) -> AppView {
        AppView {
            name: self.name@,
            chart: match self.chart {
                Some(c) => Some(c@),
                None => None,
            },
            current_version: self.current_version@,
            overlay_path: opt_view(self.overlay_path),
        }
    }
}

/// A loaded release-spec document.
#[derive(Debug, PartialEq, Eq)]
pub struct ReleaseSpec {
    pub path: String,
    pub repos: Vec<Repo>,
    pub apps: Vec<App>,
}

pub struct ReleaseSpecView {
    pub path: Seq<char>,
    pub repos: Seq<RepoView>,
    pub apps: Seq<AppView>,
}

impl View for ReleaseSpec {
    type V = ReleaseSpecView;

    open spec fn view(&self) -> ReleaseSpecView {
        ReleaseSpecView {
            path: self.path@,
            repos: self.repos@.map_values(|r: Repo| r@),
            apps: self.apps@.map_values(|a: App| a@),
        }
    }
}

// ----- what loading yields -----

/// The outcome of each of `n` steps, or the first failure among them.
pub open spec fn collect_all<T>(f: spec_fn(int) -> Result<T, Error>, n: nat) -> Result<Seq<T>, Error>
    decreases n,
{
    if n == 0 {
        Ok(Seq::empty())
    } else {
        match collect_all(f, (n - 1) as nat) {
            Err(e) => Err(e),
            Ok(done) => match f(n - 1) {
                Err(e) => Err(e),
                Ok(x) => Ok(done.push(x)),
            },
        }
    }
}

pub proof fn lemma_collect_all_failure_stays<T>(f: spec_fn(int) -> Result<T, Error>, n: nat, m: nat)
    requires
        n <= m,
        collect_all(f, n) is Err,
    ensures
        collect_all(f, m) == collect_all(f, n),
    decreases m,
{
    if n < m {
        lemma_collect_all_failure_stays(f, n, (m - 1) as nat);
    }
}

pub proof fn lemma_collect_all_len<T>(f: spec_fn(int) -> Result<T, Error>, n: nat)
    requires
        collect_all(f, n) is Ok,
    ensures
        collect_all(f, n)->Ok_0.len() == n,
        forall|i: int| 0 <= i < n ==> f(i) == Ok::<T, Error>(#[trigger] collect_all(f, n)->Ok_0[i]),
    decreases n,
{
    if n > 0 {
        lemma_collect_all_len(f, (n - 1) as nat);
    }
}

/// `k` is the position of the first slash of `s`.
pub open spec fn first_slash_at(s: Seq<char>, k: int) -> bool {
    &&& 0 <= k < s.len()
    &&& s[k] == '/'
    &&& forall|j: int| 0 <= j < k ==> s[j] != '/'
}

/// The repository and chart of a declaration, split at its first slash,
/// given whether it matched [`CHART_REF_PATTERN`]; none when it did not, or
/// when it has no slash.
pub open spec fn chart_ref_given(decl: Seq<char>, matched: Option<bool>) -> Option<ChartRefView> {
    if matched == Some(true) && exists|k: int| first_slash_at(decl, k) {
        let k = choose|k: int| first_slash_at(decl, k);
        Some(ChartRefView { repo: decl.subrange(0, k), chart: decl.subrange(k + 1, decl.len() as int) })
    } else {
        None
    }
}

/// The repository and chart of a `repo/chart` declaration; none when the
/// declaration does not match [`CHART_REF_PATTERN`].
pub open spec fn chart_ref_of(decl: Seq<char>) -> Option<ChartRefView> {
    chart_ref_given(decl, regex_match(CHART_REF_PATTERN@, decl))
}

/// The base URL text with a trailing slash.
pub open spec fn with_trailing_slash(s: Seq<char>) -> Seq<char> {
    if s.len() > 0 && s.last() == '/' {
        s
    } else {
        s.push('/')
    }
}

/// The repository declared by one entry of `helmRepos`.
pub open spec fn repo_of(key: Yaml, value: Yaml) -> Result<RepoView, Error> {
    match (text_of(key), text_of(value)) {
        (Some(name), Some(raw)) => match url_parse_text(with_trailing_slash(raw)) {
            None => Err(Error::DocumentMalformed),
            Some(url) => match url_join_text(url, INDEX_FILE@) {
                None => Err(Error::DocumentMalformed),
                Some(index_url) => Ok(RepoView { name, url, index_url }),
            },
        },
        _ => Err(Error::DocumentMalformed),
    }
}

/// The overlay path that an application declares, as written: `valuesFile`,
/// or else the first of `valuesFiles`.
pub open spec fn overlay_decl(value: Yaml) -> Result<Option<Seq<char>>, Error> {
    match field(value, "valuesFile"@) {
        Some(f) => match text_of(f) {
            Some(t) => Ok(Some(t)),
            None => Err(Error::DocumentMalformed),
        },
        None => match field(value, "valuesFiles"@) {
            None => Ok(None),
            Some(Yaml::Sequence(items)) => if items@.len() == 0 {
                Err(Error::DocumentMalformed)
            } else {
                match text_of(items@[0]) {
                    Some(t) => Ok(Some(t)),
                    None => Err(Error::DocumentMalformed),
                }
            },
            Some(_) => Err(Error::DocumentMalformed),
        },
    }
}

/// The application declared by one entry of `apps`, with overlay paths
/// taken relative to the directory `dir`.
pub open spec fn app_of(key: Yaml, value: Yaml, dir: Seq<char>) -> Result<AppView, Error> {
    match text_of(key) {
        None => Err(Error::DocumentMalformed),
        Some(name) => if !(value is Mapping) {
            Err(Error::DocumentMalformed)
        } else {
            match text_field(value, "chart"@) {
                None => Err(Error::DocumentMalformed),
                Some(decl) => match text_field(value, "version"@) {
                    None => Err(Error::DocumentMalformed),
                    Some(version) => match overlay_decl(value) {
                        Err(e) => Err(e),
                        Ok(ov) => Ok(AppView {
                            name,
                            chart: chart_ref_of(decl),
                            current_version: version,
                            overlay_path: match ov {
                                Some(rel) => Some(path_join_text(dir, rel)),
                                None => None,
                            },
                        }),
                    },
                },
            }
        }
    }
}

pub open spec fn repos_of(entries: Seq<(Yaml, Yaml)>, n: nat) -> Result<Seq<RepoView>, Error> {
    collect_all(|i: int| repo_of(entries[i].0, entries[i].1), n)
}

pub open spec fn apps_of(entries: Seq<(Yaml, Yaml)>, dir: Seq<char>, n: nat) -> Result<Seq<AppView>, Error> {
    collect_all(|i: int| app_of(entries[i].0, entries[i].1, dir), n)
}

/// No two repositories share a name.
pub open spec fn names_unique(repos: Seq<RepoView>) -> bool {
    forall|i: int, j: int| 0 <= i < j < repos.len() ==> #[trigger] repos[i].name != #[trigger] repos[j].name
}

/// The repositories of a document: none when it has no `helmRepos`.
pub open spec fn declared_repos(doc: Yaml) -> Result<Seq<RepoView>, Error> {
    match field(doc, "helmRepos"@) {
        None => Ok(Seq::empty()),
        Some(Yaml::Mapping(entries)) => match repos_of(entries@, entries@.len()) {
            Err(e) => Err(e),
            Ok(repos) => if names_unique(repos) {
                Ok(repos)
            } else {
                Err(Error::DocumentMalformed)
            },
        },
        Some(_) => Err(Error::DocumentMalformed),
    }
}

/// The applications of a document, in document order.
pub open spec fn declared_apps(doc: Yaml, dir: Seq<char>) -> Result<Seq<AppView>, Error> {
    match field(doc, "apps"@) {
        Some(Yaml::Mapping(entries)) => apps_of(entries@, dir, entries@.len()),
        _ => Err(Error::DocumentMalformed),
    }
}

/// What loading the document `doc`, read from `path` in directory `dir`, yields.
pub open spec fn loaded(path: Seq<char>, dir: Seq<char>, doc: Yaml) -> Result<ReleaseSpecView, Error> {
    match declared_repos(doc) {
        Err(e) => Err(e),
        Ok(repos) => match declared_apps(doc, dir) {
            Err(e) => Err(e),
            Ok(apps) => Ok(ReleaseSpecView { path, repos, apps }),
        },
    }
}

pub open spec fn result_view<T: View>(r: Result<T, Error>) -> Result<T::V, Error> {
    match r {
        Ok(x) => Ok(x@),
        Err(e) => Err(e),
    }
}

pub open spec fn chart_view(c: Option<ChartRef>) -> Option<ChartRefView> {
    match c {
        Some(c) => Some(c@),
        None => None,
    }
}

pub open spec fn repos_view(v: Seq<Repo>) -> Seq<RepoView> {
    v.map_values(|r: Repo| r@)
}

pub open spec fn apps_view(v: Seq<App>) -> Seq<AppView> {
    v.map_values(|a: App| a@)
}

// ----- loading -----

/// Splits a `repo/chart` declaration; none when it does not have that shape.
pub fn parse_chart_ref(decl: &str) -> (r: Option<ChartRef>)
    ensures
        chart_view(r) == chart_ref_of(decl@),
{
    let matched = regex_is_match(CHART_REF_PATTERN, decl);
    split_chart_ref(decl, matched)
}

/// Splits a declaration at its first slash, given whether it matched
/// [`CHART_REF_PATTERN`] (none when the pattern did not compile).
pub fn split_chart_ref(decl: &str, matched: Option<bool>) -> (r: Option<ChartRef>)
    ensures
        chart_view(r) == chart_ref_given(decl@, matched),
{
    match matched {
        Some(true) => {},
        _ => return None,
    }
    let n = decl.unicode_len();
    let mut k: usize = 0;
    while k < n
        invariant
            matched == Some(true),
            n == decl@.len(),
            0 <= k <= n,
            forall|j: int| 0 <= j < k ==> decl@[j] != '/',
        decreases n - k,
    {
        if decl.get_char(k) == '/' {
            proof {
                assert(first_slash_at(decl@, k as int));
                let c = choose|c: int| first_slash_at(decl@, c);
                if c < k {
                    assert(decl@[c] != '/');
                } else if k < c {
                    assert(decl@[k as int] != '/');
                }
            }
            let repo = String::from_str(decl.substring_char(0, k));
            let chart = String::from_str(decl.substring_char(k + 1, n));
            return Some(ChartRef { repo, chart });
        }
        k = k + 1;
    }
    proof {
        assert forall|c: int| !first_slash_at(decl@, c) by {
            if 0 <= c < decl@.len() {
                assert(decl@[c] != '/');
            }
        }
    }
    None
}

/// Reads one entry of `helmRepos`: a name and a base URL.
pub fn repo_from_entry(key: &Yaml, value: &Yaml) -> (r: Result<Repo, Error>)
    ensures
        result_view(r) == repo_of(*key, *value),
{
    let name = match key.as_text() {
        Some(s) => s.clone(),
        None => return Err(Error::DocumentMalformed),
    };
    let raw = match value.as_text() {
        Some(s) => s,
        None => return Err(Error::DocumentMalformed),
    };
    let n = raw.as_str().unicode_len();
    let base = if n > 0 && raw.as_str().get_char(n - 1) == '/' {
        raw.clone()
    } else {
        let mut t = raw.clone();
        t.append("/");
        proof {
            reveal_strlit("/");
        }
        t
    };
    assert(base@ == with_trailing_slash(raw@));
    let url = match parse_url(base.as_str()) {
        Some(u) => u,
        None => return Err(Error::DocumentMalformed),
    };
    let index_url = match join_url(url.as_str(), INDEX_FILE) {
        Some(u) => u,
        None => return Err(Error::DocumentMalformed),
    };
    Ok(Repo { name, url, index_url })
}

/// The overlay path that an application declares, as written.
pub fn overlay_from(value: &Yaml) -> (r: Result<Option<&String>, Error>)
    ensures
        r is Ok <==> overlay_decl(*value) is Ok,
        r matches Err(e) ==> overlay_decl(*value) == Err::<Option<Seq<char>>, Error>(e),
        r matches Ok(o) ==> overlay_decl(*value) == Ok::<Option<Seq<char>>, Error>(
            match o {
                Some(s) => Some(s@),
                None => None,
            },
        ),
{
    match value.get("valuesFile") {
        Some(f) => match f.as_text() {
            Some(t) => Ok(Some(t)),
            None => Err(Error::DocumentMalformed),
        },
        None => match value.get("valuesFiles") {
            None => Ok(None),
            Some(files) => match files.as_seq() {
                None => Err(Error::DocumentMalformed),
                Some(items) => {
                    if items.len() == 0 {
                        Err(Error::DocumentMalformed)
                    } else {
                        match items[0].as_text() {
                            Some(t) => Ok(Some(t)),
                            None => Err(Error::DocumentMalformed),
                        }
                    }
                },
            },
        },
    }
}

/// Reads one entry of `apps`; overlay paths are taken relative to `dir`.
pub fn app_from_entry(key: &Yaml, value: &Yaml, dir: &str) -> (r: Result<App, Error>)
    ensures
        result_view(r) == app_of(*key, *value, dir@),
{
    let name = match key.as_text() {
        Some(s) => s.clone(),
        None => return Err(Error::DocumentMalformed),
    };
    if value.as_map().is_none() {
        return Err(Error::DocumentMalformed);
    }
    let decl = match value.text_at("chart") {
        Some(s) => s,
        None => return Err(Error::DocumentMalformed),
    };
    let version = match value.text_at("version") {
        Some(s) => s.clone(),
        None => return Err(Error::DocumentMalformed),
    };
    let overlay_path = match overlay_from(value) {
        Err(e) => return Err(e),
        Ok(Some(rel)) => Some(join_path(dir, rel.as_str())),
        Ok(None) => None,
    };
    let chart = parse_chart_ref(decl.as_str());
    Ok(App { name, chart, current_version: version, overlay_path })
}

/// Reads every entry of `helmRepos`, in order; fails on the first bad one.
pub fn repos_from_entries(entries: &Vec<(Yaml, Yaml)>) -> (r: Result<Vec<Repo>, Error>)
    ensures
        r matches Ok(v) ==> repos_of(entries@, entries@.len()) == Ok::<Seq<RepoView>, Error>(repos_view(v@)),
        r matches Err(e) ==> repos_of(entries@, entries@.len()) == Err::<Seq<RepoView>, Error>(e),
{
    let ghost f = |i: int| repo_of(entries@[i].0, entries@[i].1);
    let mut out: Vec<Repo> = Vec::new();
    let mut i: usize = 0;
    assert(repos_view(out@) =~= Seq::<RepoView>::empty());
    while i < entries.len()
        invariant
            0 <= i <= entries@.len(),
            f == (|i: int| repo_of(entries@[i].0, entries@[i].1)),
            collect_all(f, i as nat) == Ok::<Seq<RepoView>, Error>(repos_view(out@)),
        decreases entries@.len() - i,
    {
        match repo_from_entry(&entries[i].0, &entries[i].1) {
            Err(e) => {
                proof {
                    lemma_collect_all_failure_stays(f, (i + 1) as nat, entries@.len());
                }
                return Err(e);
            },
            Ok(repo) => {
                let ghost before = out@;
                let ghost item = repo;
                out.push(repo);
                proof {
                    assert(repos_view(out@) =~= repos_view(before).push(item@)) by {
                        assert(out@ =~= before.push(item));
                    }
                }
            },
        }
        i = i + 1;
    }
    Ok(out)
}

/// Reads every entry of `apps`, in order; fails on the first bad one.
pub fn apps_from_entries(entries: &Vec<(Yaml, Yaml)>, dir: &str) -> (r: Result<Vec<App>, Error>)
    ensures
        r matches Ok(v) ==> apps_of(entries@, dir@, entries@.len()) == Ok::<Seq<AppView>, Error>(apps_view(v@)),
        r matches Err(e) ==> apps_of(entries@, dir@, entries@.len()) == Err::<Seq<AppView>, Error>(e),
{
    let ghost f = |i: int| app_of(entries@[i].0, entries@[i].1, dir@);
    let mut out: Vec<App> = Vec::new();
    let mut i: usize = 0;
    assert(apps_view(out@) =~= Seq::<AppView>::empty());
    while i < entries.len()
        invariant
            0 <= i <= entries@.len(),
            f == (|i: int| app_of(entries@[i].0, entries@[i].1, dir@)),
            collect_all(f, i as nat) == Ok::<Seq<AppView>, Error>(apps_view(out@)),
        decreases entries@.len() - i,
    {
        match app_from_entry(&entries[i].0, &entries[i].1, dir) {
            Err(e) => {
                proof {
                    lemma_collect_all_failure_stays(f, (i + 1) as nat, entries@.len());
                }
                return Err(e);
            },
            Ok(app) => {
                let ghost before = out@;
                let ghost item = app;
                out.push(app);
                proof {
                    assert(apps_view(out@) =~= apps_view(before).push(item@)) by {
                        assert(out@ =~= before.push(item));
                    }
                }
            },
        }
        i = i + 1;
    }
    Ok(out)
}

/// Whether no two repositories share a name.
pub fn repo_names_unique(repos: &Vec<Repo>) -> (r: bool)
    ensures
        r == names_unique(repos_view(repos@)),
{
    let ghost v = repos_view(repos@);
    let mut j: usize = 0;
    while j < repos.len()
        invariant
            v == repos_view(repos@),
            0 <= j <= repos@.len(),
            forall|a: int, b: int| 0 <= a < b < j ==> #[trigger] v[a].name != #[trigger] v[b].name,
        decreases repos@.len() - j,
    {
        let mut i: usize = 0;
        while i < j
            invariant
                v == repos_view(repos@),
                0 <= i <= j < repos@.len(),
                forall|a: int| 0 <= a < i ==> #[trigger] v[a].name != v[j as int].name,
            decreases j - i,
        {
            if repos[i].name == repos[j].name {
                assert(v[i as int].name == v[j as int].name);
                return false;
            }
            i = i + 1;
        }
        j = j + 1;
    }
    true
}

impl ReleaseSpec {
    /// Loads the repositories and applications of the document `doc`, which
    /// was read from `path` in the directory `dir`. An application's overlay
    /// path is taken relative to `dir`; whether it exists is settled by
    /// [`ReleaseSpec::keep_present_overlays`].
    pub fn load(path: &str, dir: &str, doc: &Yaml) -> (r: Result<ReleaseSpec, Error>)
        ensures
            result_view(r) == loaded(path@, dir@, *doc),
            r matches Ok(s) ==> s.wf(),
    {
        let repos = match doc.get("helmRepos") {
            None => Vec::new(),
            Some(section) => match section.as_map() {
                None => return Err(Error::DocumentMalformed),
                Some(entries) => match repos_from_entries(entries) {
                    Err(e) => return Err(e),
                    Ok(repos) => {
                        if !repo_names_unique(&repos) {
                            return Err(Error::DocumentMalformed);
                        }
                        repos
                    },
                },
            },
        };
        assert(declared_repos(*doc) == Ok::<Seq<RepoView>, Error>(repos_view(repos@))) by {
            if field(*doc, "helmRepos"@) is None {
                assert(repos_view(repos@) =~= Seq::<RepoView>::empty());
            }
        }
        let apps = match doc.get("apps") {
            None => return Err(Error::DocumentMalformed),
            Some(section) => match section.as_map() {
                None => return Err(Error::DocumentMalformed),
                Some(entries) => match apps_from_entries(entries, dir) {
                    Err(e) => return Err(e),
                    Ok(apps) => apps,
                },
            },
        };
        Ok(ReleaseSpec { path: String::from_str(path), repos, apps })
    }

    /// Repository names are unique.
    pub open spec fn wf(&self) -> bool {
        names_unique(self@.repos)
    }

    /// Drops the overlay path of each application whose overlay file is not
    /// present: `present[i]` tells whether the `i`-th application's is.
    pub fn keep_present_overlays(&mut self, present: &Vec<bool>)
        requires
            present@.len() == old(self).apps@.len(),
        ensures
            final(self).path == old(self).path,
            final(self).repos == old(self).repos,
            final(self)@.apps.len() == old(self)@.apps.len(),
            forall|i: int| 0 <= i < present@.len() ==> (#[trigger] final(self)@.apps[i]) == (AppView {
                overlay_path: if present@[i] { old(self)@.apps[i].overlay_path } else { None },
                ..old(self)@.apps[i]
            }),
    {
        let mut i: usize = 0;
        while i < present.len()
            invariant
                0 <= i <= present@.len(),
                present@.len() == self.apps@.len(),
                self.path == old(self).path,
                self.repos == old(self).repos,
                self.apps@.len() == old(self).apps@.len(),
                forall|j: int| 0 <= j < present@.len() ==> (#[trigger] self@.apps[j]) == (if j < i {
                    AppView {
                        overlay_path: if present@[j] { old(self)@.apps[j].overlay_path } else { None },
                        ..old(self)@.apps[j]
                    }
                } else {
                    old(self)@.apps[j]
                }),
            decreases present@.len() - i,
        {
            let ghost before = self.apps@;
            let ghost before_view = self@.apps;
            assert(self@.apps[i as int] == old(self)@.apps[i as int]);
            if !present[i] {
                let app = &self.apps[i];
                let chart = match &app.chart {
                    Some(c) => Some(ChartRef { repo: c.repo.clone(), chart: c.chart.clone() }),
                    None => None,
                };
                let without = App {
                    name: app.name.clone(),
                    chart,
                    current_version: app.current_version.clone(),
                    overlay_path: None,
                };
                self.apps.set(i, without);
            }
            proof {
                assert forall|j: int| 0 <= j < present@.len() implies (#[trigger] self@.apps[j]) == (if j < i + 1 {
                    AppView {
                        overlay_path: if present@[j] { old(self)@.apps[j].overlay_path } else { None },
                        ..old(self)@.apps[j]
                    }
                } else {
                    old(self)@.apps[j]
                }) by {
                    if j != i {
                        assert(self.apps@[j] == before[j]);
                        assert(before_view[j] == before[j]@);
                    }
                }
            }
            i = i + 1;
        }
    }
}

/// Loading is a function of the document: two loads of one document yield
/// the same repositories and applications, each in the order in which the
/// document lists them.
pub proof fn law_load_is_deterministic(
    path: Seq<char>,
    dir: Seq<char>,
    doc: Yaml,
    first: ReleaseSpecView,
    second: ReleaseSpecView,
)
    requires
        loaded(path, dir, doc) == Ok::<ReleaseSpecView, Error>(first),
        loaded(path, dir, doc) == Ok::<ReleaseSpecView, Error>(second),
    ensures
        first == second,
        field(doc, "apps"@) matches Some(Yaml::Mapping(entries)) && first.apps.len() == entries@.len()
            && forall|i: int| 0 <= i < entries@.len() ==> text_of(#[trigger] entries@[i].0) == Some(first.apps[i].name),
        field(doc, "helmRepos"@) matches Some(Yaml::Mapping(entries)) ==> first.repos.len() == entries@.len()
            && forall|i: int| 0 <= i < entries@.len() ==> text_of(#[trigger] entries@[i].0) == Some(first.repos[i].name),
{
    let apps = field(doc, "apps"@)->0;
    let entries = apps->Mapping_0;
    let f = |i: int| app_of(entries@[i].0, entries@[i].1, dir);
    lemma_collect_all_len(f, entries@.len());
    assert forall|i: int| 0 <= i < entries@.len() implies text_of(#[trigger] entries@[i].0) == Some(first.apps[i].name) by {
        assert(f(i) == Ok::<AppView, Error>(first.apps[i]));
    }
    if field(doc, "helmRepos"@) is Some && field(doc, "helmRepos"@)->0 is Mapping {
        let repo_entries = field(doc, "helmRepos"@)->0->Mapping_0;
        let g = |i: int| repo_of(repo_entries@[i].0, repo_entries@[i].1);
        lemma_collect_all_len(g, repo_entries@.len());
        assert forall|i: int| 0 <= i < repo_entries@.len() implies text_of(#[trigger] repo_entries@[i].0) == Some(first.repos[i].name) by {
            assert(g(i) == Ok::<RepoView, Error>(first.repos[i]));
        }
    }
}

/// An application whose chart declaration has no slash, or does not match
/// [`CHART_REF_PATTERN`], is loaded without a repository and chart.
pub proof fn law_unshaped_chart_is_untracked(key: Yaml, value: Yaml, dir: Seq<char>, app: AppView)
    requires
        app_of(key, value, dir) == Ok::<AppView, Error>(app),
        text_field(value, "chart"@) matches Some(decl) && (regex_match(CHART_REF_PATTERN@, decl) != Some(true)
            || forall|k: int| 0 <= k < decl.len() ==> decl[k] != '/'),
    ensures
        app.chart is None,
{
    let decl = text_field(value, "chart"@)->0;
    if exists|k: int| first_slash_at(decl, k) {
        let k = choose|k: int| first_slash_at(decl, k);
        assert(decl[k] == '/');
    }
}

} // verus!

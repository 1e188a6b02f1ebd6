//! The decisions that bring one application's pin up to date, as a state
//! machine: the caller performs each step it is handed (reading an index,
//! fetching an archive, merging, rewriting the document) and reports back.
use vstd::prelude::*;
use crate::archive::{archive_url, archive_url_of, default_config_of, default_config_path};
use crate::error::Error;
use crate::index::{latest_of, latest_version, record_for, record_version, version_of, version_record};
use crate::merge::{merge_outcome, outcome_of, MergeOutcome};
use crate::model::{ReleaseSpec, Repo};
use crate::support::opt_view;
use crate::yaml::Yaml;

verus! {

/// How an application's run ended without error.
#[derive(Clone, Copy, Debug, PartialEq, Eq, Structural)]
pub enum Finish {
    /// The application does not track a chart.
    Skipped,
    /// The index's latest version is the pinned one.
    UpToDate,
    /// The pin was rewritten, after a merge when the application has an overlay.
    PinRewritten(Option<MergeOutcome>),
}

/// What the caller is to do next.
#[derive(Debug, PartialEq, Eq)]
pub enum Step {
    /// Read and parse the cached index of the document's repository `repo`;
    /// report [`Event::Index`].
    ReadIndex { repo: usize },
    /// Fetch the chart archive at `url` and unpack it into a fresh directory;
    /// report [`Event::Unpacked`].
    FetchArchive { url: String },
    /// Merge, into the overlay, the change from the `base` default
    /// configuration to the `latest` one; report [`Event::MergeStatus`].
    Merge { overlay: String, base: String, latest: String },
    /// Set the document's pin of `current` to `latest` with
    /// [`crate::rewrite::rewrite_version`]; report [`Event::Rewritten`].
    RewritePin { current: String, latest: String },
    /// The run is over.
    Finished(Finish),
    /// The run failed; nothing further is to be done.
    Failed(Error),
}

/// What the caller reports after performing a step.
#[derive(Debug, PartialEq, Eq)]
pub enum Event {
    Index(Yaml),
    /// The directory that the archive was unpacked into.
    Unpacked(String),
    /// The merge tool's exit status; none when it could not be started.
    MergeStatus(Option<i32>),
    Rewritten(Result<(), Error>),
    /// The step could not be performed.
    Failed(Error),
}

/// Where a run stands, with what it has learnt so far.
#[derive(Debug, PartialEq, Eq)]
pub enum Phase {
    AwaitIndex,
    AwaitLatestArchive { index: Yaml, latest: String, overlay: String },
    AwaitBaseArchive { index: Yaml, latest: String, overlay: String, latest_default: String },
    AwaitMerge { latest: String },
    AwaitRewrite { latest: String, merged: Option<MergeOutcome> },
    Done,
}

/// One application's run.
#[derive(Debug, PartialEq, Eq)]
pub struct AppRun {
    pub chart: String,
    pub current: String,
    pub overlay: Option<String>,
    pub repo_url: String,
    pub phase: Phase,
}

/// The position of the repository named `name`, if the document declares it.
pub fn find_repo(repos: &Vec<Repo>, name: &String) -> (r: Option<usize>)
    ensures
        r matches Some(k) ==> k < repos@.len() && repos@[k as int].name@ == name@,
        r is None ==> forall|k: int| 0 <= k < repos@.len() ==> (#[trigger] repos@[k]).name@ != name@,
{
    let mut k: usize = 0;
    while k < repos.len()
        invariant
            0 <= k <= repos@.len(),
            forall|j: int| 0 <= j < k ==> (#[trigger] repos@[j]).name@ != name@,
        decreases repos@.len() - k,
    {
        if repos[k].name == *name {
            return Some(k);
        }
        k = k + 1;
    }
    None
}

impl AppRun {
    /// Starts the run of the document's application `app`: skipped when it
    /// tracks no chart, failed when its repository is not declared, else
    /// waiting for that repository's index.
    pub fn start(doc: &ReleaseSpec, app: usize) -> (r: (AppRun, Step))
        requires
            app < doc.apps@.len(),
        ensures
            ({
                let a = doc.apps@[app as int];
                match a.chart {
                    None => r.1 == Step::Finished(Finish::Skipped) && r.0.phase is Done,
                    Some(c) => if exists|k: int| 0 <= k < doc.repos@.len() && (#[trigger] doc.repos@[k]).name@ == c.repo@ {
                        &&& r.1 matches Step::ReadIndex { repo } && repo < doc.repos@.len()
                            && doc.repos@[repo as int].name@ == c.repo@
                            && r.0.repo_url@ == doc.repos@[repo as int].url@
                        &&& r.0.phase is AwaitIndex
                        &&& r.0.chart@ == c.chart@
                        &&& r.0.current@ == a.current_version@
                        &&& opt_view(r.0.overlay) == opt_view(a.overlay_path)
                    } else {
                        r.1 == Step::Failed(Error::RepositoryUndeclared) && r.0.phase is Done
                    },
                }
            }),
    {
        let a = &doc.apps[app];
        let overlay = match &a.overlay_path {
            Some(p) => Some(p.clone()),
            None => None,
        };
        let c = match &a.chart {
            None => {
                let run = AppRun {
                    chart: String::new(),
                    current: a.current_version.clone(),
                    overlay,
                    repo_url: String::new(),
                    phase: Phase::Done,
                };
                return (run, Step::Finished(Finish::Skipped));
            },
            Some(c) => c,
        };
        match find_repo(&doc.repos, &c.repo) {
            None => {
                let run = AppRun {
                    chart: c.chart.clone(),
                    current: a.current_version.clone(),
                    overlay,
                    repo_url: String::new(),
                    phase: Phase::Done,
                };
                (run, Step::Failed(Error::RepositoryUndeclared))
            },
            Some(k) => {
                let run = AppRun {
                    chart: c.chart.clone(),
                    current: a.current_version.clone(),
                    overlay,
                    repo_url: doc.repos[k].url.clone(),
                    phase: Phase::AwaitIndex,
                };
                (run, Step::ReadIndex { repo: k })
            },
        }
    }
}

/// Whether a run in `phase` awaits `event`: a failure is awaited by any run
/// that is not over, anything else by the phase that asked for it.
pub open spec fn awaits(phase: Phase, event: Event) -> bool {
    match event {
        Event::Failed(_) => !(phase is Done),
        Event::Index(_) => phase is AwaitIndex,
        Event::Unpacked(_) => phase is AwaitLatestArchive || phase is AwaitBaseArchive,
        Event::MergeStatus(_) => phase is AwaitMerge,
        Event::Rewritten(_) => phase is AwaitRewrite,
    }
}

/// The step after the index arrived: up to date when its latest version of the
/// chart is the pinned one, else on to the archive (with an overlay) or the pin.
pub open spec fn after_index(run: AppRun, index: Yaml, step: Step, next: Phase) -> bool {
    match latest_of(index, run.chart@) {
        Err(e) => step == Step::Failed(e),
        Ok(record) => match record_version(record) {
            None => step == Step::Failed(Error::IndexShapeInvalid),
            Some(v) => if v == run.current@ {
                step == Step::Finished(Finish::UpToDate)
            } else {
                match run.overlay {
                    None => {
                        &&& step matches Step::RewritePin { current, latest } && current@ == run.current@
                            && latest@ == v
                        &&& next matches Phase::AwaitRewrite { latest, merged } && latest@ == v && merged is None
                    },
                    Some(ov) => match archive_url_of(record, run.repo_url@) {
                        Err(e) => step == Step::Failed(e),
                        Ok(u) => {
                            &&& step matches Step::FetchArchive { url } && url@ == u
                            &&& next matches Phase::AwaitLatestArchive { index: i, latest, overlay } && i == index
                                && latest@ == v && overlay@ == ov@
                        },
                    },
                }
            },
        },
    }
}

/// The step after the latest version's archive was unpacked into `dir`.
pub open spec fn after_latest_archive(run: AppRun, index: Yaml, latest: Seq<char>, overlay: Seq<char>, dir: Seq<char>, step: Step, next: Phase) -> bool {
    match latest_of(index, run.chart@) {
        Err(e) => step == Step::Failed(e),
        Ok(record) => match default_config_of(dir, record) {
            Err(e) => step == Step::Failed(e),
            Ok(latest_default) => match record_for(index, run.chart@, run.current@) {
                Err(e) => step == Step::Failed(e),
                Ok(base) => match archive_url_of(base, run.repo_url@) {
                    Err(e) => step == Step::Failed(e),
                    Ok(u) => {
                        &&& step matches Step::FetchArchive { url } && url@ == u
                        &&& next matches Phase::AwaitBaseArchive { index: i, latest: l, overlay: o, latest_default: d }
                            && i == index && l@ == latest && o@ == overlay && d@ == latest_default
                    },
                },
            },
        },
    }
}

/// The step after the pinned version's archive was unpacked into `dir`.
pub open spec fn after_base_archive(run: AppRun, index: Yaml, latest: Seq<char>, overlay: Seq<char>, latest_default: Seq<char>, dir: Seq<char>, step: Step, next: Phase) -> bool {
    match record_for(index, run.chart@, run.current@) {
        Err(e) => step == Step::Failed(e),
        Ok(base) => match default_config_of(dir, base) {
            Err(e) => step == Step::Failed(e),
            Ok(base_default) => {
                &&& step matches Step::Merge { overlay: o, base: b, latest: l } && o@ == overlay
                    && b@ == base_default && l@ == latest_default
                &&& next matches Phase::AwaitMerge { latest: l } && l@ == latest
            },
        },
    }
}

/// The step after the merge tool exited with `status`.
pub open spec fn after_merge(run: AppRun, latest: Seq<char>, status: Option<i32>, step: Step, next: Phase) -> bool {
    match outcome_of(status) {
        Err(e) => step == Step::Failed(e),
        Ok(o) => {
            &&& step matches Step::RewritePin { current, latest: l } && current@ == run.current@ && l@ == latest
            &&& next matches Phase::AwaitRewrite { latest: l, merged } && l@ == latest && merged == Some(o)
        },
    }
}

/// The step after the pin was rewritten, or failed to be.
pub open spec fn after_rewrite(merged: Option<MergeOutcome>, outcome: Result<(), Error>, step: Step) -> bool {
    match outcome {
        Ok(()) => step == Step::Finished(Finish::PinRewritten(merged)),
        Err(e) => step == Step::Failed(e),
    }
}

impl AppRun {
    /// Whether the run awaits `event`.
    pub fn awaits(&self, event: &Event) -> (r: bool)
        ensures
            r == awaits(self.phase, *event),
    {
        match event {
            Event::Failed(_) => !matches!(self.phase, Phase::Done),
            Event::Index(_) => matches!(self.phase, Phase::AwaitIndex),
            Event::Unpacked(_) => matches!(self.phase, Phase::AwaitLatestArchive { .. })
                || matches!(self.phase, Phase::AwaitBaseArchive { .. }),
            Event::MergeStatus(_) => matches!(self.phase, Phase::AwaitMerge { .. }),
            Event::Rewritten(_) => matches!(self.phase, Phase::AwaitRewrite { .. }),
        }
    }

    /// Takes in what the last step brought and hands out the next step.
    pub fn on_event(&mut self, event: Event) -> (step: Step)
        requires
            awaits(old(self).phase, event),
        ensures
            final(self).chart == old(self).chart,
            final(self).current == old(self).current,
            final(self).overlay == old(self).overlay,
            final(self).repo_url == old(self).repo_url,
            step is Failed || step is Finished <==> final(self).phase is Done,
            event matches Event::Failed(e) ==> step == Step::Failed(e),
            event matches Event::Index(index) ==> after_index(*old(self), index, step, final(self).phase),
            old(self).phase matches Phase::AwaitLatestArchive { index, latest, overlay } ==> (
                event matches Event::Unpacked(dir) ==> after_latest_archive(
                    *old(self), index, latest@, overlay@, dir@, step, final(self).phase)),
            old(self).phase matches Phase::AwaitBaseArchive { index, latest, overlay, latest_default } ==> (
                event matches Event::Unpacked(dir) ==> after_base_archive(
                    *old(self), index, latest@, overlay@, latest_default@, dir@, step, final(self).phase)),
            old(self).phase matches Phase::AwaitMerge { latest } ==> (
                event matches Event::MergeStatus(status) ==> after_merge(
                    *old(self), latest@, status, step, final(self).phase)),
            old(self).phase matches Phase::AwaitRewrite { latest, merged } ==> (
                event matches Event::Rewritten(outcome) ==> after_rewrite(merged, outcome, step)),
    {
        let mut phase = Phase::Done;
        std::mem::swap(&mut phase, &mut self.phase);
        match event {
            Event::Failed(e) => Step::Failed(e),
            Event::Index(index) => self.take_index(index),
            Event::Unpacked(dir) => match phase {
                Phase::AwaitLatestArchive { index, latest, overlay } => self.take_latest_archive(index, latest, overlay, dir),
                Phase::AwaitBaseArchive { index, latest, overlay, latest_default } => self.take_base_archive(index, latest, overlay, latest_default, dir),
                _ => unreached(),
            },
            Event::MergeStatus(status) => match phase {
                Phase::AwaitMerge { latest } => match merge_outcome(status) {
                    Err(e) => Step::Failed(e),
                    Ok(o) => {
                        let current = self.current.clone();
                        self.phase = Phase::AwaitRewrite { latest: latest.clone(), merged: Some(o) };
                        Step::RewritePin { current, latest }
                    },
                },
                _ => unreached(),
            },
            Event::Rewritten(outcome) => match phase {
                Phase::AwaitRewrite { latest: _, merged } => match outcome {
                    Ok(()) => Step::Finished(Finish::PinRewritten(merged)),
                    Err(e) => Step::Failed(e),
                },
                _ => unreached(),
            },
        }
    }

    fn take_index(&mut self, index: Yaml) -> (step: Step)
        requires
            old(self).phase is Done,
        ensures
            final(self).chart == old(self).chart,
            final(self).current == old(self).current,
            final(self).overlay == old(self).overlay,
            final(self).repo_url == old(self).repo_url,
            step is Failed || step is Finished <==> final(self).phase is Done,
            after_index(*old(self), index, step, final(self).phase),
    {
        let (latest, url) = {
            let record = match latest_version(&index, self.chart.as_str()) {
                Err(e) => return Step::Failed(e),
                Ok(r) => r,
            };
            let v = match version_of(record) {
                Err(e) => return Step::Failed(e),
                Ok(v) => v.clone(),
            };
            if v == self.current {
                return Step::Finished(Finish::UpToDate);
            }
            if self.overlay.is_none() {
                let current = self.current.clone();
                self.phase = Phase::AwaitRewrite { latest: v.clone(), merged: None };
                return Step::RewritePin { current, latest: v };
            }
            match archive_url(record, self.repo_url.as_str()) {
                Err(e) => return Step::Failed(e),
                Ok(u) => (v, u),
            }
        };
        let overlay = match &self.overlay {
            Some(o) => o.clone(),
            None => String::new(),
        };
        self.phase = Phase::AwaitLatestArchive { index, latest, overlay };
        Step::FetchArchive { url }
    }

    fn take_latest_archive(&mut self, index: Yaml, latest: String, overlay: String, dir: String) -> (step: Step)
        requires
            old(self).phase is Done,
        ensures
            final(self).chart == old(self).chart,
            final(self).current == old(self).current,
            final(self).overlay == old(self).overlay,
            final(self).repo_url == old(self).repo_url,
            step is Failed || step is Finished <==> final(self).phase is Done,
            after_latest_archive(*old(self), index, latest@, overlay@, dir@, step, final(self).phase),
    {
        let (latest_default, url) = {
            let record = match latest_version(&index, self.chart.as_str()) {
                Err(e) => return Step::Failed(e),
                Ok(r) => r,
            };
            let latest_default = match default_config_path(dir.as_str(), record) {
                Err(e) => return Step::Failed(e),
                Ok(p) => p,
            };
            let base = match version_record(&index, self.chart.as_str(), self.current.as_str()) {
                Err(e) => return Step::Failed(e),
                Ok(r) => r,
            };
            match archive_url(base, self.repo_url.as_str()) {
                Err(e) => return Step::Failed(e),
                Ok(u) => (latest_default, u),
            }
        };
        self.phase = Phase::AwaitBaseArchive { index, latest, overlay, latest_default };
        Step::FetchArchive { url }
    }

    fn take_base_archive(&mut self, index: Yaml, latest: String, overlay: String, latest_default: String, dir: String) -> (step: Step)
        requires
            old(self).phase is Done,
        ensures
            final(self).chart == old(self).chart,
            final(self).current == old(self).current,
            final(self).overlay == old(self).overlay,
            final(self).repo_url == old(self).repo_url,
            step is Failed || step is Finished <==> final(self).phase is Done,
            after_base_archive(*old(self), index, latest@, overlay@, latest_default@, dir@, step, final(self).phase),
    {
        let base_default = {
            let base = match version_record(&index, self.chart.as_str(), self.current.as_str()) {
                Err(e) => return Step::Failed(e),
                Ok(r) => r,
            };
            match default_config_path(dir.as_str(), base) {
                Err(e) => return Step::Failed(e),
                Ok(p) => p,
            }
        };
        self.phase = Phase::AwaitMerge { latest };
        Step::Merge { overlay, base: base_default, latest: latest_default }
    }
}

} // verus!

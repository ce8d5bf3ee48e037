//! The pipeline executor, as a step-by-step state machine.
//!
//! `BuildExecutor::new` validates and orders the submitted graph; a graph
//! that admits no order is rejected before any node runs.  The caller then
//! drives the run: `current_action` says what the next node needs (a
//! command, a script, a glob to resolve, a release to publish, or a skip),
//! the caller performs it, and `report_outcome` folds the result back in.
//! A failed command, script or release aborts every remaining node;
//! artifact collection never fails, even with zero matches.  Cancellation
//! takes effect between nodes.

use crate::graph::{
    graph_wf, is_topo_order, orderable, rejects_graph, BuildEdge, BuildNode, GraphError,
    NodeConfig, topological_sort,
};
use crate::protocol::BuildCompletePayload;
use crate::store::{duplicate_strings, BuildRecord, ServerData};
use crate::text::{chars_of, replace_all, spec_replace_all, string_from_chars};
use vstd::arithmetic::div_mod::{lemma_div_by_multiple, lemma_div_is_ordered};
use vstd::prelude::*;
use vstd::string::StringExecFns;

verus! {

/// What the caller must do to run the current node.
#[derive(Debug, Clone, PartialEq)]
pub enum StepAction {
    /// Run one shell command in `cwd`.
    RunCommand { command: String, cwd: String },
    /// Write `script` to `file_name` under the build directory, run it
    /// with `shell`, and remove the file again whatever the outcome.
    RunScript { script: String, shell: String, file_name: String },
    /// Resolve this glob pattern; every match is an artifact.
    CollectArtifacts { pattern: String },
    /// Publish a release with these fields.
    PublishRelease { tag: String, title: String, body: String, draft: bool, prerelease: bool },
    /// Nothing to do: log `reason` as a warning and move on.
    Skip { reason: String },
}

/// What running the current node yielded.
#[derive(Debug, Clone, PartialEq)]
pub enum StepOutcome {
    /// A command, script or release run ended; `detail` carries its output
    /// or error text.
    Finished { success: bool, detail: String },
    /// The matches of an artifact pattern; an empty list is a success.
    Collected { paths: Vec<String> },
    /// A release was published at `url` (when the publisher reports one).
    Published { url: Option<String> },
    /// A skipped node.
    Skipped,
}

/// The working directory a command node runs in: its configured `cwd`
/// with `$PROJECT_ROOT` replaced by the build directory, or the build
/// directory itself when no `cwd` is configured.
pub open spec fn command_cwd(cwd: Option<Seq<char>>, workdir: Seq<char>) -> Seq<char> {
    match cwd {
        Some(c) => spec_replace_all(c, "$PROJECT_ROOT"@, workdir),
        None => workdir,
    }
}

/// The temporary file a script node is written to, scoped to the build id.
pub open spec fn script_file_name(build_id: Seq<char>) -> Seq<char> {
    ".buildforge-"@ + build_id + ".sh"@
}

/// An artifact pattern rooted at the build directory; an absolute pattern
/// stands on its own.
pub open spec fn artifact_pattern(workdir: Seq<char>, path: Seq<char>) -> Seq<char> {
    if path.len() > 0 && path[0] == '/' {
        path
    } else if workdir.len() > 0 && workdir[workdir.len() - 1] == '/' {
        workdir + path
    } else {
        workdir + "/"@ + path
    }
}

/// The action that node `node` asks of the caller, given the build's
/// version, directory, id and whether a release credential is configured.
pub open spec fn step_action_for(
    node: BuildNode,
    a: StepAction,
    version: Seq<char>,
    workdir: Seq<char>,
    build_id: Seq<char>,
    has_token: bool,
) -> bool {
    match node.config {
        NodeConfig::Command { command, cwd } => {
            &&& a matches StepAction::RunCommand { command: c, cwd: d }
            &&& c@ == command@
            &&& d@ == command_cwd(cwd.deep_view(), workdir)
        },
        NodeConfig::Script { script, shell } => {
            &&& a matches StepAction::RunScript { script: s, shell: sh, file_name: f }
            &&& s@ == script@
            &&& sh@ == shell@
            &&& f@ == script_file_name(build_id)
        },
        NodeConfig::Artifact { path } => {
            &&& a matches StepAction::CollectArtifacts { pattern }
            &&& pattern@ == artifact_pattern(workdir, path@)
        },
        NodeConfig::Release { tag, title, body, draft, prerelease } => {
            if has_token {
                &&& a matches StepAction::PublishRelease {
                    tag: t,
                    title: ti,
                    body: b,
                    draft: d,
                    prerelease: p,
                }
                &&& t@ == spec_replace_all(tag@, "$VERSION"@, version)
                &&& ti@ == spec_replace_all(title@, "$VERSION"@, version)
                &&& b@ == body@
                &&& d == draft
                &&& p == prerelease
            } else {
                a matches StepAction::Skip { .. }
            }
        },
        NodeConfig::Other { .. } => a matches StepAction::Skip { .. },
    }
}

/// Which outcome shape fits the current node.
pub open spec fn outcome_fits(node: BuildNode, has_token: bool, outcome: StepOutcome) -> bool {
    match node.config {
        NodeConfig::Command { .. } => outcome matches StepOutcome::Finished { .. },
        NodeConfig::Script { .. } => outcome matches StepOutcome::Finished { .. },
        NodeConfig::Artifact { .. } => outcome matches StepOutcome::Collected { .. },
        NodeConfig::Release { .. } => if has_token {
            outcome matches StepOutcome::Finished { .. } || outcome
                matches StepOutcome::Published { .. }
        } else {
            outcome matches StepOutcome::Skipped
        },
        NodeConfig::Other { .. } => outcome matches StepOutcome::Skipped,
    }
}

/// The terminal status text a build's record carries.
pub open spec fn status_text(failed: bool, cancelled: bool) -> Seq<char> {
    if cancelled {
        "cancelled"@
    } else if failed {
        "failed"@
    } else {
        "completed"@
    }
}

/// One build run in flight: the ordered nodes, the cursor, and everything
/// collected so far.
#[derive(Debug)]
pub struct BuildExecutor {
    pub build_id: String,
    pub version: String,
    pub workdir: String,
    pub has_release_token: bool,
    pub order: Vec<BuildNode>,
    pub next: usize,
    pub artifacts: Vec<String>,
    pub release_url: Option<String>,
    pub failed: bool,
    pub failure: Option<String>,
    pub cancelled: bool,
}

impl BuildExecutor {
    /// The cursor never runs past the end of the order.
    pub open spec fn wf(&self) -> bool {
        self.next <= self.order@.len()
    }

    /// Nodes remain and nothing has aborted the run.
    pub open spec fn running(&self) -> bool {
        &&& !self.failed
        &&& !self.cancelled
        &&& self.next < self.order@.len()
    }

    /// Every node ran and none failed or was cancelled.
    pub open spec fn succeeded(&self) -> bool {
        &&& !self.failed
        &&& !self.cancelled
        &&& self.next == self.order@.len()
    }

    /// Validates and orders the graph.  A rejected graph (duplicate id,
    /// unknown edge endpoint, or cycle) produces no executor, so no node
    /// of such a build ever runs.
    pub fn new(
        nodes: &Vec<BuildNode>,
        edges: &Vec<BuildEdge>,
        build_id: String,
        version: String,
        workdir: String,
        has_release_token: bool,
    ) -> (r: Result<BuildExecutor, GraphError>)
        ensures
            match r {
                Ok(ex) => {
                    &&& graph_wf(nodes@, edges@)
                    &&& is_topo_order(ex.order@, nodes@, edges@)
                    &&& ex.wf()
                    &&& ex.next == 0
                    &&& ex.artifacts@.len() == 0
                    &&& ex.release_url is None
                    &&& !ex.failed
                    &&& ex.failure is None
                    &&& !ex.cancelled
                    &&& ex.build_id == build_id
                    &&& ex.version == version
                    &&& ex.workdir == workdir
                    &&& ex.has_release_token == has_release_token
                },
                Err(e) => rejects_graph(nodes@, edges@, e),
            },
            r is Ok <==> graph_wf(nodes@, edges@) && orderable(nodes@, edges@),
    {
        let order = match topological_sort(nodes, edges) {
            Ok(order) => order,
            Err(e) => {
                return Err(e);
            },
        };
        Ok(
            BuildExecutor {
                build_id,
                version,
                workdir,
                has_release_token,
                order,
                next: 0,
                artifacts: Vec::new(),
                release_url: None,
                failed: false,
                failure: None,
                cancelled: false,
            },
        )
    }

    /// What the caller must do for the node at the cursor; `None` once the
    /// run is over, has failed, or was cancelled.
    pub fn current_action(&self) -> (r: Option<StepAction>)
        requires
            self.wf(),
        ensures
            (r is Some) == self.running(),
            r matches Some(a) ==> step_action_for(
                self.order@[self.next as int],
                a,
                self.version@,
                self.workdir@,
                self.build_id@,
                self.has_release_token,
            ),
    {
        if self.failed || self.cancelled || self.next >= self.order.len() {
            return None;
        }
        let node = &self.order[self.next];
        match &node.config {
            NodeConfig::Command { command, cwd } => {
                let dir = match cwd {
                    Some(c) => {
                        proof {
                            reveal_strlit("$PROJECT_ROOT");
                        }
                        replace_all(c.as_str(), "$PROJECT_ROOT", self.workdir.as_str())
                    },
                    None => self.workdir.clone(),
                };
                Some(StepAction::RunCommand { command: command.clone(), cwd: dir })
            },
            NodeConfig::Script { script, shell } => {
                let mut f = String::from_str(".buildforge-");
                f.append(self.build_id.as_str());
                f.append(".sh");
                Some(
                    StepAction::RunScript {
                        script: script.clone(),
                        shell: shell.clone(),
                        file_name: f,
                    },
                )
            },
            NodeConfig::Artifact { path } => {
                let pc = chars_of(path.as_str());
                let pattern = if pc.len() > 0 && pc[0] == '/' {
                    path.clone()
                } else {
                    let mut out = chars_of(self.workdir.as_str());
                    if !(out.len() > 0 && out[out.len() - 1] == '/') {
                        out.push('/');
                        proof {
                            reveal_strlit("/");
                            assert(out@ =~= self.workdir@ + "/"@);
                        }
                    }
                    let mut tail = chars_of(path.as_str());
                    out.append(&mut tail);
                    string_from_chars(&out)
                };
                Some(StepAction::CollectArtifacts { pattern })
            },
            NodeConfig::Release { tag, title, body, draft, prerelease } => {
                if self.has_release_token {
                    proof {
                        reveal_strlit("$VERSION");
                    }
                    let t = replace_all(tag.as_str(), "$VERSION", self.version.as_str());
                    let ti = replace_all(title.as_str(), "$VERSION", self.version.as_str());
                    Some(
                        StepAction::PublishRelease {
                            tag: t,
                            title: ti,
                            body: body.clone(),
                            draft: *draft,
                            prerelease: *prerelease,
                        },
                    )
                } else {
                    Some(
                        StepAction::Skip {
                            reason: String::from_str("No release credential configured, skipping release"),
                        },
                    )
                }
            },
            NodeConfig::Other { .. } => {
                Some(StepAction::Skip { reason: String::from_str("Unknown node type") })
            },
        }
    }

    /// Folds the outcome of the current node back in and moves the cursor.
    /// Artifact matches are appended (an empty list is fine); a failed
    /// command, script or release marks the build failed, which stops
    /// `current_action` from issuing further work.
    pub fn report_outcome(&mut self, outcome: StepOutcome)
        requires
            old(self).wf(),
            old(self).running(),
            outcome_fits(
                old(self).order@[old(self).next as int],
                old(self).has_release_token,
                outcome,
            ),
        ensures
            final(self).wf(),
            final(self).next == old(self).next + 1,
            final(self).order == old(self).order,
            final(self).build_id == old(self).build_id,
            final(self).version == old(self).version,
            final(self).workdir == old(self).workdir,
            final(self).has_release_token == old(self).has_release_token,
            final(self).cancelled == old(self).cancelled,
            match outcome {
                StepOutcome::Collected { paths } => final(self).artifacts@ == old(self).artifacts@ + paths@,
                _ => final(self).artifacts@ == old(self).artifacts@,
            },
            match outcome {
                StepOutcome::Published { url } => final(self).release_url == url,
                _ => final(self).release_url == old(self).release_url,
            },
            final(self).failed == (outcome matches StepOutcome::Finished { success: false, .. }),
            (outcome matches StepOutcome::Finished { success: false, detail } ==> final(self).failure matches Some(m) && m@ == detail@),
            !(outcome matches StepOutcome::Finished { success: false, .. }) ==> final(self).failure == old(self).failure,
    {
        match outcome {
            StepOutcome::Finished { success, detail } => {
                if !success {
                    self.failed = true;
                    self.failure = Some(detail);
                }
            },
            StepOutcome::Collected { paths } => {
                let mut paths = paths;
                let ghost pre = self.artifacts@;
                self.artifacts.append(&mut paths);
                proof {
                    assert(self.artifacts@ == pre + outcome->Collected_paths@);
                }
            },
            StepOutcome::Published { url } => {
                self.release_url = url;
            },
            StepOutcome::Skipped => {},
        }
        let total = self.order.len();
        assert(self.next < total);
        self.next = self.next + 1;
    }

    /// Marks the run cancelled; the node in flight finishes, later nodes
    /// never start.
    pub fn cancel(&mut self)
        ensures
            final(self).cancelled,
            final(self).next == old(self).next,
            final(self).order == old(self).order,
            final(self).build_id == old(self).build_id,
            final(self).version == old(self).version,
            final(self).workdir == old(self).workdir,
            final(self).has_release_token == old(self).has_release_token,
            final(self).artifacts == old(self).artifacts,
            final(self).release_url == old(self).release_url,
            final(self).failed == old(self).failed,
            final(self).failure == old(self).failure,
    {
        self.cancelled = true;
    }

    /// The progress to report once the node at the cursor has completed:
    /// completed nodes over total nodes, on a 0–100 scale (100 for an
    /// empty build).
    pub fn progress(&self) -> (r: u8)
        requires
            self.wf(),
        ensures
            r as int == if self.order@.len() == 0 {
                100int
            } else {
                self.next * 100 / (self.order@.len() as int)
            },
            r <= 100,
    {
        let total = self.order.len();
        if total == 0 {
            100
        } else {
            let p = (self.next as u128) * 100 / (total as u128);
            proof {
                let n = self.next as int;
                let t = total as int;
                assert(n * 100 <= t * 100) by (nonlinear_arith)
                    requires
                        n <= t,
                ;
                lemma_div_is_ordered(n * 100, t * 100, t);
                lemma_div_by_multiple(100, t);
                assert((t * 100) / t == (100 * t) / t) by (nonlinear_arith);
            }
            p as u8
        }
    }

    /// The name of the node at the cursor, for progress events.
    pub fn current_node_name(&self) -> (r: Option<String>)
        requires
            self.wf(),
        ensures
            (r is Some) == self.running(),
            r matches Some(n) ==> n@ == self.order@[self.next as int].name@,
    {
        if self.failed || self.cancelled || self.next >= self.order.len() {
            return None;
        }
        Some(self.order[self.next].name.clone())
    }

    /// The terminal event of this run: success only when every node ran
    /// without failure or cancellation, with the collected artifacts and
    /// the release location, if one was published.
    pub fn completion(&self, duration: u64) -> (r: BuildCompletePayload)
        requires
            self.wf(),
        ensures
            r.build_id@ == self.build_id@,
            r.success == self.succeeded(),
            r.duration == duration,
            r.artifacts.deep_view() == self.artifacts.deep_view(),
            r.release_url.deep_view() == self.release_url.deep_view(),
    {
        let success = !self.failed && !self.cancelled && self.next == self.order.len();
        BuildCompletePayload {
            build_id: self.build_id.clone(),
            success,
            duration,
            artifacts: duplicate_strings(&self.artifacts),
            release_url: match &self.release_url {
                Some(u) => Some(u.clone()),
                None => None,
            },
        }
    }

    /// Commits this run to build history: exactly one new record, carrying
    /// the build id, the terminal status, and non-empty finish information.
    /// History otherwise keeps every prior record unchanged.
    pub fn record_completion(
        &self,
        data: &mut ServerData,
        workflow_id: String,
        started_at: String,
        duration: u64,
    )
        requires
            self.wf(),
        ensures
            final(data).workflows == old(data).workflows,
            final(data).actions == old(data).actions,
            final(data).repos == old(data).repos,
            final(data).build_history@.len() == old(data).build_history@.len() + 1,
            final(data).build_history@.take(old(data).build_history@.len() as int) == old(
                data,
            ).build_history@,
            ({
                let rec = final(data).build_history@.last();
                &&& rec.id@ == self.build_id@
                &&& rec.workflow_id@ == workflow_id@
                &&& rec.status@ == status_text(self.failed, self.cancelled)
                &&& rec.started_at@ == started_at@
                &&& rec.finished_at matches Some(f) && f@.len() > 0
                &&& rec.duration_ms == Some(duration)
                &&& rec.logs@.len() == 0
            }),
    {
        let status = if self.cancelled {
            String::from_str("cancelled")
        } else if self.failed {
            String::from_str("failed")
        } else {
            String::from_str("completed")
        };
        let finished_at = now_rfc3339();
        let rec = BuildRecord {
            id: self.build_id.clone(),
            workflow_id,
            status,
            started_at,
            finished_at: Some(finished_at),
            duration_ms: Some(duration),
            logs: Vec::new(),
        };
        let ghost pre = data.build_history@;
        data.push_build_record(rec);
        proof {
            assert(final(data).build_history@.take(pre.len() as int) =~= pre);
        }
    }
}

/// Relies on chrono: `Utc::now().to_rfc3339()` renders the current UTC
/// time; the rendering is never empty.
#[verifier::external_body]
fn now_rfc3339() -> (r: String)
    ensures
        r@.len() > 0,
{
    chrono::Utc::now().to_rfc3339()
}

} // verus!

//! The control-message protocol and its dispatch.
//!
//! One session decodes inbound messages, hands each to `handle_message`,
//! and carries out the returned effect: send a reply, spawn a build, run a
//! script, persist the store.  The dispatch itself is pure: all I/O stays
//! with the caller.

use crate::graph::{BuildEdge, BuildNode};
use crate::store::{
    action_index, duplicate_actions, duplicate_repos, duplicate_workflows, has_action,
    has_workflow, keeps_action, keeps_workflow, workflow_index, ServerData, StoredAction,
    StoredRepo, StoredWorkflow,
};
use crate::text::{chars_of, string_from_chars};
use vstd::prelude::*;
use vstd::string::StringExecFns;

verus! {

/// A request to run one build.
#[derive(Debug, Clone, PartialEq)]
pub struct BuildStartPayload {
    pub build_id: String,
    pub project_name: String,
    pub version: String,
    pub nodes: Vec<BuildNode>,
    pub edges: Vec<BuildEdge>,
    pub github_token: Option<String>,
}

/// Progress of a running build, on a 0–100 scale.
#[derive(Debug, Clone, PartialEq)]
pub struct BuildProgressPayload {
    pub build_id: String,
    pub progress: u8,
    pub current_node: String,
}

/// The terminal event of one build.
#[derive(Debug, Clone, PartialEq)]
pub struct BuildCompletePayload {
    pub build_id: String,
    pub success: bool,
    pub duration: u64,
    pub artifacts: Vec<String>,
    pub release_url: Option<String>,
}

/// One log line of a running build.
#[derive(Debug, Clone, PartialEq)]
pub struct BuildLogPayload {
    pub build_id: String,
    pub log: String,
}

/// One named input value handed to an action run.
#[derive(Debug, Clone, PartialEq)]
pub struct ActionInput {
    pub name: String,
    pub value: String,
}

/// A request to run a stored action with the given inputs.
#[derive(Debug, Clone, PartialEq)]
pub struct RunActionPayload {
    pub action_id: String,
    pub inputs: Vec<ActionInput>,
}

/// The outcome of one action run.
#[derive(Debug, Clone, PartialEq)]
pub struct ActionResultPayload {
    pub action_id: String,
    pub success: bool,
    pub output: String,
}

/// A snapshot of the persisted collections, for client synchronisation.
#[derive(Debug, Clone, PartialEq)]
pub struct SyncData {
    pub workflows: Vec<StoredWorkflow>,
    pub actions: Vec<StoredAction>,
    pub repos: Vec<StoredRepo>,
}

/// One protocol message, inbound or outbound.
#[derive(Debug, Clone, PartialEq)]
pub enum ServerMessage {
    Ping,
    Pong,
    BuildStart(BuildStartPayload),
    BuildProgress(BuildProgressPayload),
    BuildComplete(BuildCompletePayload),
    BuildLog(BuildLogPayload),
    BuildCancel(String),
    Error(String),
    SyncRequest,
    SyncResponse(SyncData),
    SaveWorkflow(StoredWorkflow),
    DeleteWorkflow(String),
    SaveAction(StoredAction),
    DeleteAction(String),
    RunAction(RunActionPayload),
    ActionResult(ActionResultPayload),
}

/// What a session must do after one message has been handled.
#[derive(Debug, Clone, PartialEq)]
pub enum SessionEffect {
    /// Nothing: the message asked for no work.
    Ignore,
    /// Write this reply back on the session's stream.
    Reply(ServerMessage),
    /// Spawn a detached build for this payload (token already resolved).
    StartBuild(BuildStartPayload),
    /// Run this rendered script and then reply with its result.
    RunScript { action_id: String, script: String },
    /// The store changed: flush it to durable storage (best effort).
    Persist,
    /// A cancellation was requested for this build id.
    CancelBuild(String),
}

/// One `export name="value"` line.
pub open spec fn export_line(name: Seq<char>, value: Seq<char>) -> Seq<char> {
    "export "@ + name + "=\""@ + value + "\"\n"@
}

/// The export lines for all inputs, in order.
pub open spec fn export_lines(inputs: Seq<ActionInput>) -> Seq<char>
    decreases inputs.len(),
{
    if inputs.len() == 0 {
        Seq::empty()
    } else {
        export_line(inputs[0].name@, inputs[0].value@) + export_lines(inputs.drop_first())
    }
}

/// An action's script with its inputs exposed as exported shell variables,
/// one export line per input, ahead of the original script text.
pub open spec fn rendered_script(script: Seq<char>, inputs: Seq<ActionInput>) -> Seq<char> {
    export_lines(inputs) + script
}

/// The error message for a `RunAction` naming an unknown action id.
pub open spec fn not_found_text(id: Seq<char>) -> Seq<char> {
    "Action not found: "@ + id
}

fn append_str(out: &mut Vec<char>, s: &str)
    ensures
        final(out)@ == old(out)@ + s@,
{
    let mut cs = chars_of(s);
    out.append(&mut cs);
}

/// Renders an action's script for execution: each input becomes an
/// `export` statement prepended to the script body.
pub fn render_action_script(script: &String, inputs: &Vec<ActionInput>) -> (r: String)
    ensures
        r@ == rendered_script(script@, inputs@),
{
    let mut out: Vec<char> = Vec::new();
    let mut i: usize = 0;
    proof {
        assert(inputs@.skip(0) =~= inputs@);
    }
    while i < inputs.len()
        invariant
            i <= inputs@.len(),
            export_lines(inputs@) == out@ + export_lines(inputs@.skip(i as int)),
        decreases inputs@.len() - i,
    {
        let ghost pre = out@;
        append_str(&mut out, "export ");
        append_str(&mut out, inputs[i].name.as_str());
        append_str(&mut out, "=\"");
        append_str(&mut out, inputs[i].value.as_str());
        append_str(&mut out, "\"\n");
        proof {
            let rest = inputs@.skip(i as int);
            assert(rest[0] == inputs@[i as int]);
            assert(rest.drop_first() =~= inputs@.skip(i + 1));
            assert(export_lines(rest) == export_line(inputs@[i as int].name@, inputs@[i as int].value@)
                + export_lines(inputs@.skip(i + 1)));
            assert(out@ =~= pre + export_line(inputs@[i as int].name@, inputs@[i as int].value@));
            assert(out@ + export_lines(inputs@.skip(i + 1)) =~= pre + export_lines(rest));
        }
        i += 1;
    }
    proof {
        assert(inputs@.skip(inputs@.len() as int) =~= Seq::<ActionInput>::empty());
        assert(out@ + Seq::<char>::empty() =~= out@);
        assert(out@ == export_lines(inputs@));
    }
    append_str(&mut out, script.as_str());
    string_from_chars(&out)
}

/// The reply sent once an action run has finished.
pub fn action_result_message(action_id: String, success: bool, output: String) -> (r:
    ServerMessage)
    ensures
        r == ServerMessage::ActionResult(
            ActionResultPayload { action_id, success, output },
        ),
{
    ServerMessage::ActionResult(ActionResultPayload { action_id, success, output })
}

/// Handles one inbound message: mutates the store for CRUD messages and
/// says what the session must do next.  Every store mutation is followed
/// by a `Persist` effect; reads leave the store untouched.  A `RunAction`
/// naming an unknown id yields an error reply and no script run.
pub fn handle_message(data: &mut ServerData, msg: ServerMessage, default_token: &Option<
    String,
>) -> (r: SessionEffect)
    ensures
        match msg {
            ServerMessage::Ping => *final(data) == *old(data) && r == SessionEffect::Reply(
                ServerMessage::Pong,
            ),
            ServerMessage::BuildStart(p) => *final(data) == *old(data) && (
            r matches SessionEffect::StartBuild(q) && q.build_id == p.build_id && q.project_name
                == p.project_name && q.version == p.version && q.nodes == p.nodes && q.edges
                == p.edges && (match p.github_token {
                Some(t) => q.github_token == Some(t),
                None => q.github_token == *default_token,
            })),
            ServerMessage::BuildCancel(id) => *final(data) == *old(data) && r
                == SessionEffect::CancelBuild(id),
            ServerMessage::SyncRequest => *final(data) == *old(data) && (
            r matches SessionEffect::Reply(ServerMessage::SyncResponse(s))
                && s.workflows.deep_view() == old(data).workflows.deep_view()
                && s.actions.deep_view() == old(data).actions.deep_view()
                && s.repos.deep_view() == old(data).repos.deep_view()),
            ServerMessage::SaveWorkflow(w) => r == SessionEffect::Persist && final(data).actions
                == old(data).actions && final(data).repos == old(data).repos && final(data).build_history == old(data).build_history && (has_workflow(
                old(data).workflows@,
                w.id@,
            ) ==> final(data).workflows@ == old(data).workflows@.update(
                workflow_index(old(data).workflows@, w.id@),
                w,
            )) && (!has_workflow(old(data).workflows@, w.id@) ==> final(data).workflows@ == old(data).workflows@.push(w)),
            ServerMessage::DeleteWorkflow(id) => r == SessionEffect::Persist && final(data).actions == old(data).actions && final(data).repos == old(data).repos && final(data).build_history == old(data).build_history && final(data).workflows@ == old(data).workflows@.filter(keeps_workflow(id@)),
            ServerMessage::SaveAction(a) => r == SessionEffect::Persist && final(data).workflows
                == old(data).workflows && final(data).repos == old(data).repos && final(data).build_history == old(data).build_history && (has_action(old(data).actions@, a.id@)
                ==> final(data).actions@ == old(data).actions@.update(
                action_index(old(data).actions@, a.id@),
                a,
            )) && (!has_action(old(data).actions@, a.id@) ==> final(data).actions@ == old(data).actions@.push(a)),
            ServerMessage::DeleteAction(id) => r == SessionEffect::Persist && final(data).workflows == old(data).workflows && final(data).repos == old(data).repos && final(data).build_history == old(data).build_history && final(data).actions@ == old(data).actions@.filter(keeps_action(id@)),
            ServerMessage::RunAction(p) => *final(data) == *old(data) && (if has_action(
                old(data).actions@,
                p.action_id@,
            ) {
                r matches SessionEffect::RunScript { action_id, script } && action_id
                    == p.action_id && script@ == rendered_script(
                    old(data).actions@[action_index(old(data).actions@, p.action_id@)].script@,
                    p.inputs@,
                )
            } else {
                r matches SessionEffect::Reply(ServerMessage::Error(m)) && m@ == not_found_text(
                    p.action_id@,
                )
            }),
            _ => *final(data) == *old(data) && r == SessionEffect::Ignore,
        },
{
    match msg {
        ServerMessage::Ping => SessionEffect::Reply(ServerMessage::Pong),
        ServerMessage::BuildStart(p) => {
            let BuildStartPayload { build_id, project_name, version, nodes, edges, github_token } =
                p;
            let token = match github_token {
                Some(t) => Some(t),
                None => match default_token {
                    Some(s) => Some(s.clone()),
                    None => None,
                },
            };
            SessionEffect::StartBuild(
                BuildStartPayload {
                    build_id,
                    project_name,
                    version,
                    nodes,
                    edges,
                    github_token: token,
                },
            )
        },
        ServerMessage::BuildCancel(id) => SessionEffect::CancelBuild(id),
        ServerMessage::SyncRequest => {
            let s = SyncData {
                workflows: duplicate_workflows(&data.workflows),
                actions: duplicate_actions(&data.actions),
                repos: duplicate_repos(&data.repos),
            };
            SessionEffect::Reply(ServerMessage::SyncResponse(s))
        },
        ServerMessage::SaveWorkflow(w) => {
            data.save_workflow(w);
            SessionEffect::Persist
        },
        ServerMessage::DeleteWorkflow(id) => {
            data.delete_workflow(&id);
            SessionEffect::Persist
        },
        ServerMessage::SaveAction(a) => {
            data.save_action(a);
            SessionEffect::Persist
        },
        ServerMessage::DeleteAction(id) => {
            data.delete_action(&id);
            SessionEffect::Persist
        },
        ServerMessage::RunAction(p) => {
            let RunActionPayload { action_id, inputs } = p;
            match data.find_action(&action_id) {
                Some(action) => {
                    let script = render_action_script(&action.script, &inputs);
                    SessionEffect::RunScript { action_id, script }
                },
                None => {
                    let mut m = String::from_str("Action not found: ");
                    m.append(action_id.as_str());
                    SessionEffect::Reply(ServerMessage::Error(m))
                },
            }
        },
        _ => SessionEffect::Ignore,
    }
}

} // verus!

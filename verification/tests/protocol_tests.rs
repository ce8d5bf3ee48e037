use buildforge::graph::{BuildNode, NodeConfig};
use buildforge::protocol::{
    action_result_message, handle_message, render_action_script, ActionInput, ActionResultPayload,
    BuildStartPayload, ServerMessage, SessionEffect,
};
use buildforge::store::{ServerData, StoredAction, StoredWorkflow};

fn workflow(id: &str, name: &str) -> StoredWorkflow {
    StoredWorkflow {
        id: id.to_string(),
        name: name.to_string(),
        repo_id: None,
        nodes: vec![],
        connections: vec![],
        next_version: "1.0.1".to_string(),
        created_at: "t0".to_string(),
        updated_at: "t0".to_string(),
    }
}

fn action(id: &str, script: &str) -> StoredAction {
    StoredAction {
        id: id.to_string(),
        name: id.to_string(),
        description: String::new(),
        script: script.to_string(),
        inputs: vec![],
        outputs: vec![],
        created_at: "t0".to_string(),
        updated_at: "t0".to_string(),
    }
}

#[test]
fn ping_is_answered_with_pong() {
    let mut data = ServerData::new();
    let r = handle_message(&mut data, ServerMessage::Ping, &None);
    assert_eq!(r, SessionEffect::Reply(ServerMessage::Pong));
    assert_eq!(data, ServerData::new());
}

#[test]
fn sync_request_returns_a_full_snapshot() {
    let mut data = ServerData::new();
    data.save_workflow(workflow("w1", "wf"));
    data.save_action(action("a1", "echo"));
    let before = data.clone();
    match handle_message(&mut data, ServerMessage::SyncRequest, &None) {
        SessionEffect::Reply(ServerMessage::SyncResponse(s)) => {
            assert_eq!(s.workflows, before.workflows);
            assert_eq!(s.actions, before.actions);
            assert_eq!(s.repos, before.repos);
        },
        other => panic!("unexpected effect: {:?}", other),
    }
    assert_eq!(data, before);
}

#[test]
fn save_and_delete_messages_mutate_and_persist() {
    let mut data = ServerData::new();
    let r = handle_message(&mut data, ServerMessage::SaveWorkflow(workflow("w1", "wf")), &None);
    assert_eq!(r, SessionEffect::Persist);
    assert_eq!(data.workflows.len(), 1);

    let r = handle_message(&mut data, ServerMessage::SaveAction(action("a1", "echo")), &None);
    assert_eq!(r, SessionEffect::Persist);
    assert_eq!(data.actions.len(), 1);

    let r = handle_message(&mut data, ServerMessage::DeleteWorkflow("w1".to_string()), &None);
    assert_eq!(r, SessionEffect::Persist);
    assert!(data.workflows.is_empty());

    let r = handle_message(&mut data, ServerMessage::DeleteAction("nope".to_string()), &None);
    assert_eq!(r, SessionEffect::Persist);
    assert_eq!(data.actions.len(), 1);
}

#[test]
fn run_action_with_unknown_id_reports_not_found_and_runs_nothing() {
    let mut data = ServerData::new();
    data.save_action(action("known", "echo"));
    let before = data.clone();
    let msg = ServerMessage::RunAction(buildforge::protocol::RunActionPayload {
        action_id: "ghost-42".to_string(),
        inputs: vec![],
    });
    match handle_message(&mut data, msg, &None) {
        SessionEffect::Reply(ServerMessage::Error(m)) => {
            assert_eq!(m, "Action not found: ghost-42");
        },
        other => panic!("expected an error reply, got: {:?}", other),
    }
    assert_eq!(data, before);
}

#[test]
fn run_action_renders_inputs_as_exports() {
    let mut data = ServerData::new();
    data.save_action(action("a1", "deploy.sh"));
    let msg = ServerMessage::RunAction(buildforge::protocol::RunActionPayload {
        action_id: "a1".to_string(),
        inputs: vec![
            ActionInput { name: "TARGET".to_string(), value: "prod".to_string() },
            ActionInput { name: "RETRIES".to_string(), value: "3".to_string() },
        ],
    });
    match handle_message(&mut data, msg, &None) {
        SessionEffect::RunScript { action_id, script } => {
            assert_eq!(action_id, "a1");
            assert_eq!(script, "export TARGET=\"prod\"\nexport RETRIES=\"3\"\ndeploy.sh");
        },
        other => panic!("expected a script run, got: {:?}", other),
    }
}

#[test]
fn render_script_without_inputs_is_the_script_itself() {
    let s = render_action_script(&"echo plain".to_string(), &vec![]);
    assert_eq!(s, "echo plain");
}

#[test]
fn build_start_keeps_payload_token() {
    let mut data = ServerData::new();
    let payload = BuildStartPayload {
        build_id: "b1".to_string(),
        project_name: "proj".to_string(),
        version: "2.0.0".to_string(),
        nodes: vec![BuildNode {
            id: "A".to_string(),
            name: "A".to_string(),
            config: NodeConfig::Command { command: "echo".to_string(), cwd: None },
        }],
        edges: vec![],
        github_token: Some("token-from-payload".to_string()),
    };
    match handle_message(&mut data, ServerMessage::BuildStart(payload.clone()), &Some("fallback".to_string())) {
        SessionEffect::StartBuild(q) => {
            assert_eq!(q, payload);
        },
        other => panic!("expected a build start, got: {:?}", other),
    }
}

#[test]
fn build_start_falls_back_to_server_token() {
    let mut data = ServerData::new();
    let payload = BuildStartPayload {
        build_id: "b1".to_string(),
        project_name: "proj".to_string(),
        version: "2.0.0".to_string(),
        nodes: vec![],
        edges: vec![],
        github_token: None,
    };
    match handle_message(&mut data, ServerMessage::BuildStart(payload), &Some("fallback".to_string())) {
        SessionEffect::StartBuild(q) => {
            assert_eq!(q.github_token, Some("fallback".to_string()));
        },
        other => panic!("expected a build start, got: {:?}", other),
    }
}

#[test]
fn cancel_message_becomes_a_cancel_effect() {
    let mut data = ServerData::new();
    let r = handle_message(&mut data, ServerMessage::BuildCancel("b9".to_string()), &None);
    assert_eq!(r, SessionEffect::CancelBuild("b9".to_string()));
}

#[test]
fn unsolicited_replies_are_ignored() {
    let mut data = ServerData::new();
    let before = data.clone();
    let r = handle_message(&mut data, ServerMessage::Pong, &None);
    assert_eq!(r, SessionEffect::Ignore);
    let r = handle_message(&mut data, ServerMessage::Error("x".to_string()), &None);
    assert_eq!(r, SessionEffect::Ignore);
    assert_eq!(data, before);
}

#[test]
fn action_result_message_carries_the_outcome() {
    let m = action_result_message("a1".to_string(), true, "out".to_string());
    assert_eq!(
        m,
        ServerMessage::ActionResult(ActionResultPayload {
            action_id: "a1".to_string(),
            success: true,
            output: "out".to_string(),
        })
    );
}

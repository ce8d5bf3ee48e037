use buildforge::executor::{BuildExecutor, StepAction, StepOutcome};
use buildforge::graph::{BuildEdge, BuildNode, GraphError, NodeConfig};
use buildforge::store::ServerData;
use buildforge::text::replace_all;

fn command_node(id: &str, command: &str) -> BuildNode {
    BuildNode {
        id: id.to_string(),
        name: id.to_string(),
        config: NodeConfig::Command { command: command.to_string(), cwd: None },
    }
}

fn edge(id: &str, source: &str, target: &str) -> BuildEdge {
    BuildEdge { id: id.to_string(), source: source.to_string(), target: target.to_string() }
}

fn new_executor(nodes: Vec<BuildNode>, edges: Vec<BuildEdge>, has_token: bool) -> BuildExecutor {
    BuildExecutor::new(
        &nodes,
        &edges,
        "build-1".to_string(),
        "1.2.3".to_string(),
        "/work".to_string(),
        has_token,
    )
    .unwrap()
}

#[test]
fn two_command_build_runs_in_order_and_succeeds() {
    let nodes = vec![command_node("A", "echo 1"), command_node("B", "echo 2")];
    let edges = vec![edge("e1", "A", "B")];
    let mut ex = new_executor(nodes, edges, false);

    match ex.current_action().unwrap() {
        StepAction::RunCommand { command, cwd } => {
            assert_eq!(command, "echo 1");
            assert_eq!(cwd, "/work");
        },
        other => panic!("unexpected action: {:?}", other),
    }
    ex.report_outcome(StepOutcome::Finished { success: true, detail: "1\n".to_string() });
    assert_eq!(ex.progress(), 50);

    match ex.current_action().unwrap() {
        StepAction::RunCommand { command, .. } => assert_eq!(command, "echo 2"),
        other => panic!("unexpected action: {:?}", other),
    }
    ex.report_outcome(StepOutcome::Finished { success: true, detail: "2\n".to_string() });
    assert_eq!(ex.progress(), 100);
    assert!(ex.current_action().is_none());

    let done = ex.completion(42);
    assert_eq!(done.build_id, "build-1");
    assert!(done.success);
    assert_eq!(done.duration, 42);
    assert!(done.artifacts.is_empty());
    assert!(done.release_url.is_none());
}

#[test]
fn cyclic_build_is_rejected_before_any_node_runs() {
    let nodes = vec![command_node("A", "echo 1"), command_node("B", "echo 2")];
    let edges = vec![edge("e1", "A", "B"), edge("e2", "B", "A")];
    let r = BuildExecutor::new(
        &nodes,
        &edges,
        "build-2".to_string(),
        "0.1.0".to_string(),
        "/work".to_string(),
        false,
    );
    assert_eq!(r.err(), Some(GraphError::CircularDependency));
}

#[test]
fn failed_command_aborts_remaining_nodes() {
    let nodes = vec![command_node("A", "false"), command_node("B", "echo 2")];
    let edges = vec![edge("e1", "A", "B")];
    let mut ex = new_executor(nodes, edges, false);
    assert!(ex.current_action().is_some());
    ex.report_outcome(StepOutcome::Finished { success: false, detail: "boom".to_string() });
    assert!(ex.current_action().is_none());
    let done = ex.completion(1);
    assert!(!done.success);
}

#[test]
fn artifact_node_with_zero_matches_still_succeeds() {
    let nodes = vec![BuildNode {
        id: "art".to_string(),
        name: "collect".to_string(),
        config: NodeConfig::Artifact { path: "dist/*".to_string() },
    }];
    let mut ex = new_executor(nodes, vec![], false);
    match ex.current_action().unwrap() {
        StepAction::CollectArtifacts { pattern } => assert_eq!(pattern, "/work/dist/*"),
        other => panic!("unexpected action: {:?}", other),
    }
    ex.report_outcome(StepOutcome::Collected { paths: vec![] });
    assert!(ex.current_action().is_none());
    let done = ex.completion(3);
    assert!(done.success);
    assert!(done.artifacts.is_empty());
}

#[test]
fn collected_artifact_paths_accumulate() {
    let nodes = vec![
        BuildNode {
            id: "a1".to_string(),
            name: "one".to_string(),
            config: NodeConfig::Artifact { path: "/abs/*.tar".to_string() },
        },
        BuildNode {
            id: "a2".to_string(),
            name: "two".to_string(),
            config: NodeConfig::Artifact { path: "out/*.zip".to_string() },
        },
    ];
    let mut ex = new_executor(nodes, vec![], false);
    match ex.current_action().unwrap() {
        StepAction::CollectArtifacts { pattern } => assert_eq!(pattern, "/abs/*.tar"),
        other => panic!("unexpected action: {:?}", other),
    }
    ex.report_outcome(StepOutcome::Collected { paths: vec!["/abs/x.tar".to_string()] });
    ex.report_outcome(StepOutcome::Collected { paths: vec!["/work/out/y.zip".to_string()] });
    let done = ex.completion(9);
    assert_eq!(done.artifacts, vec!["/abs/x.tar".to_string(), "/work/out/y.zip".to_string()]);
}

#[test]
fn release_without_credential_is_skipped() {
    let nodes = vec![BuildNode {
        id: "rel".to_string(),
        name: "publish".to_string(),
        config: NodeConfig::Release {
            tag: "v$VERSION".to_string(),
            title: "Release $VERSION".to_string(),
            body: String::new(),
            draft: false,
            prerelease: false,
        },
    }];
    let mut ex = new_executor(nodes, vec![], false);
    assert!(matches!(ex.current_action().unwrap(), StepAction::Skip { .. }));
    ex.report_outcome(StepOutcome::Skipped);
    assert!(ex.completion(0).success);
}

#[test]
fn release_with_credential_substitutes_version() {
    let nodes = vec![BuildNode {
        id: "rel".to_string(),
        name: "publish".to_string(),
        config: NodeConfig::Release {
            tag: "v$VERSION".to_string(),
            title: "Release $VERSION".to_string(),
            body: "notes".to_string(),
            draft: true,
            prerelease: false,
        },
    }];
    let mut ex = new_executor(nodes, vec![], true);
    match ex.current_action().unwrap() {
        StepAction::PublishRelease { tag, title, body, draft, prerelease } => {
            assert_eq!(tag, "v1.2.3");
            assert_eq!(title, "Release 1.2.3");
            assert_eq!(body, "notes");
            assert!(draft);
            assert!(!prerelease);
        },
        other => panic!("unexpected action: {:?}", other),
    }
    ex.report_outcome(StepOutcome::Published {
        url: Some("https://example.invalid/rel/v1.2.3".to_string()),
    });
    let done = ex.completion(7);
    assert!(done.success);
    assert_eq!(done.release_url, Some("https://example.invalid/rel/v1.2.3".to_string()));
}

#[test]
fn script_node_gets_build_scoped_file_name() {
    let nodes = vec![BuildNode {
        id: "s".to_string(),
        name: "run script".to_string(),
        config: NodeConfig::Script { script: "echo hi".to_string(), shell: "bash".to_string() },
    }];
    let mut ex = new_executor(nodes, vec![], false);
    match ex.current_action().unwrap() {
        StepAction::RunScript { script, shell, file_name } => {
            assert_eq!(script, "echo hi");
            assert_eq!(shell, "bash");
            assert_eq!(file_name, ".buildforge-build-1.sh");
        },
        other => panic!("unexpected action: {:?}", other),
    }
}

#[test]
fn command_cwd_placeholder_is_replaced() {
    let nodes = vec![BuildNode {
        id: "c".to_string(),
        name: "in subdir".to_string(),
        config: NodeConfig::Command {
            command: "make".to_string(),
            cwd: Some("$PROJECT_ROOT/sub".to_string()),
        },
    }];
    let mut ex = new_executor(nodes, vec![], false);
    match ex.current_action().unwrap() {
        StepAction::RunCommand { cwd, .. } => assert_eq!(cwd, "/work/sub"),
        other => panic!("unexpected action: {:?}", other),
    }
    ex.report_outcome(StepOutcome::Finished { success: true, detail: String::new() });
}

#[test]
fn unknown_node_type_is_skipped_without_aborting() {
    let nodes = vec![
        BuildNode {
            id: "u".to_string(),
            name: "mystery".to_string(),
            config: NodeConfig::Other { kind: "teleport".to_string() },
        },
        command_node("after", "echo done"),
    ];
    let mut ex = new_executor(nodes, vec![edge("e", "u", "after")], false);
    assert!(matches!(ex.current_action().unwrap(), StepAction::Skip { .. }));
    ex.report_outcome(StepOutcome::Skipped);
    assert!(ex.current_action().is_some());
    ex.report_outcome(StepOutcome::Finished { success: true, detail: String::new() });
    assert!(ex.completion(0).success);
}

#[test]
fn cancellation_stops_remaining_nodes() {
    let nodes = vec![command_node("A", "sleep 100"), command_node("B", "echo 2")];
    let mut ex = new_executor(nodes, vec![edge("e", "A", "B")], false);
    ex.report_outcome(StepOutcome::Finished { success: true, detail: String::new() });
    ex.cancel();
    assert!(ex.current_action().is_none());
    let done = ex.completion(5);
    assert!(!done.success);
}

#[test]
fn completed_build_appends_exactly_one_finished_record() {
    let nodes = vec![command_node("A", "echo 1")];
    let mut ex = new_executor(nodes, vec![], false);
    ex.report_outcome(StepOutcome::Finished { success: true, detail: String::new() });

    let mut data = ServerData::new();
    ex.record_completion(&mut data, "wf-7".to_string(), "2024-05-01T10:00:00Z".to_string(), 1234);
    assert_eq!(data.build_history.len(), 1);
    let rec = &data.build_history[0];
    assert_eq!(rec.id, "build-1");
    assert_eq!(rec.workflow_id, "wf-7");
    assert_eq!(rec.status, "completed");
    assert_eq!(rec.started_at, "2024-05-01T10:00:00Z");
    assert!(rec.finished_at.is_some());
    assert!(!rec.finished_at.as_ref().unwrap().is_empty());
    assert_eq!(rec.duration_ms, Some(1234));
    assert!(rec.logs.is_empty());

    ex.record_completion(&mut data, "wf-7".to_string(), "2024-05-01T10:01:00Z".to_string(), 1);
    assert_eq!(data.build_history.len(), 2);
}

#[test]
fn cancelled_and_failed_builds_record_their_status() {
    let nodes = vec![command_node("A", "false")];
    let mut ex = new_executor(nodes.clone(), vec![], false);
    ex.report_outcome(StepOutcome::Finished { success: false, detail: "err".to_string() });
    let mut data = ServerData::new();
    ex.record_completion(&mut data, String::new(), "t0".to_string(), 0);
    assert_eq!(data.build_history[0].status, "failed");

    let mut ex2 = new_executor(nodes, vec![], false);
    ex2.cancel();
    ex2.record_completion(&mut data, String::new(), "t1".to_string(), 0);
    assert_eq!(data.build_history[1].status, "cancelled");
}

#[test]
fn empty_build_reports_full_progress() {
    let ex = new_executor(vec![], vec![], false);
    assert_eq!(ex.progress(), 100);
    assert!(ex.current_action().is_none());
    assert!(ex.completion(0).success);
}

#[test]
fn replace_all_substitutes_every_occurrence() {
    assert_eq!(replace_all("a$Xb$Xc", "$X", "-"), "a-b-c");
    assert_eq!(replace_all("nothing here", "$X", "-"), "nothing here");
    assert_eq!(replace_all("$X$X", "$X", "$X$X"), "$X$X$X$X");
}

use buildforge::graph::{BuildEdge, BuildNode, NodeConfig};
use buildforge::snapshot::{encode_server_data, parse_server_data};
use buildforge::store::{BuildRecord, ServerData, StoredAction, StoredRepo, StoredWorkflow};

fn sample_data() -> ServerData {
    ServerData {
        workflows: vec![StoredWorkflow {
            id: "w1".to_string(),
            name: "release pipeline".to_string(),
            repo_id: Some("r1".to_string()),
            nodes: vec![
                BuildNode {
                    id: "A".to_string(),
                    name: "build".to_string(),
                    config: NodeConfig::Command {
                        command: "make all".to_string(),
                        cwd: Some("$PROJECT_ROOT/src".to_string()),
                    },
                },
                BuildNode {
                    id: "B".to_string(),
                    name: "package".to_string(),
                    config: NodeConfig::Script {
                        script: "tar cf out.tar dist".to_string(),
                        shell: "bash".to_string(),
                    },
                },
                BuildNode {
                    id: "C".to_string(),
                    name: "collect".to_string(),
                    config: NodeConfig::Artifact { path: "dist/*".to_string() },
                },
                BuildNode {
                    id: "D".to_string(),
                    name: "publish".to_string(),
                    config: NodeConfig::Release {
                        tag: "v$VERSION".to_string(),
                        title: "Release $VERSION".to_string(),
                        body: "notes\nwith \"quotes\" and \\slashes\\".to_string(),
                        draft: false,
                        prerelease: true,
                    },
                },
                BuildNode {
                    id: "E".to_string(),
                    name: "odd".to_string(),
                    config: NodeConfig::Other { kind: "teleport".to_string() },
                },
            ],
            connections: vec![BuildEdge {
                id: "e1".to_string(),
                source: "A".to_string(),
                target: "B".to_string(),
            }],
            next_version: "1.0.2".to_string(),
            created_at: "2024-01-01T00:00:00Z".to_string(),
            updated_at: "2024-02-01T00:00:00Z".to_string(),
        }],
        actions: vec![StoredAction {
            id: "a1".to_string(),
            name: "deploy".to_string(),
            description: "pushes things".to_string(),
            script: "echo \"deploying\"\nscp ...".to_string(),
            inputs: vec!["TARGET".to_string(), "RETRIES".to_string()],
            outputs: vec!["URL".to_string()],
            created_at: "t1".to_string(),
            updated_at: "t2".to_string(),
        }],
        repos: vec![StoredRepo {
            id: "r1".to_string(),
            path: "/home/u/proj".to_string(),
            owner: Some("owner".to_string()),
            repo: None,
            default_branch: "main".to_string(),
            cloned_at: Some("t3".to_string()),
        }],
        build_history: vec![
            BuildRecord {
                id: "b1".to_string(),
                workflow_id: "w1".to_string(),
                status: "completed".to_string(),
                started_at: "t4".to_string(),
                finished_at: Some("t5".to_string()),
                duration_ms: Some(18446744073709551615),
                logs: vec!["line one".to_string(), "line\ntwo".to_string()],
            },
            BuildRecord {
                id: "b2".to_string(),
                workflow_id: String::new(),
                status: "failed".to_string(),
                started_at: "t6".to_string(),
                finished_at: None,
                duration_ms: None,
                logs: vec![],
            },
        ],
    }
}

#[test]
fn snapshot_round_trip_reproduces_the_aggregate() {
    let data = sample_data();
    let text = encode_server_data(&data);
    let back = parse_server_data(&text).expect("snapshot must parse");
    assert_eq!(back, data);
}

#[test]
fn empty_aggregate_has_the_expected_rendering() {
    let data = ServerData::new();
    let text = encode_server_data(&data);
    assert_eq!(
        text,
        "{\"workflows\":[],\n\"actions\":[],\n\"repos\":[],\n\"build_history\":[]}"
    );
    let back = parse_server_data(&text).unwrap();
    assert_eq!(back, data);
}

#[test]
fn strings_with_escapes_survive_the_trip() {
    let mut data = ServerData::new();
    data.actions.push(StoredAction {
        id: "quote\"back\\slash".to_string(),
        name: "a \"name\"".to_string(),
        description: "multi\nline\ttext".to_string(),
        script: "echo '\\\"'".to_string(),
        inputs: vec![],
        outputs: vec![],
        created_at: String::new(),
        updated_at: String::new(),
    });
    let text = encode_server_data(&data);
    let back = parse_server_data(&text).unwrap();
    assert_eq!(back, data);
}

#[test]
fn durations_at_the_edges_survive_the_trip() {
    for d in [None, Some(0u64), Some(1), Some(18446744073709551615)] {
        let mut data = ServerData::new();
        data.build_history.push(BuildRecord {
            id: "b".to_string(),
            workflow_id: String::new(),
            status: "completed".to_string(),
            started_at: "t".to_string(),
            finished_at: Some("t".to_string()),
            duration_ms: d,
            logs: vec![],
        });
        let text = encode_server_data(&data);
        let back = parse_server_data(&text).unwrap();
        assert_eq!(back.build_history[0].duration_ms, d);
    }
}

#[test]
fn malformed_snapshots_are_rejected() {
    assert!(parse_server_data("").is_none());
    assert!(parse_server_data("{}").is_none());
    assert!(parse_server_data("not json at all").is_none());
    assert!(parse_server_data("{\"workflows\":[],\n\"actions\":[]}").is_none());
}

#[test]
fn trailing_garbage_is_rejected() {
    let text = encode_server_data(&ServerData::new());
    let mut longer = text.clone();
    longer.push_str("x");
    assert!(parse_server_data(&longer).is_none());
    assert!(parse_server_data(&text).is_some());
}

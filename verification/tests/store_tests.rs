use buildforge::store::{BuildRecord, ServerData, StoredAction, StoredRepo, StoredWorkflow};

fn workflow(id: &str, name: &str) -> StoredWorkflow {
    StoredWorkflow {
        id: id.to_string(),
        name: name.to_string(),
        repo_id: None,
        nodes: vec![],
        connections: vec![],
        next_version: "1.0.1".to_string(),
        created_at: "2024-01-01T00:00:00Z".to_string(),
        updated_at: "2024-01-01T00:00:00Z".to_string(),
    }
}

fn action(id: &str, script: &str) -> StoredAction {
    StoredAction {
        id: id.to_string(),
        name: id.to_string(),
        description: String::new(),
        script: script.to_string(),
        inputs: vec![],
        outputs: vec![],
        created_at: "2024-01-01T00:00:00Z".to_string(),
        updated_at: "2024-01-01T00:00:00Z".to_string(),
    }
}

#[test]
fn save_workflow_with_new_id_appends() {
    let mut data = ServerData::new();
    data.save_workflow(workflow("w1", "first"));
    assert_eq!(data.workflows.len(), 1);
    data.save_workflow(workflow("w2", "second"));
    assert_eq!(data.workflows.len(), 2);
    assert_eq!(data.workflows[0].id, "w1");
    assert_eq!(data.workflows[1].id, "w2");
}

#[test]
fn save_workflow_with_existing_id_replaces_in_place() {
    let mut data = ServerData::new();
    data.save_workflow(workflow("w1", "before"));
    data.save_workflow(workflow("w2", "other"));
    data.save_workflow(workflow("w1", "after"));
    assert_eq!(data.workflows.len(), 2);
    assert_eq!(data.workflows[0].id, "w1");
    assert_eq!(data.workflows[0].name, "after");
    assert_eq!(data.workflows[1].name, "other");
}

#[test]
fn delete_workflow_removes_by_id() {
    let mut data = ServerData::new();
    data.save_workflow(workflow("w1", "first"));
    data.save_workflow(workflow("w2", "second"));
    data.delete_workflow(&"w1".to_string());
    assert_eq!(data.workflows.len(), 1);
    assert_eq!(data.workflows[0].id, "w2");
}

#[test]
fn delete_absent_workflow_changes_nothing() {
    let mut data = ServerData::new();
    data.save_workflow(workflow("w1", "first"));
    let before = data.clone();
    data.delete_workflow(&"missing".to_string());
    assert_eq!(data, before);
    data.delete_workflow(&"w1".to_string());
    assert!(data.workflows.is_empty());
    data.delete_workflow(&"w1".to_string());
    assert!(data.workflows.is_empty());
}

#[test]
fn save_action_upserts_by_id() {
    let mut data = ServerData::new();
    data.save_action(action("a1", "echo one"));
    data.save_action(action("a1", "echo two"));
    assert_eq!(data.actions.len(), 1);
    assert_eq!(data.actions[0].script, "echo two");
    data.save_action(action("a2", "echo three"));
    assert_eq!(data.actions.len(), 2);
}

#[test]
fn delete_absent_action_changes_nothing() {
    let mut data = ServerData::new();
    data.save_action(action("a1", "echo one"));
    let before = data.clone();
    data.delete_action(&"zzz".to_string());
    assert_eq!(data, before);
    data.delete_action(&"a1".to_string());
    assert!(data.actions.is_empty());
}

#[test]
fn find_action_returns_first_match() {
    let mut data = ServerData::new();
    data.save_action(action("a1", "echo one"));
    data.save_action(action("a2", "echo two"));
    let found = data.find_action(&"a2".to_string()).unwrap();
    assert_eq!(found.script, "echo two");
    assert!(data.find_action(&"a3".to_string()).is_none());
}

#[test]
fn build_history_only_grows() {
    let mut data = ServerData::new();
    let rec = BuildRecord {
        id: "b1".to_string(),
        workflow_id: String::new(),
        status: "completed".to_string(),
        started_at: "2024-01-01T00:00:00Z".to_string(),
        finished_at: Some("2024-01-01T00:00:05Z".to_string()),
        duration_ms: Some(5000),
        logs: vec!["line".to_string()],
    };
    data.push_build_record(rec.clone());
    data.push_build_record(rec.clone());
    assert_eq!(data.build_history.len(), 2);
    assert_eq!(data.build_history[1], rec);
}

#[test]
fn duplicates_preserve_contents() {
    let mut w = workflow("w1", "first");
    w.repo_id = Some("r9".to_string());
    assert_eq!(w.duplicate(), w);
    let a = action("a1", "echo");
    assert_eq!(a.duplicate(), a);
    let r = StoredRepo {
        id: "r1".to_string(),
        path: "/tmp/repo".to_string(),
        owner: Some("o".to_string()),
        repo: None,
        default_branch: "main".to_string(),
        cloned_at: None,
    };
    assert_eq!(r.duplicate(), r);
}

use buildforge::client::{
    find_server, new_build_id, ClientError, ConnectServerRequest, ServerConnection, ServerStatus,
};

fn server(id_seed: &str) -> ServerConnection {
    let mut s = ServerConnection::new(id_seed.to_string(), "127.0.0.1".to_string(), 9876);
    // give it a predictable id for lookups
    s.id = format!("id-{}", id_seed);
    s
}

#[test]
fn new_connection_starts_offline_with_a_36_char_id() {
    let req = ConnectServerRequest {
        name: "local".to_string(),
        address: "127.0.0.1".to_string(),
        port: 9876,
    };
    let s = ServerConnection::new(req.name.clone(), req.address.clone(), req.port);
    assert_eq!(s.id.len(), 36);
    assert_eq!(s.name, "local");
    assert_eq!(s.address, "127.0.0.1");
    assert_eq!(s.port, 9876);
    assert_eq!(s.status, ServerStatus::Offline);
}

#[test]
fn connect_transitions_follow_the_attempt() {
    let mut s = server("a");
    s.begin_connect();
    assert_eq!(s.status, ServerStatus::Connecting);
    s.apply_connect_result(true);
    assert_eq!(s.status, ServerStatus::Online);
    s.disconnect();
    assert_eq!(s.status, ServerStatus::Offline);
    s.begin_connect();
    s.apply_connect_result(false);
    assert_eq!(s.status, ServerStatus::Offline);
}

#[test]
fn status_labels_are_lower_case() {
    assert_eq!(ServerStatus::Online.label(), "online");
    assert_eq!(ServerStatus::Offline.label(), "offline");
    assert_eq!(ServerStatus::Connecting.label(), "connecting");
}

#[test]
fn find_server_returns_the_first_match() {
    let servers = vec![server("a"), server("b")];
    assert_eq!(find_server(&servers, &"id-b".to_string()), Some(1));
    assert_eq!(find_server(&servers, &"id-zzz".to_string()), None);
}

#[test]
fn build_requests_are_gated_on_an_online_server() {
    let mut servers = vec![server("a")];
    assert_eq!(
        new_build_id(&servers, &"id-zzz".to_string()),
        Err(ClientError::ServerNotFound)
    );
    assert_eq!(
        new_build_id(&servers, &"id-a".to_string()),
        Err(ClientError::ServerNotOnline)
    );
    servers[0].begin_connect();
    servers[0].apply_connect_result(true);
    let id = new_build_id(&servers, &"id-a".to_string()).unwrap();
    assert_eq!(id.len(), 36);
}

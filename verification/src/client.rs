//! Client-side connection bookkeeping: the server list a desktop client
//! keeps, its status transitions, and the checks made before a build
//! request leaves the client.
//!
//! Opening the actual transport is the caller's job; the decisions around
//! it (status transitions, lookups, gating) live here.

use crate::graph::{BuildEdge, BuildNode};
use vstd::prelude::*;
use vstd::string::StringExecFns;

verus! {

/// Whether a configured server is reachable right now.
#[derive(Debug, Clone, Copy, PartialEq, Eq, Structural)]
pub enum ServerStatus {
    Online,
    Offline,
    Connecting,
}

/// One configured build server, as the client tracks it.
#[derive(Debug, Clone, PartialEq)]
pub struct ServerConnection {
    pub id: String,
    pub name: String,
    pub address: String,
    pub port: u16,
    pub status: ServerStatus,
}

/// A client's request to register and connect a server.
#[derive(Debug, Clone, PartialEq)]
pub struct ConnectServerRequest {
    pub name: String,
    pub address: String,
    pub port: u16,
}

/// A client's request to start a build on a configured server.
#[derive(Debug, Clone, PartialEq)]
pub struct StartBuildRequest {
    pub server_id: String,
    pub project_name: String,
    pub version: String,
    pub nodes: Vec<BuildNode>,
    pub edges: Vec<BuildEdge>,
}

/// The account a release credential belongs to.
#[derive(Debug, Clone, PartialEq)]
pub struct GitHubUser {
    pub login: String,
    pub name: Option<String>,
    pub email: Option<String>,
    pub avatar_url: String,
}

/// The first reply of a device-code login flow.
#[derive(Debug, Clone, PartialEq)]
pub struct DeviceCodeResponse {
    pub device_code: String,
    pub user_code: String,
    pub verification_uri: String,
    pub expires_in: u32,
    pub interval: u32,
}

/// Why a client-side request was refused.
#[derive(Debug, Clone, PartialEq)]
pub enum ClientError {
    ServerNotFound,
    ServerNotOnline,
}

/// The lower-case wire label of a status.
pub open spec fn status_label(s: ServerStatus) -> Seq<char> {
    match s {
        ServerStatus::Online => "online"@,
        ServerStatus::Offline => "offline"@,
        ServerStatus::Connecting => "connecting"@,
    }
}

/// Some configured server carries this id.
pub open spec fn has_server(servers: Seq<ServerConnection>, id: Seq<char>) -> bool {
    exists|i: int| 0 <= i < servers.len() && servers[i].id@ == id
}

/// Relies on uuid: `Uuid::new_v4().to_string()` renders a random
/// version-4 UUID in the hyphenated form, which is exactly 36 characters.
#[verifier::external_body]
pub fn fresh_id() -> (r: String)
    ensures
        r@.len() == 36,
{
    uuid::Uuid::new_v4().to_string()
}

impl ServerStatus {
    /// This status, worded as its lower-case wire label.
    pub fn label(&self) -> (r: String)
        ensures
            r@ == status_label(*self),
    {
        match self {
            ServerStatus::Online => String::from_str("online"),
            ServerStatus::Offline => String::from_str("offline"),
            ServerStatus::Connecting => String::from_str("connecting"),
        }
    }
}

impl ServerConnection {
    /// A freshly registered server: a new 36-character id, offline until
    /// a connection attempt succeeds.
    pub fn new(name: String, address: String, port: u16) -> (r: ServerConnection)
        ensures
            r.id@.len() == 36,
            r.name == name,
            r.address == address,
            r.port == port,
            r.status == ServerStatus::Offline,
    {
        ServerConnection { id: fresh_id(), name, address, port, status: ServerStatus::Offline }
    }

    /// Marks a connection attempt as started.
    pub fn begin_connect(&mut self)
        ensures
            final(self).status == ServerStatus::Connecting,
            final(self).id == old(self).id,
            final(self).name == old(self).name,
            final(self).address == old(self).address,
            final(self).port == old(self).port,
    {
        self.status = ServerStatus::Connecting;
    }

    /// Folds the outcome of a connection attempt back in.
    pub fn apply_connect_result(&mut self, ok: bool)
        ensures
            final(self).status == if ok {
                ServerStatus::Online
            } else {
                ServerStatus::Offline
            },
            final(self).id == old(self).id,
            final(self).name == old(self).name,
            final(self).address == old(self).address,
            final(self).port == old(self).port,
    {
        if ok {
            self.status = ServerStatus::Online;
        } else {
            self.status = ServerStatus::Offline;
        }
    }

    /// Drops the connection; the entry stays configured, offline.
    pub fn disconnect(&mut self)
        ensures
            final(self).status == ServerStatus::Offline,
            final(self).id == old(self).id,
            final(self).name == old(self).name,
            final(self).address == old(self).address,
            final(self).port == old(self).port,
    {
        self.status = ServerStatus::Offline;
    }
}

/// The first configured server carrying `id`.
pub fn find_server(servers: &Vec<ServerConnection>, id: &String) -> (r: Option<usize>)
    ensures
        match r {
            Some(i) => i < servers@.len() && servers@[i as int].id@ == id@ && (forall|j: int|
                0 <= j < i ==> servers@[j].id@ != id@),
            None => !has_server(servers@, id@),
        },
{
    let mut i: usize = 0;
    while i < servers.len()
        invariant
            i <= servers@.len(),
            forall|j: int| 0 <= j < i ==> servers@[j].id@ != id@,
        decreases servers@.len() - i,
    {
        if servers[i].id == *id {
            return Some(i);
        }
        i += 1;
    }
    None
}

/// Gates a build request: the named server must exist and be online.
/// On success mints the fresh build id the request will carry.
pub fn new_build_id(servers: &Vec<ServerConnection>, server_id: &String) -> (r: Result<
    String,
    ClientError,
>)
    ensures
        match r {
            Ok(id) => id@.len() == 36 && exists|i: int|
                0 <= i < servers@.len() && (#[trigger] servers@[i]).id@ == server_id@
                    && servers@[i].status == ServerStatus::Online,
            Err(ClientError::ServerNotFound) => !has_server(servers@, server_id@),
            Err(ClientError::ServerNotOnline) => exists|i: int|
                0 <= i < servers@.len() && (#[trigger] servers@[i]).id@ == server_id@
                    && servers@[i].status != ServerStatus::Online && (forall|j: int|
                    0 <= j < i ==> servers@[j].id@ != server_id@),
        },
{
    match find_server(servers, server_id) {
        Some(i) => {
            if matches!(servers[i].status, ServerStatus::Online) {
                Ok(fresh_id())
            } else {
                Err(ClientError::ServerNotOnline)
            }
        },
        None => Err(ClientError::ServerNotFound),
    }
}

} // verus!

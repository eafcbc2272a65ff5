//! The persisted configuration document: password, clients, servers and
//! event definitions.

use vstd::prelude::*;

verus! {

/// One configured messaging client.
pub struct ClientConfig {
    pub name: String,
    pub kind: String,
    pub token: Option<String>,
}

impl ClientConfig {
    /// A telegram client entry with the given name and token.
    pub fn new_telegram(name: &str, token: &str) -> (c: ClientConfig)
        ensures
            c.name@ == name@,
            c.kind@ == "telegram"@,
            c.token matches Some(t) && t@ == token@,
    {
        ClientConfig { name: name.to_owned(), kind: "telegram".to_owned(), token: Some(
            token.to_owned(),
        ) }
    }
}

/// One configured server, as persisted.
pub struct ServerConfig {
    pub name: String,
    pub base_url: Option<String>,
    pub docker_container_name: Option<String>,
    pub health_check_path: Option<String>,
    pub kill_path: Option<String>,
    pub log_command: Option<String>,
}

impl ServerConfig {
    pub fn new(
        name: String,
        base_url: Option<String>,
        docker_container_name: Option<String>,
        health_check_path: Option<String>,
        kill_path: Option<String>,
        log_command: Option<String>,
    ) -> (c: ServerConfig)
        ensures
            c.name == name,
            c.base_url == base_url,
            c.docker_container_name == docker_container_name,
            c.health_check_path == health_check_path,
            c.kill_path == kill_path,
            c.log_command == log_command,
    {
        ServerConfig { name, base_url, docker_container_name, health_check_path, kill_path, log_command }
    }
}

/// One persisted event definition: a named keyword condition to watch on
/// a target server, of kind "logs" or "health".
pub struct EventConfig {
    pub kind: String,
    pub name: String,
    pub target: String,
    pub keyword: String,
}

impl ServerConfig {
    /// A field-for-field copy of this entry.
    pub fn duplicate(&self) -> (r: ServerConfig)
        ensures
            r == *self,
    {
        ServerConfig {
            name: self.name.clone(),
            base_url: clone_opt(&self.base_url),
            docker_container_name: clone_opt(&self.docker_container_name),
            health_check_path: clone_opt(&self.health_check_path),
            kill_path: clone_opt(&self.kill_path),
            log_command: clone_opt(&self.log_command),
        }
    }
}

/// A copy of an optional string.
pub fn clone_opt(s: &Option<String>) -> (r: Option<String>)
    ensures
        r == *s,
{
    match s {
        Some(v) => Some(v.clone()),
        None => None,
    }
}

impl EventConfig {
    /// A field-for-field copy of this event definition.
    pub fn duplicate(&self) -> (r: EventConfig)
        ensures
            r == *self,
    {
        EventConfig {
            kind: self.kind.clone(),
            name: self.name.clone(),
            target: self.target.clone(),
            keyword: self.keyword.clone(),
        }
    }
}

/// The persisted configuration document.
pub struct Config {
    pub password: Option<String>,
    pub clients: Vec<ClientConfig>,
    pub servers: Vec<ServerConfig>,
    pub events: Vec<EventConfig>,
}

impl Config {
    /// An empty configuration with the given password.
    pub fn new(password: Option<String>) -> (c: Config)
        ensures
            c.password == password,
            c.clients@ == Seq::<ClientConfig>::empty(),
            c.servers@ == Seq::<ServerConfig>::empty(),
            c.events@ == Seq::<EventConfig>::empty(),
    {
        Config { password, clients: Vec::new(), servers: Vec::new(), events: Vec::new() }
    }
}

/// Some event in `events` carries the given name.
pub open spec fn spec_has_event(events: Seq<EventConfig>, name: Seq<char>) -> bool {
    exists|i: int| 0 <= i < events.len() && events[i].name@ == name
}

/// Looks for an event definition with the given name.
pub fn has_event(events: &Vec<EventConfig>, name: &str) -> (r: bool)
    ensures
        r == spec_has_event(events@, name@),
{
    let n = events.len();
    let mut i: usize = 0;
    while i < n
        invariant
            n == events@.len(),
            i <= n,
            forall|m: int| 0 <= m < i ==> events@[m].name@ != name@,
        decreases n - i,
    {
        if crate::text::str_eq(events[i].name.as_str(), name) {
            return true;
        }
        i = i + 1;
    }
    false
}

} // verus!

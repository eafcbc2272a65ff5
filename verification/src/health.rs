//! Server health states and the classification of probe outcomes.

use vstd::prelude::*;

verus! {

/// How a server's health is probed: an HTTP path on its base address,
/// a container-runtime status check, or nothing.
pub enum HealthCheckMethod {
    Http(String),
    Docker,
    NoCheck,
}

/// The health of a server, produced fresh on every check.
pub enum Health {
    Healthy,
    Unhealthy,
    Deregistered,
    Degraded,
    Down,
    Unknown(String),
}

impl Health {
    /// The human-readable label of this health state.
    pub open spec fn label_view(&self) -> Seq<char> {
        match self {
            Health::Healthy => "Healthy"@,
            Health::Unhealthy => "Unhealthy"@,
            Health::Deregistered => "Deregistered (Draining)"@,
            Health::Degraded => "Degraded"@,
            Health::Down => "Down"@,
            Health::Unknown(msg) => msg@,
        }
    }

    /// Renders this health state for a chat response.
    pub fn label(&self) -> (r: String)
        ensures
            r@ == self.label_view(),
    {
        match self {
            Health::Healthy => "Healthy".to_owned(),
            Health::Unhealthy => "Unhealthy".to_owned(),
            Health::Deregistered => "Deregistered (Draining)".to_owned(),
            Health::Degraded => "Degraded".to_owned(),
            Health::Down => "Down".to_owned(),
            Health::Unknown(msg) => msg.clone(),
        }
    }

    /// The label is one of the five fixed names, or the carried reason.
    pub proof fn lemma_label_closed(&self)
        ensures
            self.label_view() == "Healthy"@ || self.label_view() == "Unhealthy"@
                || self.label_view() == "Deregistered (Draining)"@ || self.label_view()
                == "Degraded"@ || self.label_view() == "Down"@ || (self is Unknown
                && self.label_view() == self->Unknown_0@),
    {
    }
}

/// The health reported for a name no server carries.
pub fn unknown_server_health(name: &str) -> (h: Health)
    ensures
        h matches Health::Unknown(msg) && msg@ == "Fail to found server: '"@ + name@ + "'"@,
{
    let mut msg = "Fail to found server: '".to_owned();
    msg.append(name);
    msg.append("'");
    Health::Unknown(msg)
}

/// The health reported for a server without a health-check method.
pub fn no_health_check_health() -> (h: Health)
    ensures
        h matches Health::Unknown(msg) && msg@ == "Health check is not available"@,
{
    Health::Unknown("Health check is not available".to_owned())
}

/// The health reported for an HTTP probe without a usable URL.
pub fn undefined_path_health() -> (h: Health)
    ensures
        h matches Health::Unknown(msg) && msg@ == "Healthcheck path is undefined"@,
{
    Health::Unknown("Healthcheck path is undefined".to_owned())
}

/// The health assigned to a container runtime state: a running container
/// is healthy, a paused or created one degraded, a restarting one
/// unhealthy, one being removed is deregistered, an exited or dead one is
/// down, and any other state is unknown.
pub fn health_of_container(state: &str) -> (h: Health)
    ensures
        state@ == "running"@ ==> h is Healthy,
        state@ == "paused"@ || state@ == "created"@ ==> h is Degraded,
        state@ == "restarting"@ ==> h is Unhealthy,
        state@ == "removing"@ ==> h is Deregistered,
        state@ == "exited"@ || state@ == "dead"@ ==> h is Down,
        !(state@ == "running"@ || state@ == "paused"@ || state@ == "created"@ || state@
            == "restarting"@ || state@ == "removing"@ || state@ == "exited"@ || state@
            == "dead"@) ==> (h matches Health::Unknown(msg) && msg@ == state@),
{
    proof {
        reveal_strlit("running");
        reveal_strlit("paused");
        reveal_strlit("created");
        reveal_strlit("restarting");
        reveal_strlit("removing");
        reveal_strlit("exited");
        reveal_strlit("dead");
        assert("running"@.len() == 7);
        assert("paused"@.len() == 6);
        assert("created"@.len() == 7);
        assert("restarting"@.len() == 10);
        assert("removing"@.len() == 8);
        assert("exited"@.len() == 6);
        assert("dead"@.len() == 4);
        assert("running"@[0] == 'r' && "created"@[0] == 'c');
        assert("paused"@[0] == 'p' && "exited"@[0] == 'e');
    }
    if crate::text::str_eq(state, "running") {
        Health::Healthy
    } else if crate::text::str_eq(state, "paused") || crate::text::str_eq(state, "created") {
        Health::Degraded
    } else if crate::text::str_eq(state, "restarting") {
        Health::Unhealthy
    } else if crate::text::str_eq(state, "removing") {
        Health::Deregistered
    } else if crate::text::str_eq(state, "exited") || crate::text::str_eq(state, "dead") {
        Health::Down
    } else {
        Health::Unknown(state.to_owned())
    }
}

/// What an HTTP health probe came back with: a status code, a timeout,
/// or another transport failure.
pub enum HttpProbeOutcome {
    Status(u16),
    Timeout,
    TransportError,
}

/// The health assigned to each HTTP probe outcome: a 2xx status is
/// healthy, a 5xx status or a timeout is unhealthy, any other status is
/// degraded, and any other transport error means the server is down.
pub open spec fn spec_health_of_http(outcome: HttpProbeOutcome) -> Health {
    match outcome {
        HttpProbeOutcome::Status(code) => if 200 <= code < 300 {
            Health::Healthy
        } else if 500 <= code < 600 {
            Health::Unhealthy
        } else {
            Health::Degraded
        },
        HttpProbeOutcome::Timeout => Health::Unhealthy,
        HttpProbeOutcome::TransportError => Health::Down,
    }
}

/// Classifies the outcome of an HTTP health probe.
pub fn health_of_http(outcome: &HttpProbeOutcome) -> (h: Health)
    ensures
        h == spec_health_of_http(*outcome),
{
    match outcome {
        HttpProbeOutcome::Status(code) => {
            if 200 <= *code && *code < 300 {
                Health::Healthy
            } else if 500 <= *code && *code < 600 {
                Health::Unhealthy
            } else {
                Health::Degraded
            }
        },
        HttpProbeOutcome::Timeout => Health::Unhealthy,
        HttpProbeOutcome::TransportError => Health::Down,
    }
}

} // verus!

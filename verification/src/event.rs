//! Event definitions, the watchers' per-cycle match decisions, and the
//! router step that resolves a matched event to its subscribers.

use vstd::prelude::*;
use crate::config::EventConfig;
use crate::health::Health;
use crate::subscribe::{EventSubscribeList, spec_has_subscribe, index_of_event};
use crate::text::{contains_seq, contains_str, str_eq, views_of};

verus! {

/// The watch condition an event definition describes.
pub enum EventKind {
    Log { server_name: String, keyword: String },
    Health { server_name: String, keyword: String },
    Unrecognized,
}

/// A named event with its watch condition.
pub struct Event {
    pub name: String,
    pub event_kind: EventKind,
}

impl Event {
    /// Builds the event for a persisted definition: kind "logs" watches
    /// the log stream, kind "health" watches health checks, and any
    /// other kind is unrecognized and spawns no watcher.
    pub fn from(event_config: EventConfig) -> (e: Event)
        ensures
            e.name == event_config.name,
            event_config.kind@ == "logs"@ ==> (e.event_kind matches EventKind::Log {
                server_name,
                keyword,
            } && server_name == event_config.target && keyword == event_config.keyword),
            event_config.kind@ == "health"@ ==> (e.event_kind matches EventKind::Health {
                server_name,
                keyword,
            } && server_name == event_config.target && keyword == event_config.keyword),
            (event_config.kind@ != "logs"@ && event_config.kind@ != "health"@)
                ==> e.event_kind is Unrecognized,
    {
        proof {
            reveal_strlit("logs");
            reveal_strlit("health");
            assert("logs"@.len() == 4);
            assert("health"@.len() == 6);
            assert("logs"@ != "health"@);
        }
        let event_kind = if str_eq(event_config.kind.as_str(), "logs") {
            EventKind::Log { server_name: event_config.target, keyword: event_config.keyword }
        } else if str_eq(event_config.kind.as_str(), "health") {
            EventKind::Health { server_name: event_config.target, keyword: event_config.keyword }
        } else {
            EventKind::Unrecognized
        };
        Event { name: event_config.name, event_kind }
    }
}

/// A matched condition, on its way from a watcher to the router.
pub struct EventMessage {
    pub event_name: String,
    pub text: String,
}

/// The text a health watcher emits on a match.
pub open spec fn health_match_view(keyword: Seq<char>, server_name: Seq<char>) -> Seq<char> {
    "Keyword '"@ + keyword + "' found in health check of server '"@ + server_name + "'"@
}

/// The text a log watcher emits on a match.
pub open spec fn log_match_view(keyword: Seq<char>, server_name: Seq<char>, line: Seq<char>) -> Seq<
    char,
> {
    "Keyword '"@ + keyword + "' found in logs of server '"@ + server_name + "'\nLog: "@ + line
}

/// Decides one health-watcher cycle.
pub struct HealthEventChecker {
}

impl HealthEventChecker {
    pub fn new() -> HealthEventChecker {
        HealthEventChecker {  }
    }

    /// One watcher cycle: emits exactly one event message when the
    /// rendered health contains the keyword, and none otherwise.
    pub fn check_cycle(&self, server_name: &str, keyword: &str, health: &Health) -> (r: Option<
        EventMessage,
    >)
        ensures
            r is Some <==> contains_seq(health.label_view(), keyword@),
            r matches Some(m) ==> m.event_name@ == server_name@ && m.text@ == health_match_view(
                keyword@,
                server_name@,
            ),
    {
        let label = health.label();
        if contains_str(label.as_str(), keyword) {
            let mut text = "Keyword '".to_owned();
            text.append(keyword);
            text.append("' found in health check of server '");
            text.append(server_name);
            text.append("'");
            Some(EventMessage { event_name: server_name.to_owned(), text })
        } else {
            None
        }
    }
}

/// Decides one log-watcher line.
pub struct LogEventChecker {
}

impl LogEventChecker {
    pub fn new() -> LogEventChecker {
        LogEventChecker {  }
    }

    /// One stream line: emits exactly one event message when the line
    /// contains the keyword, and none otherwise.
    pub fn check_line(&self, server_name: &str, keyword: &str, line: &str) -> (r: Option<
        EventMessage,
    >)
        ensures
            r is Some <==> contains_seq(line@, keyword@),
            r matches Some(m) ==> m.event_name@ == server_name@ && m.text@ == log_match_view(
                keyword@,
                server_name@,
                line@,
            ),
    {
        if contains_str(line, keyword) {
            let mut text = "Keyword '".to_owned();
            text.append(keyword);
            text.append("' found in logs of server '");
            text.append(server_name);
            text.append("'\nLog: ");
            text.append(line);
            Some(EventMessage { event_name: server_name.to_owned(), text })
        } else {
            None
        }
    }
}

/// One event's watcher, as a unit of work: evaluates the event's match
/// condition against what the current cycle observed.
pub struct EventTask {
    pub event: Event,
}

impl EventTask {
    /// One cycle of this event's watcher.  For a health event,
    /// `observed` is the rendered health; for a log event, the stream
    /// line; an unrecognized event never matches.
    pub fn check(&self, observed: &str) -> (r: Option<EventMessage>)
        ensures
            match self.event.event_kind {
                EventKind::Health { server_name, keyword } => {
                    &&& (r is Some <==> contains_seq(observed@, keyword@))
                    &&& (r matches Some(m) ==> m.event_name@ == server_name@ && m.text@
                        == health_match_view(keyword@, server_name@))
                },
                EventKind::Log { server_name, keyword } => {
                    &&& (r is Some <==> contains_seq(observed@, keyword@))
                    &&& (r matches Some(m) ==> m.event_name@ == server_name@ && m.text@
                        == log_match_view(keyword@, server_name@, observed@))
                },
                EventKind::Unrecognized => r is None,
            },
    {
        match &self.event.event_kind {
            EventKind::Health { server_name, keyword } => {
                if contains_str(observed, keyword.as_str()) {
                    let mut text = "Keyword '".to_owned();
                    text.append(keyword.as_str());
                    text.append("' found in health check of server '");
                    text.append(server_name.as_str());
                    text.append("'");
                    Some(EventMessage { event_name: server_name.clone(), text })
                } else {
                    None
                }
            },
            EventKind::Log { server_name, keyword } => {
                if contains_str(observed, keyword.as_str()) {
                    let mut text = "Keyword '".to_owned();
                    text.append(keyword.as_str());
                    text.append("' found in logs of server '");
                    text.append(server_name.as_str());
                    text.append("'\nLog: ");
                    text.append(observed);
                    Some(EventMessage { event_name: server_name.clone(), text })
                } else {
                    None
                }
            },
            EventKind::Unrecognized => None,
        }
    }
}

/// The router's consumer step: resolves a matched event to the chats it
/// must be delivered to.
pub struct EventManager {
}

impl EventManager {
    pub fn new() -> EventManager {
        EventManager {  }
    }

    /// The chat ids subscribed to the matched event, in stored order;
    /// empty when no subscription entry carries the event's name.
    pub fn handle(&self, event_message: &EventMessage, subs: &EventSubscribeList) -> (r: Vec<
        String,
    >)
        requires
            subs.wf(),
        ensures
            !spec_has_subscribe(subs.subscribes@, event_message.event_name@) ==> r@.len() == 0,
            spec_has_subscribe(subs.subscribes@, event_message.event_name@) ==> views_of(r@)
                == views_of(
                subs.subscribes@[index_of_event(subs.subscribes@, event_message.event_name@)].chat_ids@,
            ),
    {
        match subs.find_subscribe(event_message.event_name.as_str()) {
            Some(entry) => {
                proof {
                    let i = choose|i: int|
                        0 <= i < subs.subscribes@.len() && *entry == subs.subscribes@[i];
                    let w = index_of_event(subs.subscribes@, event_message.event_name@);
                    assert(0 <= w < subs.subscribes@.len() && subs.subscribes@[w].event_name@
                        == event_message.event_name@);
                    assert(i == w);
                }
                let n = entry.chat_ids.len();
                let mut out: Vec<String> = Vec::new();
                let mut j: usize = 0;
                proof {
                    assert(views_of(out@) =~= views_of(entry.chat_ids@.take(0)));
                }
                while j < n
                    invariant
                        n == entry.chat_ids@.len(),
                        j <= n,
                        views_of(out@) == views_of(entry.chat_ids@.take(j as int)),
                    decreases n - j,
                {
                    let id = entry.chat_ids[j].clone();
                    proof {
                        assert(entry.chat_ids@.take(j + 1) =~= entry.chat_ids@.take(j as int).push(
                            entry.chat_ids@[j as int],
                        ));
                        assert(views_of(entry.chat_ids@.take(j as int).push(
                            entry.chat_ids@[j as int],
                        )) =~= views_of(entry.chat_ids@.take(j as int)).push(
                            entry.chat_ids@[j as int]@,
                        ));
                        assert(views_of(out@.push(id)) =~= views_of(out@).push(id@));
                    }
                    out.push(id);
                    j = j + 1;
                }
                proof {
                    assert(entry.chat_ids@.take(n as int) =~= entry.chat_ids@);
                }
                out
            },
            None => Vec::new(),
        }
    }
}

} // verus!

//! The message handler's decisions: the registration flow, the auth
//! gate in front of command dispatch, and the exact texts of every chat
//! response.

use vstd::prelude::*;
use crate::auth::AuthAdapter;
use crate::chat::spec_has_pair;
use crate::command::{Command, AlarmCommand, spec_parse};
use crate::config::{EventConfig, spec_has_event};
use crate::health::Health;
use crate::subscribe::{
    EventSubscribeList,
    config_subscribed,
    index_of_event,
    keep_pred,
    spec_has_subscribe,
    spec_subscribed,
};
use crate::text::{tokens_of, split_whitespace, str_eq, views_of};

verus! {

/// The help text, as a sequence of characters.
pub open spec fn invalid_command_view() -> Seq<char> {
    "Invalid or unknown command.\n\nAvailable commands:\n- /logs <server_name> <lines>\n  Fetches the last <lines> of logs from the specified server.\n  Example: /logs main 100\n\n- /health (server_name)\n  (server_name): optional. If provided, returns the health status of the specified server."@
}

/// The help text sent for an unrecognized command.
pub fn invalid_command_message() -> (r: String)
    ensures
        r@ == invalid_command_view(),
{
    "Invalid or unknown command.\n\nAvailable commands:\n- /logs <server_name> <lines>\n  Fetches the last <lines> of logs from the specified server.\n  Example: /logs main 100\n\n- /health (server_name)\n  (server_name): optional. If provided, returns the health status of the specified server.".to_owned()
}

/// The fixed reply to a message from an unregistered chat.
pub fn registration_required_message() -> (r: String)
    ensures
        r@ == "Registration required. Usage: /register <password>"@,
{
    "Registration required. Usage: /register <password>".to_owned()
}

/// An execution error, rendered for the chat.
pub fn err_response(e: &str) -> (r: String)
    ensures
        r@ == "[Err] "@ + e@,
{
    let mut out = "[Err] ".to_owned();
    out.append(e);
    out
}

/// The reply to `/health <name>`.
pub open spec fn health_response_view(name: Seq<char>, health: Health) -> Seq<char> {
    "===\n"@ + "Server: "@ + name + "\n Health: "@ + health.label_view()
}

pub fn health_response(name: &str, health: &Health) -> (r: String)
    ensures
        r@ == health_response_view(name@, *health),
{
    let mut out = "===\n".to_owned();
    out.append("Server: ");
    out.append(name);
    out.append("\n Health: ");
    let label = health.label();
    out.append(label.as_str());
    out
}

/// The reply to `/health <name>` always contains `Server: ` followed by
/// the server's name, and ends in the server's health label, which is
/// one of the five fixed names or the carried reason
/// (`Health::lemma_label_closed`).
pub proof fn lemma_health_response_shape(name: Seq<char>, h: Health)
    ensures
        crate::text::occurs_at(health_response_view(name, h), "Server: "@ + name, 4),
        crate::text::occurs_at(
            health_response_view(name, h),
            h.label_view(),
            health_response_view(name, h).len() - h.label_view().len(),
        ),
{
    reveal_strlit("===\n");
    reveal_strlit("Server: ");
    reveal_strlit("\n Health: ");
    assert("===\n"@.len() == 4);
    assert("Server: "@.len() == 8);
    assert("\n Health: "@.len() == 10);
    let v = health_response_view(name, h);
    let target = "Server: "@ + name;
    assert(v.subrange(4, 12 + name.len() as int) =~= target);
    let off = v.len() - h.label_view().len();
    assert(v.subrange(off as int, v.len() as int) =~= h.label_view());
}

/// One line of the reply to `/health`.
pub open spec fn health_entry_view(name: Seq<char>, health: Health) -> Seq<char> {
    "===\nServer: "@ + name + "\nHealth: "@ + health.label_view()
}

pub fn health_entry(name: &str, health: &Health) -> (r: String)
    ensures
        r@ == health_entry_view(name@, *health),
{
    let mut out = "===\nServer: ".to_owned();
    out.append(name);
    out.append("\nHealth: ");
    let label = health.label();
    out.append(label.as_str());
    out
}

/// The items joined by the separator.
pub open spec fn join_with(items: Seq<Seq<char>>, sep: Seq<char>) -> Seq<char>
    decreases items.len(),
{
    if items.len() == 0 {
        Seq::empty()
    } else if items.len() == 1 {
        items[0]
    } else {
        items[0] + sep + join_with(items.skip(1), sep)
    }
}

/// Joining one more item appends a separator and the item.
pub proof fn lemma_join_push(items: Seq<Seq<char>>, sep: Seq<char>, t: Seq<char>)
    ensures
        join_with(items.push(t), sep) == if items.len() == 0 {
            t
        } else {
            join_with(items, sep) + sep + t
        },
    decreases items.len(),
{
    let p = items.push(t);
    if items.len() == 0 {
        assert(p.len() == 1);
        assert(p[0] == t);
    } else {
        assert(p[0] == items[0]);
        assert(p.skip(1) =~= items.skip(1).push(t));
        lemma_join_push(items.skip(1), sep, t);
        if items.len() == 1 {
            assert(items.skip(1).len() == 0);
            assert(join_with(p, sep) == items[0] + sep + t);
            assert(join_with(items, sep) == items[0]);
        } else {
            assert(join_with(p, sep) == items[0] + sep + (join_with(items.skip(1), sep) + sep
                + t));
            assert(items[0] + sep + (join_with(items.skip(1), sep) + sep + t) =~= (items[0] + sep
                + join_with(items.skip(1), sep)) + sep + t);
        }
    }
}

/// Joins rendered lines with a separator.
pub fn join_strings(items: &Vec<String>, sep: &str) -> (r: String)
    ensures
        r@ == join_with(views_of(items@), sep@),
{
    let n = items.len();
    let mut out = String::new();
    let mut i: usize = 0;
    proof {
        assert(views_of(items@.take(0)) =~= Seq::<Seq<char>>::empty());
    }
    while i < n
        invariant
            n == items@.len(),
            i <= n,
            out@ == join_with(views_of(items@.take(i as int)), sep@),
        decreases n - i,
    {
        proof {
            assert(items@.take(i + 1) =~= items@.take(i as int).push(items@[i as int]));
            assert(views_of(items@.take(i as int).push(items@[i as int])) =~= views_of(
                items@.take(i as int),
            ).push(items@[i as int]@));
            lemma_join_push(views_of(items@.take(i as int)), sep@, items@[i as int]@);
        }
        if i > 0 {
            proof {
                assert(views_of(items@.take(i as int)).len() == i);
            }
            out.append(sep);
        }
        out.append(items[i].as_str());
        i = i + 1;
    }
    proof {
        assert(items@.take(n as int) =~= items@);
    }
    out
}

/// The lines of the reply to `/health`, one per server.
pub open spec fn health_entries(results: Seq<(String, Health)>) -> Seq<Seq<char>> {
    results.map_values(|p: (String, Health)| health_entry_view(p.0@, p.1))
}

/// The reply to `/health`: one line per server, joined by newlines.
pub fn health_all_response(results: &Vec<(String, Health)>) -> (r: String)
    ensures
        r@ == join_with(health_entries(results@), "\n"@),
{
    let n = results.len();
    let mut entries: Vec<String> = Vec::new();
    let mut i: usize = 0;
    proof {
        assert(views_of(entries@) =~= health_entries(results@.take(0)));
    }
    while i < n
        invariant
            n == results@.len(),
            i <= n,
            views_of(entries@) == health_entries(results@.take(i as int)),
        decreases n - i,
    {
        let line = health_entry(results[i].0.as_str(), &results[i].1);
        proof {
            assert(results@.take(i + 1) =~= results@.take(i as int).push(results@[i as int]));
            assert(health_entries(results@.take(i as int).push(results@[i as int]))
                =~= health_entries(results@.take(i as int)).push(
                health_entry_view(results@[i as int].0@, results@[i as int].1),
            ));
            assert(views_of(entries@.push(line)) =~= views_of(entries@).push(line@));
        }
        entries.push(line);
        i = i + 1;
    }
    proof {
        assert(results@.take(n as int) =~= results@);
    }
    join_strings(&entries, "\n")
}

/// The reply to `/logs <name> <n>`: the captured output, or a fixed
/// notice when logs are unavailable.
pub fn logs_response(logs: Option<String>) -> (r: String)
    ensures
        match logs {
            Some(text) => r == text,
            None => r@ == "Logs are not available."@,
        },
{
    match logs {
        Some(text) => text,
        None => "Logs are not available.".to_owned(),
    }
}

/// One block of the reply to `/alarm list`.
pub open spec fn event_block_view(e: EventConfig) -> Seq<char> {
    "---\nname: "@ + e.name@ + "\ntype: "@ + e.kind@ + "\ntarget: "@ + e.target@ + "\nkeyword: "@
        + e.keyword@
}

pub fn event_block(e: &EventConfig) -> (r: String)
    ensures
        r@ == event_block_view(*e),
{
    let mut out = "---\nname: ".to_owned();
    out.append(e.name.as_str());
    out.append("\ntype: ");
    out.append(e.kind.as_str());
    out.append("\ntarget: ");
    out.append(e.target.as_str());
    out.append("\nkeyword: ");
    out.append(e.keyword.as_str());
    out
}

/// The blocks of the reply to `/alarm list`.
pub open spec fn event_blocks(events: Seq<EventConfig>) -> Seq<Seq<char>> {
    events.map_values(|e: EventConfig| event_block_view(e))
}

/// Runs one alarm command against the subscription list and renders the
/// reply: subscribe and unsubscribe confirm, a failed subscribe is
/// rendered as an execution error, and list shows the subscribed event
/// definitions.
pub fn execute_alarm(
    cmd: &AlarmCommand,
    subs: &mut EventSubscribeList,
    events: &Vec<EventConfig>,
    id: &str,
) -> (r: String)
    requires
        old(subs).wf(),
    ensures
        final(subs).wf(),
        cmd matches AlarmCommand::Add(name) ==> (if spec_has_event(events@, name@) {
            r@ == "Successfully subscribed"@ && spec_subscribed(final(subs).subscribes@, name@, id@)
                && crate::subscribe::subscribe_step(
                old(subs).subscribes@,
                final(subs).subscribes@,
                name@,
                id@,
            )
        } else {
            r@ == "[Err] Event '"@ + name@ + "' does not exist in configuration"@ && *final(subs)
                == *old(subs)
        }),
        cmd matches AlarmCommand::Remove(name) ==> (r@ == "Successfully removed"@ && (
        !spec_subscribed(old(subs).subscribes@, name@, id@) ==> final(subs).subscribes@ == old(
            subs,
        ).subscribes@) && (!spec_has_subscribe(old(subs).subscribes@, name@) ==> *final(subs)
            == *old(subs)) && (spec_has_subscribe(old(subs).subscribes@, name@) ==> ({
            let i = index_of_event(old(subs).subscribes@, name@);
            &&& final(subs).subscribes@.len() == old(subs).subscribes@.len()
            &&& (forall|j: int|
                0 <= j < old(subs).subscribes@.len() && j != i ==> final(subs).subscribes@[j]
                    == old(subs).subscribes@[j])
            &&& final(subs).subscribes@[i].event_name == old(subs).subscribes@[i].event_name
            &&& final(subs).subscribes@[i].chat_ids@ == old(subs).subscribes@[i].chat_ids@.filter(
                keep_pred(id@),
            )
        }))),
        cmd is List ==> (r@ == "--- list ---\n"@ + join_with(
            event_blocks(events@.filter(config_subscribed(old(subs).subscribes@, id@))),
            "\n\n"@,
        ) && *final(subs) == *old(subs)),
{
    match cmd {
        AlarmCommand::Add(event_name) => {
            match subs.subscribe(events, id.to_owned(), event_name.clone()) {
                Ok(_) => "Successfully subscribed".to_owned(),
                Err(e) => {
                    let out = err_response(e.as_str());
                    proof {
                        reveal_strlit("[Err] ");
                        reveal_strlit("Event '");
                        reveal_strlit("[Err] Event '");
                        assert(out@ =~= "[Err] Event '"@ + event_name@
                            + "' does not exist in configuration"@);
                    }
                    out
                },
            }
        },
        AlarmCommand::Remove(event_name) => {
            subs.unsubscribe(event_name.as_str(), id);
            "Successfully removed".to_owned()
        },
        AlarmCommand::List => {
            let configs = subs.list_subscribed_event(events, id);
            let m = configs.len();
            let mut blocks: Vec<String> = Vec::new();
            let mut i: usize = 0;
            proof {
                assert(views_of(blocks@) =~= event_blocks(configs@.take(0)));
            }
            while i < m
                invariant
                    m == configs@.len(),
                    i <= m,
                    views_of(blocks@) == event_blocks(configs@.take(i as int)),
                decreases m - i,
            {
                let b = event_block(&configs[i]);
                proof {
                    assert(configs@.take(i + 1) =~= configs@.take(i as int).push(
                        configs@[i as int],
                    ));
                    assert(event_blocks(configs@.take(i as int).push(configs@[i as int]))
                        =~= event_blocks(configs@.take(i as int)).push(
                        event_block_view(configs@[i as int]),
                    ));
                    assert(views_of(blocks@.push(b)) =~= views_of(blocks@).push(b@));
                }
                blocks.push(b);
                i = i + 1;
            }
            proof {
                assert(configs@.take(m as int) =~= configs@);
            }
            let body = join_strings(&blocks, "\n\n");
            let mut out = "--- list ---\n".to_owned();
            out.append(body.as_str());
            out
        },
    }
}

/// Runs the `/register <password>` flow and renders the reply: rejected
/// when no password is configured, rejected on a wrong password, and
/// otherwise an idempotent registration of the (channel, identity) pair.
pub fn handle_register(
    gate: &mut AuthAdapter,
    client_name: &str,
    chat_id: &str,
    password: &str,
) -> (r: String)
    requires
        old(gate).wf(),
    ensures
        final(gate).wf(),
        final(gate).password == old(gate).password,
        old(gate).password is None ==> (*final(gate) == *old(gate) && r@
            == "Password is not required"@),
        (old(gate).password matches Some(p) && p@ != password@) ==> (*final(gate) == *old(gate)
            && r@ == "Invalid password. Usage: /register <password>"@),
        (old(gate).password matches Some(p) && p@ == password@) ==> (r@
            == "Successfully registered."@ && spec_has_pair(
            final(gate).chat_list.chats@,
            client_name@,
            chat_id@,
        ) && crate::chat::register_step(
            old(gate).chat_list.chats@,
            final(gate).chat_list.chats@,
            client_name@,
            chat_id@,
        )),
{
    if !gate.password_required() {
        return "Password is not required".to_owned();
    }
    if gate.validate_password(password.to_owned()) {
        match gate.register(client_name.to_owned(), chat_id.to_owned()) {
            Ok(_) => "Successfully registered.".to_owned(),
            Err(e) => {
                let mut out = "Fail to register: ".to_owned();
                out.append(e.as_str());
                out
            },
        }
    } else {
        "Invalid password. Usage: /register <password>".to_owned()
    }
}

/// What the handler decides to do with one inbound message.
pub enum HandlerAction {
    /// Respond with this text and stop.
    Reply(String),
    /// Run this command on behalf of this subscriber id.
    Execute(Command, String),
}

/// Routes one inbound message: the registration flow runs first and
/// bypasses dispatch; otherwise the auth gate must resolve the sender before
/// the text is parsed into a command.  With no password set, an unknown
/// sender's external chat id serves as the subscriber id.
pub fn route_message(
    gate: &mut AuthAdapter,
    client_name: &str,
    chat_id: &str,
    text: &str,
) -> (r: HandlerAction)
    requires
        old(gate).wf(),
    ensures
        final(gate).wf(),
        final(gate).password == old(gate).password,
        ({
            let toks = tokens_of(text@);
            &&& (toks.len() == 2 && toks[0] == "/register"@) ==> ({
                &&& old(gate).password is None ==> (*final(gate) == *old(gate) && (
                r matches HandlerAction::Reply(m) && m@ == "Password is not required"@))
                &&& (old(gate).password matches Some(p) && p@ != toks[1]) ==> (*final(gate)
                    == *old(gate) && (r matches HandlerAction::Reply(m) && m@
                    == "Invalid password. Usage: /register <password>"@))
                &&& (old(gate).password matches Some(p) && p@ == toks[1]) ==> ((
                r matches HandlerAction::Reply(m) && m@ == "Successfully registered."@)
                    && spec_has_pair(final(gate).chat_list.chats@, client_name@, chat_id@)
                    && crate::chat::register_step(
                    old(gate).chat_list.chats@,
                    final(gate).chat_list.chats@,
                    client_name@,
                    chat_id@,
                ))
            })
            &&& !(toks.len() == 2 && toks[0] == "/register"@) ==> ({
                &&& final(gate).chat_list.chats@ == old(gate).chat_list.chats@
                &&& (old(gate).password is Some && !spec_has_pair(
                    old(gate).chat_list.chats@,
                    client_name@,
                    chat_id@,
                )) ==> (r matches HandlerAction::Reply(m) && m@
                    == "Registration required. Usage: /register <password>"@)
                &&& spec_has_pair(old(gate).chat_list.chats@, client_name@, chat_id@) ==> (
                r matches HandlerAction::Execute(c, id) && c@ == spec_parse(text@) && exists|i: int|
                    0 <= i < old(gate).chat_list.chats@.len()
                    && #[trigger] old(gate).chat_list.chats@[i].is_pair(client_name@, chat_id@)
                    && id@ == old(gate).chat_list.chats@[i].id@)
                &&& (old(gate).password is None && !spec_has_pair(
                    old(gate).chat_list.chats@,
                    client_name@,
                    chat_id@,
                )) ==> (r matches HandlerAction::Execute(c, id) && c@ == spec_parse(text@) && id@
                    == chat_id@)
            })
        }),
{
    let toks = split_whitespace(text);
    if toks.len() == 2 && str_eq(toks[0].as_str(), "/register") {
        let reply = handle_register(gate, client_name, chat_id, toks[1].as_str());
        return HandlerAction::Reply(reply);
    }
    match gate.authenticate(client_name.to_owned(), chat_id.to_owned()) {
        Some(id) => HandlerAction::Execute(Command::parse(text), id),
        None => {
            if gate.password_required() {
                HandlerAction::Reply(registration_required_message())
            } else {
                HandlerAction::Execute(Command::parse(text), chat_id.to_owned())
            }
        },
    }
}

} // verus!

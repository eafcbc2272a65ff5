//! The chat command grammar: free text is matched token-wise against a
//! fixed, case-sensitive table and turned into a typed command.

use vstd::prelude::*;
use crate::text::{tokens_of, parses_as_i32, i32_value, split_whitespace, str_eq, parse_i32};

verus! {

/// Subscription-management commands under `/alarm`.
pub enum AlarmCommand {
    Add(String),
    Remove(String),
    List,
}

/// A parsed chat command.
pub enum Command {
    Logs(String, i32),
    HealthCheckAll,
    HealthCheck(String),
    Nothing,
    Alarm(AlarmCommand),
}

/// The mathematical shape of an alarm command.
pub enum AlarmModel {
    Add(Seq<char>),
    Remove(Seq<char>),
    List,
}

/// The mathematical shape of a command.
pub enum CommandModel {
    Logs(Seq<char>, int),
    HealthCheckAll,
    HealthCheck(Seq<char>),
    Nothing,
    Alarm(AlarmModel),
}

impl View for AlarmCommand {
    type V = AlarmModel;

    open spec fn view(&self) -> AlarmModel {
        match self {
            AlarmCommand::Add(name) => AlarmModel::Add(name@),
            AlarmCommand::Remove(name) => AlarmModel::Remove(name@),
            AlarmCommand::List => AlarmModel::List,
        }
    }
}

impl View for Command {
    type V = CommandModel;

    open spec fn view(&self) -> CommandModel {
        match self {
            Command::Logs(name, n) => CommandModel::Logs(name@, *n as int),
            Command::HealthCheckAll => CommandModel::HealthCheckAll,
            Command::HealthCheck(name) => CommandModel::HealthCheck(name@),
            Command::Nothing => CommandModel::Nothing,
            Command::Alarm(a) => CommandModel::Alarm(a@),
        }
    }
}

/// What the fixed grammar assigns to an input text:
/// `/health <name>`, `/health`, `/logs <name> <n>` with `<n>` a decimal
/// integer, `/alarm add <name>`, `/alarm remove <name>`, `/alarm list`,
/// `/alarm`, and Nothing for everything else.
pub open spec fn spec_parse(text: Seq<char>) -> CommandModel {
    let toks = tokens_of(text);
    if toks.len() == 2 && toks[0] == "/health"@ {
        CommandModel::HealthCheck(toks[1])
    } else if toks.len() == 1 && toks[0] == "/health"@ {
        CommandModel::HealthCheckAll
    } else if toks.len() == 3 && toks[0] == "/logs"@ {
        if parses_as_i32(toks[2]) {
            CommandModel::Logs(toks[1], i32_value(toks[2]))
        } else {
            CommandModel::Nothing
        }
    } else if toks.len() == 3 && toks[0] == "/alarm"@ && toks[1] == "add"@ {
        CommandModel::Alarm(AlarmModel::Add(toks[2]))
    } else if toks.len() == 3 && toks[0] == "/alarm"@ && toks[1] == "remove"@ {
        CommandModel::Alarm(AlarmModel::Remove(toks[2]))
    } else if toks.len() == 2 && toks[0] == "/alarm"@ && toks[1] == "list"@ {
        CommandModel::Alarm(AlarmModel::List)
    } else if toks.len() == 1 && toks[0] == "/alarm"@ {
        CommandModel::Alarm(AlarmModel::List)
    } else {
        CommandModel::Nothing
    }
}

impl Command {
    /// Parses free chat text against the fixed command grammar.
    pub fn parse(text: &str) -> (c: Command)
        ensures
            c@ == spec_parse(text@),
    {
        let toks = split_whitespace(text);
        if toks.len() == 2 && str_eq(toks[0].as_str(), "/health") {
            Command::HealthCheck(toks[1].clone())
        } else if toks.len() == 1 && str_eq(toks[0].as_str(), "/health") {
            Command::HealthCheckAll
        } else if toks.len() == 3 && str_eq(toks[0].as_str(), "/logs") {
            match parse_i32(toks[2].as_str()) {
                Some(n) => Command::Logs(toks[1].clone(), n),
                None => Command::Nothing,
            }
        } else if toks.len() == 3 && str_eq(toks[0].as_str(), "/alarm") && str_eq(
            toks[1].as_str(),
            "add",
        ) {
            Command::Alarm(AlarmCommand::Add(toks[2].clone()))
        } else if toks.len() == 3 && str_eq(toks[0].as_str(), "/alarm") && str_eq(
            toks[1].as_str(),
            "remove",
        ) {
            Command::Alarm(AlarmCommand::Remove(toks[2].clone()))
        } else if toks.len() == 2 && str_eq(toks[0].as_str(), "/alarm") && str_eq(
            toks[1].as_str(),
            "list",
        ) {
            Command::Alarm(AlarmCommand::List)
        } else if toks.len() == 1 && str_eq(toks[0].as_str(), "/alarm") {
            Command::Alarm(AlarmCommand::List)
        } else {
            Command::Nothing
        }
    }
}

/// A `/logs` command whose count token is not a well-formed `i32`
/// parses to `Nothing`.
pub proof fn lemma_logs_bad_count_is_nothing(text: Seq<char>)
    requires
        tokens_of(text).len() == 3,
        tokens_of(text)[0] == "/logs"@,
        !parses_as_i32(tokens_of(text)[2]),
    ensures
        spec_parse(text) is Nothing,
{
    reveal_strlit("/logs");
    reveal_strlit("/health");
    reveal_strlit("/alarm");
    assert("/logs"@.len() == 5);
    assert("/health"@.len() == 7);
    assert("/alarm"@.len() == 6);
}

} // verus!

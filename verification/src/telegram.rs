//! The telegram adapter's data model and the pure decisions of its poll
//! cycle: cursor advancement and the extraction of inbound messages.

use vstd::prelude::*;
use crate::text::{dec_rep, i64_to_string};

verus! {

/// An outbound send request.
pub struct SendMessageDto {
    pub chat_id: String,
    pub text: String,
    pub reply_markup: Option<ReplyMarkup>,
}

pub struct ReplyMarkup {
    pub inline_keyboard: Vec<InlineKeyboardButton>,
}

pub struct InlineKeyboardButton {
    pub text: String,
    pub url: Option<String>,
    pub callback_data: Option<String>,
}

impl SendMessageDto {
    pub fn new(chat_id: &str, text: &str, reply_markup: Option<ReplyMarkup>) -> (r: SendMessageDto)
        ensures
            r.chat_id@ == chat_id@,
            r.text@ == text@,
            r.reply_markup == reply_markup,
    {
        SendMessageDto { chat_id: chat_id.to_owned(), text: text.to_owned(), reply_markup }
    }
}

/// The platform's response envelope.
pub struct TelegramResponse<T> {
    pub ok: bool,
    pub result: T,
    pub error_code: Option<i16>,
    pub description: Option<String>,
}

/// One inbound chat message, as the platform reports it.
pub struct Message {
    pub message_id: i64,
    pub message_thread_id: Option<i64>,
    pub from: User,
    pub date: i64,
    pub chat: Chat,
    pub text: Option<String>,
}

/// One poll result item.
pub struct Update {
    pub update_id: i64,
    pub message: Option<Message>,
    pub edited_message: Option<Message>,
    pub callback_query: Option<CallbackQuery>,
}

pub struct CallbackQuery {
    pub id: String,
    pub from: User,
    pub message: Option<Message>,
    pub inline_message_id: Option<String>,
    pub chat_instance: String,
    pub data: Option<String>,
    pub game_short_name: Option<String>,
}

/// The conversation a message belongs to.
pub struct Chat {
    pub id: i64,
    pub kind: String,
    pub title: Option<String>,
    pub username: Option<String>,
    pub first_name: Option<String>,
    pub last_name: Option<String>,
    pub is_forum: Option<bool>,
    pub is_direct_messages: Option<bool>,
}

pub struct User {
    pub id: i64,
    pub is_bot: bool,
    pub first_name: String,
}

/// The largest update id in a batch (meaningful only for a non-empty
/// batch).
pub open spec fn max_update_id(updates: Seq<Update>) -> int
    decreases updates.len(),
{
    if updates.len() <= 1 {
        if updates.len() == 0 {
            0
        } else {
            updates[0].update_id as int
        }
    } else {
        let rest = max_update_id(updates.skip(1));
        if updates[0].update_id >= rest {
            updates[0].update_id as int
        } else {
            rest
        }
    }
}

/// Advances the poll cursor: one past the largest update id seen, or
/// unchanged when the batch is empty.
pub fn advance_offset(offset: i64, updates: &Vec<Update>) -> (r: i64)
    requires
        forall|i: int| 0 <= i < updates@.len() ==> (#[trigger] updates@[i].update_id) < i64::MAX,
    ensures
        updates@.len() == 0 ==> r == offset,
        updates@.len() > 0 ==> r == max_update_id(updates@) + 1,
{
    let n = updates.len();
    if n == 0 {
        return offset;
    }
    let mut best: i64 = updates[0].update_id;
    let mut i: usize = 1;
    while i < n
        invariant
            n == updates@.len(),
            1 <= i <= n,
            best < i64::MAX,
            best == max_update_id(updates@.take(i as int)),
            forall|k: int| 0 <= k < updates@.len() ==> (#[trigger] updates@[k].update_id)
                < i64::MAX,
        decreases n - i,
    {
        proof {
            lemma_max_take_step(updates@, i as int);
        }
        if updates[i].update_id > best {
            best = updates[i].update_id;
        }
        i = i + 1;
    }
    proof {
        assert(updates@.take(n as int) =~= updates@);
    }
    best + 1
}

/// Extending a batch by one update takes the maximum with its id.
proof fn lemma_max_take_step(updates: Seq<Update>, i: int)
    requires
        1 <= i < updates.len(),
    ensures
        max_update_id(updates.take(i + 1)) == if updates[i].update_id as int > max_update_id(
            updates.take(i),
        ) {
            updates[i].update_id as int
        } else {
            max_update_id(updates.take(i))
        },
    decreases i,
{
    let t = updates.take(i + 1);
    let p = updates.take(i);
    if i == 1 {
        assert(t.len() == 2);
        assert(t.skip(1) =~= seq![updates[1]]);
        assert(max_update_id(t.skip(1)) == updates[1].update_id as int);
        assert(t[0] == updates[0]);
        assert(p =~= seq![updates[0]]);
    } else {
        assert(t.skip(1) =~= updates.skip(1).take(i));
        assert(p.skip(1) =~= updates.skip(1).take(i - 1));
        lemma_max_take_step(updates.skip(1), i - 1);
        assert(updates.skip(1).take(i - 1 + 1) =~= updates.skip(1).take(i));
        assert(updates.skip(1)[i - 1] == updates[i]);
        assert(t[0] == updates[0]);
        assert(p[0] == updates[0]);
    }
}

/// What one update contributes to the inbound stream: the chat id and
/// text of its message, or of its callback query, or nothing.
pub fn message_source(update: &Update) -> (r: Option<(String, String)>)
    ensures
        match update.message {
            Some(msg) => r matches Some(p) && p.0@ == dec_rep(msg.chat.id as int) && (match msg.text {
                Some(t) => p.1@ == t@,
                None => p.1@ == Seq::<char>::empty(),
            }),
            None => match update.callback_query {
                Some(cb) => match cb.message {
                    Some(msg) => r matches Some(p) && p.0@ == dec_rep(msg.chat.id as int) && (
                    match cb.data {
                        Some(d) => p.1@ == d@,
                        None => p.1@ == Seq::<char>::empty(),
                    }),
                    None => r is None,
                },
                None => r is None,
            },
        },
{
    if let Some(msg) = &update.message {
        let chat_id = i64_to_string(msg.chat.id);
        let text = match &msg.text {
            Some(t) => t.clone(),
            None => String::new(),
        };
        Some((chat_id, text))
    } else if let Some(cb) = &update.callback_query {
        match &cb.message {
            Some(msg) => {
                let chat_id = i64_to_string(msg.chat.id);
                let text = match &cb.data {
                    Some(d) => d.clone(),
                    None => String::new(),
                };
                Some((chat_id, text))
            },
            None => None,
        }
    } else {
        None
    }
}

/// Accepts or rejects one poll response: a response that is not `ok`
/// becomes an error naming the platform's status code and description.
pub fn updates_result(resp: TelegramResponse<Vec<Update>>) -> (r: Result<Vec<Update>, String>)
    requires
        !resp.ok ==> resp.error_code is Some && resp.description is Some,
    ensures
        resp.ok ==> (r matches Ok(us) && us == resp.result),
        !resp.ok ==> (r matches Err(m) && (resp.error_code matches Some(code) && (
        resp.description matches Some(desc) && m@ == "[TelegramClient] status: "@ + dec_rep(
            code as int,
        ) + " "@ + desc@))),
{
    if resp.ok {
        Ok(resp.result)
    } else {
        let mut m = "[TelegramClient] status: ".to_owned();
        let code = match resp.error_code {
            Some(c) => c,
            None => 0,
        };
        let num = i64_to_string(code as i64);
        m.append(num.as_str());
        m.append(" ");
        match &resp.description {
            Some(d) => m.append(d.as_str()),
            None => (),
        }
        Err(m)
    }
}

} // verus!

//! The generic inbound message model, the echo handler, and outbound
//! message chunking.

use vstd::prelude::*;
use crate::config::ClientConfig;
use crate::text::{concat_all, views_of};

verus! {

/// One inbound chat message, as republished by an adapter.
pub struct Message {
    pub client_name: String,
    pub chat_id: String,
    pub data: String,
}

impl Message {
    pub fn new(client_name: String, chat_id: String, data: String) -> (m: Message)
        ensures
            m.client_name == client_name,
            m.chat_id == chat_id,
            m.data == data,
    {
        Message { client_name, chat_id, data }
    }
}

/// A handler that answers every message with its own text.
pub struct EchoHandler {
}

impl EchoHandler {
    pub fn new() -> EchoHandler {
        EchoHandler {  }
    }

    /// The reply the echo handler sends: the message text itself.
    pub fn response(&self, message: &Message) -> (r: String)
        ensures
            r@ == message.data@,
    {
        message.data.clone()
    }
}

/// The connection parameters a client configuration yields: present
/// exactly for a telegram entry with a token.
pub fn telegram_params(config: &ClientConfig) -> (r: Option<(String, String)>)
    ensures
        match r {
            Some(p) => config.kind@ == "telegram"@ && (config.token matches Some(t) && p.0@
                == config.name@ && p.1@ == t@),
            None => config.kind@ != "telegram"@ || config.token is None,
        },
{
    if crate::text::str_eq(config.kind.as_str(), "telegram") {
        match &config.token {
            Some(t) => Some((config.name.clone(), t.clone())),
            None => None,
        }
    } else {
        None
    }
}

/// Splits an outbound message into chunks of at most `limit` characters:
/// every chunk but the last is exactly `limit` long, together they spell
/// the message, and their number is the length divided by `limit`,
/// rounded up.
pub fn chunk_message(message: &str, limit: usize) -> (chunks: Vec<String>)
    requires
        limit >= 1,
    ensures
        concat_all(views_of(chunks@)) == message@,
        forall|i: int| 0 <= i < chunks@.len() ==> 1 <= #[trigger] chunks@[i]@.len() <= limit,
        forall|i: int| 0 <= i < chunks@.len() - 1 ==> #[trigger] chunks@[i]@.len() == limit,
        chunks@.len() == (message@.len() + limit - 1) / (limit as int),
{
    let n = message.unicode_len();
    let mut chunks: Vec<String> = Vec::new();
    let mut pos: usize = 0;
    proof {
        assert(message@.take(0) =~= Seq::<char>::empty());
        assert(concat_all(views_of(chunks@)) =~= Seq::<char>::empty());
    }
    while pos < n
        invariant
            n == message@.len(),
            pos <= n,
            limit >= 1,
            concat_all(views_of(chunks@)) == message@.take(pos as int),
            forall|i: int| 0 <= i < chunks@.len() ==> 1 <= #[trigger] chunks@[i]@.len() <= limit,
            forall|i: int|
                0 <= i < chunks@.len() - 1 ==> #[trigger] chunks@[i]@.len() == limit,
            pos == if chunks@.len() == 0 {
                0int
            } else {
                (chunks@.len() - 1) * limit + chunks@.last()@.len()
            },
            pos < n && chunks@.len() > 0 ==> chunks@.last()@.len() == limit,
        decreases n - pos,
    {
        let end = if n - pos > limit {
            pos + limit
        } else {
            n
        };
        let piece = message.substring_char(pos, end).to_owned();
        proof {
            assert(views_of(chunks@.push(piece)) =~= views_of(chunks@).push(piece@));
            crate::text::lemma_concat_push(views_of(chunks@), piece@);
            assert(message@.take(pos as int) + message@.subrange(pos as int, end as int)
                =~= message@.take(end as int));
            let c = chunks@.len() as int;
            let l = limit as int;
            if c > 0 {
                assert((c - 1) * l + l == c * l) by (nonlinear_arith);
            }
        }
        chunks.push(piece);
        pos = end;
    }
    proof {
        assert(message@.take(n as int) =~= message@);
        let c = chunks@.len() as int;
        let l = limit as int;
        if c == 0 {
            assert(n == 0);
            assert(l - 1 == 0 * l + (l - 1)) by (nonlinear_arith);
            vstd::arithmetic::div_mod::lemma_fundamental_div_mod_converse(l - 1, l, 0, l - 1);
        } else {
            let last = chunks@.last()@.len() as int;
            assert(n as int == (c - 1) * l + last);
            assert(1 <= last <= l);
            assert(n as int + l - 1 == c * l + (last - 1)) by (nonlinear_arith)
                requires
                    n as int == (c - 1) * l + last,
            ;
            vstd::arithmetic::div_mod::lemma_fundamental_div_mod_converse(
                n as int + l - 1,
                l,
                c,
                last - 1,
            );
        }
    }
    chunks
}

} // verus!

//! The identity/auth gate: a shared password, the persisted list of
//! registered chats, and the lazily rebuilt lookup cache.

use vstd::prelude::*;
use crate::chat::{
    Chat,
    ChatList,
    ChatMap,
    chat_map_matches,
    chats_has_pair,
    register_step,
    spec_has_pair,
};

verus! {

/// The auth gate.  Registration is idempotent per (channel, identity)
/// pair; authentication resolves a pair to its internal subscriber id.
pub struct AuthAdapter {
    pub password: Option<String>,
    pub file_name: String,
    pub chat_list: ChatList,
    pub chat_map: Option<ChatMap>,
}

impl AuthAdapter {
    /// When the lookup cache is present, it is faithful to the
    /// persisted entries.
    pub open spec fn wf(&self) -> bool {
        match self.chat_map {
            Some(m) => chat_map_matches(m, self.chat_list.chats@),
            None => true,
        }
    }

    /// A gate with no password, no entries, and no cache.
    pub fn new() -> (r: AuthAdapter)
        ensures
            r.password is None,
            r.file_name@ == "chat_list.json"@,
            r.chat_list.chats@ == Seq::<Chat>::empty(),
            r.chat_map is None,
            r.wf(),
    {
        AuthAdapter {
            password: None,
            file_name: "chat_list.json".to_owned(),
            chat_list: ChatList::new(),
            chat_map: None,
        }
    }

    /// A gate over a password and an already-loaded entry list.
    pub fn from_parts(password: Option<String>, chat_list: ChatList) -> (r: AuthAdapter)
        ensures
            r.password == password,
            r.file_name@ == "chat_list.json"@,
            r.chat_list.chats@ == chat_list.chats@,
            r.chat_map is None,
            r.wf(),
    {
        AuthAdapter { password, file_name: "chat_list.json".to_owned(), chat_list, chat_map: None }
    }

    /// Whether a shared password guards command execution.
    pub fn password_required(&self) -> (r: bool)
        ensures
            r == (self.password is Some),
    {
        self.password.is_some()
    }

    /// String equality against the configured password.
    pub fn validate_password(&self, password: String) -> (r: bool)
        requires
            self.password is Some,
        ensures
            self.password matches Some(p) ==> r == (p@ == password@),
    {
        match &self.password {
            Some(p) => crate::text::str_eq(p.as_str(), password.as_str()),
            None => false,
        }
    }

    /// Stores a new shared password; `None` lifts the password requirement.
    pub fn set_password(&mut self, password: Option<String>)
        requires
            old(self).wf(),
        ensures
            final(self).wf(),
            final(self).password == password,
            final(self).file_name == old(self).file_name,
            final(self).chat_list.chats@ == old(self).chat_list.chats@,
            final(self).chat_map == old(self).chat_map,
    {
        self.password = password;
    }

    /// Registers the pair.  A no-op when the pair already has an entry;
    /// otherwise appends exactly one entry under a fresh internal id and
    /// invalidates the lookup cache.
    pub fn register(&mut self, client_name: String, identity: String) -> (r: Result<(), String>)
        requires
            old(self).wf(),
        ensures
            r is Ok,
            final(self).wf(),
            final(self).password == old(self).password,
            final(self).file_name == old(self).file_name,
            spec_has_pair(old(self).chat_list.chats@, client_name@, identity@) ==> *final(self)
                == *old(self),
            !spec_has_pair(old(self).chat_list.chats@, client_name@, identity@) ==> ({
                &&& final(self).chat_list.chats@.len() == old(self).chat_list.chats@.len() + 1
                &&& final(self).chat_list.chats@.drop_last() == old(self).chat_list.chats@
                &&& final(self).chat_list.chats@.last().client_name == client_name
                &&& final(self).chat_list.chats@.last().identity == identity
                &&& final(self).chat_list.chats@.last().id@.len() == 36
                &&& final(self).chat_map is None
            }),
            spec_has_pair(final(self).chat_list.chats@, client_name@, identity@),
            register_step(
                old(self).chat_list.chats@,
                final(self).chat_list.chats@,
                client_name@,
                identity@,
            ),
    {
        if chats_has_pair(&self.chat_list.chats, client_name.as_str(), identity.as_str()) {
            return Ok(());
        }
        self.chat_list.chats.push(Chat::new(client_name, identity));
        self.chat_map = None;
        proof {
            assert(final(self).chat_list.chats@.drop_last() =~= old(self).chat_list.chats@);
            let w = old(self).chat_list.chats@.len() as int;
            assert(final(self).chat_list.chats@[w].is_pair(client_name@, identity@));
        }
        Ok(())
    }

    /// Resolves the pair to its internal subscriber id, rebuilding the
    /// lookup cache from the persisted entries when it is absent.
    pub fn authenticate(&mut self, client_name: String, identity: String) -> (r: Option<String>)
        requires
            old(self).wf(),
        ensures
            final(self).wf(),
            final(self).password == old(self).password,
            final(self).file_name == old(self).file_name,
            final(self).chat_list.chats@ == old(self).chat_list.chats@,
            r is Some <==> spec_has_pair(old(self).chat_list.chats@, client_name@, identity@),
            r matches Some(s) ==> exists|i: int|
                0 <= i < old(self).chat_list.chats@.len() && #[trigger] old(
                    self,
                ).chat_list.chats@[i].is_pair(client_name@, identity@) && s@ == old(
                    self,
                ).chat_list.chats@[i].id@,
    {
        if self.chat_map.is_none() {
            let m = ChatMap::from(self.chat_list.duplicate());
            self.chat_map = Some(m);
        }
        match &self.chat_map {
            Some(m) => {
                match m.get_id(client_name.as_str(), identity.as_str()) {
                    Some(id) => {
                        let out = id.to_owned();
                        proof {
                            let i = choose|i: int|
                                0 <= i < m.chats@.len() && #[trigger] m.chats@[i].is_pair(
                                    client_name@,
                                    identity@,
                                ) && out@ == m.chats@[i].id@;
                            let entry = m.chats@[i];
                            assert(self.chat_list.chats@.contains(entry));
                            let j = choose|j: int|
                                0 <= j < self.chat_list.chats@.len() && self.chat_list.chats@[j]
                                    == entry;
                            assert(self.chat_list.chats@[j].is_pair(client_name@, identity@));
                        }
                        Some(out)
                    },
                    None => None,
                }
            },
            None => None,
        }
    }
}

} // verus!

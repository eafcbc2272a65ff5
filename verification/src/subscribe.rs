//! The persisted subscription list: which chats are subscribed to which
//! named events, with idempotent subscribe and no-op-tolerant unsubscribe.

use vstd::prelude::*;
use crate::config::{EventConfig, spec_has_event, has_event};
use crate::text::str_eq;

verus! {

/// Some id in `ids` reads as `c`.
pub open spec fn ids_has(ids: Seq<String>, c: Seq<char>) -> bool {
    exists|j: int| 0 <= j < ids.len() && ids[j]@ == c
}

/// The ids all read differently.
pub open spec fn ids_unique(ids: Seq<String>) -> bool {
    forall|p: int, q: int| 0 <= p < q < ids.len() ==> ids[p]@ != ids[q]@
}

/// The filter that removes one chat id.
pub open spec fn keep_pred(chat_id: Seq<char>) -> spec_fn(String) -> bool {
    |id: String| id@ != chat_id
}

/// The subscribers of one named event.
#[verifier::ext_equal]
pub struct EventSubscribe {
    pub event_name: String,
    pub chat_ids: Vec<String>,
}

impl EventSubscribe {
    /// `chat_id` is among this event's subscribers.
    pub open spec fn spec_contains(&self, chat_id: Seq<char>) -> bool {
        ids_has(self.chat_ids@, chat_id)
    }

    /// Looks for `chat_id` among this event's subscribers.
    pub fn contains(&self, chat_id: &str) -> (r: bool)
        ensures
            r == self.spec_contains(chat_id@),
    {
        let n = self.chat_ids.len();
        let mut j: usize = 0;
        while j < n
            invariant
                n == self.chat_ids@.len(),
                j <= n,
                forall|m: int| 0 <= m < j ==> self.chat_ids@[m]@ != chat_id@,
            decreases n - j,
        {
            if str_eq(self.chat_ids[j].as_str(), chat_id) {
                return true;
            }
            j = j + 1;
        }
        false
    }
}

/// Some entry in `subs` is for the event named `name`.
pub open spec fn spec_has_subscribe(subs: Seq<EventSubscribe>, name: Seq<char>) -> bool {
    exists|i: int| 0 <= i < subs.len() && subs[i].event_name@ == name
}

/// The index of the entry for the event named `name` (meaningful only
/// when such an entry exists and entries carry unique names).
pub open spec fn index_of_event(subs: Seq<EventSubscribe>, name: Seq<char>) -> int {
    choose|i: int| 0 <= i < subs.len() && subs[i].event_name@ == name
}

/// `chat` is subscribed to the event named `event` in `subs`.
pub open spec fn spec_subscribed(subs: Seq<EventSubscribe>, event: Seq<char>, chat: Seq<char>) -> bool {
    exists|i: int|
        0 <= i < subs.len() && subs[i].event_name@ == event && subs[i].spec_contains(chat)
}

/// The persisted subscription list: event name to subscribed chat ids.
#[verifier::ext_equal]
pub struct EventSubscribeList {
    pub subscribes: Vec<EventSubscribe>,
}

/// The entry filter selecting the events one chat is subscribed to.
pub open spec fn entry_has_chat(chat: Seq<char>) -> spec_fn(EventSubscribe) -> bool {
    |s: EventSubscribe| s.spec_contains(chat)
}

/// The names of the events `chat` is subscribed to, in entry order.
pub open spec fn subscribed_names(subs: Seq<EventSubscribe>, chat: Seq<char>) -> Seq<Seq<char>> {
    subs.filter(entry_has_chat(chat)).map_values(|s: EventSubscribe| s.event_name@)
}

/// The event-config filter selecting definitions `chat` is subscribed to.
pub open spec fn config_subscribed(subs: Seq<EventSubscribe>, chat: Seq<char>) -> spec_fn(
    EventConfig,
) -> bool {
    |e: EventConfig| spec_subscribed(subs, e.name@, chat)
}

/// What a successful subscribe does to the entries, at the level of
/// views: nothing when the chat is already subscribed; one chat id
/// appended to the event's entry when the entry exists; else one fresh
/// entry holding just this chat.
pub open spec fn subscribe_step(
    pre: Seq<EventSubscribe>,
    post: Seq<EventSubscribe>,
    event: Seq<char>,
    chat: Seq<char>,
) -> bool {
    if spec_subscribed(pre, event, chat) {
        post == pre
    } else if spec_has_subscribe(pre, event) {
        let i = index_of_event(pre, event);
        &&& post.len() == pre.len()
        &&& (forall|j: int| 0 <= j < pre.len() && j != i ==> post[j] == pre[j])
        &&& post[i].event_name == pre[i].event_name
        &&& crate::text::views_of(post[i].chat_ids@) == crate::text::views_of(
            pre[i].chat_ids@,
        ).push(chat)
    } else {
        &&& post.len() == pre.len() + 1
        &&& post.drop_last() == pre
        &&& post.last().event_name@ == event
        &&& crate::text::views_of(post.last().chat_ids@) == seq![chat]
    }
}

/// How many of the ids read as `chat`.
pub open spec fn count_ids(ids: Seq<String>, chat: Seq<char>) -> int {
    ids.filter(|id: String| id@ == chat).len() as int
}

proof fn lemma_count_ids_absent(ids: Seq<String>, chat: Seq<char>)
    requires
        !ids_has(ids, chat),
    ensures
        count_ids(ids, chat) == 0,
    decreases ids.len(),
{
    reveal(Seq::filter);
    if ids.len() > 0 {
        let d = ids.drop_last();
        assert(!ids_has(d, chat)) by {
            if ids_has(d, chat) {
                let j = choose|j: int| 0 <= j < d.len() && d[j]@ == chat;
                assert(ids[j]@ == chat);
            }
        }
        lemma_count_ids_absent(d, chat);
        assert(ids[ids.len() - 1]@ != chat);
    }
}

/// Subscribing the same chat to the same event twice is idempotent: the
/// second subscribe changes nothing, and a chat that was not subscribed
/// before is afterwards subscribed under exactly one id entry.
pub proof fn lemma_subscribe_idempotent(
    s0: Seq<EventSubscribe>,
    s1: Seq<EventSubscribe>,
    s2: Seq<EventSubscribe>,
    event: Seq<char>,
    chat: Seq<char>,
)
    requires
        subscribe_step(s0, s1, event, chat),
        subscribe_step(s1, s2, event, chat),
    ensures
        spec_subscribed(s1, event, chat),
        s2 == s1,
        (!spec_subscribed(s0, event, chat) && spec_has_subscribe(s0, event)) ==> count_ids(
            s1[index_of_event(s0, event)].chat_ids@,
            chat,
        ) == 1,
        !spec_has_subscribe(s0, event) ==> count_ids(s1.last().chat_ids@, chat) == 1,
{
    if spec_subscribed(s0, event, chat) {
        assert(s1 == s0);
    } else if spec_has_subscribe(s0, event) {
        let i = index_of_event(s0, event);
        assert(0 <= i < s0.len() && s0[i].event_name@ == event);
        let ids0 = s0[i].chat_ids@;
        let ids1 = s1[i].chat_ids@;
        let v0 = crate::text::views_of(ids0);
        let v1 = crate::text::views_of(ids1);
        assert(v1 == v0.push(chat));
        assert(ids1.len() == v1.len());
        assert(ids1[ids1.len() - 1]@ == v1[v1.len() - 1]);
        assert(s1[i].spec_contains(chat));
        assert(s1[i].event_name@ == event);
        assert(spec_subscribed(s1, event, chat));
        assert(!ids_has(ids0, chat)) by {
            if ids_has(ids0, chat) {
                assert(s0[i].spec_contains(chat));
            }
        }
        lemma_count_ids_absent(ids0, chat);
        lemma_count_filter_push(ids0, ids1, chat);
    } else {
        let w = s1.len() - 1;
        let ids1 = s1[w].chat_ids@;
        let v1 = crate::text::views_of(ids1);
        assert(v1 == seq![chat]);
        assert(ids1.len() == 1);
        assert(ids1[0]@ == v1[0]);
        assert(s1[w].spec_contains(chat));
        assert(s1[w].event_name@ == event);
        assert(spec_subscribed(s1, event, chat));
        assert(!ids_has(ids1.drop_last(), chat)) by {
            assert(ids1.drop_last().len() == 0);
        }
        reveal(Seq::filter);
        assert(count_ids(ids1, chat) == 1) by {
            reveal(Seq::filter);
            assert(ids1.drop_last() =~= Seq::<String>::empty());
            assert(ids1.last()@ == chat);
        }
    }
    assert(s2 == s1);
}

/// With the views of `post` one `chat` longer than those of `pre`, and
/// `chat` absent from `pre`, exactly one id of `post` reads as `chat`.
proof fn lemma_count_filter_push(pre: Seq<String>, post: Seq<String>, chat: Seq<char>)
    requires
        crate::text::views_of(post) == crate::text::views_of(pre).push(chat),
        !ids_has(pre, chat),
    ensures
        count_ids(post, chat) == 1,
    decreases pre.len(),
{
    reveal(Seq::filter);
    assert(crate::text::views_of(post).len() == post.len());
    assert(crate::text::views_of(pre).len() == pre.len());
    assert(post.len() == pre.len() + 1);
    let d = post.drop_last();
    assert(post.last()@ == crate::text::views_of(post)[post.len() - 1]);
    assert(post.last()@ == chat);
    assert(!ids_has(d, chat)) by {
        if ids_has(d, chat) {
            let j = choose|j: int| 0 <= j < d.len() && d[j]@ == chat;
            assert(crate::text::views_of(post)[j] == post[j]@);
            assert(crate::text::views_of(pre)[j] == pre[j]@);
            assert(pre[j]@ == chat);
        }
    }
    lemma_count_ids_absent(d, chat);
}

/// Filtering keeps ids unique and introduces none.
proof fn lemma_filter_keeps_unique(ids: Seq<String>, pred: spec_fn(String) -> bool)
    requires
        ids_unique(ids),
    ensures
        ids_unique(ids.filter(pred)),
        forall|c: Seq<char>| ids_has(ids.filter(pred), c) ==> ids_has(ids, c),
    decreases ids.len(),
{
    reveal(Seq::filter);
    if ids.len() > 0 {
        let d = ids.drop_last();
        assert(ids_unique(d));
        lemma_filter_keeps_unique(d, pred);
        let f = ids.filter(pred);
        let fd = d.filter(pred);
        if pred(ids.last()) {
            assert(f == fd.push(ids.last()));
        } else {
            assert(f == fd);
        }
        assert forall|c: Seq<char>| ids_has(f, c) implies ids_has(ids, c) by {
            let j = choose|j: int| 0 <= j < f.len() && f[j]@ == c;
            if pred(ids.last()) && j == fd.len() {
                assert(f[j] == ids.last());
                assert(ids[ids.len() - 1]@ == c);
            } else {
                assert(f[j] == fd[j]);
                assert(ids_has(fd, c));
                assert(ids_has(d, c));
                let k = choose|k: int| 0 <= k < d.len() && d[k]@ == c;
                assert(d[k] == ids[k]);
            }
        }
        if pred(ids.last()) {
            assert forall|p: int, q: int| 0 <= p < q < f.len() implies f[p]@ != f[q]@ by {
                if q == f.len() - 1 {
                    assert(f[p] == fd[p]);
                    assert(fd[p]@ == fd[p]@);
                    assert(ids_has(fd, fd[p]@));
                    assert(ids_has(d, fd[p]@));
                    let k = choose|k: int| 0 <= k < d.len() && d[k]@ == fd[p]@;
                    assert(d[k] == ids[k]);
                    assert(ids[k]@ != ids[ids.len() - 1]@);
                    assert(f[q] == ids.last());
                } else {
                    assert(f[p] == fd[p] && f[q] == fd[q]);
                }
            }
        }
    }
}

/// Filtering with an everywhere-true predicate changes nothing.
proof fn lemma_filter_identity(ids: Seq<String>, pred: spec_fn(String) -> bool)
    requires
        forall|j: int| 0 <= j < ids.len() ==> pred(ids[j]),
    ensures
        ids.filter(pred) == ids,
    decreases ids.len(),
{
    reveal(Seq::filter);
    if ids.len() > 0 {
        let d = ids.drop_last();
        lemma_filter_identity(d, pred);
        assert(ids.filter(pred) =~= ids);
    } else {
        assert(ids.filter(pred) =~= ids);
    }
}

impl EventSubscribeList {
    /// Entries carry unique event names, and no chat id repeats within
    /// one entry.
    pub open spec fn wf(&self) -> bool {
        &&& forall|i: int, j: int|
            0 <= i < j < self.subscribes@.len() ==> self.subscribes@[i].event_name@
                != self.subscribes@[j].event_name@
        &&& forall|i: int|
            0 <= i < self.subscribes@.len() ==> ids_unique(#[trigger] self.subscribes@[i].chat_ids@)
    }

    /// An empty subscription list.
    pub fn new() -> (r: EventSubscribeList)
        ensures
            r.subscribes@ == Seq::<EventSubscribe>::empty(),
            r.wf(),
    {
        EventSubscribeList { subscribes: Vec::new() }
    }

    /// The position of the entry for `event_name`, if there is one.
    fn find_index(&self, event_name: &str) -> (r: Option<usize>)
        ensures
            match r {
                Some(i) => i < self.subscribes@.len() && self.subscribes@[
                    i as int
                ].event_name@ == event_name@,
                None => !spec_has_subscribe(self.subscribes@, event_name@),
            },
    {
        let n = self.subscribes.len();
        let mut i: usize = 0;
        while i < n
            invariant
                n == self.subscribes@.len(),
                i <= n,
                forall|m: int| 0 <= m < i ==> self.subscribes@[m].event_name@ != event_name@,
            decreases n - i,
        {
            if str_eq(self.subscribes[i].event_name.as_str(), event_name) {
                return Some(i);
            }
            i = i + 1;
        }
        None
    }

    /// The entry for `event_name`, if there is one.
    pub fn find_subscribe(&self, event_name: &str) -> (r: Option<&EventSubscribe>)
        ensures
            match r {
                Some(s) => s.event_name@ == event_name@ && exists|i: int|
                    0 <= i < self.subscribes@.len() && *s == self.subscribes@[i],
                None => !spec_has_subscribe(self.subscribes@, event_name@),
            },
    {
        match self.find_index(event_name) {
            Some(i) => Some(&self.subscribes[i]),
            None => None,
        }
    }

    /// The entry for `event_name`, for mutation, if there is one.
    pub fn find_subscribe_mut(&mut self, event_name: &str) -> (r: Option<&mut EventSubscribe>)
        ensures
            match r {
                Some(s) => exists|i: int|
                    0 <= i < old(self).subscribes@.len()
                    && old(self).subscribes@[i].event_name@ == event_name@
                    && *s == old(self).subscribes@[i]
                    && final(self).subscribes@ == old(self).subscribes@.update(i, *final(s)),
                None => !spec_has_subscribe(old(self).subscribes@, event_name@) && *final(self)
                    == *old(self),
            },
    {
        match self.find_index(event_name) {
            Some(i) => Some(&mut self.subscribes[i]),
            None => None,
        }
    }

    /// `chat_id` is currently subscribed to `event_name`.
    pub fn contains(&self, event_name: &str, chat_id: &str) -> (r: bool)
        requires
            self.wf(),
        ensures
            r == spec_subscribed(self.subscribes@, event_name@, chat_id@),
    {
        match self.find_subscribe(event_name) {
            Some(subscribe) => {
                let r = subscribe.contains(chat_id);
                proof {
                    if r {
                        let i = choose|i: int|
                            0 <= i < self.subscribes@.len() && *subscribe == self.subscribes@[i];
                        assert(self.subscribes@[i].spec_contains(chat_id@));
                    } else if spec_subscribed(self.subscribes@, event_name@, chat_id@) {
                        let i = choose|i: int|
                            0 <= i < self.subscribes@.len() && self.subscribes@[
                                i
                            ].event_name@ == event_name@ && self.subscribes@[i].spec_contains(
                                chat_id@,
                            );
                        let j = choose|j: int|
                            0 <= j < self.subscribes@.len() && *subscribe == self.subscribes@[j];
                        assert(self.subscribes@[i].event_name@ == self.subscribes@[j].event_name@);
                        assert(i == j);
                    }
                }
                r
            },
            None => false,
        }
    }

    /// Subscribes `chat_id` to the event named `event_name`.  Fails, and
    /// changes nothing, when no event definition in `events` carries that
    /// name; adds the chat id at most once otherwise.
    pub fn subscribe(&mut self, events: &Vec<EventConfig>, chat_id: String, event_name: String) -> (r:
        Result<(), String>)
        requires
            old(self).wf(),
        ensures
            final(self).wf(),
            r is Ok <==> spec_has_event(events@, event_name@),
            r is Ok ==> spec_subscribed(final(self).subscribes@, event_name@, chat_id@),
            r is Ok ==> subscribe_step(
                old(self).subscribes@,
                final(self).subscribes@,
                event_name@,
                chat_id@,
            ),
            r is Err ==> *final(self) == *old(self),
            r matches Err(m) ==> m@ == "Event '"@ + event_name@
                + "' does not exist in configuration"@,
            r is Ok && spec_subscribed(old(self).subscribes@, event_name@, chat_id@)
                ==> *final(self) == *old(self),
            r is Ok && !spec_subscribed(old(self).subscribes@, event_name@, chat_id@)
                && spec_has_subscribe(old(self).subscribes@, event_name@) ==> ({
                let i = index_of_event(old(self).subscribes@, event_name@);
                &&& 0 <= i < old(self).subscribes@.len()
                &&& old(self).subscribes@[i].event_name@ == event_name@
                &&& final(self).subscribes@.len() == old(self).subscribes@.len()
                &&& forall|j: int|
                    0 <= j < old(self).subscribes@.len() && j != i ==> final(self).subscribes@[j]
                        == old(self).subscribes@[j]
                &&& final(self).subscribes@[i].event_name == old(self).subscribes@[i].event_name
                &&& final(self).subscribes@[i].chat_ids@ == old(self).subscribes@[i].chat_ids@.push(
                    chat_id,
                )
            }),
            r is Ok && !spec_has_subscribe(old(self).subscribes@, event_name@) ==> ({
                &&& final(self).subscribes@.len() == old(self).subscribes@.len() + 1
                &&& final(self).subscribes@.drop_last() == old(self).subscribes@
                &&& final(self).subscribes@.last().event_name == event_name
                &&& final(self).subscribes@.last().chat_ids@ == seq![chat_id]
            }),
    {
        if !has_event(events, event_name.as_str()) {
            let mut msg = "Event '".to_owned();
            msg.append(event_name.as_str());
            msg.append("' does not exist in configuration");
            return Err(msg);
        }
        if self.contains(event_name.as_str(), chat_id.as_str()) {
            return Ok(());
        }
        let ghost old_subs = self.subscribes@;
        match self.find_index(event_name.as_str()) {
            Some(i) => {
                proof {
                    let w = index_of_event(old_subs, event_name@);
                    assert(old_subs[i as int].event_name@ == event_name@);
                    assert(0 <= w < old_subs.len() && old_subs[w].event_name@ == event_name@);
                    assert(w == i as int);
                }
                let entry = &mut self.subscribes[i];
                entry.chat_ids.push(chat_id);
                proof {
                    let i = i as int;
                    assert(final(self).subscribes@[i].chat_ids@ == old_subs[i].chat_ids@.push(
                        chat_id,
                    ));
                    assert forall|k: int|
                        0 <= k < final(self).subscribes@.len() implies ids_unique(
                        #[trigger] final(self).subscribes@[k].chat_ids@,
                    ) by {
                        if k == i {
                            let ids = old_subs[i].chat_ids@;
                            assert(!old_subs[i].spec_contains(chat_id@));
                            assert forall|p: int, q: int|
                                0 <= p < q < ids.push(chat_id).len() implies ids.push(chat_id)[p]@
                                != ids.push(chat_id)[q]@ by {
                                if q == ids.len() {
                                    assert(ids.push(chat_id)[p] == ids[p]);
                                    assert(!ids_has(ids, chat_id@));
                                }
                            }
                        } else {
                            assert(final(self).subscribes@[k] == old_subs[k]);
                        }
                    }
                    let ids = final(self).subscribes@[i].chat_ids@;
                    assert(ids[ids.len() - 1]@ == chat_id@);
                    assert(final(self).subscribes@[i].spec_contains(chat_id@));
                    assert(crate::text::views_of(ids) =~= crate::text::views_of(
                        old_subs[i].chat_ids@,
                    ).push(chat_id@));
                    assert(subscribe_step(old_subs, final(self).subscribes@, event_name@, chat_id@));
                }
                Ok(())
            },
            None => {
                let mut chat_ids: Vec<String> = Vec::new();
                chat_ids.push(chat_id);
                self.subscribes.push(EventSubscribe { event_name, chat_ids });
                proof {
                    assert(final(self).subscribes@.drop_last() =~= old_subs);
                    let w = old_subs.len() as int;
                    assert(final(self).subscribes@[w].chat_ids@[0]@ == chat_id@);
                    assert(final(self).subscribes@[w].spec_contains(chat_id@));
                    assert(final(self).subscribes@[w].event_name@ == event_name@);
                    assert(crate::text::views_of(final(self).subscribes@[w].chat_ids@)
                        =~= seq![chat_id@]);
                    assert(subscribe_step(old_subs, final(self).subscribes@, event_name@, chat_id@));
                }
                Ok(())
            },
        }
    }

    /// Removes `chat_id` from the subscribers of `event_name`; a no-op
    /// when the event has no entry or the chat id is not present.
    pub fn unsubscribe(&mut self, event_name: &str, chat_id: &str)
        requires
            old(self).wf(),
        ensures
            final(self).wf(),
            !spec_has_subscribe(old(self).subscribes@, event_name@) ==> *final(self) == *old(self),
            !spec_subscribed(old(self).subscribes@, event_name@, chat_id@)
                ==> final(self).subscribes@ == old(self).subscribes@,
            spec_has_subscribe(old(self).subscribes@, event_name@) ==> ({
                let i = index_of_event(old(self).subscribes@, event_name@);
                &&& 0 <= i < old(self).subscribes@.len()
                &&& old(self).subscribes@[i].event_name@ == event_name@
                &&& final(self).subscribes@.len() == old(self).subscribes@.len()
                &&& forall|j: int|
                    0 <= j < old(self).subscribes@.len() && j != i ==> final(self).subscribes@[j]
                        == old(self).subscribes@[j]
                &&& final(self).subscribes@[i].event_name == old(self).subscribes@[i].event_name
                &&& final(self).subscribes@[i].chat_ids@ == old(self).subscribes@[
                    i
                ].chat_ids@.filter(keep_pred(chat_id@))
            }),
    {
        let ghost old_subs = self.subscribes@;
        let ghost pred = keep_pred(chat_id@);
        match self.find_index(event_name) {
            Some(i) => {
                proof {
                    let w = index_of_event(old_subs, event_name@);
                    assert(0 <= w < old_subs.len() && old_subs[w].event_name@ == event_name@);
                    assert(w == i as int);
                }
                if !self.subscribes[i].contains(chat_id) {
                    proof {
                        let i = i as int;
                        let ids = old_subs[i].chat_ids@;
                        assert forall|j: int| 0 <= j < ids.len() implies pred(#[trigger] ids[j]) by {
                            if ids[j]@ == chat_id@ {
                                assert(old_subs[i].spec_contains(chat_id@));
                            }
                        }
                        lemma_filter_identity(ids, pred);
                    }
                    return ;
                }
                let entry = &mut self.subscribes[i];
                let n = entry.chat_ids.len();
                let ghost ids = entry.chat_ids@;
                let mut kept: Vec<String> = Vec::new();
                let mut j: usize = 0;
                proof {
                    reveal(Seq::filter);
                    assert(ids.take(0) =~= Seq::<String>::empty());
                    assert(kept@ =~= ids.take(0).filter(pred));
                }
                while j < n
                    invariant
                        n == ids.len(),
                        j <= n,
                        entry.chat_ids@ == ids,
                        pred == keep_pred(chat_id@),
                        kept@ == ids.take(j as int).filter(pred),
                    decreases n - j,
                {
                    let keep = !str_eq(entry.chat_ids[j].as_str(), chat_id);
                    proof {
                        reveal(Seq::filter);
                        let t = ids.take(j + 1);
                        assert(t.drop_last() =~= ids.take(j as int));
                        assert(t.last() == ids[j as int]);
                        if pred(ids[j as int]) {
                            assert(t.filter(pred) == t.drop_last().filter(pred).push(t.last()));
                        } else {
                            assert(t.filter(pred) == t.drop_last().filter(pred));
                        }
                    }
                    if keep {
                        kept.push(entry.chat_ids[j].clone());
                    }
                    j = j + 1;
                }
                proof {
                    assert(ids.take(n as int) =~= ids);
                }
                entry.chat_ids = kept;
                proof {
                    let i = i as int;
                    lemma_filter_keeps_unique(old_subs[i].chat_ids@, pred);
                    assert forall|k: int|
                        0 <= k < final(self).subscribes@.len() implies ids_unique(
                        #[trigger] final(self).subscribes@[k].chat_ids@,
                    ) by {
                        if k != i {
                            assert(final(self).subscribes@[k] == old_subs[k]);
                        }
                    }
                }
            },
            None => {},
        }
    }

    /// The names of the events `chat_id` is subscribed to, in entry order.
    pub fn find_subscribed_events(&self, chat_id: &str) -> (r: Vec<String>)
        ensures
            crate::text::views_of(r@) == subscribed_names(self.subscribes@, chat_id@),
    {
        let n = self.subscribes.len();
        let mut out: Vec<String> = Vec::new();
        let mut i: usize = 0;
        proof {
            reveal(Seq::filter);
            assert(self.subscribes@.take(0) =~= Seq::<EventSubscribe>::empty());
            assert(crate::text::views_of(out@) =~= subscribed_names(
                self.subscribes@.take(0),
                chat_id@,
            ));
        }
        while i < n
            invariant
                n == self.subscribes@.len(),
                i <= n,
                crate::text::views_of(out@) == subscribed_names(
                    self.subscribes@.take(i as int),
                    chat_id@,
                ),
            decreases n - i,
        {
            let hit = self.subscribes[i].contains(chat_id);
            proof {
                reveal(Seq::filter);
                let pred = entry_has_chat(chat_id@);
                let t = self.subscribes@.take(i + 1);
                assert(t.drop_last() =~= self.subscribes@.take(i as int));
                assert(t.last() == self.subscribes@[i as int]);
                if hit {
                    assert(t.filter(pred) == self.subscribes@.take(i as int).filter(pred).push(
                        self.subscribes@[i as int],
                    ));
                    assert(subscribed_names(t, chat_id@) =~= subscribed_names(
                        self.subscribes@.take(i as int),
                        chat_id@,
                    ).push(self.subscribes@[i as int].event_name@));
                } else {
                    assert(t.filter(pred) == self.subscribes@.take(i as int).filter(pred));
                }
            }
            if hit {
                let name = self.subscribes[i].event_name.clone();
                proof {
                    assert(crate::text::views_of(out@.push(name)) =~= crate::text::views_of(
                        out@,
                    ).push(name@));
                }
                out.push(name);
            }
            i = i + 1;
        }
        proof {
            assert(self.subscribes@.take(n as int) =~= self.subscribes@);
        }
        out
    }

    /// The event definitions in `events` that `chat_id` is subscribed to.
    pub fn list_subscribed_event(&self, events: &Vec<EventConfig>, chat_id: &str) -> (r: Vec<
        EventConfig,
    >)
        requires
            self.wf(),
        ensures
            r@ == events@.filter(config_subscribed(self.subscribes@, chat_id@)),
    {
        let n = events.len();
        let mut out: Vec<EventConfig> = Vec::new();
        let mut i: usize = 0;
        let ghost pred = config_subscribed(self.subscribes@, chat_id@);
        proof {
            reveal(Seq::filter);
            assert(events@.take(0) =~= Seq::<EventConfig>::empty());
            assert(out@ =~= events@.take(0).filter(pred));
        }
        while i < n
            invariant
                n == events@.len(),
                i <= n,
                self.wf(),
                pred == config_subscribed(self.subscribes@, chat_id@),
                out@ == events@.take(i as int).filter(pred),
            decreases n - i,
        {
            let hit = self.contains(events[i].name.as_str(), chat_id);
            proof {
                reveal(Seq::filter);
                let t = events@.take(i + 1);
                assert(t.drop_last() =~= events@.take(i as int));
                assert(t.last() == events@[i as int]);
            }
            if hit {
                out.push(events[i].duplicate());
            }
            i = i + 1;
        }
        proof {
            assert(events@.take(n as int) =~= events@);
        }
        out
    }
}

} // verus!

//! Registered chat identities: persisted entries and the lookup structure
//! rebuilt from them.

use vstd::prelude::*;
use crate::text::str_eq;

verus! {

/// Relies on `uuid::Uuid::new_v4` and its `Display` form: a random v4
/// UUID rendered hyphenated, 32 hex digits and 4 hyphens, 36 characters.
#[verifier::external_body]
fn fresh_chat_id() -> (r: String)
    ensures
        r@.len() == 36,
{
    uuid::Uuid::new_v4().to_string()
}

/// One registered (channel, external identity) pair with its internal id.
pub struct Chat {
    pub id: String,
    pub client_name: String,
    pub identity: String,
}

impl Chat {
    /// A new entry for the pair, under a fresh internal id.
    pub fn new(client_name: String, identity: String) -> (c: Chat)
        ensures
            c.client_name == client_name,
            c.identity == identity,
            c.id@.len() == 36,
    {
        Chat { id: fresh_chat_id(), client_name, identity }
    }

    /// A field-for-field copy of this entry.
    pub fn duplicate(&self) -> (c: Chat)
        ensures
            c == *self,
    {
        Chat {
            id: self.id.clone(),
            client_name: self.client_name.clone(),
            identity: self.identity.clone(),
        }
    }

    /// This entry is for the given pair.
    pub open spec fn is_pair(&self, client: Seq<char>, identity: Seq<char>) -> bool {
        self.client_name@ == client && self.identity@ == identity
    }
}

/// Some entry in `chats` is for the given pair.
pub open spec fn spec_has_pair(chats: Seq<Chat>, client: Seq<char>, identity: Seq<char>) -> bool {
    exists|i: int| 0 <= i < chats.len() && chats[i].is_pair(client, identity)
}

/// No two entries are for the same pair.
pub open spec fn pairs_unique(chats: Seq<Chat>) -> bool {
    forall|i: int, j: int|
        0 <= i < j < chats.len() ==> !(chats[i].client_name@ == chats[j].client_name@
            && chats[i].identity@ == chats[j].identity@)
}

/// What registering a pair does to the persisted entries: nothing when
/// the pair is already registered, else it appends exactly one entry for
/// the pair.
pub open spec fn register_step(
    pre: Seq<Chat>,
    post: Seq<Chat>,
    client: Seq<char>,
    identity: Seq<char>,
) -> bool {
    if spec_has_pair(pre, client, identity) {
        post == pre
    } else {
        post.len() == pre.len() + 1 && post.drop_last() == pre && post.last().is_pair(
            client,
            identity,
        )
    }
}

/// How many entries are registered for the pair.
pub open spec fn count_pairs(chats: Seq<Chat>, client: Seq<char>, identity: Seq<char>) -> int {
    chats.filter(|c: Chat| c.is_pair(client, identity)).len() as int
}

proof fn lemma_count_pairs_absent(chats: Seq<Chat>, client: Seq<char>, identity: Seq<char>)
    requires
        !spec_has_pair(chats, client, identity),
    ensures
        count_pairs(chats, client, identity) == 0,
    decreases chats.len(),
{
    reveal(Seq::filter);
    if chats.len() > 0 {
        let d = chats.drop_last();
        assert(!spec_has_pair(d, client, identity)) by {
            if spec_has_pair(d, client, identity) {
                let i = choose|i: int| 0 <= i < d.len() && d[i].is_pair(client, identity);
                assert(chats[i].is_pair(client, identity));
            }
        }
        lemma_count_pairs_absent(d, client, identity);
        assert(!chats.last().is_pair(client, identity)) by {
            if chats.last().is_pair(client, identity) {
                assert(chats[chats.len() - 1].is_pair(client, identity));
            }
        }
    }
}

/// Registering the same pair twice persists exactly one entry: the
/// second registration changes nothing, and a pair that was absent has
/// exactly one entry afterwards, so authentication by the pair succeeds.
pub proof fn lemma_register_idempotent(
    s0: Seq<Chat>,
    s1: Seq<Chat>,
    s2: Seq<Chat>,
    client: Seq<char>,
    identity: Seq<char>,
)
    requires
        register_step(s0, s1, client, identity),
        register_step(s1, s2, client, identity),
    ensures
        spec_has_pair(s1, client, identity),
        s2 == s1,
        !spec_has_pair(s0, client, identity) ==> count_pairs(s1, client, identity) == 1,
{
    if spec_has_pair(s0, client, identity) {
        let i = choose|i: int| 0 <= i < s0.len() && s0[i].is_pair(client, identity);
        assert(s1[i].is_pair(client, identity));
    } else {
        assert(s1[s1.len() - 1].is_pair(client, identity));
        lemma_count_pairs_absent(s0, client, identity);
        reveal(Seq::filter);
        assert(s1.drop_last() == s0);
        let pred = |c: Chat| c.is_pair(client, identity);
        assert(s1.filter(pred) == s0.filter(pred).push(s1.last()));
        assert(count_pairs(s1, client, identity) == 1);
    }
}

/// Looks for an entry for the pair in a plain entry list.
pub fn chats_has_pair(chats: &Vec<Chat>, client_name: &str, identity: &str) -> (r: bool)
    ensures
        r == spec_has_pair(chats@, client_name@, identity@),
{
    let n = chats.len();
    let mut i: usize = 0;
    while i < n
        invariant
            n == chats@.len(),
            i <= n,
            forall|m: int| 0 <= m < i ==> !chats@[m].is_pair(client_name@, identity@),
        decreases n - i,
    {
        if str_eq(chats[i].client_name.as_str(), client_name) && str_eq(
            chats[i].identity.as_str(),
            identity,
        ) {
            return true;
        }
        i = i + 1;
    }
    false
}

/// The persisted list of registered chats.
pub struct ChatList {
    pub chats: Vec<Chat>,
}

impl ChatList {
    /// An empty list.
    pub fn new() -> (r: ChatList)
        ensures
            r.chats@ == Seq::<Chat>::empty(),
    {
        ChatList { chats: Vec::new() }
    }

    /// An entry-for-entry copy of this list.
    pub fn duplicate(&self) -> (r: ChatList)
        ensures
            r.chats@ == self.chats@,
    {
        let n = self.chats.len();
        let mut chats: Vec<Chat> = Vec::new();
        let mut i: usize = 0;
        while i < n
            invariant
                n == self.chats@.len(),
                i <= n,
                chats@ == self.chats@.take(i as int),
            decreases n - i,
        {
            chats.push(self.chats[i].duplicate());
            proof {
                assert(self.chats@.take(i + 1) =~= self.chats@.take(i as int).push(
                    self.chats@[i as int],
                ));
            }
            i = i + 1;
        }
        proof {
            assert(self.chats@.take(n as int) =~= self.chats@);
        }
        ChatList { chats }
    }
}

/// The in-memory lookup from (channel, external identity) to the entry,
/// rebuilt lazily from the persisted list.
pub struct ChatMap {
    pub chats: Vec<Chat>,
}

/// The position of the last entry for the pair (meaningful only when
/// such an entry exists).
pub open spec fn last_pair_index(chats: Seq<Chat>, client: Seq<char>, identity: Seq<char>) -> int
    decreases chats.len(),
{
    if chats.len() == 0 {
        -1
    } else if chats.last().is_pair(client, identity) {
        chats.len() - 1
    } else {
        last_pair_index(chats.drop_last(), client, identity)
    }
}

/// Where the pair occurs, `last_pair_index` names its last occurrence.
pub proof fn lemma_last_pair_index(chats: Seq<Chat>, client: Seq<char>, identity: Seq<char>)
    requires
        spec_has_pair(chats, client, identity),
    ensures
        0 <= last_pair_index(chats, client, identity) < chats.len(),
        chats[last_pair_index(chats, client, identity)].is_pair(client, identity),
        forall|k: int|
            last_pair_index(chats, client, identity) < k < chats.len() ==> !chats[k].is_pair(
                client,
                identity,
            ),
    decreases chats.len(),
{
    if !chats.last().is_pair(client, identity) {
        let d = chats.drop_last();
        assert(spec_has_pair(d, client, identity)) by {
            let i = choose|i: int| 0 <= i < chats.len() && chats[i].is_pair(client, identity);
            assert(d[i] == chats[i]);
        }
        lemma_last_pair_index(d, client, identity);
        assert(chats[last_pair_index(chats, client, identity)] == d[last_pair_index(
            d,
            client,
            identity,
        )]);
        assert forall|k: int|
            last_pair_index(chats, client, identity) < k < chats.len() implies !chats[k].is_pair(
            client,
            identity,
        ) by {
            if k < chats.len() - 1 {
                assert(d[k] == chats[k]);
            }
        }
    }
}

/// Extending the list by one entry moves the last occurrence to it when
/// the pairs agree, and keeps it otherwise.
proof fn lemma_last_pair_take_step(chats: Seq<Chat>, k: int, client: Seq<char>, identity: Seq<char>)
    requires
        0 <= k < chats.len(),
    ensures
        last_pair_index(chats.take(k + 1), client, identity) == if chats[k].is_pair(
            client,
            identity,
        ) {
            k
        } else {
            last_pair_index(chats.take(k), client, identity)
        },
{
    let t = chats.take(k + 1);
    assert(t.last() == chats[k]);
    assert(t.drop_last() =~= chats.take(k));
}

/// `m` is a faithful lookup structure for the persisted entries `chats`:
/// its pairs are unique, it holds exactly the pairs of `chats`, and each
/// of its entries is the last persisted entry for its pair.
pub open spec fn chat_map_matches(m: ChatMap, chats: Seq<Chat>) -> bool {
    &&& pairs_unique(m.chats@)
    &&& forall|cl: Seq<char>, id: Seq<char>|
        spec_has_pair(m.chats@, cl, id) <==> spec_has_pair(chats, cl, id)
    &&& forall|i: int| 0 <= i < m.chats@.len() ==> chats.contains(#[trigger] m.chats@[i])
    &&& forall|i: int|
        0 <= i < m.chats@.len() ==> #[trigger] m.chats@[i] == chats[last_pair_index(
            chats,
            m.chats@[i].client_name@,
            m.chats@[i].identity@,
        )]
}

impl ChatMap {
    /// The position of the entry for the pair, if there is one.
    fn find_pair(&self, client_name: &str, identity: &str) -> (r: Option<usize>)
        ensures
            match r {
                Some(i) => i < self.chats@.len() && self.chats@[i as int].is_pair(
                    client_name@,
                    identity@,
                ),
                None => !spec_has_pair(self.chats@, client_name@, identity@),
            },
    {
        let n = self.chats.len();
        let mut i: usize = 0;
        while i < n
            invariant
                n == self.chats@.len(),
                i <= n,
                forall|m: int|
                    0 <= m < i ==> !self.chats@[m].is_pair(client_name@, identity@),
            decreases n - i,
        {
            if str_eq(self.chats[i].client_name.as_str(), client_name) && str_eq(
                self.chats[i].identity.as_str(),
                identity,
            ) {
                return Some(i);
            }
            i = i + 1;
        }
        None
    }

    /// The internal id registered for the pair, if any.
    pub fn get_id(&self, client_name: &str, identity: &str) -> (r: Option<&str>)
        ensures
            match r {
                Some(s) => exists|i: int|
                    0 <= i < self.chats@.len() && #[trigger] self.chats@[i].is_pair(
                        client_name@,
                        identity@,
                    ) && s@ == self.chats@[i].id@,
                None => !spec_has_pair(self.chats@, client_name@, identity@),
            },
    {
        match self.find_pair(client_name, identity) {
            Some(i) => Some(self.chats[i].id.as_str()),
            None => None,
        }
    }

    /// The pair has a registered entry.
    pub fn contains(&self, client_name: &str, identity: &str) -> (r: bool)
        ensures
            r == spec_has_pair(self.chats@, client_name@, identity@),
    {
        match self.find_pair(client_name, identity) {
            Some(_) => true,
            None => false,
        }
    }

    /// Builds the lookup structure from the persisted list.  A later
    /// entry for an already-seen pair replaces the earlier one.
    pub fn from(chat_list: ChatList) -> (r: ChatMap)
        ensures
            chat_map_matches(r, chat_list.chats@),
    {
        let n = chat_list.chats.len();
        let mut out = ChatMap { chats: Vec::new() };
        let mut k: usize = 0;
        while k < n
            invariant
                n == chat_list.chats@.len(),
                k <= n,
                pairs_unique(out.chats@),
                forall|cl: Seq<char>, id: Seq<char>|
                    spec_has_pair(out.chats@, cl, id) <==> spec_has_pair(
                        chat_list.chats@.take(k as int),
                        cl,
                        id,
                    ),
                forall|i: int|
                    0 <= i < out.chats@.len() ==> chat_list.chats@.take(k as int).contains(
                        #[trigger] out.chats@[i],
                    ),
                forall|i: int|
                    0 <= i < out.chats@.len() ==> #[trigger] out.chats@[i] == chat_list.chats@.take(
                        k as int,
                    )[last_pair_index(
                        chat_list.chats@.take(k as int),
                        out.chats@[i].client_name@,
                        out.chats@[i].identity@,
                    )],
            decreases n - k,
        {
            let chat = chat_list.chats[k].duplicate();
            let ghost pre = out.chats@;
            let ghost cur = chat_list.chats@[k as int];
            let ghost prev_taken = chat_list.chats@.take(k as int);
            let ghost taken = chat_list.chats@.take(k + 1);
            proof {
                assert(taken.drop_last() =~= prev_taken);
                assert(taken.last() == cur);
                assert(forall|w: int|
                    0 <= w < pre.len() ==> #[trigger] pre[w] == prev_taken[last_pair_index(
                        prev_taken,
                        pre[w].client_name@,
                        pre[w].identity@,
                    )]);
                assert(forall|cl: Seq<char>, id: Seq<char>|
                    spec_has_pair(pre, cl, id) <==> spec_has_pair(prev_taken, cl, id));
                assert(pairs_unique(pre));
            }
            match out.find_pair(chat_list.chats[k].client_name.as_str(), chat_list.chats[k].identity.as_str()) {
                Some(i) => {
                    let slot = &mut out.chats[i];
                    *slot = chat;
                    proof {
                        let i = i as int;
                        assert(out.chats@ == pre.update(i, cur));
                        assert(pre[i].is_pair(cur.client_name@, cur.identity@));
                        assert forall|p: int, q: int|
                            0 <= p < q < out.chats@.len() implies !(out.chats@[
                            p
                        ].client_name@ == out.chats@[q].client_name@ && out.chats@[
                            p
                        ].identity@ == out.chats@[q].identity@) by {
                            assert(out.chats@[p] == if p == i {
                                cur
                            } else {
                                pre[p]
                            });
                            assert(out.chats@[q] == if q == i {
                                cur
                            } else {
                                pre[q]
                            });
                        }
                        assert forall|cl: Seq<char>, id: Seq<char>|
                            spec_has_pair(out.chats@, cl, id) <==> spec_has_pair(
                            taken,
                            cl,
                            id,
                        ) by {
                            if spec_has_pair(out.chats@, cl, id) {
                                let w = choose|w: int|
                                    0 <= w < out.chats@.len() && out.chats@[w].is_pair(cl, id);
                                if w == i {
                                    assert(taken[taken.len() - 1].is_pair(cl, id));
                                } else {
                                    assert(pre[w].is_pair(cl, id));
                                    assert(spec_has_pair(pre, cl, id));
                                    assert(spec_has_pair(prev_taken, cl, id));
                                    let m = choose|m: int|
                                        0 <= m < prev_taken.len() && prev_taken[m].is_pair(cl, id);
                                    assert(taken[m].is_pair(cl, id));
                                }
                            }
                            if spec_has_pair(taken, cl, id) {
                                let m = choose|m: int|
                                    0 <= m < taken.len() && taken[m].is_pair(cl, id);
                                if m < k {
                                    assert(prev_taken[m].is_pair(cl, id));
                                    assert(spec_has_pair(pre, cl, id));
                                    let w = choose|w: int|
                                        0 <= w < pre.len() && pre[w].is_pair(cl, id);
                                    if w == i {
                                        assert(cl == cur.client_name@ && id == cur.identity@);
                                        assert(out.chats@[i].is_pair(cl, id));
                                    } else {
                                        assert(out.chats@[w].is_pair(cl, id));
                                    }
                                } else {
                                    assert(cur.is_pair(cl, id));
                                    assert(out.chats@[i].is_pair(cl, id));
                                }
                            }
                        }
                        assert forall|w: int|
                            0 <= w < out.chats@.len() implies taken.contains(
                            #[trigger] out.chats@[w],
                        ) by {
                            if out.chats@[w] == cur {
                                assert(taken[taken.len() - 1] == cur);
                                assert(taken.contains(cur));
                            } else {
                                assert(out.chats@[w] == pre[w]);
                                assert(prev_taken.contains(pre[w]));
                                let j = choose|j: int|
                                    0 <= j < prev_taken.len() && prev_taken[j] == pre[w];
                                assert(taken[j] == pre[w]);
                                assert(taken.contains(taken[j]));
                            }
                        }
                        assert forall|w: int|
                            0 <= w < out.chats@.len() implies #[trigger] out.chats@[w] == taken[
                        last_pair_index(
                            taken,
                            out.chats@[w].client_name@,
                            out.chats@[w].identity@,
                        )] by {
                            let e = out.chats@[w];
                            lemma_last_pair_take_step(
                                chat_list.chats@,
                                k as int,
                                e.client_name@,
                                e.identity@,
                            );
                            if w == i {
                                assert(e == cur);
                                assert(cur.is_pair(e.client_name@, e.identity@));
                                assert(taken[k as int] == cur);
                            } else {
                                assert(e == pre[w]);
                                assert(e.is_pair(e.client_name@, e.identity@));
                                if cur.is_pair(e.client_name@, e.identity@) {
                                    assert(pre[i].is_pair(cur.client_name@, cur.identity@));
                                    assert(pre[i].client_name@ == e.client_name@ && pre[
                                        i
                                    ].identity@ == e.identity@);
                                    assert(false);
                                }
                                assert(spec_has_pair(pre, e.client_name@, e.identity@));
                                assert(spec_has_pair(prev_taken, e.client_name@, e.identity@));
                                lemma_last_pair_index(prev_taken, e.client_name@, e.identity@);
                                let j = last_pair_index(prev_taken, e.client_name@, e.identity@);
                                assert(taken[j] == prev_taken[j]);
                            }
                        }
                    }
                },
                None => {
                    out.chats.push(chat);
                    proof {
                        assert(out.chats@ == pre.push(cur));
                        assert(!spec_has_pair(pre, cur.client_name@, cur.identity@));
                        assert forall|p: int, q: int|
                            0 <= p < q < out.chats@.len() implies !(out.chats@[
                            p
                        ].client_name@ == out.chats@[q].client_name@ && out.chats@[
                            p
                        ].identity@ == out.chats@[q].identity@) by {
                            if q == pre.len() {
                                assert(out.chats@[p] == pre[p]);
                                if out.chats@[p].client_name@ == cur.client_name@ && out.chats@[
                                    p
                                ].identity@ == cur.identity@ {
                                    assert(pre[p].is_pair(cur.client_name@, cur.identity@));
                                }
                            }
                        }
                        assert forall|cl: Seq<char>, id: Seq<char>|
                            spec_has_pair(out.chats@, cl, id) <==> spec_has_pair(
                            taken,
                            cl,
                            id,
                        ) by {
                            if spec_has_pair(out.chats@, cl, id) {
                                let w = choose|w: int|
                                    0 <= w < out.chats@.len() && out.chats@[w].is_pair(cl, id);
                                if w == pre.len() {
                                    assert(taken[taken.len() - 1].is_pair(cl, id));
                                } else {
                                    assert(pre[w].is_pair(cl, id));
                                    assert(spec_has_pair(pre, cl, id));
                                    assert(spec_has_pair(prev_taken, cl, id));
                                    let m = choose|m: int|
                                        0 <= m < prev_taken.len() && prev_taken[m].is_pair(cl, id);
                                    assert(taken[m].is_pair(cl, id));
                                }
                            }
                            if spec_has_pair(taken, cl, id) {
                                let m = choose|m: int|
                                    0 <= m < taken.len() && taken[m].is_pair(cl, id);
                                if m < k {
                                    assert(prev_taken[m].is_pair(cl, id));
                                    assert(spec_has_pair(pre, cl, id));
                                    let w = choose|w: int|
                                        0 <= w < pre.len() && pre[w].is_pair(cl, id);
                                    assert(out.chats@[w].is_pair(cl, id));
                                } else {
                                    assert(out.chats@[pre.len() as int].is_pair(cl, id));
                                }
                            }
                        }
                        assert forall|w: int|
                            0 <= w < out.chats@.len() implies taken.contains(
                            #[trigger] out.chats@[w],
                        ) by {
                            if out.chats@[w] == cur {
                                assert(taken[taken.len() - 1] == cur);
                                assert(taken.contains(cur));
                            } else {
                                assert(out.chats@[w] == pre[w]);
                                assert(prev_taken.contains(pre[w]));
                                let j = choose|j: int|
                                    0 <= j < prev_taken.len() && prev_taken[j] == pre[w];
                                assert(taken[j] == pre[w]);
                                assert(taken.contains(taken[j]));
                            }
                        }
                        assert forall|w: int|
                            0 <= w < out.chats@.len() implies #[trigger] out.chats@[w] == taken[
                        last_pair_index(
                            taken,
                            out.chats@[w].client_name@,
                            out.chats@[w].identity@,
                        )] by {
                            let e = out.chats@[w];
                            lemma_last_pair_take_step(
                                chat_list.chats@,
                                k as int,
                                e.client_name@,
                                e.identity@,
                            );
                            if w == pre.len() {
                                assert(e == cur);
                                assert(cur.is_pair(e.client_name@, e.identity@));
                                assert(taken[k as int] == cur);
                            } else {
                                assert(e == pre[w]);
                                assert(e.is_pair(e.client_name@, e.identity@));
                                if cur.is_pair(e.client_name@, e.identity@) {
                                    assert(spec_has_pair(pre, cur.client_name@, cur.identity@));
                                    assert(false);
                                }
                                assert(spec_has_pair(pre, e.client_name@, e.identity@));
                                assert(spec_has_pair(prev_taken, e.client_name@, e.identity@));
                                lemma_last_pair_index(prev_taken, e.client_name@, e.identity@);
                                let j = last_pair_index(prev_taken, e.client_name@, e.identity@);
                                assert(taken[j] == prev_taken[j]);
                            }
                        }
                    }
                },
            }
            k = k + 1;
        }
        proof {
            assert(chat_list.chats@.take(n as int) =~= chat_list.chats@);
        }
        out
    }
}

} // verus!

use vstd::prelude::*;
use crate::index::views;
use crate::message::{Message, MessageView};

verus! {

/// A key-value store of messages by id: a point lookup, an upsert and a
/// removal, and iteration in insertion order.
pub struct Kv {
    entries: Vec<Message>,
    model: Ghost<Map<Seq<char>, MessageView>>,
}

impl View for Kv {
    type V = Map<Seq<char>, MessageView>;

    closed spec fn view(&self) -> Map<Seq<char>, MessageView> {
        self.model@
    }
}

impl Kv {
    /// The stored messages in iteration order.
    pub closed spec fn order(&self) -> Seq<MessageView> {
        views(self.entries@)
    }

    /// The entries hold each id once, and agree with the map.
    pub closed spec fn wf(&self) -> bool {
        &&& forall|i: int|
            0 <= i < self.entries@.len() ==> #[trigger] self.model@.contains_key(self.entries@[i].id@)
                && self.model@[self.entries@[i].id@] == self.entries@[i]@
        &&& forall|k: Seq<char>|
            #[trigger] self.model@.contains_key(k) ==> exists|i: int|
                0 <= i < self.entries@.len() && #[trigger] self.entries@[i].id@ == k
        &&& forall|i: int, j: int|
            0 <= i < j < self.entries@.len() ==> self.entries@[i].id@ != self.entries@[j].id@
    }

    /// Every message in iteration order is the one stored under its id.
    pub proof fn lemma_order(&self)
        requires
            self.wf(),
        ensures
            forall|i: int|
                0 <= i < self.order().len() ==> #[trigger] self@.contains_key(self.order()[i].id)
                    && self@[self.order()[i].id] == self.order()[i],
            self.order().len() == self@.dom().len(),
    {
        assert forall|i: int| 0 <= i < self.order().len() implies #[trigger] self@.contains_key(
            self.order()[i].id,
        ) && self@[self.order()[i].id] == self.order()[i] by {
            assert(self.model@.contains_key(self.entries@[i].id@));
        }
        let ids = self.entries@.map_values(|m: Message| m.id@);
        assert forall|i: int, j: int| 0 <= i < j < ids.len() implies ids[i] != ids[j] by {}
        ids.unique_seq_to_set();
        assert(ids.to_set() =~= self.model@.dom()) by {
            assert forall|k: Seq<char>| ids.to_set().contains(k) implies self.model@.dom().contains(k) by {
                let i = choose|i: int| 0 <= i < ids.len() && ids[i] == k;
                assert(self.model@.contains_key(self.entries@[i].id@));
            }
            assert forall|k: Seq<char>| self.model@.dom().contains(k) implies ids.to_set().contains(k) by {
                assert(self.model@.contains_key(k));
                let i = choose|i: int| 0 <= i < self.entries@.len() && #[trigger] self.entries@[i].id@ == k;
                assert(ids[i] == k);
            }
        }
    }

    /// An empty store.
    pub fn new() -> (r: Kv)
        ensures
            r.wf(),
            r@ == Map::<Seq<char>, MessageView>::empty(),
            r.order().len() == 0,
    {
        Kv { entries: Vec::new(), model: Ghost(Map::empty()) }
    }

    /// How many messages the store holds.
    pub fn len(&self) -> (r: usize)
        requires
            self.wf(),
        ensures
            r == self@.dom().len(),
    {
        proof {
            self.lemma_order();
        }
        self.entries.len()
    }

    /// Where the message of an id stands in iteration order.
    fn position(&self, id: &String) -> (r: Option<usize>)
        requires
            self.wf(),
        ensures
            r matches Some(i) ==> i < self.entries@.len() && self.entries@[i as int].id@ == id@,
            r is None ==> !self@.contains_key(id@),
    {
        let mut i: usize = 0;
        while i < self.entries.len()
            invariant
                i <= self.entries@.len(),
                forall|j: int| 0 <= j < i ==> self.entries@[j].id@ != id@,
            decreases self.entries@.len() - i,
        {
            if self.entries[i].id.eq(id) {
                return Some(i);
            }
            i = i + 1;
        }
        proof {
            if self.model@.contains_key(id@) {
                let j = choose|j: int| 0 <= j < self.entries@.len() && #[trigger] self.entries@[j].id@ == id@;
                assert(self.entries@[j].id@ != id@);
            }
        }
        None
    }

    /// The message stored under an id.
    pub fn get(&self, id: &String) -> (r: Option<Message>)
        requires
            self.wf(),
        ensures
            r is None <==> !self@.contains_key(id@),
            r matches Some(m) ==> m@ == self@[id@] && m@.id == id@,
    {
        match self.position(id) {
            Some(i) => {
                assert(self.model@.contains_key(self.entries@[i as int].id@));
                Some(self.entries[i].duplicate())
            },
            None => None,
        }
    }

    /// Stores a message under its id, replacing what was there.
    pub fn put(&mut self, m: Message)
        requires
            old(self).wf(),
        ensures
            final(self).wf(),
            final(self)@ == old(self)@.insert(m@.id, m@),
    {
        let ghost mv = m@;
        match self.position(&m.id) {
            Some(i) => {
                let ghost old_entries = self.entries@;
                self.entries.set(i, m);
                self.model = Ghost(self.model@.insert(mv.id, mv));
                assert forall|a: int, b: int| 0 <= a < b < self.entries@.len() implies self.entries@[a].id@
                    != self.entries@[b].id@ by {
                    if a == i as int {
                        assert(old_entries[b].id@ != old_entries[a].id@);
                    } else if b == i as int {
                        assert(old_entries[b].id@ != old_entries[a].id@);
                    }
                }
                assert forall|a: int| 0 <= a < self.entries@.len() implies #[trigger] self.model@.contains_key(
                    self.entries@[a].id@,
                ) && self.model@[self.entries@[a].id@] == self.entries@[a]@ by {
                    if a != i as int {
                        assert(old_entries[a].id@ != old_entries[i as int].id@);
                        assert(old(self).model@.contains_key(old_entries[a].id@));
                    }
                }
                assert forall|k: Seq<char>| #[trigger] self.model@.contains_key(k) implies exists|j: int|
                    0 <= j < self.entries@.len() && #[trigger] self.entries@[j].id@ == k by {
                    if k == mv.id {
                        assert(self.entries@[i as int].id@ == k);
                    } else {
                        let j = choose|j: int| 0 <= j < old_entries.len() && #[trigger] old_entries[j].id@ == k;
                        assert(self.entries@[j].id@ == k);
                    }
                }
            },
            None => {
                let ghost old_entries = self.entries@;
                self.entries.push(m);
                self.model = Ghost(self.model@.insert(mv.id, mv));
                assert forall|k: Seq<char>| #[trigger] self.model@.contains_key(k) implies exists|j: int|
                    0 <= j < self.entries@.len() && #[trigger] self.entries@[j].id@ == k by {
                    if k == mv.id {
                        assert(self.entries@[old_entries.len() as int].id@ == k);
                    } else {
                        let j = choose|j: int| 0 <= j < old_entries.len() && #[trigger] old_entries[j].id@ == k;
                        assert(self.entries@[j].id@ == k);
                    }
                }
                assert forall|a: int, b: int| 0 <= a < b < self.entries@.len() implies self.entries@[a].id@
                    != self.entries@[b].id@ by {
                    if b == old_entries.len() {
                        assert(old(self).model@.contains_key(old_entries[a].id@));
                    }
                }
            },
        }
    }

    /// Removes the message of an id, if any.
    pub fn remove(&mut self, id: &String)
        requires
            old(self).wf(),
        ensures
            final(self).wf(),
            final(self)@ == old(self)@.remove(id@),
    {
        match self.position(id) {
            Some(i) => {
                let ghost old_entries = self.entries@;
                self.entries.remove(i);
                self.model = Ghost(self.model@.remove(id@));
                assert forall|k: Seq<char>| #[trigger] self.model@.contains_key(k) implies exists|j: int|
                    0 <= j < self.entries@.len() && #[trigger] self.entries@[j].id@ == k by {
                    let j = choose|j: int| 0 <= j < old_entries.len() && #[trigger] old_entries[j].id@ == k;
                    if j < i {
                        assert(self.entries@[j].id@ == k);
                    } else {
                        assert(j != i);
                        assert(self.entries@[j - 1].id@ == k);
                    }
                }
                assert forall|a: int| 0 <= a < self.entries@.len() implies #[trigger] self.model@.contains_key(
                    self.entries@[a].id@,
                ) && self.model@[self.entries@[a].id@] == self.entries@[a]@ by {
                    let x = if a < i {
                        a
                    } else {
                        a + 1
                    };
                    assert(self.entries@[a] == old_entries[x]);
                    assert(x != i as int);
                    assert(old_entries[x].id@ != old_entries[i as int].id@);
                    assert(old(self).model@.contains_key(old_entries[x].id@));
                }
            },
            None => {
                assert(self.model@.remove(id@) =~= self.model@);
            },
        }
    }

    /// The messages in iteration order from position `start` on, at most
    /// `num` of them.
    pub fn get_messages(&self, start: usize, num: usize) -> (r: Vec<Message>)
        requires
            self.wf(),
        ensures
            views(r@) == crate::index::window(self.order(), start as int, num as int),
    {
        let mut out: Vec<Message> = Vec::new();
        if start >= self.entries.len() {
            assert(views(out@) =~= Seq::<MessageView>::empty());
            return out;
        }
        let end: usize = if self.entries.len() - start > num {
            start + num
        } else {
            self.entries.len()
        };
        let mut i: usize = start;
        while i < end
            invariant
                start <= i <= end <= self.entries@.len(),
                views(out@) == self.order().subrange(start as int, i as int),
            decreases end - i,
        {
            let ghost before = views(out@);
            out.push(self.entries[i].duplicate());
            assert(views(out@) =~= before.push(self.entries@[i as int]@));
            i = i + 1;
            assert(views(out@) =~= self.order().subrange(start as int, i as int));
        }
        assert(views(out@) =~= crate::index::window(self.order(), start as int, num as int));
        out
    }

    /// Stores a message under its id, replacing what was there, and hands it
    /// back.
    pub fn add_message(&mut self, msg: Message) -> (r: Result<Message, crate::store::MessageStoreError>)
        requires
            old(self).wf(),
        ensures
            final(self).wf(),
            final(self)@ == old(self)@.insert(msg@.id, msg@),
            r matches Ok(m) && m@ == msg@,
    {
        let ret = msg.duplicate();
        self.put(msg);
        Ok(ret)
    }

    /// Stores messages in order, each under its id.
    pub fn add_messages(&mut self, msgs: Vec<Message>)
        requires
            old(self).wf(),
        ensures
            final(self).wf(),
            final(self)@ == crate::store::put_all(old(self)@, views(msgs@)),
    {
        let ghost m0 = self@;
        let ghost sv = msgs@;
        let mut rest = msgs;
        let mut i: usize = 0;
        let n = rest.len();
        while rest.len() > 0
            invariant
                self.wf(),
                i + rest@.len() == n,
                n == sv.len(),
                rest@ == sv.subrange(i as int, n as int),
                self@ == crate::store::put_all(m0, views(sv.subrange(0, i as int))),
            decreases rest@.len(),
        {
            let m = rest.remove(0);
            assert(m == sv[i as int]);
            assert(views(sv.subrange(0, i + 1)).drop_last() =~= views(sv.subrange(0, i as int)));
            self.put(m);
            i = i + 1;
            assert(rest@ =~= sv.subrange(i as int, n as int));
        }
        assert(sv.subrange(0, n as int) =~= sv);
    }

    /// The message stored under an id, if any.
    pub fn get_message(&self, id: &str) -> (r: Result<Option<Message>, crate::store::MessageStoreError>)
        requires
            self.wf(),
        ensures
            r matches Ok(o) && (o is None <==> !self@.contains_key(id@)),
            r matches Ok(Some(m)) ==> m@ == self@[id@] && m@.id == id@,
    {
        Ok(self.get(&id.to_owned()))
    }

    /// Removes the message of the given one's id.
    pub fn delete_message(&mut self, msg: &Message) -> (r: Result<(), crate::store::MessageStoreError>)
        requires
            old(self).wf(),
        ensures
            final(self).wf(),
            final(self)@ == old(self)@.remove(msg@.id),
            r is Ok,
    {
        self.remove(&msg.id);
        Ok(())
    }
}

/// A key-value store, empty at first.
pub fn default_kv() -> (r: Kv)
    ensures
        r.wf(),
        r@ == Map::<Seq<char>, MessageView>::empty(),
{
    Kv::new()
}

} // verus!

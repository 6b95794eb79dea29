use vstd::prelude::*;
use crate::index::{apply_ops, ranked, widened, window, views, OpView, Probe, SearchIndex, MAX_DISTANCE};
use crate::kv::Kv;
use crate::message::{dedup_texts, distinct, lemma_distinct, texts, Message, MessageView};
use crate::text::copy_texts;

verus! {

/// Why a store operation failed.
#[derive(Debug)]
pub enum MessageStoreError {
    MessageNotFound(String),
    CouldNotAddMessage(String),
    CouldNotOpenMaildir(String),
    CouldNotModifyMessage(String),
    CouldNotDeleteMessage(String),
    CouldNotGetMessage(String),
    CouldNotGetMessages(Vec<String>),
    CouldNotConvertMessage(String),
    CouldNotCreateKvError(String),
    CouldNotCreateSearcherError(String),
    FailedToMoveParsedMailEntry(String),
    InvalidQuery(String),
    /// The full-text engine's writer could not be had.
    EngineUnavailable(String),
}

/// The words for an error.
pub open spec fn error_text(e: MessageStoreError) -> Seq<char> {
    "Message Store Error "@ + match e {
        MessageStoreError::MessageNotFound(s) => "Could not find message "@ + s@,
        MessageStoreError::CouldNotAddMessage(s) => "Could not add message "@ + s@,
        MessageStoreError::CouldNotOpenMaildir(s) => "Could not open maildir "@ + s@,
        MessageStoreError::CouldNotModifyMessage(s) => "Could not modify message "@ + s@,
        MessageStoreError::CouldNotDeleteMessage(s) => "Could not delete message "@ + s@,
        MessageStoreError::CouldNotGetMessage(s) => "Could not get message "@ + s@,
        MessageStoreError::CouldNotGetMessages(v) => "Could not get messages "@ + crate::html::joined(
            texts(v@),
            ", "@,
        ),
        MessageStoreError::CouldNotConvertMessage(s) => "Could not convert message "@ + s@,
        MessageStoreError::CouldNotCreateKvError(_) => "Could not create the KV store"@,
        MessageStoreError::CouldNotCreateSearcherError(_) => "Could not create the Search store"@,
        MessageStoreError::FailedToMoveParsedMailEntry(_) => "Could not move parsed mail entry"@,
        MessageStoreError::InvalidQuery(s) => "Could query message "@ + s@,
        MessageStoreError::EngineUnavailable(s) => "Could not acquire the index writer "@ + s@,
    }
}

/// A literal followed by a text.
fn labelled(label: &str, s: &String) -> (r: String)
    ensures
        r@ == label@ + s@,
{
    let mut out = label.to_owned();
    out.append(s.as_str());
    out
}

impl MessageStoreError {
    /// What went wrong, in words.
    pub fn describe(&self) -> (r: String)
        ensures
            r@ == error_text(*self),
    {
        let detail = match self {
            MessageStoreError::MessageNotFound(s) => labelled("Could not find message ", s),
            MessageStoreError::CouldNotAddMessage(s) => labelled("Could not add message ", s),
            MessageStoreError::CouldNotOpenMaildir(s) => labelled("Could not open maildir ", s),
            MessageStoreError::CouldNotModifyMessage(s) => labelled("Could not modify message ", s),
            MessageStoreError::CouldNotDeleteMessage(s) => labelled("Could not delete message ", s),
            MessageStoreError::CouldNotGetMessage(s) => labelled("Could not get message ", s),
            MessageStoreError::CouldNotGetMessages(v) => {
                let mut d = "Could not get messages ".to_owned();
                let ghost head = d@;
                let mut i: usize = 0;
                while i < v.len()
                    invariant
                        i <= v@.len(),
                        d@ == head + crate::html::joined(texts(v@).subrange(0, i as int), ", "@),
                    decreases v@.len() - i,
                {
                    assert(texts(v@).subrange(0, i + 1).drop_last() =~= texts(v@).subrange(0, i as int));
                    let ghost before = d@;
                    if i > 0 {
                        d.append(", ");
                    }
                    d.append(v[i].as_str());
                    proof {
                        let pre = texts(v@).subrange(0, i as int);
                        if i == 0 {
                            assert(pre =~= Seq::<Seq<char>>::empty());
                            assert(d@ =~= head + texts(v@).subrange(0, 1)[0]);
                        } else {
                            assert(d@ =~= head + (crate::html::joined(pre, ", "@) + ", "@ + v@[i as int]@));
                        }
                    }
                    i = i + 1;
                }
                assert(texts(v@).subrange(0, v@.len() as int) =~= texts(v@));
                d
            },
            MessageStoreError::CouldNotConvertMessage(s) => labelled("Could not convert message ", s),
            MessageStoreError::CouldNotCreateKvError(_) => "Could not create the KV store".to_owned(),
            MessageStoreError::CouldNotCreateSearcherError(_) => "Could not create the Search store".to_owned(),
            MessageStoreError::FailedToMoveParsedMailEntry(_) => "Could not move parsed mail entry".to_owned(),
            MessageStoreError::InvalidQuery(s) => labelled("Could query message ", s),
            MessageStoreError::EngineUnavailable(s) => labelled("Could not acquire the index writer ", s),
        };
        let mut out = "Message Store Error ".to_owned();
        out.append(detail.as_str());
        out
    }
}

/// A message with its tags replaced and every other field kept.
pub open spec fn with_tags(m: MessageView, tags: Seq<Seq<char>>) -> MessageView {
    MessageView { tags, ..m }
}

/// The key-value contents after tagging the message of `id`.
pub open spec fn tag_store(kv: Map<Seq<char>, MessageView>, id: Seq<char>, tags: Seq<Seq<char>>) -> Map<
    Seq<char>,
    MessageView,
> {
    kv.insert(id, with_tags(kv[id], distinct(tags)))
}

/// The key-value contents after storing messages in order, each under its id.
pub open spec fn put_all(kv: Map<Seq<char>, MessageView>, msgs: Seq<MessageView>) -> Map<Seq<char>, MessageView>
    decreases msgs.len(),
{
    if msgs.len() == 0 {
        kv
    } else {
        put_all(kv, msgs.drop_last()).insert(msgs.last().id, msgs.last())
    }
}

/// A full-text index and a key-value store kept in step: every write goes to
/// both, point lookups go to the key-value store, ranked queries to the
/// full-text index.
pub struct MessageStore {
    pub searcher: SearchIndex,
    pub kv: Kv,
}

impl MessageStore {
    /// The stores are well formed, and edits wait only while the writer is
    /// held.
    pub open spec fn wf(&self) -> bool {
        &&& self.kv.wf()
        &&& !self.searcher@.writer ==> self.searcher@.pending.len() == 0
    }

    /// Two empty stores.
    pub fn new() -> (r: MessageStore)
        ensures
            r.wf(),
            r.kv@ == Map::<Seq<char>, MessageView>::empty(),
            r.searcher@.docs.len() == 0,
            !r.searcher@.writer,
    {
        MessageStore { searcher: SearchIndex::new(), kv: Kv::new() }
    }

    /// Stores reopened from what was saved: the committed documents of the
    /// full-text index and the records of the key-value store.
    pub fn restore(indexed: Vec<Message>, stored: Vec<Message>) -> (r: MessageStore)
        ensures
            r.wf(),
            r.searcher@.docs == views(indexed@),
            !r.searcher@.writer,
            r.kv@ == put_all(Map::empty(), views(stored@)),
    {
        let mut kv = Kv::new();
        let mut rest = stored;
        let ghost sv = rest@;
        let mut i: usize = 0;
        let n = rest.len();
        while rest.len() > 0
            invariant
                kv.wf(),
                i + rest@.len() == n,
                n == sv.len(),
                rest@ == sv.subrange(i as int, n as int),
                kv@ == put_all(Map::empty(), views(sv.subrange(0, i as int))),
            decreases rest@.len(),
        {
            let m = rest.remove(0);
            assert(m == sv[i as int]);
            assert(views(sv.subrange(0, i + 1)).drop_last() =~= views(sv.subrange(0, i as int)));
            kv.put(m);
            i = i + 1;
            assert(rest@ =~= sv.subrange(i as int, n as int));
        }
        assert(sv.subrange(0, n as int) =~= sv);
        MessageStore { searcher: SearchIndex::from_messages(indexed), kv }
    }

    /// Takes the full-text writer for a run of writes.
    pub fn start_indexing_process(&mut self) -> (r: Result<(), MessageStoreError>)
        requires
            old(self).wf(),
        ensures
            final(self).wf(),
            r is Ok <==> !old(self).searcher@.writer,
            final(self).searcher@.writer,
            final(self).searcher@.docs == old(self).searcher@.docs,
            final(self).searcher@.pending == old(self).searcher@.pending,
            final(self).kv@ == old(self).kv@,
    {
        if self.searcher.acquire_writer() {
            Ok(())
        } else {
            Err(MessageStoreError::EngineUnavailable("The index writer is in use".to_owned()))
        }
    }

    /// Commits the full-text writes, making them visible, and frees the writer.
    pub fn finish_indexing_process(&mut self) -> (r: Result<(), MessageStoreError>)
        requires
            old(self).wf(),
        ensures
            final(self).wf(),
            r is Ok <==> old(self).searcher@.writer,
            r is Ok ==> final(self).searcher@.docs == apply_ops(old(self).searcher@.docs, old(self).searcher@.pending),
            r is Err ==> final(self).searcher@ == old(self).searcher@,
            r matches Err(e) ==> e is CouldNotAddMessage,
            !final(self).searcher@.writer,
            final(self).kv@ == old(self).kv@,
    {
        if self.searcher.writer_held() {
            self.searcher.commit();
            Ok(())
        } else {
            Err(MessageStoreError::CouldNotAddMessage("Trying to commit index without an actual index".to_owned()))
        }
    }

    /// Writes a message to both stores, replacing any of the same id. The
    /// full-text write waits for the next commit; it needs the writer.
    pub fn add_message(&mut self, msg: Message) -> (r: Result<Message, MessageStoreError>)
        requires
            old(self).wf(),
        ensures
            final(self).wf(),
            r is Ok <==> old(self).searcher@.writer,
            r is Ok ==> {
                &&& r.unwrap()@ == msg@
                &&& final(self).kv@ == old(self).kv@.insert(msg@.id, msg@)
                &&& final(self).searcher@.pending == old(self).searcher@.pending.push(OpView::Delete(msg@.id)).push(
                    OpView::Add(msg@),
                )
                &&& final(self).searcher@.docs == old(self).searcher@.docs
                &&& final(self).searcher@.writer
            },
            r is Err ==> final(self).kv@ == old(self).kv@ && final(self).searcher@ == old(self).searcher@,
            r matches Err(e) ==> e is CouldNotAddMessage,
    {
        if self.searcher.writer_held() {
            let copy = msg.duplicate();
            self.searcher.add_document(copy);
            let ret = msg.duplicate();
            self.kv.put(msg);
            Ok(ret)
        } else {
            Err(MessageStoreError::CouldNotAddMessage("No indexer was allocated".to_owned()))
        }
    }

    /// The message of an id, from the key-value store.
    pub fn get_message(&self, id: &String) -> (r: Result<Option<Message>, MessageStoreError>)
        requires
            self.wf(),
        ensures
            r matches Ok(o) && (o is None <==> !self.kv@.contains_key(id@)),
            r matches Ok(Some(m)) ==> m@ == self.kv@[id@],
    {
        Ok(self.kv.get(id))
    }

    /// The committed messages latest first, from position `skip` on, at most
    /// `limit` of them.
    pub fn get_messages_page(&self, skip: usize, limit: usize) -> (r: Result<Vec<Message>, MessageStoreError>)
        ensures
            r matches Ok(v) && views(v@) == window(ranked(self.searcher@.docs, Probe::All), skip as int, limit as int),
    {
        Ok(self.searcher.page(skip, limit))
    }

    /// A widened full-text search over the committed messages.
    pub fn search_fuzzy(&self, query: &String, limit: usize) -> (r: Result<Vec<Message>, MessageStoreError>)
        ensures
            r matches Ok(v) && views(v@) == widened(self.searcher@.docs, query@, limit as int, MAX_DISTANCE as nat),
    {
        Ok(self.searcher.search_fuzzy(query, limit))
    }

    /// Replaces the tags of a stored message. The full-text document is
    /// deleted and inserted again under one writer and one commit; then the
    /// key-value record is overwritten.
    pub fn tag_message_id(&mut self, id: &String, tags: Vec<String>) -> (r: Result<(), MessageStoreError>)
        requires
            old(self).wf(),
        ensures
            final(self).wf(),
            r matches Err(MessageStoreError::MessageNotFound(_)) <==> !old(self).kv@.contains_key(id@),
            r matches Err(MessageStoreError::EngineUnavailable(_)) <==> old(self).kv@.contains_key(id@)
                && old(self).searcher@.writer,
            r is Ok <==> old(self).kv@.contains_key(id@) && !old(self).searcher@.writer,
            r is Ok ==> {
                &&& final(self).kv@ == tag_store(old(self).kv@, id@, texts(tags@))
                &&& final(self).searcher@.docs == apply_ops(
                    old(self).searcher@.docs,
                    seq![OpView::Delete(id@), OpView::Add(with_tags(old(self).kv@[id@], distinct(texts(tags@))))],
                )
                &&& !final(self).searcher@.writer
            },
            r is Err ==> final(self).kv@ == old(self).kv@ && final(self).searcher@ == old(self).searcher@,
    {
        let msg = match self.kv.get(id) {
            Some(m) => m,
            None => {
                return Err(MessageStoreError::MessageNotFound(id.clone()));
            },
        };
        if self.searcher.writer_held() {
            return Err(MessageStoreError::EngineUnavailable("The index writer is in use".to_owned()));
        }
        self.searcher.acquire_writer();
        let ghost tv = distinct(texts(tags@));
        let mut tagged = msg;
        tagged.tags = dedup_texts(tags);
        assert(tagged@ == with_tags(old(self).kv@[id@], tv));
        self.searcher.delete_term(id);
        self.searcher.insert_document(tagged.duplicate());
        assert(self.searcher@.pending =~= seq![OpView::Delete(id@), OpView::Add(tagged@)]);
        self.searcher.commit();
        self.kv.put(tagged);
        Ok(())
    }

    /// Deletes a message from both stores; the full-text deletion waits for
    /// the next commit and needs the writer.
    pub fn delete_message(&mut self, msg: &Message) -> (r: Result<(), MessageStoreError>)
        requires
            old(self).wf(),
        ensures
            final(self).wf(),
            r is Ok <==> old(self).searcher@.writer,
            r is Ok ==> final(self).kv@ == old(self).kv@.remove(msg@.id) && final(self).searcher@.pending
                == old(self).searcher@.pending.push(OpView::Delete(msg@.id)) && final(self).searcher@.docs
                == old(self).searcher@.docs && final(self).searcher@.writer,
            r is Err ==> final(self).kv@ == old(self).kv@ && final(self).searcher@ == old(self).searcher@,
    {
        if self.searcher.writer_held() {
            self.searcher.delete_term(&msg.id);
            self.kv.remove(&msg.id);
            Ok(())
        } else {
            Err(MessageStoreError::CouldNotModifyMessage(
                "Can't delete the message. The index writer is not initialized".to_owned(),
            ))
        }
    }
}

/// How many of the messages carry the given id.
pub open spec fn count_id(docs: Seq<MessageView>, id: Seq<char>) -> nat
    decreases docs.len(),
{
    if docs.len() == 0 {
        0
    } else {
        count_id(docs.drop_last(), id) + if docs.last().id == id {
            1nat
        } else {
            0nat
        }
    }
}

proof fn lemma_without_id(docs: Seq<MessageView>, id: Seq<char>)
    ensures
        crate::index::without_id(crate::index::without_id(docs, id), id) == crate::index::without_id(docs, id),
        count_id(crate::index::without_id(docs, id), id) == 0,
    decreases docs.len(),
{
    if docs.len() > 0 {
        lemma_without_id(docs.drop_last(), id);
        let w = crate::index::without_id(docs.drop_last(), id);
        if docs.last().id != id {
            assert(w.push(docs.last()).drop_last() =~= w);
        }
    }
}

/// Adding the same message twice leaves both stores as adding it once does:
/// the key-value store holds it under its id, and after a commit the
/// full-text index holds exactly one document of that id.
pub proof fn lemma_add_idempotent(kv: Map<Seq<char>, MessageView>, docs: Seq<MessageView>, m: MessageView)
    ensures
        kv.insert(m.id, m).insert(m.id, m) == kv.insert(m.id, m),
        kv.insert(m.id, m)[m.id] == m,
        apply_ops(docs, seq![OpView::Delete(m.id), OpView::Add(m), OpView::Delete(m.id), OpView::Add(m)])
            == apply_ops(docs, seq![OpView::Delete(m.id), OpView::Add(m)]),
        count_id(apply_ops(docs, seq![OpView::Delete(m.id), OpView::Add(m)]), m.id) == 1,
{
    assert(kv.insert(m.id, m).insert(m.id, m) =~= kv.insert(m.id, m));
    let two = seq![OpView::Delete(m.id), OpView::Add(m)];
    let four = seq![OpView::Delete(m.id), OpView::Add(m), OpView::Delete(m.id), OpView::Add(m)];
    assert(four.drop_last() =~= seq![OpView::Delete(m.id), OpView::Add(m), OpView::Delete(m.id)]);
    assert(four.drop_last().drop_last() =~= two);
    assert(two.drop_last() =~= seq![OpView::Delete(m.id)]);
    assert(seq![OpView::Delete(m.id)].drop_last() =~= Seq::<OpView>::empty());
    let w = crate::index::without_id(docs, m.id);
    lemma_without_id(docs, m.id);
    assert(w.push(m).drop_last() =~= w);
    assert(crate::index::without_id(w.push(m), m.id) == crate::index::without_id(w, m.id));
    assert(apply_ops(docs, Seq::<OpView>::empty()) == docs);
    assert(apply_ops(docs, seq![OpView::Delete(m.id)]) == w);
    assert(apply_ops(docs, two) == w.push(m));
    assert(apply_ops(docs, four.drop_last()) == w);
    assert(apply_ops(docs, four) == w.push(m));
    assert(count_id(w.push(m), m.id) == count_id(w, m.id) + 1);
}

/// Tagging a stored message and reading it back gives the message with
/// exactly the new set of tags, none twice, every other field unchanged.
pub proof fn lemma_tag_round_trip(kv: Map<Seq<char>, MessageView>, id: Seq<char>, tags: Seq<Seq<char>>)
    requires
        kv.contains_key(id),
    ensures
        tag_store(kv, id, tags).contains_key(id),
        tag_store(kv, id, tags)[id].tags.to_set() == tags.to_set(),
        tag_store(kv, id, tags)[id].tags.no_duplicates(),
        tag_store(kv, id, tags)[id].id == kv[id].id,
        tag_store(kv, id, tags)[id].original == kv[id].original,
        tag_store(kv, id, tags)[id].date == kv[id].date,
        tag_store(kv, id, tags)[id].subject == kv[id].subject,
        tag_store(kv, id, tags)[id].from == kv[id].from,
        tag_store(kv, id, tags)[id].recipients == kv[id].recipients,
        tag_store(kv, id, tags)[id].body == kv[id].body,
{
    lemma_distinct(tags);
}

} // verus!

use vstd::prelude::*;
use crate::message::{message_text, Message, MessageView};
use crate::sort::{lemma_sort_relabel, sort_by_key, sort_keyed};
use crate::terms::{distance, edit_distance, lower, lower_chars, split_words, word_views, words};
use crate::text::{chars_of, lowercase_of, to_lowercase};

verus! {

/// What a query asks of a message.
pub enum Probe {
    /// Every message.
    All,
    /// Messages with a word equal to this one.
    Exact(Seq<char>),
    /// Messages with a word within this edit distance of one of these terms.
    Fuzzy(Seq<Seq<char>>, nat),
}

/// The words a message is found by: those of its subject, then those of its
/// text, both in lower case.
pub open spec fn doc_words(m: MessageView) -> Seq<Seq<char>> {
    words(lowercase_of(m.subject)) + words(lowercase_of(message_text(m)))
}

/// Whether `t` is one of `ws`.
pub open spec fn has_word(ws: Seq<Seq<char>>, t: Seq<char>) -> bool
    decreases ws.len(),
{
    ws.len() > 0 && (has_word(ws.drop_last(), t) || ws.last() == t)
}

/// Whether two words are within edit distance `d` (words too long to measure
/// are never close).
pub open spec fn close(t: Seq<char>, w: Seq<char>, d: nat) -> bool {
    t.len() < usize::MAX && w.len() < usize::MAX && edit_distance(t, w) <= d
}

/// Whether `t` is close to one of `ws`.
pub open spec fn close_to_any(t: Seq<char>, ws: Seq<Seq<char>>, d: nat) -> bool
    decreases ws.len(),
{
    ws.len() > 0 && (close_to_any(t, ws.drop_last(), d) || close(t, ws.last(), d))
}

/// Whether one of the terms is close to one of `ws`.
pub open spec fn any_close(ts: Seq<Seq<char>>, ws: Seq<Seq<char>>, d: nat) -> bool
    decreases ts.len(),
{
    ts.len() > 0 && (any_close(ts.drop_last(), ws, d) || close_to_any(ts.last(), ws, d))
}

/// Whether a message answers a probe.
pub open spec fn probe_hit(m: MessageView, p: Probe) -> bool {
    match p {
        Probe::All => true,
        Probe::Exact(t) => has_word(doc_words(m), t),
        Probe::Fuzzy(ts, d) => any_close(ts, doc_words(m), d),
    }
}

/// The sort key that puts later messages first.
pub open spec fn date_key(m: MessageView) -> u128 {
    (0xffff_ffff_ffff_ffffu64 - m.date) as u128
}

/// The messages that answer a probe, each with its sort key, in index order.
pub open spec fn keyed_hits(docs: Seq<MessageView>, p: Probe) -> Seq<(u128, MessageView)>
    decreases docs.len(),
{
    if docs.len() == 0 {
        Seq::empty()
    } else if probe_hit(docs.last(), p) {
        keyed_hits(docs.drop_last(), p).push((date_key(docs.last()), docs.last()))
    } else {
        keyed_hits(docs.drop_last(), p)
    }
}

/// The messages that answer a probe, latest first; messages of one date stay
/// in index order.
pub open spec fn ranked(docs: Seq<MessageView>, p: Probe) -> Seq<MessageView> {
    sort_keyed(keyed_hits(docs, p)).map_values(|x: (u128, MessageView)| x.1)
}

/// At most the first `n` elements.
pub open spec fn take<T>(s: Seq<T>, n: int) -> Seq<T> {
    if s.len() <= n {
        s
    } else {
        s.subrange(0, n)
    }
}

/// Messages as values.
pub open spec fn views(v: Seq<Message>) -> Seq<MessageView> {
    v.map_values(|m: Message| m@)
}

/// An edit to the index that waits for the next commit.
pub enum IndexOp {
    Delete(String),
    Add(Message),
}

/// An edit as a value.
pub enum OpView {
    Delete(Seq<char>),
    Add(MessageView),
}

impl IndexOp {
    pub open spec fn op_view(self) -> OpView {
        match self {
            IndexOp::Delete(id) => OpView::Delete(id@),
            IndexOp::Add(m) => OpView::Add(m@),
        }
    }
}

/// The messages without those of the given id.
pub open spec fn without_id(docs: Seq<MessageView>, id: Seq<char>) -> Seq<MessageView>
    decreases docs.len(),
{
    if docs.len() == 0 {
        Seq::empty()
    } else if docs.last().id == id {
        without_id(docs.drop_last(), id)
    } else {
        without_id(docs.drop_last(), id).push(docs.last())
    }
}

/// The messages after one edit.
pub open spec fn apply_op(docs: Seq<MessageView>, op: OpView) -> Seq<MessageView> {
    match op {
        OpView::Delete(id) => without_id(docs, id),
        OpView::Add(m) => docs.push(m),
    }
}

/// The messages after edits in order.
pub open spec fn apply_ops(docs: Seq<MessageView>, ops: Seq<OpView>) -> Seq<MessageView>
    decreases ops.len(),
{
    if ops.len() == 0 {
        docs
    } else {
        apply_op(apply_ops(docs, ops.drop_last()), ops.last())
    }
}

/// The full-text index as a value: the committed messages, the edits that
/// wait for a commit, and whether its one writer is taken.
pub struct IndexView {
    pub docs: Seq<MessageView>,
    pub pending: Seq<OpView>,
    pub writer: bool,
}

/// A full-text index of messages. Documents are immutable once committed: a
/// change is a deletion and a new document. Edits go through the index's
/// single writer and become visible at commit.
pub struct SearchIndex {
    docs: Vec<Message>,
    pending: Vec<IndexOp>,
    writer: bool,
}

impl View for SearchIndex {
    type V = IndexView;

    closed spec fn view(&self) -> IndexView {
        IndexView {
            docs: views(self.docs@),
            pending: self.pending@.map_values(|o: IndexOp| o.op_view()),
            writer: self.writer,
        }
    }
}

/// The words of a text in lower case.
fn text_words(s: &String) -> (r: Vec<Vec<char>>)
    ensures
        word_views(r@) == words(lowercase_of(s@)),
{
    let l = to_lowercase(s.as_str());
    let cs = chars_of(l.as_str());
    split_words(&cs)
}

/// The words a message is found by.
fn message_words(m: &Message) -> (r: Vec<Vec<char>>)
    ensures
        word_views(r@) == doc_words(m@),
{
    let mut ws = text_words(&m.subject);
    let t = m.index_text();
    let mut more = text_words(&t);
    let ghost a = word_views(ws@);
    let ghost b = word_views(more@);
    ws.append(&mut more);
    assert(word_views(ws@) =~= a + b);
    ws
}

/// Whether two words are the same.
fn same_word(a: &Vec<char>, b: &Vec<char>) -> (r: bool)
    ensures
        r == (a@ == b@),
{
    if a.len() != b.len() {
        return false;
    }
    let mut i: usize = 0;
    while i < a.len()
        invariant
            a@.len() == b@.len(),
            i <= a@.len(),
            forall|j: int| 0 <= j < i ==> a@[j] == b@[j],
        decreases a@.len() - i,
    {
        if a[i] != b[i] {
            return false;
        }
        i = i + 1;
    }
    assert(a@ =~= b@);
    true
}

/// Whether `t` is one of `ws`.
fn word_in(ws: &Vec<Vec<char>>, t: &Vec<char>) -> (r: bool)
    ensures
        r == has_word(word_views(ws@), t@),
{
    let mut found = false;
    let mut i: usize = 0;
    while i < ws.len()
        invariant
            i <= ws@.len(),
            found == has_word(word_views(ws@).subrange(0, i as int), t@),
        decreases ws@.len() - i,
    {
        assert(word_views(ws@).subrange(0, i + 1).drop_last() =~= word_views(ws@).subrange(0, i as int));
        let same = same_word(&ws[i], t);
        found = found || same;
        i = i + 1;
    }
    assert(word_views(ws@).subrange(0, ws@.len() as int) =~= word_views(ws@));
    found
}

/// Whether `t` is within distance `d` of one of `ws`.
fn near_any(t: &Vec<char>, ws: &Vec<Vec<char>>, d: usize) -> (r: bool)
    ensures
        r == close_to_any(t@, word_views(ws@), d as nat),
{
    let mut found = false;
    let mut i: usize = 0;
    while i < ws.len()
        invariant
            i <= ws@.len(),
            found == close_to_any(t@, word_views(ws@).subrange(0, i as int), d as nat),
        decreases ws@.len() - i,
    {
        assert(word_views(ws@).subrange(0, i + 1).drop_last() =~= word_views(ws@).subrange(0, i as int));
        let w = &ws[i];
        let hit = if t.len() < usize::MAX && w.len() < usize::MAX {
            distance(t, w) <= d
        } else {
            false
        };
        found = found || hit;
        i = i + 1;
    }
    assert(word_views(ws@).subrange(0, ws@.len() as int) =~= word_views(ws@));
    found
}

/// Whether one of the terms is within distance `d` of one of `ws`.
fn any_near(ts: &Vec<Vec<char>>, ws: &Vec<Vec<char>>, d: usize) -> (r: bool)
    ensures
        r == any_close(word_views(ts@), word_views(ws@), d as nat),
{
    let mut found = false;
    let mut i: usize = 0;
    while i < ts.len()
        invariant
            i <= ts@.len(),
            found == any_close(word_views(ts@).subrange(0, i as int), word_views(ws@), d as nat),
        decreases ts@.len() - i,
    {
        assert(word_views(ts@).subrange(0, i + 1).drop_last() =~= word_views(ts@).subrange(0, i as int));
        let hit = near_any(&ts[i], ws, d);
        found = found || hit;
        i = i + 1;
    }
    assert(word_views(ts@).subrange(0, ts@.len() as int) =~= word_views(ts@));
    found
}

/// A probe in executable form.
pub enum Query {
    All,
    Exact(Vec<char>),
    Fuzzy(Vec<Vec<char>>, usize),
}

impl Query {
    pub open spec fn probe(self) -> Probe {
        match self {
            Query::All => Probe::All,
            Query::Exact(t) => Probe::Exact(t@),
            Query::Fuzzy(ts, d) => Probe::Fuzzy(word_views(ts@), d as nat),
        }
    }
}

/// Whether a message answers a query.
fn hit(m: &Message, q: &Query) -> (r: bool)
    ensures
        r == probe_hit(m@, q.probe()),
{
    match q {
        Query::All => true,
        Query::Exact(t) => {
            let ws = message_words(m);
            word_in(&ws, t)
        },
        Query::Fuzzy(ts, d) => {
            let ws = message_words(m);
            any_near(ts, &ws, *d)
        },
    }
}

impl SearchIndex {
    /// An empty index with its writer free.
    pub fn new() -> (r: SearchIndex)
        ensures
            r@.docs.len() == 0,
            r@.pending.len() == 0,
            !r@.writer,
    {
        let r = SearchIndex { docs: Vec::new(), pending: Vec::new(), writer: false };
        assert(r@.docs =~= Seq::<MessageView>::empty());
        assert(r@.pending =~= Seq::<OpView>::empty());
        r
    }

    /// An index whose committed documents are the given messages.
    pub fn from_messages(msgs: Vec<Message>) -> (r: SearchIndex)
        ensures
            r@.docs == views(msgs@),
            r@.pending.len() == 0,
            !r@.writer,
    {
        let r = SearchIndex { docs: msgs, pending: Vec::new(), writer: false };
        assert(r@.pending =~= Seq::<OpView>::empty());
        r
    }

    /// How many committed documents the index holds.
    pub fn len(&self) -> (r: usize)
        ensures
            r == self@.docs.len(),
    {
        self.docs.len()
    }

    /// Whether the writer is taken.
    pub fn writer_held(&self) -> (r: bool)
        ensures
            r == self@.writer,
    {
        self.writer
    }

    /// Takes the single writer; fails while another holds it.
    pub fn acquire_writer(&mut self) -> (r: bool)
        ensures
            r == !old(self)@.writer,
            final(self)@.writer,
            final(self)@.docs == old(self)@.docs,
            final(self)@.pending == old(self)@.pending,
    {
        if self.writer {
            false
        } else {
            self.writer = true;
            true
        }
    }

    /// Queues a document, replacing any of the same id at commit.
    pub fn add_document(&mut self, m: Message)
        requires
            old(self)@.writer,
        ensures
            final(self)@.writer,
            final(self)@.docs == old(self)@.docs,
            final(self)@.pending == old(self)@.pending.push(OpView::Delete(m@.id)).push(OpView::Add(m@)),
    {
        let ghost pv = self@.pending;
        let ghost mv = m@;
        let id = m.id.clone();
        self.pending.push(IndexOp::Delete(id));
        self.pending.push(IndexOp::Add(m));
        assert(self@.pending =~= pv.push(OpView::Delete(mv.id)).push(OpView::Add(mv)));
    }

    /// Queues a new document, leaving those of the same id in place.
    pub fn insert_document(&mut self, m: Message)
        requires
            old(self)@.writer,
        ensures
            final(self)@.writer,
            final(self)@.docs == old(self)@.docs,
            final(self)@.pending == old(self)@.pending.push(OpView::Add(m@)),
    {
        let ghost pv = self@.pending;
        let ghost mv = m@;
        self.pending.push(IndexOp::Add(m));
        assert(self@.pending =~= pv.push(OpView::Add(mv)));
    }

    /// Queues the deletion of every document of an id.
    pub fn delete_term(&mut self, id: &String)
        requires
            old(self)@.writer,
        ensures
            final(self)@.writer,
            final(self)@.docs == old(self)@.docs,
            final(self)@.pending == old(self)@.pending.push(OpView::Delete(id@)),
    {
        let ghost pv = self@.pending;
        self.pending.push(IndexOp::Delete(id.clone()));
        assert(self@.pending =~= pv.push(OpView::Delete(id@)));
    }

    /// Applies the queued edits in order, making them visible, and frees the
    /// writer.
    pub fn commit(&mut self)
        requires
            old(self)@.writer,
        ensures
            final(self)@.docs == apply_ops(old(self)@.docs, old(self)@.pending),
            final(self)@.pending.len() == 0,
            !final(self)@.writer,
    {
        let ghost d0 = self@.docs;
        let ghost ops = self@.pending;
        let mut rest: Vec<IndexOp> = Vec::new();
        std::mem::swap(&mut rest, &mut self.pending);
        let mut i: usize = 0;
        let n = rest.len();
        while rest.len() > 0
            invariant
                i + rest@.len() == n,
                n == ops.len(),
                rest@.map_values(|o: IndexOp| o.op_view()) == ops.subrange(i as int, n as int),
                views(self.docs@) == apply_ops(d0, ops.subrange(0, i as int)),
                self.pending@.len() == 0,
            decreases rest@.len(),
        {
            let ghost rv = rest@;
            let op = rest.remove(0);
            assert(rest@ =~= rv.subrange(1, rv.len() as int));
            assert(ops.subrange(0, i + 1).drop_last() =~= ops.subrange(0, i as int));
            assert(ops.subrange(i as int, n as int)[0] == ops[i as int]);
            match op {
                IndexOp::Delete(id) => {
                    let mut docs: Vec<Message> = Vec::new();
                    std::mem::swap(&mut docs, &mut self.docs);
                    self.docs = remove_id(docs, &id);
                },
                IndexOp::Add(m) => {
                    let ghost before = views(self.docs@);
                    let ghost mv = m@;
                    self.docs.push(m);
                    assert(views(self.docs@) =~= before.push(mv));
                },
            }
            assert forall|k: int| 0 <= k < rest@.len() implies #[trigger] rest@[k].op_view() == ops[i + 1
                + k] by {
                assert(rest@[k] == rv[k + 1]);
                assert(rv.map_values(|o: IndexOp| o.op_view())[k + 1] == ops.subrange(i as int, n as int)[k
                    + 1]);
            }
            i = i + 1;
            assert(rest@.map_values(|o: IndexOp| o.op_view()) =~= ops.subrange(i as int, n as int));
        }
        assert(ops.subrange(0, n as int) =~= ops);
        self.writer = false;
        assert(self@.pending =~= Seq::<OpView>::empty());
    }

    /// The committed messages that answer a query, latest first.
    pub fn ranked_hits(&self, q: &Query) -> (r: Vec<Message>)
        ensures
            views(r@) == ranked(self@.docs, q.probe()),
    {
        let ghost dv = views(self.docs@);
        let mut keyed: Vec<(u128, Message)> = Vec::new();
        let mut i: usize = 0;
        while i < self.docs.len()
            invariant
                i <= self.docs@.len(),
                dv == views(self.docs@),
                keyed@.map_values(|x: (u128, Message)| (x.0, x.1@)) == keyed_hits(
                    dv.subrange(0, i as int),
                    q.probe(),
                ),
            decreases self.docs@.len() - i,
        {
            let m = &self.docs[i];
            assert(dv.subrange(0, i + 1).drop_last() =~= dv.subrange(0, i as int));
            assert(dv.subrange(0, i + 1).last() == m@);
            if hit(m, q) {
                let ghost before = keyed@.map_values(|x: (u128, Message)| (x.0, x.1@));
                let key: u128 = (0xffff_ffff_ffff_ffffu64 - m.date) as u128;
                keyed.push((key, m.duplicate()));
                assert(keyed@.map_values(|x: (u128, Message)| (x.0, x.1@)) =~= before.push(
                    (date_key(m@), m@),
                ));
            }
            i = i + 1;
        }
        assert(dv.subrange(0, self.docs@.len() as int) =~= dv);
        let ghost kv = keyed@;
        let sorted = sort_by_key(keyed);
        let ghost sv = sorted@;
        let mut out: Vec<Message> = Vec::new();
        let mut rest = sorted;
        let mut j: usize = 0;
        let m = rest.len();
        while rest.len() > 0
            invariant
                j + rest@.len() == m,
                m == sv.len(),
                rest@ == sv.subrange(j as int, m as int),
                out@ == sv.subrange(0, j as int).map_values(|x: (u128, Message)| x.1),
            decreases rest@.len(),
        {
            let x = rest.remove(0);
            out.push(x.1);
            j = j + 1;
            assert(out@ =~= sv.subrange(0, j as int).map_values(|x: (u128, Message)| x.1));
            assert(rest@ =~= sv.subrange(j as int, m as int));
        }
        proof {
            assert(sv.subrange(0, m as int) =~= sv);
            let f = |x: Message| x@;
            lemma_sort_relabel(kv, f);
            assert(kv.map_values(|x: (u128, Message)| (x.0, f(x.1))) =~= kv.map_values(
                |x: (u128, Message)| (x.0, x.1@),
            ));
            assert(views(out@) =~= sort_keyed(kv).map_values(|x: (u128, Message)| (x.0, f(x.1))).map_values(
                |x: (u128, MessageView)| x.1,
            ));
        }
        out
    }
}

/// The messages without those of the given id.
fn remove_id(docs: Vec<Message>, id: &String) -> (r: Vec<Message>)
    ensures
        views(r@) == without_id(views(docs@), id@),
{
    let ghost dv = views(docs@);
    let mut out: Vec<Message> = Vec::new();
    let mut rest = docs;
    let mut i: usize = 0;
    let n = rest.len();
    while rest.len() > 0
        invariant
            i + rest@.len() == n,
            n == dv.len(),
            views(rest@) == dv.subrange(i as int, n as int),
            views(out@) == without_id(dv.subrange(0, i as int), id@),
        decreases rest@.len(),
    {
        let ghost rv = rest@;
        let m = rest.remove(0);
        assert(rest@ =~= rv.subrange(1, rv.len() as int));
        assert(dv.subrange(0, i + 1).drop_last() =~= dv.subrange(0, i as int));
        assert forall|k: int| 0 <= k < rest@.len() implies views(rest@)[k] == dv[i + 1 + k] by {
            assert(rest@[k] == rv[k + 1]);
            assert(views(rv)[k + 1] == dv.subrange(i as int, n as int)[k + 1]);
        }
        assert(views(rest@) =~= dv.subrange(i + 1, n as int));
        assert(dv.subrange(i as int, n as int)[0] == m@);
        if !m.id.eq(id) {
            let ghost before = views(out@);
            let ghost mv = m@;
            out.push(m);
            assert(views(out@) =~= before.push(mv));
        }
        i = i + 1;
    }
    assert(dv.subrange(0, n as int) =~= dv);
    out
}

/// The terms a widened search tries: the whole query in lower case, then its
/// words.
pub open spec fn query_terms(q: Seq<char>) -> Seq<Seq<char>> {
    seq![lower(lowercase_of(q))] + words(lowercase_of(q))
}

/// How far a fuzzy search widens at most.
pub const MAX_DISTANCE: usize = 2;

/// The result of a search widened up to edit distance `d`: exact matches
/// first; then, while fewer than `limit` were found, the matches at each
/// distance from 1 up, latest first, up to `limit` in all.
pub open spec fn widened(docs: Seq<MessageView>, q: Seq<char>, limit: int, d: nat) -> Seq<MessageView>
    decreases d,
{
    if d == 0 {
        take(ranked(docs, Probe::Exact(lower(lowercase_of(q)))), limit)
    } else {
        let a = widened(docs, q, limit, (d - 1) as nat);
        if a.len() < limit {
            a + take(ranked(docs, Probe::Fuzzy(query_terms(q), d)), limit - a.len())
        } else {
            a
        }
    }
}

/// The first `n` messages of a list, at most.
fn take_first(v: Vec<Message>, n: usize) -> (r: Vec<Message>)
    ensures
        views(r@) == take(views(v@), n as int),
{
    let ghost vv = views(v@);
    let mut v = v;
    if v.len() > n {
        v.truncate(n);
        assert(views(v@) =~= vv.subrange(0, n as int));
    }
    v
}

/// A search never returns more than its limit, and widening to a greater
/// distance never returns fewer messages.
pub proof fn lemma_widening_monotone(docs: Seq<MessageView>, q: Seq<char>, limit: int, d1: nat, d2: nat)
    requires
        0 <= limit,
        d1 <= d2,
    ensures
        widened(docs, q, limit, d1).len() <= widened(docs, q, limit, d2).len(),
        widened(docs, q, limit, d2).len() <= limit,
    decreases d2,
{
    if d2 > 0 {
        let a = widened(docs, q, limit, (d2 - 1) as nat);
        if d1 < d2 {
            lemma_widening_monotone(docs, q, limit, d1, (d2 - 1) as nat);
        } else {
            lemma_widening_monotone(docs, q, limit, (d2 - 1) as nat, (d2 - 1) as nat);
        }
    }
}

/// The messages from position `skip` on, at most `limit` of them.
pub open spec fn window(s: Seq<MessageView>, skip: int, limit: int) -> Seq<MessageView> {
    if skip >= s.len() {
        Seq::empty()
    } else {
        take(s.subrange(skip, s.len() as int), limit)
    }
}

/// The terms of a widened search.
fn search_terms(qc: &Vec<char>) -> (r: Vec<Vec<char>>)
    ensures
        word_views(r@) == seq![lower(qc@)] + words(qc@),
{
    let mut terms: Vec<Vec<char>> = Vec::new();
    terms.push(lower_chars(qc));
    let mut ws = split_words(qc);
    let ghost a = word_views(terms@);
    let ghost b = word_views(ws@);
    terms.append(&mut ws);
    assert(word_views(terms@) =~= a + b);
    assert(a =~= seq![lower(qc@)]);
    terms
}

impl SearchIndex {
    /// Searches subject and text: exact word matches first; while fewer than
    /// `limit` are found, widens by edit distance from 1 up to
    /// `MAX_DISTANCE`. Each round is ordered latest first; duplicates across
    /// rounds are kept.
    pub fn search_fuzzy(&self, query: &String, limit: usize) -> (r: Vec<Message>)
        ensures
            views(r@) == widened(self@.docs, query@, limit as int, MAX_DISTANCE as nat),
            r@.len() <= limit,
    {
        let lowered = to_lowercase(query.as_str());
        let qc = chars_of(lowered.as_str());
        let lq = lower_chars(&qc);
        let mut acc = take_first(self.ranked_hits(&Query::Exact(lq)), limit);
        let mut d: usize = 1;
        while d <= MAX_DISTANCE
            invariant
                1 <= d <= MAX_DISTANCE + 1,
                qc@ == lowercase_of(query@),
                views(acc@) == widened(self@.docs, query@, limit as int, (d - 1) as nat),
                acc@.len() <= limit,
            decreases MAX_DISTANCE + 1 - d,
        {
            proof {
                lemma_widening_monotone(self@.docs, query@, limit as int, (d - 1) as nat, d as nat);
            }
            if acc.len() < limit {
                let terms = search_terms(&qc);
                assert(word_views(terms@) == query_terms(query@));
                let hits = self.ranked_hits(&Query::Fuzzy(terms, d));
                let mut more = take_first(hits, limit - acc.len());
                let ghost a = views(acc@);
                let ghost b = views(more@);
                acc.append(&mut more);
                assert(views(acc@) =~= a + b);
            }
            d = d + 1;
        }
        acc
    }

    /// The committed messages with a word equal to the query in lower case,
    /// latest first, at most `num` of them.
    pub fn search(&self, text: &String, num: usize) -> (r: Vec<Message>)
        ensures
            views(r@) == widened(self@.docs, text@, num as int, 0),
    {
        let lowered = to_lowercase(text.as_str());
        let qc = chars_of(lowered.as_str());
        let lq = lower_chars(&qc);
        take_first(self.ranked_hits(&Query::Exact(lq)), num)
    }

    /// The committed messages latest first, from position `skip` on, at most
    /// `limit` of them.
    pub fn page(&self, skip: usize, limit: usize) -> (r: Vec<Message>)
        ensures
            views(r@) == window(ranked(self@.docs, Probe::All), skip as int, limit as int),
    {
        let all = self.ranked_hits(&Query::All);
        if skip >= all.len() {
            let e: Vec<Message> = Vec::new();
            assert(views(e@) =~= Seq::<MessageView>::empty());
            return e;
        }
        let ghost av = views(all@);
        let mut all = all;
        let tail = all.split_off(skip);
        assert(views(tail@) =~= av.subrange(skip as int, av.len() as int));
        take_first(tail, limit)
    }
}

/// An empty full-text index.
pub fn default_searcher() -> (r: SearchIndex)
    ensures
        r@.docs.len() == 0,
        r@.pending.len() == 0,
        !r@.writer,
{
    SearchIndex::new()
}

} // verus!

use vstd::prelude::*;
use crate::index::{apply_ops, OpView};
use crate::message::{parsed_view, Message, MessageError, MessageView};
use crate::mime::mail_parts;
use crate::sizing::{mem_for, size, workers_for, Sizing};
use crate::store::{MessageStore, MessageStoreError};

verus! {

/// Where an indexing run stands.
#[derive(PartialEq, Eq, Structural, Clone, Copy, Debug)]
pub enum Phase {
    Idle,
    Sizing,
    Streaming,
    Committing,
    Failed,
}

/// One raw message of the spool, with whether it is unseen and the spool's
/// own identifier for it.
pub struct SpoolEntry {
    pub raw: Vec<u8>,
    pub is_new: bool,
    pub entry_id: String,
}

impl SpoolEntry {
    pub open spec fn entry_view(self) -> (Seq<u8>, bool, Seq<char>) {
        (self.raw@, self.is_new, self.entry_id@)
    }
}

/// The state of one indexing run.
pub struct IndexRun {
    pub phase: Phase,
    /// How many entries were enumerated.
    pub total: usize,
    /// How many entries were handled so far.
    pub processed: usize,
    /// How many entries were written to the stores so far.
    pub committed: usize,
    pub sizing: Sizing,
    /// Unseen entries written so far, to promote once the writes are
    /// committed.
    pub promote: Vec<String>,
}

/// The texts of a list.
pub open spec fn id_views(v: Seq<String>) -> Seq<Seq<char>> {
    v.map_values(|s: String| s@)
}

impl IndexRun {
    /// A run that has not started.
    pub fn new() -> (r: IndexRun)
        ensures
            r.phase == Phase::Idle,
            r.total == 0,
            r.processed == 0,
            r.committed == 0,
            r.promote@.len() == 0,
    {
        IndexRun {
            phase: Phase::Idle,
            total: 0,
            processed: 0,
            committed: 0,
            sizing: Sizing { workers: 1, mem_per_worker: 0 },
            promote: Vec::new(),
        }
    }

    /// Sizes the run for `total` entries on a host with the given memory and
    /// processors.
    pub fn plan(&mut self, total: usize, available_memory_kib: Option<u64>, logical_cpus: usize)
        requires
            old(self).phase == Phase::Idle,
        ensures
            final(self).phase == Phase::Sizing,
            final(self).total == total,
            final(self).processed == 0,
            final(self).committed == 0,
            final(self).promote@.len() == 0,
            final(self).sizing.workers as int == workers_for(total as int, logical_cpus as int),
            final(self).sizing.mem_per_worker as int == mem_for(
                total as int,
                available_memory_kib,
                final(self).sizing.workers as int,
            ),
    {
        self.sizing = size(total, available_memory_kib, logical_cpus);
        self.total = total;
        self.processed = 0;
        self.committed = 0;
        self.promote = Vec::new();
        self.phase = Phase::Sizing;
    }

    /// Sizes the run for `total` entries on this host, whatever memory and
    /// processors it reports.
    pub fn plan_for_host(&mut self, total: usize)
        requires
            old(self).phase == Phase::Idle,
        ensures
            final(self).phase == Phase::Sizing,
            final(self).total == total,
            final(self).processed == 0,
            final(self).committed == 0,
            final(self).promote@.len() == 0,
            exists|cpus: int, mem: Option<u64>|
                1 <= cpus && final(self).sizing.workers as int == workers_for(total as int, cpus)
                    && final(self).sizing.mem_per_worker as int == mem_for(
                    total as int,
                    mem,
                    final(self).sizing.workers as int,
                ),
    {
        let cpus = crate::sizing::logical_cpus();
        let mem = crate::sizing::available_memory_kib();
        self.plan(total, mem, cpus);
        assert(1 <= cpus as int && self.sizing.workers as int == workers_for(total as int, cpus as int)
            && self.sizing.mem_per_worker as int == mem_for(total as int, mem, self.sizing.workers as int));
    }
}

/// What an indexing run reports.
pub struct IndexOutcome {
    /// How many entries were enumerated.
    pub count: usize,
    /// The unseen entries to promote, now that their messages are committed.
    pub promote: Vec<String>,
    pub sizing: Sizing,
}

/// Whether an entry's bytes parse into a message.
pub open spec fn parses(raw: Seq<u8>) -> bool {
    mail_parts(raw) is Some
}

/// The key-value contents after writing the messages of the entries that
/// parse, in order.
pub open spec fn stored_after(kv: Map<Seq<char>, MessageView>, es: Seq<(Seq<u8>, bool, Seq<char>)>) -> Map<
    Seq<char>,
    MessageView,
>
    decreases es.len(),
{
    if es.len() == 0 {
        kv
    } else {
        let before = stored_after(kv, es.drop_last());
        if parses(es.last().0) {
            before.insert(parsed_view(es.last().0).id, parsed_view(es.last().0))
        } else {
            before
        }
    }
}

/// The full-text edits for the entries that parse: each message replaces
/// any of its id.
pub open spec fn index_ops(es: Seq<(Seq<u8>, bool, Seq<char>)>) -> Seq<OpView>
    decreases es.len(),
{
    if es.len() == 0 {
        Seq::empty()
    } else if parses(es.last().0) {
        index_ops(es.drop_last()).push(OpView::Delete(parsed_view(es.last().0).id)).push(
            OpView::Add(parsed_view(es.last().0)),
        )
    } else {
        index_ops(es.drop_last())
    }
}

/// The unseen entries whose messages parse, in order: those to promote.
pub open spec fn promoted(es: Seq<(Seq<u8>, bool, Seq<char>)>) -> Seq<Seq<char>>
    decreases es.len(),
{
    if es.len() == 0 {
        Seq::empty()
    } else if parses(es.last().0) && es.last().1 {
        promoted(es.drop_last()).push(es.last().2)
    } else {
        promoted(es.drop_last())
    }
}

proof fn lemma_promoted_from(es: Seq<(Seq<u8>, bool, Seq<char>)>, x: Seq<char>)
    requires
        promoted(es).contains(x),
    ensures
        exists|j: int| 0 <= j < es.len() && #[trigger] es[j].2 == x,
    decreases es.len(),
{
    let p = es.drop_last();
    if parses(es.last().0) && es.last().1 && x == es.last().2 {
        assert(es[es.len() - 1].2 == x);
    } else {
        if parses(es.last().0) && es.last().1 {
            let i = choose|i: int| 0 <= i < promoted(es).len() && promoted(es)[i] == x;
            assert(promoted(p)[i] == x);
        }
        lemma_promoted_from(p, x);
        let j = choose|j: int| 0 <= j < p.len() && #[trigger] p[j].2 == x;
        assert(es[j].2 == x);
    }
}

/// When spool entry ids are distinct, an entry is promoted exactly when it is
/// unseen and its bytes parse: a malformed entry never is.
pub proof fn lemma_promotion(es: Seq<(Seq<u8>, bool, Seq<char>)>, k: int)
    requires
        0 <= k < es.len(),
        forall|j: int| 0 <= j < es.len() && j != k ==> #[trigger] es[j].2 != es[k].2,
    ensures
        promoted(es).contains(es[k].2) <==> (parses(es[k].0) && es[k].1),
    decreases es.len(),
{
    let p = es.drop_last();
    let x = es[k].2;
    if k == es.len() - 1 {
        if promoted(p).contains(x) {
            lemma_promoted_from(p, x);
            let j = choose|j: int| 0 <= j < p.len() && #[trigger] p[j].2 == x;
            assert(es[j].2 == x);
        }
        if parses(es.last().0) && es.last().1 {
            assert(promoted(es)[promoted(p).len() as int] == x);
        } else {
            assert(promoted(es) == promoted(p));
        }
    } else {
        assert forall|j: int| 0 <= j < p.len() && j != k implies #[trigger] p[j].2 != p[k].2 by {
            assert(es[j].2 != es[k].2);
        }
        lemma_promotion(p, k);
        assert(p[k] == es[k]);
        if parses(es.last().0) && es.last().1 {
            let q = promoted(es);
            assert(es[es.len() - 1].2 != x);
            if q.contains(x) {
                let i = choose|i: int| 0 <= i < q.len() && q[i] == x;
                assert(i < promoted(p).len());
                assert(promoted(p)[i] == x);
            }
            if promoted(p).contains(x) {
                let i = choose|i: int| 0 <= i < promoted(p).len() && promoted(p)[i] == x;
                assert(q[i] == x);
            }
        }
    }
}

impl MessageStore {
    /// Takes the full-text writer for a sized run: the run streams, or fails
    /// when the writer is taken.
    pub fn open_run(&mut self, run: &mut IndexRun) -> (r: Result<(), MessageStoreError>)
        requires
            old(self).wf(),
            old(run).phase == Phase::Sizing,
        ensures
            final(self).wf(),
            r is Ok <==> !old(self).searcher@.writer,
            final(run).phase == if r is Ok {
                Phase::Streaming
            } else {
                Phase::Failed
            },
            final(self).searcher@.writer,
            final(self).searcher@.docs == old(self).searcher@.docs,
            final(self).searcher@.pending == old(self).searcher@.pending,
            final(self).kv@ == old(self).kv@,
            final(run).total == old(run).total,
            final(run).processed == old(run).processed,
            final(run).committed == old(run).committed,
            final(run).promote@ == old(run).promote@,
            final(run).sizing == old(run).sizing,
    {
        let r = self.start_indexing_process();
        if r.is_ok() {
            run.phase = Phase::Streaming;
        } else {
            run.phase = Phase::Failed;
        }
        r
    }

    /// Handles one parsed entry of a streaming run: a message is written to
    /// both stores and, when its entry is unseen, queued for promotion; a
    /// parse failure is skipped.
    pub fn ingest(
        &mut self,
        run: &mut IndexRun,
        parsed: Result<Message, MessageError>,
        is_new: bool,
        entry_id: String,
    )
        requires
            old(self).wf(),
            old(self).searcher@.writer,
            old(run).phase == Phase::Streaming,
            old(run).processed < old(run).total,
            old(run).committed <= old(run).processed,
        ensures
            final(self).wf(),
            final(self).searcher@.writer,
            final(self).searcher@.docs == old(self).searcher@.docs,
            final(run).phase == Phase::Streaming,
            final(run).total == old(run).total,
            final(run).sizing == old(run).sizing,
            final(run).processed == old(run).processed + 1,
            final(run).committed <= final(run).processed,
            match parsed {
                Ok(m) => {
                    &&& final(self).kv@ == old(self).kv@.insert(m@.id, m@)
                    &&& final(self).searcher@.pending == old(self).searcher@.pending.push(
                        OpView::Delete(m@.id),
                    ).push(OpView::Add(m@))
                    &&& final(run).committed == old(run).committed + 1
                    &&& final(run).promote@.map_values(|s: String| s@) == if is_new {
                        old(run).promote@.map_values(|s: String| s@).push(entry_id@)
                    } else {
                        old(run).promote@.map_values(|s: String| s@)
                    }
                },
                Err(_) => {
                    &&& final(self).kv@ == old(self).kv@
                    &&& final(self).searcher@.pending == old(self).searcher@.pending
                    &&& final(run).committed == old(run).committed
                    &&& final(run).promote@ == old(run).promote@
                },
            },
    {
        run.processed = run.processed + 1;
        match parsed {
            Ok(m) => {
                let _ = self.add_message(m);
                run.committed = run.committed + 1;
                if is_new {
                    let ghost before = run.promote@.map_values(|s: String| s@);
                    run.promote.push(entry_id);
                    assert(run.promote@.map_values(|s: String| s@) =~= before.push(entry_id@));
                }
            },
            Err(_) => {},
        }
    }

    /// Ends a streaming run: commits the full-text writes and hands out the
    /// entries to promote, which is safe only now.
    pub fn close_run(&mut self, run: &mut IndexRun) -> (r: Result<Vec<String>, MessageStoreError>)
        requires
            old(self).wf(),
            old(self).searcher@.writer,
            old(run).phase == Phase::Streaming,
        ensures
            final(self).wf(),
            r is Ok,
            r matches Ok(p) && p@ == old(run).promote@,
            final(run).phase == Phase::Idle,
            final(run).promote@.len() == 0,
            final(run).total == old(run).total,
            final(run).processed == old(run).processed,
            final(run).committed == old(run).committed,
            final(self).searcher@.docs == apply_ops(old(self).searcher@.docs, old(self).searcher@.pending),
            !final(self).searcher@.writer,
            final(self).kv@ == old(self).kv@,
    {
        run.phase = Phase::Committing;
        let _ = self.finish_indexing_process();
        run.phase = Phase::Idle;
        let mut p: Vec<String> = Vec::new();
        std::mem::swap(&mut p, &mut run.promote);
        Ok(p)
    }

    /// Indexes spool entries: sizes the run by their number, parses each,
    /// writes the messages through to both stores, commits, and returns how
    /// many entries there were with the unseen ones to promote. Entries that
    /// do not parse are skipped and never promoted.
    pub fn index_entries(
        &mut self,
        entries: Vec<SpoolEntry>,
        available_memory_kib: Option<u64>,
        logical_cpus: usize,
    ) -> (r: Result<IndexOutcome, MessageStoreError>)
        requires
            old(self).wf(),
        ensures
            final(self).wf(),
            r is Ok <==> !old(self).searcher@.writer,
            r is Err ==> final(self).kv@ == old(self).kv@ && final(self).searcher@.docs
                == old(self).searcher@.docs,
            r matches Ok(o) ==> {
                let es = entries@.map_values(|e: SpoolEntry| e.entry_view());
                &&& o.count == entries@.len()
                &&& id_views(o.promote@) == promoted(es)
                &&& final(self).kv@ == stored_after(old(self).kv@, es)
                &&& final(self).searcher@.docs == apply_ops(old(self).searcher@.docs, index_ops(es))
                &&& !final(self).searcher@.writer
                &&& o.sizing.workers as int == workers_for(entries@.len() as int, logical_cpus as int)
                &&& o.sizing.mem_per_worker as int == mem_for(
                    entries@.len() as int,
                    available_memory_kib,
                    o.sizing.workers as int,
                )
            },
    {
        let ghost es = entries@.map_values(|e: SpoolEntry| e.entry_view());
        let total = entries.len();
        let mut run = IndexRun::new();
        run.plan(total, available_memory_kib, logical_cpus);
        if self.open_run(&mut run).is_err() {
            return Err(MessageStoreError::EngineUnavailable("The index writer is in use".to_owned()));
        }
        let ghost kv0 = self.kv@;
        let ghost docs0 = self.searcher@.docs;
        assert(self.searcher@.pending.len() == 0);
        let mut rest = entries;
        let mut i: usize = 0;
        while rest.len() > 0
            invariant
                self.wf(),
                self.searcher@.writer,
                self.searcher@.docs == docs0,
                i + rest@.len() == total,
                total == es.len(),
                rest@.map_values(|e: SpoolEntry| e.entry_view()) == es.subrange(i as int, total as int),
                run.phase == Phase::Streaming,
                run.total == total,
                run.processed == i,
                run.committed <= run.processed,
                run.sizing.workers as int == workers_for(total as int, logical_cpus as int),
                run.sizing.mem_per_worker as int == mem_for(
                    total as int,
                    available_memory_kib,
                    run.sizing.workers as int,
                ),
                self.kv@ == stored_after(kv0, es.subrange(0, i as int)),
                self.searcher@.pending == index_ops(es.subrange(0, i as int)),
                id_views(run.promote@) == promoted(es.subrange(0, i as int)),
            decreases rest@.len(),
        {
            let ghost rv = rest@;
            let e = rest.remove(0);
            assert(rest@ =~= rv.subrange(1, rv.len() as int));
            assert(e.entry_view() == es[i as int]) by {
                assert(rv.map_values(|e: SpoolEntry| e.entry_view())[0] == es.subrange(i as int, total as int)[0]);
            }
            assert(es.subrange(0, i + 1).drop_last() =~= es.subrange(0, i as int));
            assert(es.subrange(0, i + 1).last() == es[i as int]);
            let parsed = Message::from_data(e.raw);
            self.ingest(&mut run, parsed, e.is_new, e.entry_id);
            assert forall|k: int| 0 <= k < rest@.len() implies #[trigger] rest@[k].entry_view() == es[i + 1
                + k] by {
                assert(rest@[k] == rv[k + 1]);
                assert(rv.map_values(|e: SpoolEntry| e.entry_view())[k + 1] == es.subrange(i as int, total as int)[k
                    + 1]);
            }
            i = i + 1;
            assert(rest@.map_values(|e: SpoolEntry| e.entry_view()) =~= es.subrange(i as int, total as int));
        }
        assert(es.subrange(0, total as int) =~= es);
        let sizing = run.sizing;
        let promote = match self.close_run(&mut run) {
            Ok(p) => p,
            Err(e) => {
                return Err(e);
            },
        };
        Ok(IndexOutcome { count: total, promote, sizing })
    }
}

} // verus!

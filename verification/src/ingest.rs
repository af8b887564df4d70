//! Storing a document in the knowledge base: the sequence of database writes that
//! replaces any earlier document from the same source, and a model of the database that
//! shows what the sequence leaves behind.
use vstd::prelude::*;
use crate::kb::check_chunks;

verus! {

/// One database write of an ingestion.
#[derive(Clone, Copy, Debug, PartialEq, Eq)]
pub enum KbOp {
    /// Remove the document with this id; its chunks go with it (foreign-key cascade).
    RemoveDoc(i64),
    /// Insert the document row; the database gives it a fresh id.
    InsertDoc,
    /// Insert input chunk `chunk` as row `seq` of the document just inserted, with its
    /// embedding or without one.
    InsertChunk { seq: i64, chunk: usize, embedding: bool },
    /// Record the number of chunks of the document just inserted.
    SetChunks(i64),
}

/// The writes that store `n_chunks` chunks for a source: the document `old` found for
/// the same kind and path (if any) is removed, the new document inserted, chunk `i`
/// stored as row `i` (with an embedding exactly when `embedded`), and the count recorded.
pub open spec fn plan_spec(n_chunks: nat, old: Option<i64>, embedded: bool) -> Seq<KbOp> {
    let removal = match old {
        Some(d) => seq![KbOp::RemoveDoc(d)],
        None => seq![],
    };
    removal + seq![KbOp::InsertDoc] + chunk_ops(n_chunks, embedded) + seq![KbOp::SetChunks(n_chunks as i64)]
}

/// The chunk writes for chunks `0..n`.
pub open spec fn chunk_ops(n: nat, embedded: bool) -> Seq<KbOp> {
    Seq::new(n, |i: int| KbOp::InsertChunk { seq: i as i64, chunk: i as usize, embedding: embedded })
}

/// The writes that store a document of `n_chunks` chunks, given the id `old` of the
/// document already stored for the same kind and source path (if any) and whether
/// chunks get embeddings. A document without chunks is refused.
pub fn ingest_plan(n_chunks: usize, old: Option<i64>, embedded: bool) -> (r: Result<Vec<KbOp>, String>)
    requires
        n_chunks <= i64::MAX,
    ensures
        n_chunks == 0 <==> r is Err,
        r matches Err(e) ==> e@ == "没有可入库的文本内容"@,
        r matches Ok(ops) ==> ops@ == plan_spec(n_chunks as nat, old, embedded),
{
    match check_chunks(n_chunks) {
        Err(e) => {
            return Err(e);
        },
        Ok(()) => {},
    }
    let mut ops: Vec<KbOp> = Vec::new();
    match old {
        Some(d) => ops.push(KbOp::RemoveDoc(d)),
        None => {},
    }
    ops.push(KbOp::InsertDoc);
    let ghost pre = ops@;
    let mut i: usize = 0;
    while i < n_chunks
        invariant
            i <= n_chunks,
            n_chunks <= i64::MAX,
            ops@ == pre + chunk_ops(i as nat, embedded),
        decreases n_chunks - i,
    {
        ops.push(KbOp::InsertChunk { seq: i as i64, chunk: i, embedding: embedded });
        i = i + 1;
        assert(chunk_ops(i as nat, embedded) =~= chunk_ops((i - 1) as nat, embedded).push(
            KbOp::InsertChunk { seq: (i - 1) as i64, chunk: (i - 1) as usize, embedding: embedded },
        ));
    }
    ops.push(KbOp::SetChunks(n_chunks as i64));
    assert(ops@ =~= plan_spec(n_chunks as nat, old, embedded));
    Ok(ops)
}

/// A stored document: its kind, its source path and its recorded chunk count.
pub struct DocRow {
    pub kind: Seq<char>,
    pub source: Seq<char>,
    pub n_chunks: int,
}

/// A stored chunk: the document it belongs to, its position, the input chunk it holds,
/// and whether it has an embedding.
pub struct ChunkRow {
    pub doc: int,
    pub seq: int,
    pub chunk: int,
    pub embedded: bool,
}

/// The knowledge base as the ingestion sees it: the documents by id, the chunk rows, the
/// id the next inserted document gets, and the document inserted last.
pub struct KbState {
    pub docs: Map<int, DocRow>,
    pub rows: Set<ChunkRow>,
    pub next_id: int,
    pub current: int,
}

/// Every document id lies below the next one, every chunk row belongs to a stored
/// document, and no two documents share a kind and a source path.
pub open spec fn kb_wf(s: KbState) -> bool {
    &&& forall|d: int| #[trigger] s.docs.dom().contains(d) ==> d < s.next_id
    &&& forall|r: ChunkRow| #[trigger] s.rows.contains(r) ==> s.docs.dom().contains(r.doc)
    &&& forall|d1: int, d2: int|
        #![trigger s.docs[d1], s.docs[d2]]
        s.docs.dom().contains(d1) && s.docs.dom().contains(d2) && s.docs[d1].kind == s.docs[d2].kind
            && s.docs[d1].source == s.docs[d2].source ==> d1 == d2
}

/// What a lookup of the document for `kind` and `source` may answer in state `s`: the id
/// of the stored document with that kind and path, or nothing when there is none.
pub open spec fn found_for(s: KbState, kind: Seq<char>, source: Seq<char>, old: Option<i64>) -> bool {
    match old {
        Some(d) => s.docs.dom().contains(d as int) && s.docs[d as int].kind == kind && s.docs[d as int].source
            == source,
        None => forall|d: int|
            #[trigger] s.docs.dom().contains(d) ==> !(s.docs[d].kind == kind && s.docs[d].source == source),
    }
}

/// The effect of one write, for a document of `kind` from `source`.
pub open spec fn apply_op(s: KbState, op: KbOp, kind: Seq<char>, source: Seq<char>) -> KbState {
    match op {
        KbOp::RemoveDoc(d) => KbState {
            docs: s.docs.remove(d as int),
            rows: s.rows.filter(|r: ChunkRow| r.doc != d as int),
            ..s
        },
        KbOp::InsertDoc => KbState {
            docs: s.docs.insert(s.next_id, DocRow { kind, source, n_chunks: 0 }),
            next_id: s.next_id + 1,
            current: s.next_id,
            ..s
        },
        KbOp::InsertChunk { seq, chunk, embedding } => KbState {
            rows: s.rows.insert(ChunkRow { doc: s.current, seq: seq as int, chunk: chunk as int, embedded: embedding }),
            ..s
        },
        KbOp::SetChunks(n) => KbState {
            docs: s.docs.insert(s.current, DocRow { n_chunks: n as int, ..s.docs[s.current] }),
            ..s
        },
    }
}

/// The state after a sequence of writes, in order.
pub open spec fn run_ops(s: KbState, ops: Seq<KbOp>, kind: Seq<char>, source: Seq<char>) -> KbState
    decreases ops.len(),
{
    if ops.len() == 0 {
        s
    } else {
        apply_op(run_ops(s, ops.drop_last(), kind, source), ops.last(), kind, source)
    }
}

proof fn lemma_run_concat(s: KbState, a: Seq<KbOp>, b: Seq<KbOp>, kind: Seq<char>, source: Seq<char>)
    ensures
        run_ops(s, a + b, kind, source) == run_ops(run_ops(s, a, kind, source), b, kind, source),
    decreases b.len(),
{
    if b.len() == 0 {
        assert(a + b =~= a);
    } else {
        assert((a + b).drop_last() =~= a + b.drop_last());
        lemma_run_concat(s, a, b.drop_last(), kind, source);
    }
}

/// What the chunk writes add: rows `0..n` of the current document, nothing else changed.
proof fn lemma_chunk_rows(s: KbState, n: nat, embedded: bool, kind: Seq<char>, source: Seq<char>)
    requires
        n <= i64::MAX,
        n <= usize::MAX,
    ensures
        ({
            let t = run_ops(s, chunk_ops(n, embedded), kind, source);
            &&& t.docs == s.docs
            &&& t.next_id == s.next_id
            &&& t.current == s.current
            &&& forall|r: ChunkRow|
                #[trigger] t.rows.contains(r) <==> (s.rows.contains(r) || (r.doc == s.current && 0 <= r.seq < n
                    && r.chunk == r.seq && r.embedded == embedded))
        }),
    decreases n,
{
    if n > 0 {
        let m = (n - 1) as nat;
        lemma_chunk_rows(s, m, embedded, kind, source);
        assert(chunk_ops(n, embedded).drop_last() =~= chunk_ops(m, embedded));
        let t = run_ops(s, chunk_ops(n, embedded), kind, source);
        let u = run_ops(s, chunk_ops(m, embedded), kind, source);
        assert forall|r: ChunkRow| #[trigger] t.rows.contains(r) <==> (s.rows.contains(r) || (r.doc == s.current
            && 0 <= r.seq < n && r.chunk == r.seq && r.embedded == embedded)) by {
            if r.doc == s.current && r.seq == m && r.chunk == r.seq && r.embedded == embedded {
                assert(r == ChunkRow { doc: u.current, seq: (m as i64) as int, chunk: (m as usize) as int, embedded });
            }
        }
    } else {
        assert(chunk_ops(n, embedded) =~= Seq::<KbOp>::empty());
    }
}

/// Storing a document replaces the one from the same source. Run on a well-formed
/// knowledge base with the lookup's answer `old`, the writes of `ingest_plan` for
/// `n_chunks > 0` chunks leave exactly one document of that kind and source path: the new
/// one, with id `s.next_id` and `n_chunks` recorded; the earlier document and all its
/// chunks are gone; the new document's chunks are rows `0..n_chunks`, row `i` holding
/// input chunk `i`, with an embedding exactly when `embedded`; every other document and
/// chunk stays as it was; and the knowledge base stays well formed.
pub proof fn law_ingest_replaces(
    s: KbState,
    kind: Seq<char>,
    source: Seq<char>,
    old: Option<i64>,
    n_chunks: nat,
    embedded: bool,
)
    requires
        kb_wf(s),
        found_for(s, kind, source, old),
        0 < n_chunks <= i64::MAX,
        n_chunks <= usize::MAX,
    ensures
        ({
            let t = run_ops(s, plan_spec(n_chunks, old, embedded), kind, source);
            &&& kb_wf(t)
            &&& t.docs.dom().contains(s.next_id)
            &&& t.docs[s.next_id] == DocRow { kind, source, n_chunks: n_chunks as int }
            &&& forall|d: int|
                #[trigger] t.docs.dom().contains(d) && t.docs[d].kind == kind && t.docs[d].source == source ==> d
                    == s.next_id
            &&& forall|r: ChunkRow|
                r.doc == s.next_id ==> (#[trigger] t.rows.contains(r) <==> (0 <= r.seq < n_chunks && r.chunk
                    == r.seq && r.embedded == embedded))
            &&& old matches Some(o) ==> !t.docs.dom().contains(o as int) && forall|r: ChunkRow|
                #[trigger] t.rows.contains(r) ==> r.doc != o as int
            &&& forall|d: int|
                d != s.next_id && !(old matches Some(o) && d == o as int) ==> (#[trigger] t.docs.dom().contains(d)
                    == s.docs.dom().contains(d) && (s.docs.dom().contains(d) ==> t.docs[d] == s.docs[d]))
            &&& forall|r: ChunkRow|
                r.doc != s.next_id && !(old matches Some(o) && r.doc == o as int) ==> (#[trigger] t.rows.contains(r)
                    == s.rows.contains(r))
        }),
{
    let removal = match old {
        Some(d) => seq![KbOp::RemoveDoc(d)],
        None => seq![],
    };
    let ins = seq![KbOp::InsertDoc];
    let chunks = chunk_ops(n_chunks, embedded);
    let set = seq![KbOp::SetChunks(n_chunks as i64)];
    let plan = plan_spec(n_chunks, old, embedded);
    assert(plan =~= removal + ins + chunks + set);
    lemma_run_concat(s, removal + ins + chunks, set, kind, source);
    lemma_run_concat(s, removal + ins, chunks, kind, source);
    lemma_run_concat(s, removal, ins, kind, source);
    let s1 = run_ops(s, removal, kind, source);
    let s2 = run_ops(s1, ins, kind, source);
    let s3 = run_ops(s2, chunks, kind, source);
    let t = run_ops(s3, set, kind, source);
    assert(ins.drop_last() =~= Seq::<KbOp>::empty());
    assert(set.drop_last() =~= Seq::<KbOp>::empty());
    assert(run_ops(s3, Seq::<KbOp>::empty(), kind, source) == s3);
    assert(run_ops(s1, Seq::<KbOp>::empty(), kind, source) == s1);
    match old {
        Some(d) => {
            assert(removal.drop_last() =~= Seq::<KbOp>::empty());
            assert(run_ops(s, Seq::<KbOp>::empty(), kind, source) == s);
            assert(s1 == apply_op(s, KbOp::RemoveDoc(d), kind, source));
        },
        None => {
            assert(removal =~= Seq::<KbOp>::empty());
            assert(s1 == s);
        },
    }
    assert(s2 == apply_op(s1, KbOp::InsertDoc, kind, source));
    lemma_chunk_rows(s2, n_chunks, embedded, kind, source);
    assert(t == apply_op(s3, KbOp::SetChunks(n_chunks as i64), kind, source));
    // the new id is fresh and the removed document was the only one with this source
    assert(!s.docs.dom().contains(s.next_id));
    assert(forall|d: int| #[trigger] s1.docs.dom().contains(d) ==> s.docs.dom().contains(d) && s1.docs[d] == s.docs[d]);
    assert forall|d: int| #[trigger] t.docs.dom().contains(d) && t.docs[d].kind == kind && t.docs[d].source == source
        implies d == s.next_id by {
        if d != s.next_id {
            assert(s1.docs.dom().contains(d));
            match old {
                Some(o) => {
                    assert(s.docs.dom().contains(o as int));
                    assert(s.docs[d] == s1.docs[d]);
                    assert(d != o as int);
                },
                None => {
                    assert(s.docs.dom().contains(d));
                },
            }
        }
    }
    assert forall|r: ChunkRow| #[trigger] t.rows.contains(r) implies t.docs.dom().contains(r.doc) by {
        if !(r.doc == s2.current) {
            assert(s2.rows.contains(r));
            assert(s1.rows.contains(r));
            assert(s1.docs.dom().contains(r.doc));
        }
    }
    assert forall|d1: int, d2: int|
        t.docs.dom().contains(d1) && t.docs.dom().contains(d2) && #[trigger] t.docs[d1].kind == #[trigger] t.docs[d2].kind
            && t.docs[d1].source == t.docs[d2].source implies d1 == d2 by {
        if d1 != s.next_id && d2 != s.next_id {
            assert(s1.docs.dom().contains(d1) && s1.docs.dom().contains(d2));
            assert(s.docs.dom().contains(d1) && s.docs.dom().contains(d2));
        } else if d1 == s.next_id && d2 != s.next_id {
            assert(t.docs[d2].kind == kind && t.docs[d2].source == source);
        } else if d2 == s.next_id && d1 != s.next_id {
            assert(t.docs[d1].kind == kind && t.docs[d1].source == source);
        }
    }
    assert(kb_wf(t));
}

} // verus!

//! Re-embedding every stored memory under a new model, in place.
//!
//! The content of a memory does not depend on the model, so a model can be
//! changed without losing anything: the content is read and embedded again,
//! the table of vectors is rebuilt at the new width, and every collection is
//! pinned to the new model. All of it is one transaction.
use super::sql::{param_views, SqlValue, SqlView, Statement};
use super::sqlite_memory_repository::Pin;
use super::sqlite_vector_index::{
    bytes_tell_the_vector, create_vec_table, insert_vector, vec_table_sql, vector_bytes,
};
use crate::memories::domain::embedder::EmbeddingTask;
use crate::shared::error::{RaError, Result};
use crate::text::{decimal, decimal_text, texts};
use vstd::prelude::*;
use vstd::string::StringExecFns;

verus! {

/// How many memories are embedded at once: one round trip to a remote
/// provider instead of one per memory.
pub const BATCH: usize = 128;

/// What a reindex did.
#[derive(Debug)]
pub struct ReindexReport {
    /// The pin as it was, if the store had one.
    pub from: Option<(String, usize)>,
    /// The pin as it now is.
    pub to: (String, usize),
    /// The memories embedded again.
    pub reindexed: usize,
}

/// A stored memory that has a vector.
#[derive(Debug)]
pub struct ReindexRow {
    pub id: String,
    pub user_id: String,
    pub content: String,
}

/// What comes next.
#[derive(Debug)]
pub enum ReindexStep {
    /// Begin a transaction.
    Begin,
    /// Drop the table of vectors, and create it at the new width.
    Rebuild { drop_old: Statement, create: Statement },
    /// Embed the contents of the memories behind the first `done` for a task.
    Embed { contents: Vec<String>, task: EmbeddingTask, done: usize },
    /// Write a batch's vectors, whereupon the first `done` memories have theirs.
    Write { statements: Vec<Statement>, done: usize },
    /// Every memory has its vector: pin the collections.
    Repin(Statement),
    /// Commit the transaction.
    Commit,
    /// Undo the transaction.
    RollBack { error: RaError },
    Done(Result<ReindexReport>),
}

/// The stages of a reindex.
pub enum ReindexStage {
    Begin,
    Rebuild,
    Embed(nat),
    Write(nat),
    Repin,
    Commit,
    RollBack,
    Reindexed,
    Failed,
}

impl ReindexStep {
    pub open spec fn stage(self) -> ReindexStage {
        match self {
            ReindexStep::Begin => ReindexStage::Begin,
            ReindexStep::Rebuild { .. } => ReindexStage::Rebuild,
            ReindexStep::Embed { done, .. } => ReindexStage::Embed(done as nat),
            ReindexStep::Write { done, .. } => ReindexStage::Write(done as nat),
            ReindexStep::Repin(_) => ReindexStage::Repin,
            ReindexStep::Commit => ReindexStage::Commit,
            ReindexStep::RollBack { .. } => ReindexStage::RollBack,
            ReindexStep::Done(Ok(_)) => ReindexStage::Reindexed,
            ReindexStep::Done(Err(_)) => ReindexStage::Failed,
        }
    }
}

/// The stage once the first `done` of `total` memories have their vectors.
pub open spec fn stage_at(total: nat, done: nat) -> ReindexStage {
    if done < total {
        ReindexStage::Embed(done)
    } else {
        ReindexStage::Repin
    }
}

/// The stage that follows one that went well or did not, with `total`
/// memories.
pub open spec fn next_stage(total: nat, stage: ReindexStage, ok: bool) -> ReindexStage {
    match stage {
        ReindexStage::Begin => if ok {
            ReindexStage::Rebuild
        } else {
            ReindexStage::Failed
        },
        ReindexStage::Rebuild => if ok {
            stage_at(total, 0)
        } else {
            ReindexStage::RollBack
        },
        ReindexStage::Embed(done) => if ok {
            ReindexStage::Write(batch_end(total, done))
        } else {
            ReindexStage::RollBack
        },
        ReindexStage::Write(done) => if ok {
            stage_at(total, done)
        } else {
            ReindexStage::RollBack
        },
        ReindexStage::Repin => if ok {
            ReindexStage::Commit
        } else {
            ReindexStage::RollBack
        },
        ReindexStage::Commit => if ok {
            ReindexStage::Reindexed
        } else {
            ReindexStage::RollBack
        },
        ReindexStage::RollBack => ReindexStage::Failed,
        ReindexStage::Reindexed => ReindexStage::Reindexed,
        ReindexStage::Failed => ReindexStage::Failed,
    }
}

/// Where the batch that starts at `start` ends.
pub open spec fn batch_end(total: nat, start: nat) -> nat {
    if start + BATCH <= total {
        start + BATCH as nat
    } else {
        total
    }
}

/// The rows of the batch that starts at `start`.
pub open spec fn batch(rows: Seq<ReindexRow>, start: nat) -> Seq<ReindexRow> {
    rows.subrange(start as int, batch_end(rows.len(), start) as int)
}

pub open spec fn contents(rows: Seq<ReindexRow>) -> Seq<Seq<char>> {
    rows.map_values(|r: ReindexRow| r.content@)
}

/// `statement` writes `vector` for `row`.
pub open spec fn writes_vector(statement: Statement, row: ReindexRow, vector: Seq<u32>) -> bool {
    statement.is(
        "INSERT INTO vec_memories (memory_id, user_id, embedding) VALUES (?1, ?2, ?3)"@,
        seq![
            SqlView::Text(row.id@),
            SqlView::Text(row.user_id@),
            SqlView::Blob(vector_bytes(vector)),
        ],
    )
}

pub open spec fn count_complaint(vectors: nat, memories: nat) -> Seq<char> {
    "embedder returned "@ + decimal(vectors) + " vectors for "@ + decimal(memories) + " memories"@
}

/// The reindexer, for the model that the store is moved to.
#[derive(Debug)]
pub struct SqliteReindexer {
    pub model: String,
    pub dimensions: usize,
}

impl SqliteReindexer {
    pub fn new(model: &str, dimensions: usize) -> (reindexer: SqliteReindexer)
        ensures
            reindexer.model@ == model@,
            reindexer.dimensions == dimensions,
    {
        SqliteReindexer { model: model.to_owned(), dimensions }
    }

    /// Reads the pin as it stands. The collections share one model, so one
    /// row stands for all.
    pub fn read_pin(&self) -> (statement: Statement)
        ensures
            statement.is(
                "SELECT embedding_model, dimensions FROM collections LIMIT 1"@,
                Seq::empty(),
            ),
    {
        let statement = Statement {
            sql: "SELECT embedding_model, dimensions FROM collections LIMIT 1".to_owned(),
            params: Vec::new(),
        };
        assert(param_views(statement.params@) =~= Seq::empty());
        statement
    }

    /// Reads everything that has a vector: what is deleted lost its own, what
    /// is superseded keeps it.
    pub fn read_rows(&self) -> (statement: Statement)
        ensures
            statement.is(
                "SELECT id, user_id, content FROM memories WHERE deleted_at IS NULL"@,
                Seq::empty(),
            ),
    {
        let statement = Statement {
            sql: "SELECT id, user_id, content FROM memories WHERE deleted_at IS NULL".to_owned(),
            params: Vec::new(),
        };
        assert(param_views(statement.params@) =~= Seq::empty());
        statement
    }

    /// Nothing is written outside the transaction that comes first.
    pub fn begin(&self) -> (step: ReindexStep)
        ensures
            step is Begin,
    {
        ReindexStep::Begin
    }

    /// The table of vectors is rebuilt at the new width. It is dropped first:
    /// creating it where it is absent would keep the old width.
    pub fn begun(&self, reply: Result<()>) -> (step: ReindexStep)
        ensures
            forall|total: nat|
                step.stage() == #[trigger] next_stage(total, ReindexStage::Begin, reply is Ok),
            match reply {
                Ok(_) => step matches ReindexStep::Rebuild { drop_old, create } && drop_old.is(
                    "DROP TABLE IF EXISTS vec_memories;"@,
                    Seq::empty(),
                ) && create.is(vec_table_sql(self.dimensions), Seq::empty()),
                Err(error) => step == ReindexStep::Done(Err(error)),
            },
    {
        match reply {
            Ok(_) => {
                let drop_old = Statement {
                    sql: "DROP TABLE IF EXISTS vec_memories;".to_owned(),
                    params: Vec::new(),
                };
                assert(param_views(drop_old.params@) =~= Seq::empty());
                ReindexStep::Rebuild { drop_old, create: create_vec_table(self.dimensions) }
            },
            Err(error) => ReindexStep::Done(Err(error)),
        }
    }

    /// Once the table is there, the memories get their vectors.
    pub fn rebuilt(&self, rows: &Vec<ReindexRow>, reply: Result<()>) -> (step: ReindexStep)
        ensures
            step.stage() == next_stage(rows@.len(), ReindexStage::Rebuild, reply is Ok),
            match reply {
                Ok(_) => self.is_next(step, rows@, 0),
                Err(error) => step == (ReindexStep::RollBack { error }),
            },
    {
        match reply {
            Ok(_) => self.next(rows, 0),
            Err(error) => ReindexStep::RollBack { error },
        }
    }

    /// `step` is what to do once the first `done` memories have their vectors.
    pub open spec fn is_next(self, step: ReindexStep, rows: Seq<ReindexRow>, done: nat) -> bool {
        match step {
            ReindexStep::Embed { contents: list, task, done: from } => done < rows.len() && from
                == done && texts(list@) == contents(batch(rows, done)) && task is Document,
            ReindexStep::Repin(s) => done >= rows.len() && s.is(
                "UPDATE collections SET embedding_model = ?1, dimensions = ?2"@,
                seq![SqlView::Text(self.model@), SqlView::Integer(self.dimensions as i64)],
            ),
            _ => false,
        }
    }

    fn next(&self, rows: &Vec<ReindexRow>, done: usize) -> (step: ReindexStep)
        ensures
            self.is_next(step, rows@, done as nat),
    {
        if done >= rows.len() {
            return ReindexStep::Repin(self.repin());
        }
        let end: usize = end_of_batch(rows.len(), done);
        let mut list: Vec<String> = Vec::new();
        let mut i: usize = done;
        while i < end
            invariant
                done <= i <= end <= rows@.len(),
                list@.len() == i - done,
                forall|j: int|
                    0 <= j < i - done ==> (#[trigger] list@[j])@ == rows@[done + j].content@,
            decreases end - i,
        {
            list.push(rows[i].content.clone());
            i += 1;
        }
        assert(texts(list@) =~= contents(batch(rows@, done as nat)));
        ReindexStep::Embed { contents: list, task: EmbeddingTask::Document, done }
    }

    fn repin(&self) -> (statement: Statement)
        ensures
            statement.is(
                "UPDATE collections SET embedding_model = ?1, dimensions = ?2"@,
                seq![SqlView::Text(self.model@), SqlView::Integer(self.dimensions as i64)],
            ),
    {
        let mut params: Vec<SqlValue> = Vec::new();
        params.push(SqlValue::Text(self.model.clone()));
        params.push(SqlValue::Integer(self.dimensions as i64));
        let statement = Statement {
            sql: "UPDATE collections SET embedding_model = ?1, dimensions = ?2".to_owned(),
            params,
        };
        assert(param_views(statement.params@) =~= seq![
            SqlView::Text(self.model@),
            SqlView::Integer(self.dimensions as i64),
        ]);
        statement
    }

    /// A batch's vectors are written, one for each memory of it. Another number
    /// of vectors undoes everything.
    pub fn embedded(
        &self,
        rows: &Vec<ReindexRow>,
        done: usize,
        reply: Result<Vec<Vec<u32>>>,
    ) -> (step: ReindexStep)
        requires
            done < rows@.len(),
        ensures
            step.stage() == next_stage(
                rows@.len(),
                ReindexStage::Embed(done as nat),
                reply matches Ok(vectors) && vectors@.len() == batch(rows@, done as nat).len(),
            ),
            match reply {
                Err(error) => step == (ReindexStep::RollBack { error }),
                Ok(vectors) => match step {
                    ReindexStep::Write { statements, .. } => statements@.len() == vectors@.len()
                        && forall|i: int|
                        0 <= i < statements@.len() ==> writes_vector(
                            #[trigger] statements@[i],
                            rows@[done + i],
                            vectors@[i]@,
                        ),
                    ReindexStep::RollBack { error } => error is Internal && error.text()
                        == count_complaint(vectors@.len(), batch(rows@, done as nat).len()),
                    _ => false,
                },
            },
    {
        let vectors = match reply {
            Ok(vectors) => vectors,
            Err(error) => return ReindexStep::RollBack { error },
        };
        let end: usize = end_of_batch(rows.len(), done);
        let size: usize = end - done;
        if vectors.len() != size {
            let mut sentence = "embedder returned ".to_owned();
            sentence.append(decimal_text(vectors.len() as u64).as_str());
            sentence.append(" vectors for ");
            sentence.append(decimal_text(size as u64).as_str());
            sentence.append(" memories");
            return ReindexStep::RollBack { error: RaError::Internal(sentence) };
        }
        let mut statements: Vec<Statement> = Vec::new();
        let mut i: usize = 0;
        while i < size
            invariant
                0 <= i <= size,
                size == vectors@.len(),
                done + size == end,
                end <= rows@.len(),
                statements@.len() == i,
                forall|j: int|
                    0 <= j < i ==> writes_vector(
                        #[trigger] statements@[j],
                        rows@[done + j],
                        vectors@[j]@,
                    ),
            decreases size - i,
        {
            let row = &rows[done + i];
            statements.push(insert_vector(row.id.clone(), row.user_id.clone(), &vectors[i]));
            i += 1;
        }
        ReindexStep::Write { statements, done: end }
    }

    /// Once a batch is written, the next one follows.
    pub fn written(&self, rows: &Vec<ReindexRow>, done: usize, reply: Result<()>) -> (step:
        ReindexStep)
        ensures
            step.stage() == next_stage(
                rows@.len(),
                ReindexStage::Write(done as nat),
                reply is Ok,
            ),
            match reply {
                Ok(_) => self.is_next(step, rows@, done as nat),
                Err(error) => step == (ReindexStep::RollBack { error }),
            },
    {
        match reply {
            Ok(_) => self.next(rows, done),
            Err(error) => ReindexStep::RollBack { error },
        }
    }

    /// Once the collections are pinned, everything is committed at once.
    pub fn repinned(&self, reply: Result<()>) -> (step: ReindexStep)
        ensures
            forall|total: nat|
                step.stage() == #[trigger] next_stage(total, ReindexStage::Repin, reply is Ok),
            match reply {
                Ok(_) => step is Commit,
                Err(error) => step == (ReindexStep::RollBack { error }),
            },
    {
        match reply {
            Ok(_) => ReindexStep::Commit,
            Err(error) => ReindexStep::RollBack { error },
        }
    }

    /// What was done, once it is committed.
    pub fn committed(&self, rows: &Vec<ReindexRow>, from: Option<Pin>, reply: Result<()>) -> (step:
        ReindexStep)
        ensures
            step.stage() == next_stage(rows@.len(), ReindexStage::Commit, reply is Ok),
            match reply {
                Ok(_) => step matches ReindexStep::Done(Ok(report)) && self.is_report(
                    report,
                    from,
                    rows@.len(),
                ),
                Err(error) => step == (ReindexStep::RollBack { error }),
            },
    {
        match reply {
            Ok(_) => ReindexStep::Done(Ok(self.report(from, rows.len()))),
            Err(error) => ReindexStep::RollBack { error },
        }
    }

    /// What failed is told, once everything is undone.
    pub fn rolled_back(&self, error: RaError) -> (step: ReindexStep)
        ensures
            forall|total: nat, ok: bool|
                step.stage() == #[trigger] next_stage(total, ReindexStage::RollBack, ok),
            step == ReindexStep::Done(Err(error)),
    {
        ReindexStep::Done(Err(error))
    }

    /// `report` tells the pin as it was, the pin as it is, and the number of
    /// memories.
    pub open spec fn is_report(self, report: ReindexReport, from: Option<Pin>, reindexed: nat) -> bool {
        &&& match from {
            Some(pin) => report.from == Some((pin.model, pin.dimensions as usize)),
            None => report.from is None,
        }
        &&& report.to.0@ == self.model@
        &&& report.to.1 == self.dimensions
        &&& report.reindexed == reindexed
    }

    fn report(&self, from: Option<Pin>, reindexed: usize) -> (report: ReindexReport)
        ensures
            self.is_report(report, from, reindexed as nat),
    {
        ReindexReport {
            from: match from {
                Some(pin) => Some((pin.model, pin.dimensions as usize)),
                None => None,
            },
            to: (self.model.clone(), self.dimensions),
            reindexed,
        }
    }
}

fn end_of_batch(total: usize, start: usize) -> (end: usize)
    requires
        start <= total,
    ensures
        end == batch_end(total as nat, start as nat),
{
    if total - start >= BATCH {
        start + BATCH
    } else {
        total
    }
}

/// The batches are the rows, each once and in order: what is left from one
/// batch on is that batch and what is left from the next. A batch is never
/// empty and never larger than the limit.
pub proof fn batches_cover_the_rows(rows: Seq<ReindexRow>, start: nat)
    requires
        start < rows.len(),
    ensures
        0 < batch(rows, start).len() <= BATCH,
        rows.skip(start as int) == batch(rows, start) + rows.skip(
            batch_end(rows.len(), start) as int,
        ),
{
    assert(rows.skip(start as int) =~= batch(rows, start) + rows.skip(
        batch_end(rows.len(), start) as int,
    ));
}

/// A stored vector.
pub struct VectorView {
    pub memory_id: Seq<char>,
    pub user_id: Seq<char>,
    pub embedding: Seq<u8>,
}

/// A store, as far as a reindex has to do with it: the memories, the table of
/// vectors with its width, and the pins of the collections.
pub struct StoreView {
    pub memories: Seq<ReindexRow>,
    pub width: usize,
    pub vectors: Seq<VectorView>,
    pub pins: Seq<(Seq<char>, usize)>,
}

/// A reindex under way: the store as it is committed, the store as the
/// transaction sees it, and the vectors that are to be written next.
pub struct ReindexView {
    pub stage: ReindexStage,
    pub kept: StoreView,
    pub open: StoreView,
    pub waiting: Seq<VectorView>,
}

/// What came of a step, with the vectors that an embedding answered.
pub struct ReplyView {
    pub ok: bool,
    pub vectors: Seq<Seq<u32>>,
}

/// Whether a step went well: an embedding only with a vector for each memory.
pub open spec fn went_well(rows: Seq<ReindexRow>, stage: ReindexStage, reply: ReplyView) -> bool {
    reply.ok && (stage matches ReindexStage::Embed(done) ==> reply.vectors.len() == batch(
        rows,
        done,
    ).len())
}

/// A reindex one step on.
pub open spec fn advanced(
    reindexer: SqliteReindexer,
    rows: Seq<ReindexRow>,
    run: ReindexView,
    reply: ReplyView,
) -> ReindexView {
    let ok = went_well(rows, run.stage, reply);
    let after = ReindexView { stage: next_stage(rows.len(), run.stage, ok), ..run };
    match run.stage {
        ReindexStage::RollBack => ReindexView { open: run.kept, ..after },
        _ => if !ok {
            after
        } else {
            match run.stage {
                ReindexStage::Begin => ReindexView { open: run.kept, ..after },
                ReindexStage::Rebuild => ReindexView {
                    open: StoreView {
                        width: reindexer.dimensions,
                        vectors: Seq::empty(),
                        ..run.open
                    },
                    ..after
                },
                ReindexStage::Embed(done) => ReindexView {
                    waiting: Seq::new(
                        batch(rows, done).len(),
                        |i: int|
                            VectorView {
                                memory_id: rows[done + i].id@,
                                user_id: rows[done + i].user_id@,
                                embedding: vector_bytes(reply.vectors[i]),
                            },
                    ),
                    ..after
                },
                ReindexStage::Write(_) => ReindexView {
                    open: StoreView { vectors: run.open.vectors + run.waiting, ..run.open },
                    ..after
                },
                ReindexStage::Repin => ReindexView {
                    open: StoreView {
                        pins: run.open.pins.map_values(
                            |pin: (Seq<char>, usize)| (reindexer.model@, reindexer.dimensions),
                        ),
                        ..run.open
                    },
                    ..after
                },
                ReindexStage::Commit => ReindexView { kept: run.open, ..after },
                _ => after,
            }
        },
    }
}

/// A reindex of a store, after these replies.
pub open spec fn after_replies(
    reindexer: SqliteReindexer,
    rows: Seq<ReindexRow>,
    store: StoreView,
    replies: Seq<ReplyView>,
) -> ReindexView
    decreases replies.len(),
{
    if replies.len() == 0 {
        ReindexView {
            stage: ReindexStage::Begin,
            kept: store,
            open: store,
            waiting: Seq::empty(),
        }
    } else {
        advanced(
            reindexer,
            rows,
            after_replies(reindexer, rows, store, replies.drop_last()),
            replies.last(),
        )
    }
}

/// The vectors are those of the memories from `from` on, one for each.
pub open spec fn are_vectors_of(
    vectors: Seq<VectorView>,
    rows: Seq<ReindexRow>,
    from: nat,
) -> bool {
    from + vectors.len() <= rows.len() && forall|i: int|
        0 <= i < vectors.len() ==> (#[trigger] vectors[i]).memory_id == rows[from + i].id@
            && vectors[i].user_id == rows[from + i].user_id@
}

/// What holds of a reindex at every stage.
spec fn holds(
    reindexer: SqliteReindexer,
    rows: Seq<ReindexRow>,
    store: StoreView,
    run: ReindexView,
) -> bool {
    let rebuilt = run.open.width == reindexer.dimensions && are_vectors_of(
        run.open.vectors,
        rows,
        0,
    );
    &&& run.stage !is Reindexed ==> run.kept == store
    &&& match run.stage {
        ReindexStage::Rebuild => run.open == store,
        ReindexStage::Embed(done) => rebuilt && run.open.pins == store.pins && run.open.memories == store.memories && done < rows.len()
            && run.open.vectors.len() == done,
        ReindexStage::Write(done) => rebuilt && run.open.pins == store.pins && run.open.memories == store.memories && are_vectors_of(
            run.waiting,
            rows,
            run.open.vectors.len(),
        ) && run.open.vectors.len() + run.waiting.len() == done <= rows.len(),
        ReindexStage::Repin => rebuilt && run.open.pins == store.pins && run.open.memories == store.memories && run.open.vectors.len()
            == rows.len(),
        ReindexStage::Commit => is_moved(reindexer, rows, store, run.open),
        ReindexStage::Reindexed => is_moved(reindexer, rows, store, run.kept),
        _ => true,
    }
}

/// `after` is the store moved to the reindexer's model: the memories are as
/// they were, the table of vectors has the new width and exactly one vector for each memory, and every
/// collection is pinned to the new model.
pub open spec fn is_moved(
    reindexer: SqliteReindexer,
    rows: Seq<ReindexRow>,
    store: StoreView,
    after: StoreView,
) -> bool {
    &&& after.memories == store.memories
    &&& after.width == reindexer.dimensions
    &&& after.vectors.len() == rows.len()
    &&& are_vectors_of(after.vectors, rows, 0)
    &&& after.pins.len() == store.pins.len()
    &&& forall|i: int|
        0 <= i < after.pins.len() ==> #[trigger] after.pins[i] == (
            reindexer.model@,
            reindexer.dimensions,
        )
}

proof fn lemma_holds(
    reindexer: SqliteReindexer,
    rows: Seq<ReindexRow>,
    store: StoreView,
    replies: Seq<ReplyView>,
)
    ensures
        holds(reindexer, rows, store, after_replies(reindexer, rows, store, replies)),
    decreases replies.len(),
{
    if replies.len() > 0 {
        let run = after_replies(reindexer, rows, store, replies.drop_last());
        let after = after_replies(reindexer, rows, store, replies);
        lemma_holds(reindexer, rows, store, replies.drop_last());
        match run.stage {
            ReindexStage::Write(_) => {
                assert forall|i: int| 0 <= i < after.open.vectors.len() && went_well(
                    rows,
                    run.stage,
                    replies.last(),
                ) implies (#[trigger] after.open.vectors[i]).memory_id == rows[i].id@
                    && after.open.vectors[i].user_id == rows[i].user_id@ by {
                    let before = run.open.vectors.len();
                    if i < before {
                        assert(after.open.vectors[i] == run.open.vectors[i]);
                    } else {
                        assert(after.open.vectors[i] == run.waiting[i - before]);
                    }
                }
            },
            _ => {},
        }
    }
}

/// Whatever fails, and wherever: until a reindex is committed, the store is as
/// it was. Once it is, every memory has exactly one vector, at the new width,
/// and every collection is pinned to the new model.
pub proof fn reindexing_is_all_or_nothing(
    reindexer: SqliteReindexer,
    rows: Seq<ReindexRow>,
    store: StoreView,
    replies: Seq<ReplyView>,
)
    ensures
        ({
            let run = after_replies(reindexer, rows, store, replies);
            &&& run.stage !is Reindexed ==> run.kept == store
            &&& run.stage is Reindexed ==> is_moved(reindexer, rows, store, run.kept)
        }),
{
    lemma_holds(reindexer, rows, store, replies);
}

/// The stages that a reindex went through, and whether each went well.
pub open spec fn is_run(total: nat, run: Seq<(ReindexStage, bool)>) -> bool {
    &&& run.len() > 0
    &&& run[0].0 is Begin
    &&& forall|i: int|
        #![trigger run[i]]
        0 < i < run.len() ==> run[i].0 == next_stage(total, run[i - 1].0, run[i - 1].1)
}

/// Whether a stage writes to the store.
pub open spec fn writes(stage: ReindexStage) -> bool {
    stage is Rebuild || stage is Write || stage is Repin
}

/// Whether a stage lies inside the transaction.
pub open spec fn is_inside(stage: ReindexStage) -> bool {
    writes(stage) || stage is Embed
}

/// What is written is written after the transaction began and before it is
/// committed or undone, and whatever fails inside it undoes it.
pub proof fn writes_lie_in_one_transaction(total: nat, run: Seq<(ReindexStage, bool)>, i: int)
    requires
        is_run(total, run),
        0 <= i < run.len(),
    ensures
        writes(run[i].0) ==> i > 0 && run[0].1 && forall|j: int|
            0 < j < i ==> is_inside((#[trigger] run[j]).0) && run[j].1,
        i + 1 < run.len() && !run[i].1 && (is_inside(run[i].0) || run[i].0 is Commit)
            ==> run[i + 1].0 is RollBack,
{
    lemma_inside(total, run, i);
    if i + 1 < run.len() {
        assert(run[i + 1].0 == next_stage(total, run[i].0, run[i].1));
    }
}

proof fn lemma_inside(total: nat, run: Seq<(ReindexStage, bool)>, i: int)
    requires
        is_run(total, run),
        0 <= i < run.len(),
    ensures
        run[i].0 is Begin ==> i == 0,
        is_inside(run[i].0) ==> i > 0 && run[0].1 && forall|j: int|
            0 < j < i ==> is_inside((#[trigger] run[j]).0) && run[j].1,
    decreases i,
{
    if i > 0 {
        lemma_inside(total, run, i - 1);
        assert(run[i].0 == next_stage(total, run[i - 1].0, run[i - 1].1));
    }
}

/// A batch has as many rows as the limit, or all that are left; they are those
/// from where it starts, in order.
pub proof fn batches_are_full_but_for_the_last(rows: Seq<ReindexRow>, start: nat, i: int)
    requires
        start < rows.len(),
        0 <= i < batch(rows, start).len(),
    ensures
        rows.len() - start >= BATCH ==> batch(rows, start).len() == BATCH,
        rows.len() - start < BATCH ==> batch(rows, start).len() == rows.len() - start,
        batch(rows, start)[i] == rows[start + i],
        contents(batch(rows, start)).len() == batch(rows, start).len(),
        contents(batch(rows, start))[i] == rows[start + i].content@,
{
}

/// What is written tells whose it is and what it is: one statement writes one
/// vector, for one memory of one user.
pub proof fn writes_tell_their_vector(
    statement: Statement,
    row: ReindexRow,
    other: ReindexRow,
    vector: Seq<u32>,
    another: Seq<u32>,
)
    requires
        writes_vector(statement, row, vector),
        writes_vector(statement, other, another),
    ensures
        vector == another,
        row.id@ == other.id@,
        row.user_id@ == other.user_id@,
{
    let params = param_views(statement.params@);
    let one = seq![
        SqlView::Text(row.id@),
        SqlView::Text(row.user_id@),
        SqlView::Blob(vector_bytes(vector)),
    ];
    let two = seq![
        SqlView::Text(other.id@),
        SqlView::Text(other.user_id@),
        SqlView::Blob(vector_bytes(another)),
    ];
    assert(one == params && two == params);
    assert(one[0] == two[0] && one[1] == two[1] && one[2] == two[2]);
    bytes_tell_the_vector(vector, another);
}

/// How many steps are left, if they go well.
spec fn steps_left(total: nat, stage: ReindexStage) -> int {
    match stage {
        ReindexStage::Begin => (2 * total + 4) as int,
        ReindexStage::Rebuild => (2 * total + 3) as int,
        ReindexStage::Embed(done) => 2 * (total - done) + 2,
        ReindexStage::Write(done) => 2 * (total - done) + 3,
        ReindexStage::Repin => 2,
        ReindexStage::Commit => 1,
        _ => 0,
    }
}

proof fn lemma_steps_left(total: nat, run: Seq<(ReindexStage, bool)>, i: int)
    requires
        is_run(total, run),
        0 <= i < run.len(),
        forall|j: int| 0 <= j < run.len() ==> (#[trigger] run[j]).1,
    ensures
        run[i].0 !is RollBack && run[i].0 !is Failed,
        run[i].0 matches ReindexStage::Embed(done) ==> done < total,
        run[i].0 matches ReindexStage::Write(done) ==> done <= total,
        run[i].0 is Reindexed || steps_left(total, run[i].0) <= 2 * total + 4 - i,
    decreases i,
{
    if i > 0 {
        lemma_steps_left(total, run, i - 1);
        assert(run[i].0 == next_stage(total, run[i - 1].0, run[i - 1].1));
        assert(run[i - 1].1);
    }
}

/// A reindex whose steps go well comes to its end, in two steps for each memory
/// and five more at most.
pub proof fn reindexing_that_goes_well_ends(total: nat, run: Seq<(ReindexStage, bool)>)
    requires
        is_run(total, run),
        forall|j: int| 0 <= j < run.len() ==> (#[trigger] run[j]).1,
        run.len() >= 2 * total + 5,
    ensures
        run.last().0 is Reindexed,
{
    lemma_steps_left(total, run, run.len() - 1);
}

/// A reindex that came to its end had no step that failed.
pub proof fn nothing_failed_before_the_end(total: nat, run: Seq<(ReindexStage, bool)>, i: int)
    requires
        is_run(total, run),
        0 <= i < run.len(),
    ensures
        run[i].0 is Reindexed ==> forall|j: int|
            0 <= j < i ==> (#[trigger] run[j]).1 || run[j].0 is Reindexed,
        run[i].0 !is Reindexed && run[i].0 !is RollBack && run[i].0 !is Failed ==> forall|j: int|
            0 <= j < i ==> (#[trigger] run[j]).1,
        run[i].0 !is Reindexed ==> forall|j: int|
            0 <= j < i ==> (#[trigger] run[j]).0 !is Reindexed,
    decreases i,
{
    if i > 0 {
        nothing_failed_before_the_end(total, run, i - 1);
        assert(run[i].0 == next_stage(total, run[i - 1].0, run[i - 1].1));
    }
}

/// A batch is embedded with the contents of its rows, in order, as documents;
/// once every row has its vector the pins are moved, and not before.
pub proof fn batches_are_embedded_in_order(
    reindexer: SqliteReindexer,
    step: ReindexStep,
    rows: Seq<ReindexRow>,
    done: nat,
    i: int,
)
    requires
        reindexer.is_next(step, rows, done),
    ensures
        step is Repin <==> done >= rows.len(),
        step is Embed <==> done < rows.len(),
        step matches ReindexStep::Embed { contents: list, task, .. } ==> task is Document && (0 <= i
            < list@.len() ==> list@[i]@ == rows[done + i].content@),
        step matches ReindexStep::Embed { contents: list, .. } ==> list@.len() == batch(
            rows,
            done,
        ).len(),
{
    if let ReindexStep::Embed { contents: list, .. } = step {
        assert(texts(list@).len() == list@.len());
        if 0 <= i < list@.len() {
            assert(texts(list@)[i] == list@[i]@);
            assert(contents(batch(rows, done))[i] == rows[done + i].content@);
        }
    }
}

/// A report tells where the store was moved from and to, and how many memories
/// were.
pub proof fn reports_tell_the_move(
    reindexer: SqliteReindexer,
    report: ReindexReport,
    from: Option<Pin>,
    reindexed: nat,
)
    requires
        reindexer.is_report(report, from, reindexed),
    ensures
        report.from is Some <==> from is Some,
        from matches Some(pin) ==> report.from == Some((pin.model, pin.dimensions as usize)),
        report.to.0@ == reindexer.model@ && report.to.1 == reindexer.dimensions,
        report.reindexed == reindexed,
{
}

} // verus!

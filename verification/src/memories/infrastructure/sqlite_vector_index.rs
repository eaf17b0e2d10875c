//! The semantic leg's rules: the table that vectors are kept in, the bytes
//! they are kept as, and the statements that read and write them.
//!
//! A vector is a list of single-precision numbers, here by their bit patterns.
use super::sql::{
    lemma_holds_at, lemma_scoped, owner_clause, owner_clauses_name_their_place, param_views, SqlValue,
    SqlView, Statement,
};
use crate::shared::error::{RaError, Result};
use crate::shared::ids::{uuid_complaint, uuid_of_text, MemoryId, UserId};
use crate::text::{debug_text, decimal, decimal_text, quote};
use vstd::prelude::*;
use vstd::string::StringExecFns;

verus! {

/// The table of vectors.
pub const VEC_TABLE: &'static str = "vec_memories";

/// The statement that creates the table of vectors, at a width fixed with it.
pub open spec fn vec_table_sql(dimensions: usize) -> Seq<char> {
    "CREATE VIRTUAL TABLE IF NOT EXISTS vec_memories USING vec0(memory_id TEXT PRIMARY KEY, user_id TEXT PARTITION KEY, embedding float["@
        + decimal(dimensions as nat) + "]);"@
}

/// The byte of a number at a place, the least significant first.
pub open spec fn byte_at(bits: u32, place: int) -> u8 {
    if place == 0 {
        (bits % 256) as u8
    } else if place == 1 {
        (bits / 256 % 256) as u8
    } else if place == 2 {
        (bits / 65_536 % 256) as u8
    } else {
        (bits / 16_777_216) as u8
    }
}

/// The bytes of a vector: four per number, little-endian.
pub open spec fn vector_bytes(embedding: Seq<u32>) -> Seq<u8> {
    Seq::new(4 * embedding.len(), |i: int| byte_at(embedding[i / 4], i % 4))
}

pub open spec fn width_complaint(width: nat, dimensions: usize) -> Seq<char> {
    "embedding has "@ + decimal(width) + " dimensions but the index expects "@ + decimal(
        dimensions as nat,
    )
}

pub open spec fn indexed_id_complaint(raw: Seq<char>) -> Seq<char> {
    "indexed memory id "@ + debug_text(raw) + " is not a uuid: "@ + uuid_complaint(raw)
}

/// Creates the table of vectors where it is absent.
pub fn create_vec_table(dimensions: usize) -> (statement: Statement)
    ensures
        statement.is(vec_table_sql(dimensions), Seq::empty()),
{
    let mut sql =
        "CREATE VIRTUAL TABLE IF NOT EXISTS vec_memories USING vec0(memory_id TEXT PRIMARY KEY, user_id TEXT PARTITION KEY, embedding float[".to_owned();
    sql.append(decimal_text(dimensions as u64).as_str());
    sql.append("]);");
    let statement = Statement { sql, params: Vec::new() };
    assert(param_views(statement.params@) =~= Seq::empty());
    statement
}

/// A vector as it is stored.
pub fn to_bytes(embedding: &Vec<u32>) -> (bytes: Vec<u8>)
    ensures
        bytes@ == vector_bytes(embedding@),
{
    let mut bytes: Vec<u8> = Vec::new();
    let mut i: usize = 0;
    while i < embedding.len()
        invariant
            0 <= i <= embedding@.len(),
            bytes@.len() == 4 * i,
            forall|j: int|
                0 <= j < bytes@.len() ==> #[trigger] bytes@[j] == byte_at(embedding@[j / 4], j % 4),
        decreases embedding@.len() - i,
    {
        let bits: u32 = embedding[i];
        let ghost before = bytes@;
        bytes.push((bits % 256) as u8);
        bytes.push((bits / 256 % 256) as u8);
        bytes.push((bits / 65_536 % 256) as u8);
        bytes.push((bits / 16_777_216) as u8);
        assert forall|j: int| 0 <= j < bytes@.len() implies #[trigger] bytes@[j] == byte_at(
            embedding@[j / 4],
            j % 4,
        ) by {
            if j < 4 * i {
                assert(bytes@[j] == before[j]);
            } else {
                assert(j / 4 == i);
                assert(j % 4 == j - 4 * i);
            }
        }
        i += 1;
    }
    assert(bytes@ =~= vector_bytes(embedding@));
    bytes
}

/// The semantic leg's rules, at one width.
#[derive(Debug, Clone, Copy)]
pub struct SqliteVectorIndex {
    pub dimensions: usize,
}

impl SqliteVectorIndex {
    /// The index, with the statement that creates its table.
    pub fn open(dimensions: usize) -> (opened: (SqliteVectorIndex, Statement))
        ensures
            opened.0.dimensions == dimensions,
            opened.1.is(vec_table_sql(dimensions), Seq::empty()),
    {
        (SqliteVectorIndex { dimensions }, create_vec_table(dimensions))
    }

    pub fn check_dimensions(&self, embedding: &Vec<u32>) -> (checked: Result<()>)
        ensures
            match checked {
                Ok(_) => embedding@.len() == self.dimensions,
                Err(e) => embedding@.len() != self.dimensions && e is Internal && e.text()
                    == width_complaint(embedding@.len(), self.dimensions),
            },
    {
        if embedding.len() == self.dimensions {
            return Ok(());
        }
        let mut sentence = "embedding has ".to_owned();
        sentence.append(decimal_text(embedding.len() as u64).as_str());
        sentence.append(" dimensions but the index expects ");
        sentence.append(decimal_text(self.dimensions as u64).as_str());
        Err(RaError::Internal(sentence))
    }

    /// Takes a memory's vector out, if it is the caller's.
    pub fn remove(&self, user: UserId, id: MemoryId) -> (statement: Statement)
        ensures
            statement.is_scoped_to(user),
            statement.is(
                "DELETE FROM vec_memories WHERE memory_id = ?1 AND user_id = ?2"@,
                seq![SqlView::Text(id.text()), SqlView::Text(user.text())],
            ),
    {
        let mut params: Vec<SqlValue> = Vec::new();
        params.push(SqlValue::Text(id.to_text()));
        params.push(SqlValue::Text(user.to_text()));
        let statement = Statement {
            sql: "DELETE FROM vec_memories WHERE memory_id = ?1 AND user_id = ?2".to_owned(),
            params,
        };
        assert(param_views(statement.params@) =~= seq![
            SqlView::Text(id.text()),
            SqlView::Text(user.text()),
        ]);
        proof {
            reveal_strlit("DELETE FROM vec_memories WHERE memory_id = ?1 AND user_id = ?2");
            reveal_strlit("user_id = ?2");
            assert(statement.sql@.subrange(50, 62) =~= "user_id = ?2"@);
            owner_clauses_name_their_place();
            lemma_holds_at(statement.sql@, owner_clause(1), 50);
            lemma_scoped(statement, user, 1);
        }
        statement
    }

    /// Puts a memory's vector in: the old one is taken out first, because the
    /// table has no way to replace a row.
    pub fn upsert(&self, user: UserId, id: MemoryId, embedding: &Vec<u32>) -> (statements: Result<
        (Statement, Statement),
    >)
        ensures
            match statements {
                Ok((out, put)) => embedding@.len() == self.dimensions && out.is_scoped_to(user) && out.is(
                    "DELETE FROM vec_memories WHERE memory_id = ?1 AND user_id = ?2"@,
                    seq![SqlView::Text(id.text()), SqlView::Text(user.text())],
                ) && put.is(
                    "INSERT INTO vec_memories (memory_id, user_id, embedding) VALUES (?1, ?2, ?3)"@,
                    seq![
                        SqlView::Text(id.text()),
                        SqlView::Text(user.text()),
                        SqlView::Blob(vector_bytes(embedding@)),
                    ],
                ),
                Err(e) => embedding@.len() != self.dimensions && e is Internal && e.text()
                    == width_complaint(embedding@.len(), self.dimensions),
            },
    {
        match self.check_dimensions(embedding) {
            Ok(_) => {},
            Err(e) => return Err(e),
        }
        let put = insert_vector(id.to_text(), user.to_text(), embedding);
        Ok((self.remove(user, id), put))
    }

    /// Looks for the caller's nearest vectors; nothing wanted, no statement.
    pub fn search(&self, user: UserId, embedding: &Vec<u32>, limit: usize) -> (statement: Result<
        Option<Statement>,
    >)
        ensures
            match statement {
                Ok(Some(s)) => embedding@.len() == self.dimensions && limit > 0 && s.is_scoped_to(user)
                    && s.is(
                    "SELECT memory_id FROM vec_memories WHERE embedding MATCH ?1 AND user_id = ?2 AND k = ?3 ORDER BY distance"@,
                    seq![
                        SqlView::Blob(vector_bytes(embedding@)),
                        SqlView::Text(user.text()),
                        SqlView::Integer(limit as i64),
                    ],
                ),
                Ok(None) => embedding@.len() == self.dimensions && limit == 0,
                Err(e) => embedding@.len() != self.dimensions && e is Internal && e.text()
                    == width_complaint(embedding@.len(), self.dimensions),
            },
    {
        match self.check_dimensions(embedding) {
            Ok(_) => {},
            Err(e) => return Err(e),
        }
        if limit == 0 {
            return Ok(None);
        }
        let mut params: Vec<SqlValue> = Vec::new();
        params.push(SqlValue::Blob(to_bytes(embedding)));
        params.push(SqlValue::Text(user.to_text()));
        params.push(SqlValue::Integer(limit as i64));
        let statement = Statement {
            sql:
                "SELECT memory_id FROM vec_memories WHERE embedding MATCH ?1 AND user_id = ?2 AND k = ?3 ORDER BY distance".to_owned(),
            params,
        };
        assert(param_views(statement.params@) =~= seq![
            SqlView::Blob(vector_bytes(embedding@)),
            SqlView::Text(user.text()),
            SqlView::Integer(limit as i64),
        ]);
        proof {
            reveal_strlit("SELECT memory_id FROM vec_memories WHERE embedding MATCH ?1 AND user_id = ?2 AND k = ?3 ORDER BY distance");
            reveal_strlit("user_id = ?2");
            assert(statement.sql@.subrange(64, 76) =~= "user_id = ?2"@);
            owner_clauses_name_their_place();
            lemma_holds_at(statement.sql@, owner_clause(1), 64);
            lemma_scoped(statement, user, 1);
        }
        Ok(Some(statement))
    }

    /// The memories of the rows found, nearest first; the first identifier
    /// that does not read as one is an error.
    pub fn found(&self, raws: &Vec<String>) -> (ids: Result<Vec<MemoryId>>)
        ensures
            match ids {
                Ok(list) => list@.len() == raws@.len() && forall|i: int|
                    0 <= i < raws@.len() ==> uuid_of_text((#[trigger] raws@[i])@) == Some(
                        list@[i].value,
                    ),
                Err(e) => e is Internal && exists|i: int|
                    0 <= i < raws@.len() && uuid_of_text((#[trigger] raws@[i])@) is None && (
                    forall|j: int|
                        0 <= j < i ==> uuid_of_text((#[trigger] raws@[j])@) is Some) && e.text()
                        == indexed_id_complaint(raws@[i]@),
            },
    {
        let mut list: Vec<MemoryId> = Vec::new();
        let mut i: usize = 0;
        while i < raws.len()
            invariant
                0 <= i <= raws@.len(),
                list@.len() == i,
                forall|j: int|
                    0 <= j < i ==> uuid_of_text((#[trigger] raws@[j])@) == Some(list@[j].value),
            decreases raws@.len() - i,
        {
            match MemoryId::parse(raws[i].as_str()) {
                Ok(id) => list.push(id),
                Err(reason) => {
                    let mut sentence = "indexed memory id ".to_owned();
                    sentence.append(quote(raws[i].as_str()).as_str());
                    sentence.append(" is not a uuid: ");
                    sentence.append(reason.as_str());
                    return Err(RaError::Internal(sentence));
                },
            }
            i += 1;
        }
        Ok(list)
    }
}

/// Puts a vector in under a memory and a user, by their texts.
pub fn insert_vector(memory_id: String, user_id: String, embedding: &Vec<u32>) -> (statement:
    Statement)
    ensures
        statement.is(
            "INSERT INTO vec_memories (memory_id, user_id, embedding) VALUES (?1, ?2, ?3)"@,
            seq![
                SqlView::Text(memory_id@),
                SqlView::Text(user_id@),
                SqlView::Blob(vector_bytes(embedding@)),
            ],
        ),
{
    let mut params: Vec<SqlValue> = Vec::new();
    params.push(SqlValue::Text(memory_id));
    params.push(SqlValue::Text(user_id));
    params.push(SqlValue::Blob(to_bytes(embedding)));
    let statement = Statement {
        sql:
            "INSERT INTO vec_memories (memory_id, user_id, embedding) VALUES (?1, ?2, ?3)".to_owned(),
        params,
    };
    assert(param_views(statement.params@) =~= seq![
        SqlView::Text(memory_id@),
        SqlView::Text(user_id@),
        SqlView::Blob(vector_bytes(embedding@)),
    ]);
    statement
}

/// The bytes tell a vector exactly: two vectors with the same bytes are the
/// same.
pub proof fn bytes_tell_the_vector(a: Seq<u32>, b: Seq<u32>)
    requires
        vector_bytes(a) == vector_bytes(b),
    ensures
        a == b,
{
    assert(vector_bytes(a).len() == 4 * a.len());
    assert(vector_bytes(b).len() == 4 * b.len());
    assert forall|i: int| 0 <= i < a.len() implies a[i] == b[i] by {
        lemma_number(a, i);
        lemma_number(b, i);
    }
    assert(a =~= b);
}

proof fn lemma_number(v: Seq<u32>, i: int)
    requires
        0 <= i < v.len(),
    ensures
        v[i] == vector_bytes(v)[4 * i] + 256 * vector_bytes(v)[4 * i + 1] + 65_536 * vector_bytes(
            v,
        )[4 * i + 2] + 16_777_216 * vector_bytes(v)[4 * i + 3],
{
    let bytes = vector_bytes(v);
    assert((4 * i) / 4 == i && (4 * i) % 4 == 0);
    assert((4 * i + 1) / 4 == i && (4 * i + 1) % 4 == 1);
    assert((4 * i + 2) / 4 == i && (4 * i + 2) % 4 == 2);
    assert((4 * i + 3) / 4 == i && (4 * i + 3) % 4 == 3);
    let n = v[i];
    assert(n / 16_777_216 < 256);
    assert(n == n % 256 + 256 * (n / 256 % 256) + 65_536 * (n / 65_536 % 256) + 16_777_216 * (n
        / 16_777_216)) by {
        assert(n / 65_536 == (n / 256) / 256);
        assert(n / 16_777_216 == (n / 65_536) / 256);
    }
}

/// A vector is written as four bytes for each number, the least significant
/// first, number after number.
pub proof fn numbers_are_written_least_byte_first(v: Seq<u32>, i: int)
    requires
        0 <= i < v.len(),
    ensures
        vector_bytes(v).len() == 4 * v.len(),
        v[i] == vector_bytes(v)[4 * i] + 256 * vector_bytes(v)[4 * i + 1] + 65_536 * vector_bytes(
            v,
        )[4 * i + 2] + 16_777_216 * vector_bytes(v)[4 * i + 3],
{
    lemma_number(v, i);
}

} // verus!

//! The full-text index over the text of the chunks, kept by SQLite's FTS5.
//! How it ranks is its own business: nothing here depends on it.

use crate::error::EngineError;
use vstd::prelude::*;

verus! {

/// `sqlite::Connection`, carried through without a look inside.
#[verifier::external_type_specification]
#[verifier::external_body]
pub struct ExConnection(sqlite::Connection);

/// `sqlite::Statement`, carried through without a look inside.
#[verifier::external_type_specification]
#[verifier::external_body]
pub struct ExStatement<'l>(sqlite::Statement<'l>);

/// `sqlite::Error`, carried through without a look inside.
#[verifier::external_type_specification]
#[verifier::external_body]
pub struct ExError(sqlite::Error);

/// `sqlite::open`: a connection to the database at `path`, or the error that
/// SQLite gave.
#[verifier::external_body]
fn open(path: &str) -> (r: Result<sqlite::Connection, sqlite::Error>) {
    sqlite::open(path)
}

/// `Connection::execute`: runs the statement and drops any rows it gives.
/// Nothing is claimed of what it does to the database.
#[verifier::external_body]
fn execute(db: &sqlite::Connection, sql: &str) -> (r: Result<(), sqlite::Error>) {
    db.execute(sql)
}

/// `Connection::prepare`: compiles the statement.
#[verifier::external_body]
fn prepare<'l>(db: &'l sqlite::Connection, sql: &str) -> (r: Result<
    sqlite::Statement<'l>,
    sqlite::Error,
>) {
    db.prepare(sql)
}

/// `Statement::bind` with a text: binds it to the parameter at `index`,
/// counted from one.
#[verifier::external_body]
fn bind_text(statement: &mut sqlite::Statement<'_>, index: usize, value: &str) -> (r: Result<
    (),
    sqlite::Error,
>) {
    statement.bind((index, value))
}

/// `Statement::bind` with an integer: binds it to the parameter at `index`,
/// counted from one.
#[verifier::external_body]
fn bind_integer(statement: &mut sqlite::Statement<'_>, index: usize, value: i64) -> (r: Result<
    (),
    sqlite::Error,
>) {
    statement.bind((index, value))
}

/// `Statement::next`: advances the statement; `true` when a row is there to
/// be read, `false` when the statement is done.
#[verifier::external_body]
fn step(statement: &mut sqlite::Statement<'_>) -> (r: Result<bool, sqlite::Error>) {
    match statement.next() {
        Ok(sqlite::State::Row) => Ok(true),
        Ok(sqlite::State::Done) => Ok(false),
        Err(e) => Err(e),
    }
}

/// `Statement::read` of a text: the column at `column`, counted from zero,
/// of the row that the statement stands at.
#[verifier::external_body]
fn read_text(statement: &sqlite::Statement<'_>, column: usize) -> (r: Result<
    String,
    sqlite::Error,
>) {
    statement.read::<String, usize>(column)
}

/// The bound of a search as SQLite takes it.
fn as_row_limit(limit: usize) -> (n: i64)
    ensures
        n == if limit <= i64::MAX {
            limit as int
        } else {
            i64::MAX as int
        },
{
    let wide: u64 = limit as u64;
    if wide <= 0x7fff_ffff_ffff_ffff {
        wide as i64
    } else {
        0x7fff_ffff_ffff_ffff
    }
}

/// An inverted index over the text of chunks, keyed by chunk id.
///
/// Beside the connection the index keeps its own account of what it has
/// been asked to hold and has acknowledged: the entries. The account follows
/// the calls and their outcomes; what SQLite does with them is outside the
/// proof.
pub struct FullTextIndex {
    db: sqlite::Connection,
    acknowledged: Ghost<Map<Seq<char>, Seq<char>>>,
    saved: Ghost<Option<Map<Seq<char>, Seq<char>>>>,
    doubt: Ghost<bool>,
}

impl FullTextIndex {
    /// The acknowledged entries: for each chunk id the text last ingested
    /// for it and not removed since.
    pub closed spec fn entries(&self) -> Map<Seq<char>, Seq<char>> {
        self.acknowledged@
    }

    /// The entries as they were when the open group of changes began; `None`
    /// when no group is open.
    pub closed spec fn saved_entries(&self) -> Option<Map<Seq<char>, Seq<char>>> {
        self.saved@
    }

    /// A group of changes is open.
    pub open spec fn in_transaction(&self) -> bool {
        self.saved_entries() is Some
    }

    /// A group of changes could be neither finished nor given up: the
    /// account may no longer say what the index holds.
    pub closed spec fn in_doubt(&self) -> bool {
        self.doubt@
    }

    /// A new, empty index.
    pub fn new() -> (r: Result<FullTextIndex, EngineError>)
        ensures
            match r {
                Ok(index) => index.entries() == Map::<Seq<char>, Seq<char>>::empty()
                    && !index.in_transaction() && !index.in_doubt(),
                Err(e) => e == EngineError::Index,
            },
    {
        let db = match open(":memory:") {
            Ok(db) => db,
            Err(_) => {
                return Err(EngineError::Index);
            },
        };
        match execute(
            &db,
            "CREATE VIRTUAL TABLE chunks_fts USING fts5(chunk_id UNINDEXED, content)",
        ) {
            Ok(()) => Ok(
                FullTextIndex {
                    db,
                    acknowledged: Ghost(Map::empty()),
                    saved: Ghost(None),
                    doubt: Ghost(false),
                },
            ),
            Err(_) => Err(EngineError::Index),
        }
    }

    fn run(&self, sql: &str) -> (r: Result<(), EngineError>)
        ensures
            r matches Err(e) ==> e == EngineError::Index,
    {
        match execute(&self.db, sql) {
            Ok(()) => Ok(()),
            Err(_) => Err(EngineError::Index),
        }
    }

    /// Starts a group of changes that take effect together or not at all.
    pub fn begin(&mut self) -> (r: Result<(), EngineError>)
        ensures
            final(self).entries() == old(self).entries(),
            final(self).in_doubt() == old(self).in_doubt(),
            match r {
                Ok(()) => final(self).saved_entries() == Some(old(self).entries()),
                Err(e) => e == EngineError::Index && final(self).saved_entries() == old(self).saved_entries(),
            },
    {
        let r = self.run("BEGIN");
        if r.is_ok() {
            self.saved = Ghost(Some(self.acknowledged@));
        }
        r
    }

    /// Makes the changes since [`begin`](Self::begin) take effect.
    pub fn commit(&mut self) -> (r: Result<(), EngineError>)
        ensures
            final(self).entries() == old(self).entries(),
            final(self).in_doubt() == old(self).in_doubt(),
            match r {
                Ok(()) => !final(self).in_transaction(),
                Err(e) => e == EngineError::Index && final(self).saved_entries() == old(self).saved_entries(),
            },
    {
        let r = self.run("COMMIT");
        if r.is_ok() {
            self.saved = Ghost(None);
        }
        r
    }

    /// Gives up the changes since [`begin`](Self::begin): the entries are
    /// again what they were then. Where that fails the index is in doubt
    /// from then on.
    pub fn rollback(&mut self) -> (r: Result<(), EngineError>)
        ensures
            match r {
                Ok(()) => !final(self).in_transaction() && final(self).in_doubt() == old(self).in_doubt() && final(self).entries() == match old(self).saved_entries() {
                    Some(before) => before,
                    None => old(self).entries(),
                },
                Err(e) => e == EngineError::Index && final(self).in_doubt() && final(self).entries() == old(self).entries() && final(self).saved_entries() == old(self).saved_entries(),
            },
    {
        let r = self.run("ROLLBACK");
        if r.is_ok() {
            proof {
                match self.saved@ {
                    Some(before) => {
                        self.acknowledged@ = before;
                    },
                    None => {},
                }
            }
            self.saved = Ghost(None);
        } else {
            self.doubt = Ghost(true);
        }
        r
    }

    /// Takes the text of the chunk out of the index.
    pub fn remove(&mut self, chunk_id: &str) -> (r: Result<(), EngineError>)
        ensures
            final(self).saved_entries() == old(self).saved_entries(),
            final(self).in_doubt() == old(self).in_doubt(),
            match r {
                Ok(()) => final(self).entries() == old(self).entries().remove(chunk_id@),
                Err(e) => e == EngineError::Index && final(self).entries() == old(self).entries(),
            },
    {
        let mut statement = match prepare(&self.db, "DELETE FROM chunks_fts WHERE chunk_id = ?") {
            Ok(s) => s,
            Err(_) => {
                return Err(EngineError::Index);
            },
        };
        if bind_text(&mut statement, 1, chunk_id).is_err() {
            return Err(EngineError::Index);
        }
        match step(&mut statement) {
            Ok(_) => {
                self.acknowledged = Ghost(self.acknowledged@.remove(chunk_id@));
                Ok(())
            },
            Err(_) => Err(EngineError::Index),
        }
    }

    fn insert(&mut self, chunk_id: &str, content: &str) -> (r: Result<(), EngineError>)
        ensures
            final(self).saved_entries() == old(self).saved_entries(),
            final(self).in_doubt() == old(self).in_doubt(),
            match r {
                Ok(()) => final(self).entries() == old(self).entries().insert(
                    chunk_id@,
                    content@,
                ),
                Err(e) => e == EngineError::Index && final(self).entries() == old(self).entries(),
            },
    {
        let mut statement = match prepare(
            &self.db,
            "INSERT INTO chunks_fts (chunk_id, content) VALUES (?, ?)",
        ) {
            Ok(s) => s,
            Err(_) => {
                return Err(EngineError::Index);
            },
        };
        if bind_text(&mut statement, 1, chunk_id).is_err() {
            return Err(EngineError::Index);
        }
        if bind_text(&mut statement, 2, content).is_err() {
            return Err(EngineError::Index);
        }
        match step(&mut statement) {
            Ok(_) => {
                self.acknowledged = Ghost(self.acknowledged@.insert(chunk_id@, content@));
                Ok(())
            },
            Err(_) => Err(EngineError::Index),
        }
    }

    /// Makes `content` the searchable text of the chunk, in the place of
    /// any text the chunk had. Where that fails the chunk has its former
    /// text or none.
    pub fn ingest(&mut self, chunk_id: &str, content: &str) -> (r: Result<(), EngineError>)
        ensures
            final(self).saved_entries() == old(self).saved_entries(),
            final(self).in_doubt() == old(self).in_doubt(),
            match r {
                Ok(()) => final(self).entries() == old(self).entries().insert(
                    chunk_id@,
                    content@,
                ),
                Err(e) => e == EngineError::Index && (final(self).entries() == old(self).entries() || final(self).entries() == old(self).entries().remove(chunk_id@)),
            },
    {
        match self.remove(chunk_id) {
            Ok(()) => {},
            Err(e) => {
                return Err(e);
            },
        }
        let r = self.insert(chunk_id, content);
        proof {
            assert(old(self).entries().remove(chunk_id@).insert(chunk_id@, content@) =~= old(self).entries().insert(chunk_id@, content@));
        }
        r
    }

    /// The ids of at most `limit` chunks that match the expression, best
    /// first as the index ranks them. An empty expression matches nothing
    /// and does not reach the index.
    pub fn search(&self, expression: &str, limit: usize) -> (r: Result<Vec<String>, EngineError>)
        ensures
            r matches Ok(ids) ==> ids.len() <= limit,
            expression@.len() == 0 ==> (r matches Ok(ids) && ids.len() == 0),
            r matches Err(e) ==> e == EngineError::Index,
    {
        let mut ids: Vec<String> = Vec::new();
        if expression.is_empty() {
            return Ok(ids);
        }
        let mut statement = match prepare(
            &self.db,
            "SELECT chunk_id FROM chunks_fts WHERE chunks_fts MATCH ? ORDER BY rank LIMIT ?",
        ) {
            Ok(s) => s,
            Err(_) => {
                return Err(EngineError::Index);
            },
        };
        if bind_text(&mut statement, 1, expression).is_err() {
            return Err(EngineError::Index);
        }
        if bind_integer(&mut statement, 2, as_row_limit(limit)).is_err() {
            return Err(EngineError::Index);
        }
        while ids.len() < limit
            invariant
                ids.len() <= limit,
                expression@.len() != 0,
            decreases limit - ids.len(),
        {
            match step(&mut statement) {
                Ok(true) => {},
                Ok(false) => {
                    return Ok(ids);
                },
                Err(_) => {
                    return Err(EngineError::Index);
                },
            }
            match read_text(&statement, 0) {
                Ok(id) => {
                    ids.push(id);
                },
                Err(_) => {
                    return Err(EngineError::Index);
                },
            }
        }
        Ok(ids)
    }
}

} // verus!

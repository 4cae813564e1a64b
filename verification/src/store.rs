//! The Storage Gateway: a wrapper around one durable SQLite connection
//! holding the append-only `pings` table. The table's contents are modelled
//! as the sequence of rows in insertion order; every access goes through
//! this type, and the read path's ordering and windowing are verified here.
use vstd::prelude::*;
use vstd::seq_lib::group_to_multiset_ensures;
use vstd::multiset::group_multiset_axioms;
use crate::measurement::{Measurement, MeasurementModel, models};

verus! {

/// Declares rusqlite's `Connection` so that it can stand in fields and
/// signatures; its values stay opaque and are only reached through the
/// trusted operations below.
#[verifier::external_type_specification]
#[verifier::external_body]
pub struct ExConnection(rusqlite::Connection);

/// The rows of the `pings` table reachable through a connection, in
/// insertion order. The library opens exactly one connection per store,
/// so the connection stands for the table itself.
pub uninterp spec fn db_log(c: rusqlite::Connection) -> Seq<MeasurementModel>;

/// A failure of the underlying row store.
#[derive(Debug)]
pub struct StorageError {
    pub message: String,
}

/// The serialized-access gateway to the durable row store.
///
/// The log model `db_log` reads the table through this one connection, so
/// it is sound only while the store is the database's sole user: open each
/// database once and route every access through that one `Store`.
///
/// The on-disk shape is `pings(host, t INTEGER, missing BOOLEAN,
/// latency_us INTEGER)`: latency is kept as integer microseconds, since
/// the verified code holds no floating point. A file whose `pings` table
/// has another shape — say a real-valued millisecond latency column — is
/// not readable through this gateway: every query on it takes the error
/// path.
pub struct Store {
    conn: rusqlite::Connection,
}

impl View for Store {
    type V = Seq<MeasurementModel>;

    closed spec fn view(&self) -> Seq<MeasurementModel> {
        db_log(self.conn)
    }
}

/// Rows ordered newest-first: timestamps non-increasing left to right.
pub open spec fn sorted_desc(s: Seq<MeasurementModel>) -> bool {
    forall|i: int, j: int|
        0 <= i <= j < s.len() ==> s[i].timestamp >= s[j].timestamp
}

/// The number of rows a query with this limit returns out of `total`.
pub open spec fn window_len(limit: Option<int>, total: int) -> int {
    match limit {
        Option::None => total,
        Option::Some(k) => if k < total {
            k
        } else {
            total
        },
    }
}

/// What a query must return: the first `window_len` rows of some
/// newest-first ordering of the whole log.
pub open spec fn query_post(
    log: Seq<MeasurementModel>,
    limit: Option<int>,
    out: Seq<MeasurementModel>,
) -> bool {
    &&& out.len() == window_len(limit, log.len() as int)
    &&& sorted_desc(out)
    &&& exists|s: Seq<MeasurementModel>|
        #![auto]
        s.to_multiset() == log.to_multiset() && sorted_desc(s) && out == s.take(
            window_len(limit, log.len() as int),
        )
}

impl Store {
    /// Relies on rusqlite's `Connection::open_in_memory` and
    /// `Connection::execute`: a fresh in-memory database holds no rows, and
    /// `CREATE TABLE IF NOT EXISTS` only creates the (empty) table.
    #[verifier::external_body]
    fn open_in_memory_raw() -> (r: Result<rusqlite::Connection, StorageError>)
        ensures
            r matches Ok(c) ==> db_log(c) == Seq::<MeasurementModel>::empty(),
    {
        let conn = rusqlite::Connection::open_in_memory().map_err(
            |e| StorageError { message: e.to_string() },
        )?;
        conn.execute(
            "CREATE TABLE IF NOT EXISTS pings(host varchar(255), t INTEGER, missing BOOLEAN, latency_us INTEGER)",
            (),
        ).map_err(|e| StorageError { message: e.to_string() })?;
        Ok(conn)
    }

    /// Relies on rusqlite's `Connection::open` and `Connection::execute`:
    /// opens (creating if absent) the database file at `path` and ensures
    /// the `pings` table exists. The file may already hold rows, so nothing
    /// is claimed of the contents.
    #[verifier::external_body]
    fn open_at_raw(path: &str) -> (r: Result<rusqlite::Connection, StorageError>) {
        let conn = rusqlite::Connection::open(path).map_err(
            |e| StorageError { message: e.to_string() },
        )?;
        conn.execute(
            "CREATE TABLE IF NOT EXISTS pings(host varchar(255), t INTEGER, missing BOOLEAN, latency_us INTEGER)",
            (),
        ).map_err(|e| StorageError { message: e.to_string() })?;
        Ok(conn)
    }

    /// Relies on rusqlite's `Connection::execute` running the single
    /// `INSERT` statement: on success exactly one row is appended; a failed
    /// statement leaves the table as it was.
    #[verifier::external_body]
    fn insert_raw(&mut self, m: &Measurement) -> (r: Result<(), StorageError>)
        ensures
            r matches Ok(()) ==> db_log(final(self).conn) == db_log(old(self).conn).push(m@),
            r matches Err(_) ==> db_log(final(self).conn) == db_log(old(self).conn),
    {
        let res = self.conn.execute(
            "INSERT INTO pings(host, t, missing, latency_us) VALUES(?1, ?2, ?3, ?4)",
            (&m.host, m.timestamp, m.missing, m.latency_us),
        );
        match res {
            Ok(_) => Ok(()),
            Err(e) => Err(StorageError { message: e.to_string() }),
        }
    }

    /// Relies on rusqlite's `Connection::prepare` and
    /// `Statement::query_map`: the `SELECT ... ORDER BY rowid` statement
    /// hands back every row of the append-only table in insertion order.
    #[verifier::external_body]
    fn fetch_all_raw(&self) -> (r: Result<Vec<Measurement>, StorageError>)
        ensures
            r matches Ok(v) ==> models(v@) == db_log(self.conn),
    {
        let mut stmt = self.conn.prepare(
            "SELECT host, t, missing, latency_us FROM pings ORDER BY rowid",
        ).map_err(|e| StorageError { message: e.to_string() })?;
        let rows = stmt.query_map(
            (),
            |row| Ok(Measurement::new(row.get(0)?, row.get(1)?, row.get(2)?, row.get(3)?)),
        ).map_err(|e| StorageError { message: e.to_string() })?;
        let mut out = Vec::new();
        for row in rows {
            out.push(row.map_err(|e| StorageError { message: e.to_string() })?);
        }
        Ok(out)
    }

    /// Opens (creating and initializing if absent) the durable store at
    /// `path`. Whatever history the file already holds is kept, so nothing
    /// is stated of the log.
    ///
    /// The caller must give the store exclusive access: open each path at
    /// most once and let no other connection or process touch the file
    /// while the store is in use. The log model is a function of this one
    /// connection, so a second way into the same file would let two
    /// provably-equal queries observe different histories.
    pub fn open(path: &str) -> (r: Result<Store, StorageError>) {
        let conn = Self::open_at_raw(path)?;
        Ok(Store { conn })
    }

    /// Opens a fresh, empty in-memory store with the schema initialized.
    pub fn open_in_memory() -> (r: Result<Store, StorageError>)
        ensures
            r matches Ok(s) ==> s@ == Seq::<MeasurementModel>::empty(),
    {
        let conn = Self::open_in_memory_raw()?;
        Ok(Store { conn })
    }

    /// Appends one measurement row to the log. On success the log is the
    /// old log with `m` at the end; on failure it is unchanged.
    pub fn insert(&mut self, m: &Measurement) -> (r: Result<(), StorageError>)
        ensures
            r matches Ok(()) ==> final(self)@ == old(self)@.push(m@),
            r matches Err(_) ==> final(self)@ == old(self)@,
    {
        self.insert_raw(m)
    }

    /// Returns the most recent rows, newest first: with `limit` of `K`,
    /// exactly `min(K, total)` rows; with no limit, the whole history.
    /// The result is the prefix of a newest-first ordering of the log.
    pub fn query(&self, limit: Option<u64>) -> (r: Result<Vec<Measurement>, StorageError>)
        ensures
            r matches Ok(v) ==> query_post(self@, limit_model(limit), models(v@)),
    {
        let all = self.fetch_all_raw()?;
        let ghost log = self@;
        let mut sorted = sort_desc(all);
        let ghost sorted_model = models(sorted@);
        proof {
            vstd::seq_lib::to_multiset_len(sorted_model);
            vstd::seq_lib::to_multiset_len(log);
            assert(sorted_model.len() == log.len());
        }
        match limit {
            Option::None => {
                assert(models(sorted@) == sorted_model.take(sorted_model.len() as int)) by {
                    assert(sorted_model.take(sorted_model.len() as int) =~= sorted_model);
                }
                Ok(sorted)
            },
            Option::Some(k) => {
                if (sorted.len() as u64) > k {
                    sorted.truncate(k as usize);
                    assert(models(sorted@) =~= sorted_model.take(k as int));
                } else {
                    assert(models(sorted@) == sorted_model.take(sorted_model.len() as int)) by {
                        assert(sorted_model.take(sorted_model.len() as int) =~= sorted_model);
                    }
                }
                proof {
                    lemma_sorted_take(sorted_model, window_len(limit_model(limit), log.len() as int));
                }
                Ok(sorted)
            },
        }
    }
}

/// The spec-level image of an optional row limit.
pub open spec fn limit_model(limit: Option<u64>) -> Option<int> {
    match limit {
        Option::None => Option::None,
        Option::Some(k) => Option::Some(k as int),
    }
}

/// No two rows of the log share a timestamp.
pub open spec fn distinct_stamps(log: Seq<MeasurementModel>) -> bool {
    forall|i: int, j: int|
        0 <= i < j < log.len() ==> log[i].timestamp != log[j].timestamp
}

/// Rows strictly newest-first: timestamps strictly decreasing.
pub open spec fn strictly_desc(s: Seq<MeasurementModel>) -> bool {
    forall|i: int, j: int|
        0 <= i < j < s.len() ==> s[i].timestamp > s[j].timestamp
}

/// When no two rows of the log share a timestamp, every query result is
/// strictly ordered newest-first. (Rows tied on a timestamp can only be
/// ordered non-strictly, so the tied inputs are left out here.)
pub proof fn lemma_query_strictly_sorted(
    log: Seq<MeasurementModel>,
    limit: Option<int>,
    out: Seq<MeasurementModel>,
)
    requires
        query_post(log, limit, out),
        distinct_stamps(log),
    ensures
        strictly_desc(out),
{
    broadcast use group_to_multiset_ensures;
    broadcast use group_multiset_axioms;

    let s = choose|s: Seq<MeasurementModel>|
        #![auto]
        s.to_multiset() == log.to_multiset() && sorted_desc(s) && out == s.take(
            window_len(limit, log.len() as int),
        );
    let n = window_len(limit, log.len() as int);
    vstd::seq_lib::to_multiset_len(s);
    vstd::seq_lib::to_multiset_len(log);
    assert(s.len() == log.len());
    assert(out.len() == n);
    assert(0 <= n <= s.len());
    assert(log.no_duplicates()) by {
        assert forall|i: int, j: int|
            0 <= i < log.len() && 0 <= j < log.len() && i != j implies log[i] != log[j] by {
            if i < j {
                assert(log[i].timestamp != log[j].timestamp);
            } else {
                assert(log[j].timestamp != log[i].timestamp);
            }
        }
    }
    log.lemma_multiset_has_no_duplicates();
    s.lemma_multiset_has_no_duplicates_conv();
    assert forall|i: int, j: int|
        0 <= i < j < s.len() implies s[i].timestamp != s[j].timestamp by {
        if s[i].timestamp == s[j].timestamp {
            assert(s[i] != s[j]);
            assert(s.contains(s[i]));
            assert(s.contains(s[j]));
            assert(log.to_multiset().count(s[i]) > 0);
            assert(log.to_multiset().count(s[j]) > 0);
            assert(log.contains(s[i]));
            assert(log.contains(s[j]));
            let a = choose|a: int| 0 <= a < log.len() && log[a] == s[i];
            let b = choose|b: int| 0 <= b < log.len() && log[b] == s[j];
            assert(a != b);
            if a < b {
                assert(log[a].timestamp != log[b].timestamp);
            } else {
                assert(log[b].timestamp != log[a].timestamp);
            }
            assert(false);
        }
    }
    assert forall|i: int, j: int|
        0 <= i < j < out.len() implies out[i].timestamp > out[j].timestamp by {
        assert(s.take(n)[i] == s[i]);
        assert(s.take(n)[j] == s[j]);
        assert(s[i].timestamp >= s[j].timestamp);
        assert(s[i].timestamp != s[j].timestamp);
    }
}

/// A prefix of a newest-first sequence is newest-first.
proof fn lemma_sorted_take(s: Seq<MeasurementModel>, n: int)
    requires
        sorted_desc(s),
        0 <= n <= s.len(),
    ensures
        sorted_desc(s.take(n)),
{
}

/// Inserting at the scan position keeps a newest-first sequence
/// newest-first.
proof fn lemma_sorted_insert(s: Seq<MeasurementModel>, i: int, m: MeasurementModel)
    requires
        sorted_desc(s),
        0 <= i <= s.len(),
        forall|j: int| 0 <= j < i ==> s[j].timestamp >= m.timestamp,
        i < s.len() ==> s[i].timestamp < m.timestamp,
    ensures
        sorted_desc(s.insert(i, m)),
{
    s.insert_ensures(i, m);
    let t = s.insert(i, m);
    assert forall|a: int, b: int| 0 <= a <= b < t.len() implies t[a].timestamp >= t[b].timestamp by {
        if a < i {
            assert(t[a] == s[a]);
        } else if a == i {
            assert(t[a] == m);
        } else {
            assert(t[a] == s[a - 1]);
        }
        if b < i {
            assert(t[b] == s[b]);
        } else if b == i {
            assert(t[b] == m);
        } else {
            assert(t[b] == s[b - 1]);
        }
    }
}

/// Orders rows newest first. The result holds exactly the rows given,
/// with timestamps non-increasing.
pub fn sort_desc(input: Vec<Measurement>) -> (r: Vec<Measurement>)
    ensures
        sorted_desc(models(r@)),
        models(r@).to_multiset() == models(input@).to_multiset(),
{
    broadcast use group_to_multiset_ensures;
    broadcast use group_multiset_axioms;

    let mut rest = input;
    let mut out: Vec<Measurement> = Vec::new();
    proof {
        assert(models(out@) =~= Seq::<MeasurementModel>::empty());
        assert(models(out@).to_multiset().add(models(rest@).to_multiset()) =~= models(
            rest@,
        ).to_multiset());
    }
    while rest.len() > 0
        invariant
            sorted_desc(models(out@)),
            models(out@).to_multiset().add(models(rest@).to_multiset()) == models(
                input@,
            ).to_multiset(),
        decreases rest.len(),
    {
        let ghost rest_before = rest@;
        let ghost out_before = out@;
        let m = rest.pop().unwrap();
        proof {
            assert(models(rest_before) =~= models(rest@).push(m@));
            vstd::seq_lib::to_multiset_build(models(rest@), m@);
            assert(models(rest_before).to_multiset() == models(rest@).to_multiset().insert(m@));
        }
        let mut i: usize = 0;
        while i < out.len() && out[i].timestamp >= m.timestamp
            invariant
                0 <= i <= out.len(),
                forall|j: int|
                    0 <= j < i ==> models(out@)[j].timestamp >= m@.timestamp,
            decreases out.len() - i,
        {
            i = i + 1;
        }
        proof {
            lemma_sorted_insert(models(out_before), i as int, m@);
        }
        out.insert(i, m);
        proof {
            assert(models(out@) =~= models(out_before).insert(i as int, m@));
            vstd::seq_lib::to_multiset_insert(models(out_before), i as int, m@);
            assert(models(out@).to_multiset() == models(out_before).to_multiset().insert(m@));
            assert(models(out@).to_multiset().add(models(rest@).to_multiset()) =~= models(
                input@,
            ).to_multiset());
        }
    }
    proof {
        assert(models(rest@) =~= Seq::<MeasurementModel>::empty());
        assert(models(rest@).to_multiset().len() == 0);
        assert(models(out@).to_multiset().add(models(rest@).to_multiset()) =~= models(
            out@,
        ).to_multiset());
    }
    out
}

} // verus!

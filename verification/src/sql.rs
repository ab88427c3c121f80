//! SQL text: how many positional parameters a statement has, counted the way the engine
//! reads the statement — outside string literals and comments — or no count at all when a
//! named parameter makes the number of markers say nothing about the number of parameters.

use vstd::prelude::*;
use vstd::string::StringSliceAdditionalSpecFns;

use crate::error::{Error, Result};

verus! {

/// Whether `c` may follow `:`, `@` or `$` in a named parameter: an ASCII letter, digit or `_`.
pub open spec fn is_name_char(c: u8) -> bool {
    (48 <= c <= 57) || (65 <= c <= 90) || (97 <= c <= 122) || c == 95
}

/// Where a literal opened by quote `q` ends, scanning from `j`: the closing quote, a doubled
/// quote being an escaped one; the end of the text if it never closes.
pub open spec fn quote_end(b: Seq<u8>, j: int, q: u8) -> int
    decreases b.len() - j,
{
    if j >= b.len() {
        b.len() as int
    } else if b[j] == q {
        if j + 1 < b.len() && b[j + 1] == q {
            quote_end(b, j + 2, q)
        } else {
            j
        }
    } else {
        quote_end(b, j + 1, q)
    }
}

/// Where a `--` comment starting at `j` ends: at the newline, or the end of the text.
pub open spec fn line_end(b: Seq<u8>, j: int) -> int
    decreases b.len() - j,
{
    if j >= b.len() || b[j] == 10 {
        if j >= b.len() {
            b.len() as int
        } else {
            j
        }
    } else {
        line_end(b, j + 1)
    }
}

/// A literal's end lies between where the scan starts and the end of the text.
pub proof fn lemma_quote_end(b: Seq<u8>, j: int, q: u8)
    ensures
        quote_end(b, j, q) >= j || j > b.len(),
        quote_end(b, j, q) <= b.len() || j > b.len(),
    decreases b.len() - j,
{
    if j < b.len() {
        if b[j] == q {
            if j + 1 < b.len() && b[j + 1] == q {
                lemma_quote_end(b, j + 2, q);
            }
        } else {
            lemma_quote_end(b, j + 1, q);
        }
    }
}

/// A comment's end lies between where it starts and the end of the text.
pub proof fn lemma_line_end(b: Seq<u8>, j: int)
    ensures
        line_end(b, j) >= j || j > b.len(),
        line_end(b, j) <= b.len() || j > b.len(),
    decreases b.len() - j,
{
    if j < b.len() && b[j] != 10 {
        lemma_line_end(b, j + 1);
    }
}

/// The `?` markers of `b` from `i` on, outside literals and `--` comments; `None` once a
/// named parameter (`:name`, `@name`, `$name`) appears.
pub open spec fn markers(b: Seq<u8>, i: int) -> Option<nat>
    decreases b.len() + 1 - i,
{
    if i < 0 || i >= b.len() {
        Some(0)
    } else if b[i] == 39 || b[i] == 34 {
        proof {
            lemma_quote_end(b, i + 1, b[i]);
        }
        markers(b, quote_end(b, i + 1, b[i]) + 1)
    } else if b[i] == 45 && i + 1 < b.len() && b[i + 1] == 45 {
        proof {
            lemma_line_end(b, i);
        }
        if line_end(b, i) > i {
            markers(b, line_end(b, i))
        } else {
            Some(0)
        }
    } else if b[i] == 63 {
        match markers(b, i + 1) {
            Some(n) => Some(n + 1),
            None => None,
        }
    } else if (b[i] == 58 || b[i] == 64 || b[i] == 36) && i + 1 < b.len() && is_name_char(b[i + 1]) {
        None
    } else {
        markers(b, i + 1)
    }
}

/// `n` more than `m`, if `m` is a count at all.
pub open spec fn plus(n: nat, m: Option<nat>) -> Option<nat> {
    match m {
        Some(k) => Some(n + k),
        None => None,
    }
}

/// How many `?` markers the statement has, or `None` when the answer would be misleading.
///
/// String literals (both quote styles, with the doubled-quote escape) and `--` comments are
/// skipped: `SELECT '?'` has no parameter. A named parameter gives up entirely, since one
/// name may appear twice and still be one parameter. A wrong count refuses a correct
/// program; no count only leaves the decision to the engine.
pub fn count_placeholders(sql: &str) -> (r: Option<usize>)
    ensures
        r matches Some(n) ==> markers(sql.spec_bytes(), 0) == Some(n as nat),
        r is None <==> markers(sql.spec_bytes(), 0) is None,
{
    let b = sql.as_bytes();
    let ghost s = b@;
    let mut i: usize = 0;
    let mut n: usize = 0;
    while i < b.len()
        invariant
            s == b@,
            s == sql.spec_bytes(),
            n <= i,
            markers(s, 0) == plus(n as nat, markers(s, i as int)),
        decreases b@.len() - i,
    {
        let c = b[i];
        if c == 39 || c == 34 {
            proof {
                lemma_quote_end(s, i + 1, c);
            }
            let ghost start = i;
            i = i + 1;
            while i < b.len()
                invariant_except_break
                    s == b@,
                    start < i <= s.len(),
                    quote_end(s, i as int, c) == quote_end(s, start + 1, c),
                ensures
                    start < i <= s.len(),
                    i as int == quote_end(s, start + 1, c),
                decreases b@.len() - i,
            {
                if b[i] == c {
                    if i + 1 < b.len() && b[i + 1] == c {
                        i = i + 2;
                        continue;
                    }
                    break;
                }
                i = i + 1;
            }
            proof {
                assert(markers(s, start as int) == markers(s, quote_end(s, start + 1, c) + 1));
            }
            if i < b.len() {
                i = i + 1;
            } else {
                proof {
                    assert(markers(s, i + 1) == Some(0nat));
                    assert(markers(s, i as int) == Some(0nat));
                }
            }
        } else if c == 45 && i + 1 < b.len() && b[i + 1] == 45 {
            let ghost start = i;
            proof {
                lemma_line_end(s, i as int);
            }
            while i < b.len() && b[i] != 10
                invariant
                    s == b@,
                    start <= i <= s.len(),
                    line_end(s, i as int) == line_end(s, start as int),
                decreases b@.len() - i,
            {
                i = i + 1;
            }
            proof {
                assert(line_end(s, i as int) == i);
                assert(i > start);
            }
        } else if c == 63 {
            n = n + 1;
            i = i + 1;
        } else if c == 58 || c == 64 || c == 36 {
            if i + 1 < b.len() {
                let next = b[i + 1];
                if (48 <= next && next <= 57) || (65 <= next && next <= 90) || (97 <= next && next
                    <= 122) || next == 95 {
                    return None;
                }
            }
            i = i + 1;
        } else {
            i = i + 1;
        }
    }
    proof {
        assert(markers(s, i as int) == Some(0nat));
    }
    Some(n)
}


/// What a column holds, as the platform reports it. `Int` covers both of the platform's
/// integer types: the difference is a storage detail of the row buffer.
#[derive(Copy, Clone, Debug, PartialEq, Eq, Structural)]
pub enum Type {
    Null,
    Int,
    Real,
    Text,
    Blob,
}

/// How much of a text or blob column a read tries to take without allocating: a row of a
/// message list fits, so the common read costs one call.
pub const TEXT_INLINE: usize = 128;

/// Whether a column read through an inline buffer of [`TEXT_INLINE`] got all of a column
/// whose full length is `len`. The boundary counts as fitting: a value of exactly the
/// buffer's size takes one pass.
pub fn fits_inline(len: usize) -> (r: bool)
    ensures
        r == (len <= TEXT_INLINE),
{
    len <= TEXT_INLINE
}

/// How much of a second, full-sized read to keep: what that read says it wrote, never more
/// than it was given room for. A column that shrank between the two reads then leaves no
/// tail of zeros that looks like data.
pub fn second_pass_kept(got: usize, room: usize) -> (r: usize)
    ensures
        r == if got <= room {
            got
        } else {
            room
        },
{
    if got <= room {
        got
    } else {
        room
    }
}

/// Whether a parameter may be bound at `index`. Indexes are zero-based, and an index the
/// statement does not have is refused here, because the platform answers one with a panic
/// that takes the process down. `params` is the statement's `?` count, or `None` when it
/// could not be counted; then only a negative index is refused.
pub fn check_bind(index: i32, params: Option<usize>) -> (r: Result<()>)
    ensures
        r is Err <==> (index < 0 || (params matches Some(n) && index >= n)),
        r is Err ==> r == Err::<(), Error>(Error::Argument),
{
    if index < 0 {
        return Err(Error::Argument);
    }
    if let Some(n) = params {
        if index as usize >= n {
            return Err(Error::Argument);
        }
    }
    Ok(())
}

/// Whether a whole parameter list of `count` values may be bound, before any of it is: a
/// list longer than the statement's `?` count is refused, a shorter one is allowed (the
/// rest stay NULL), and an uncounted statement takes any list.
pub fn check_bind_all(count: usize, params: Option<usize>) -> (r: Result<()>)
    ensures
        r is Err <==> (params matches Some(n) && count > n),
        r is Err ==> r == Err::<(), Error>(Error::Argument),
{
    if let Some(n) = params {
        if count > n {
            return Err(Error::Argument);
        }
    }
    Ok(())
}

/// A list bound in order: the `i`th value goes to index `i`, and every one of those indexes
/// passes [`check_bind`] whenever the list passed [`check_bind_all`].
pub proof fn lemma_bind_all_binds_in_range(count: usize, params: Option<usize>, i: int)
    requires
        !(params matches Some(n) && count > n),
        0 <= i < count,
        count <= i32::MAX,
    ensures
        !(i < 0 || (params matches Some(n) && i >= n)),
{
}

/// The table the schema version is kept in.
pub const VERSION_TABLE: &'static str = "shim_schema_version";

/// Makes the version table, when it is not there.
pub const CREATE_VERSION_TABLE: &'static str =
    "CREATE TABLE IF NOT EXISTS shim_schema_version (version INTEGER NOT NULL)";

/// Reads the stored version.
pub const SELECT_VERSION: &'static str = "SELECT version FROM shim_schema_version";

/// Stores the first version, on a database that has none.
pub const INSERT_VERSION: &'static str = "INSERT INTO shim_schema_version (version) VALUES (?)";

/// Stores a new version over the old one.
pub const UPDATE_VERSION: &'static str = "UPDATE shim_schema_version SET version = ?";

/// What a migration has to do.
#[derive(Copy, Clone, Debug, PartialEq, Eq, Structural)]
pub struct Migration {
    /// No version row yet: the version is written with an INSERT, not an UPDATE, which
    /// against an empty table would succeed and change nothing.
    pub first_run: bool,
    /// The version in force: the first step to run.
    pub from: u64,
    /// The version afterwards: past the last step to run.
    pub to: u64,
}

/// Plan a migration over `steps` schema steps, from the version the table held (`None`
/// when it held no row). Only the pending steps run; a database from a newer build keeps
/// the version it has, and the query that needs a newer column names the problem.
pub fn plan_migration(stored: Option<i64>, steps: usize) -> (m: Migration)
    ensures
        m.first_run == (match stored {
            Some(v) => v < 0,
            None => true,
        }),
        m.from == (match stored {
            Some(v) => if v < 0 {
                0
            } else {
                v as int
            },
            None => 0,
        }),
        m.to == if m.from >= steps {
            m.from as int
        } else {
            steps as int
        },
{
    let current: i64 = match stored {
        Some(v) => v,
        None => -1,
    };
    let first_run = current < 0;
    let from: u64 = if current < 0 {
        0
    } else {
        current as u64
    };
    let to: u64 = if from >= steps as u64 {
        from
    } else {
        steps as u64
    };
    Migration { first_run, from, to }
}

impl Migration {
    /// Nothing to run: no step is pending, so no transaction is opened.
    pub fn is_current(&self) -> (r: bool)
        ensures
            r == (self.from == self.to),
    {
        self.from == self.to
    }

    /// The statement that writes the new version.
    pub fn version_write(&self) -> (r: &'static str)
        ensures
            r == if self.first_run {
                INSERT_VERSION
            } else {
                UPDATE_VERSION
            },
    {
        if self.first_run {
            INSERT_VERSION
        } else {
            UPDATE_VERSION
        }
    }

    /// The version a migration reports: the one now in force.
    pub fn reported(&self) -> (r: u32)
        ensures
            r == self.to as u32,
    {
        self.to as u32
    }
}

/// A migration never moves the version back, and runs each pending step once: from the
/// version found to the number of steps, or nothing at all.
pub proof fn lemma_migration_runs_only_pending_steps(stored: Option<i64>, steps: usize, m: Migration)
    requires
        m.first_run == (match stored {
            Some(v) => v < 0,
            None => true,
        }),
        m.from == (match stored {
            Some(v) => if v < 0 {
                0
            } else {
                v as int
            },
            None => 0,
        }),
        m.to == if m.from >= steps {
            m.from as int
        } else {
            steps as int
        },
    ensures
        m.from <= m.to,
        m.from < steps ==> m.to == steps,
        m.from >= steps ==> m.to == m.from,
{
}

/// Opens the transaction a migration runs in.
pub const BEGIN: &'static str = "BEGIN";

/// Makes a migration's steps and its version write permanent together.
pub const COMMIT: &'static str = "COMMIT";

/// Undoes a migration that failed partway, so the schema stays at a version the code knows.
pub const ROLLBACK: &'static str = "ROLLBACK";

/// One statement a migration asked the database to run, with how it came out.
pub ghost enum SqlOp {
    /// A statement without parameters, and whether it succeeded.
    Execute(Seq<char>, bool),
    /// A statement with one integer parameter, and whether it succeeded.
    ExecuteInt(Seq<char>, i64, bool),
    /// A query for one integer: its first row's value (`None` for no row), or `None` for a
    /// failure.
    QueryInt(Seq<char>, Option<Option<i64>>),
}

/// The statements a schema migration needs from a database connection. Each is recorded in
/// [`Schema::log`], with its outcome, which is the database's own.
pub trait Schema {
    /// Every statement run so far, oldest first. An implementation keeps its own record; one
    /// that keeps none has nothing to show.
    closed spec fn log(&self) -> Seq<SqlOp> {
        Seq::empty()
    }

    /// Run a statement that takes no parameters and returns no rows.
    fn execute(&mut self, sql: &str) -> (r: Result<()>)
        ensures
            final(self).log() == old(self).log().push(SqlOp::Execute(sql@, r is Ok)),
    ;

    /// Run a statement with one integer bound to its only `?`.
    fn execute_int(&mut self, sql: &str, value: i64) -> (r: Result<()>)
        ensures
            final(self).log() == old(self).log().push(SqlOp::ExecuteInt(sql@, value, r is Ok)),
    ;

    /// The first row's first column of a query, as an integer; `None` when there is no row.
    fn query_int(&mut self, sql: &str) -> (r: Result<Option<i64>>)
        ensures
            final(self).log() == old(self).log().push(
                SqlOp::QueryInt(
                    sql@,
                    match r {
                        Ok(v) => Some(v),
                        Err(_) => None,
                    },
                ),
            ),
    ;
}

/// The plan for `steps` steps from what the version table held, as values.
pub open spec fn planned(stored: Option<i64>, steps: nat) -> Migration {
    let from: int = match stored {
        Some(v) => if v < 0 {
            0
        } else {
            v as int
        },
        None => 0,
    };
    Migration {
        first_run: match stored {
            Some(v) => v < 0,
            None => true,
        },
        from: from as u64,
        to: (if from >= steps {
            from
        } else {
            steps as int
        }) as u64,
    }
}

/// Each step run, successfully, in order.
pub open spec fn ran(steps: Seq<Seq<char>>) -> Seq<SqlOp> {
    steps.map_values(|t: Seq<char>| SqlOp::Execute(t, true))
}

/// The statements as text.
pub open spec fn texts(steps: Seq<&str>) -> Seq<Seq<char>> {
    steps.map_values(|t: &str| t@)
}

/// `l`, then a rollback, whatever the rollback answered.
pub open spec fn rolled_back(l: Seq<SqlOp>, before: Seq<SqlOp>) -> bool {
    ||| l == before.push(SqlOp::Execute(ROLLBACK@, true))
    ||| l == before.push(SqlOp::Execute(ROLLBACK@, false))
}

/// What a migration that read `stored` from the version table ran, and what it reported
/// (`None` for a failure): with nothing pending, at most the first version's insert; else,
/// inside one transaction, the pending steps in order and then the version write, committed
/// when all went through and rolled back when one failed.
pub open spec fn planned_run(l: Seq<SqlOp>, steps: Seq<Seq<char>>, stored: Option<i64>, reported: Option<u32>) -> bool {
    let m = planned(stored, steps.len());
    let pre = seq![
        SqlOp::Execute(CREATE_VERSION_TABLE@, true),
        SqlOp::QueryInt(SELECT_VERSION@, Some(stored)),
    ];
    let write = if m.first_run {
        INSERT_VERSION@
    } else {
        UPDATE_VERSION@
    };
    let pending = steps.subrange(m.from as int, m.to as int);
    let opened = pre.push(SqlOp::Execute(BEGIN@, true));
    let all = opened + ran(pending);
    if m.from == m.to {
        &&& m.first_run ==> l == pre.push(SqlOp::ExecuteInt(INSERT_VERSION@, m.from as i64, reported is Some))
        &&& !m.first_run ==> l == pre && reported is Some
        &&& reported is Some ==> reported == Some(m.to as u32)
    } else {
        ||| l == pre.push(SqlOp::Execute(BEGIN@, false)) && reported is None
        ||| (exists|k: int|
            0 <= k < pending.len() && rolled_back(
                l,
                #[trigger] (opened + ran(pending.take(k))).push(SqlOp::Execute(pending[k], false)),
            )) && reported is None
        ||| rolled_back(l, all.push(SqlOp::ExecuteInt(write, m.to as i64, false))) && reported is None
        ||| l == all.push(SqlOp::ExecuteInt(write, m.to as i64, true)).push(
            SqlOp::Execute(COMMIT@, reported is Some),
        ) && (reported is Some ==> reported == Some(m.to as u32))
    }
}

/// Every way a migration can go: the version table cannot be made, or its version cannot be
/// read, or it read a version and went as [`planned_run`] says.
pub open spec fn migration_run(l: Seq<SqlOp>, steps: Seq<Seq<char>>, reported: Option<u32>) -> bool {
    ||| l == seq![SqlOp::Execute(CREATE_VERSION_TABLE@, false)] && reported is None
    ||| l == seq![
        SqlOp::Execute(CREATE_VERSION_TABLE@, true),
        SqlOp::QueryInt(SELECT_VERSION@, None),
    ] && reported is None
    ||| exists|stored: Option<i64>| #[trigger] planned_run(l, steps, stored, reported)
}

/// Apply the schema steps that have not run yet, inside one transaction, and return the
/// version now in force. `steps[0]` takes the database from version 0 to 1, `steps[1]` from
/// 1 to 2, and so on.
pub fn migrate<S: Schema>(db: &mut S, steps: &[&str]) -> (r: Result<u32>)
    ensures
        final(db).log().len() >= old(db).log().len(),
        final(db).log().subrange(0, old(db).log().len() as int) == old(db).log(),
        migration_run(
            final(db).log().subrange(old(db).log().len() as int, final(db).log().len() as int),
            texts(steps@),
            match r {
                Ok(v) => Some(v),
                Err(_) => None,
            },
        ),
{
    let ghost l0 = db.log();
    let ghost n = l0.len() as int;
    let ghost st = texts(steps@);
    if let Err(e) = db.execute(CREATE_VERSION_TABLE) {
        proof {
            assert(db.log().subrange(0, n) =~= l0);
            assert(db.log().subrange(n, db.log().len() as int) =~= seq![
                SqlOp::Execute(CREATE_VERSION_TABLE@, false),
            ]);
        }
        return Err(e);
    }
    let stored = match db.query_int(SELECT_VERSION) {
        Ok(v) => v,
        Err(e) => {
            proof {
                assert(db.log().subrange(0, n) =~= l0);
                assert(db.log().subrange(n, db.log().len() as int) =~= seq![
                    SqlOp::Execute(CREATE_VERSION_TABLE@, true),
                    SqlOp::QueryInt(SELECT_VERSION@, None),
                ]);
            }
            return Err(e);
        },
    };
    let m = plan_migration(stored, steps.len());
    let ghost pre = seq![
        SqlOp::Execute(CREATE_VERSION_TABLE@, true),
        SqlOp::QueryInt(SELECT_VERSION@, Some(stored)),
    ];
    proof {
        assert(m == planned(stored, st.len()));
        assert(db.log() =~= l0 + pre);
    }
    if m.is_current() {
        if m.first_run {
            let w = db.execute_int(m.version_write(), m.from as i64);
            proof {
                assert(db.log().subrange(0, n) =~= l0);
                assert(db.log().subrange(n, db.log().len() as int) =~= pre.push(
                    SqlOp::ExecuteInt(INSERT_VERSION@, m.from as i64, w is Ok),
                ));
            }
            if let Err(e) = w {
                proof {
                    assert(planned_run(db.log().subrange(n, db.log().len() as int), st, stored, None));
                }
                return Err(e);
            }
        }
        proof {
            assert(db.log().subrange(0, n) =~= l0);
            if !m.first_run {
                assert(db.log().subrange(n, db.log().len() as int) =~= pre);
            }
            assert(planned_run(
                db.log().subrange(n, db.log().len() as int),
                st,
                stored,
                Some(m.to as u32),
            ));
        }
        return Ok(m.reported());
    }
    let ghost pending = st.subrange(m.from as int, m.to as int);
    let ghost opened = pre.push(SqlOp::Execute(BEGIN@, true));
    if let Err(e) = db.execute(BEGIN) {
        proof {
            assert(db.log().subrange(0, n) =~= l0);
            assert(db.log().subrange(n, db.log().len() as int) =~= pre.push(
                SqlOp::Execute(BEGIN@, false),
            ));
            assert(planned_run(db.log().subrange(n, db.log().len() as int), st, stored, None));
        }
        return Err(e);
    }
    let from = m.from as usize;
    let to = m.to as usize;
    let mut i = from;
    proof {
        assert(pending.take(0) =~= Seq::<Seq<char>>::empty());
        assert(db.log() =~= l0 + (opened + ran(pending.take(0))));
    }
    while i < to
        invariant
            from == m.from,
            to == m.to,
            m.from < m.to,
            to == steps@.len(),
            st == texts(steps@),
            pending == st.subrange(m.from as int, m.to as int),
            from <= i <= to,
            n == l0.len(),
            l0 == old(db).log(),
            db.log() == l0 + (opened + ran(pending.take(i - from))),
            m == planned(stored, st.len()),
            pre == seq![
                SqlOp::Execute(CREATE_VERSION_TABLE@, true),
                SqlOp::QueryInt(SELECT_VERSION@, Some(stored)),
            ],
            opened == pre.push(SqlOp::Execute(BEGIN@, true)),
        decreases to - i,
    {
        let ghost before = opened + ran(pending.take(i - from));
        let done = db.execute(steps[i]);
        proof {
            assert(steps@[i as int]@ == pending[i - from]);
        }
        if let Err(e) = done {
            let _ = db.execute(ROLLBACK);
            proof {
                let k = i - from;
                assert(db.log().subrange(0, n) =~= l0);
                let t = db.log().subrange(n, db.log().len() as int);
                let failed = before.push(SqlOp::Execute(pending[k], false));
                assert(rolled_back(t, failed)) by {
                    assert(t =~= failed.push(db.log().last()));
                }
                assert(planned_run(t, st, stored, None));
            }
            return Err(e);
        }
        proof {
            let k = i - from;
            assert(pending.take(k + 1) =~= pending.take(k).push(pending[k]));
            assert(ran(pending.take(k + 1)) =~= ran(pending.take(k)).push(
                SqlOp::Execute(pending[k], true),
            ));
            assert(db.log() =~= l0 + (opened + ran(pending.take(k + 1))));
        }
        i = i + 1;
    }
    let ghost all = opened + ran(pending);
    let ghost wr = if m.first_run {
        INSERT_VERSION@
    } else {
        UPDATE_VERSION@
    };
    proof {
        assert(pending.take(i - from) =~= pending);
    }
    let w = db.execute_int(m.version_write(), m.to as i64);
    if let Err(e) = w {
        let _ = db.execute(ROLLBACK);
        proof {
            assert(db.log().subrange(0, n) =~= l0);
            let t = db.log().subrange(n, db.log().len() as int);
            let failed = all.push(SqlOp::ExecuteInt(wr, m.to as i64, false));
            assert(rolled_back(t, failed)) by {
                assert(t =~= failed.push(db.log().last()));
            }
            assert(planned_run(t, st, stored, None));
        }
        return Err(e);
    }
    let c = db.execute(COMMIT);
    proof {
        assert(db.log().subrange(0, n) =~= l0);
        let t = db.log().subrange(n, db.log().len() as int);
        assert(t =~= all.push(SqlOp::ExecuteInt(wr, m.to as i64, true)).push(
            SqlOp::Execute(COMMIT@, c is Ok),
        ));
    }
    match c {
        Ok(()) => {
            proof {
                assert(planned_run(
                    db.log().subrange(n, db.log().len() as int),
                    st,
                    stored,
                    Some(m.to as u32),
                ));
            }
            Ok(m.reported())
        },
        Err(e) => {
            proof {
                assert(planned_run(db.log().subrange(n, db.log().len() as int), st, stored, None));
            }
            Err(e)
        },
    }
}

} // verus!

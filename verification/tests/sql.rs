use lib::error::{Error, Result};
use lib::sql::{
    check_bind, check_bind_all, count_placeholders, fits_inline, migrate, plan_migration,
    second_pass_kept, Migration, Schema, INSERT_VERSION, TEXT_INLINE, UPDATE_VERSION,
};

#[test]
fn placeholders_are_counted_outside_literals_and_comments() {
    assert_eq!(count_placeholders("INSERT INTO t VALUES (?, ?, ?)"), Some(3));
    assert_eq!(count_placeholders("SELECT 1"), Some(0));
    assert_eq!(count_placeholders("SELECT '?' , ?"), Some(1));
    assert_eq!(count_placeholders("SELECT \"a?b\" FROM t WHERE x = ?"), Some(1));
    assert_eq!(count_placeholders("SELECT 'it''s ?' , ?"), Some(1));
    assert_eq!(count_placeholders("SELECT ? -- and ? in a comment\n"), Some(1));
}

#[test]
fn named_parameters_disable_the_guard_rather_than_misinform_it() {
    assert_eq!(count_placeholders("SELECT * FROM t WHERE a = :id AND b = :id"), None);
    assert_eq!(count_placeholders("SELECT @x"), None);
    assert_eq!(count_placeholders("SELECT $1"), None);
    assert_eq!(count_placeholders("SELECT a, ? FROM t WHERE x = ':'"), Some(1));
}

#[test]
fn an_unterminated_literal_or_comment_runs_to_the_end() {
    assert_eq!(count_placeholders("SELECT ? , 'never closed ?"), Some(1));
    assert_eq!(count_placeholders("SELECT ? -- ? ?"), Some(1));
    assert_eq!(count_placeholders("SELECT ?\n-- ?\n?"), Some(2));
    assert_eq!(count_placeholders("t: ? x :"), Some(1));
    assert_eq!(count_placeholders("a::b ?"), None, "a colon before a name is a name, doubled or not");
    assert_eq!(count_placeholders(""), Some(0));
}

#[test]
fn a_bind_past_the_counted_parameters_is_refused() {
    assert_eq!(check_bind(0, Some(2)), Ok(()));
    assert_eq!(check_bind(1, Some(2)), Ok(()));
    assert_eq!(check_bind(2, Some(2)), Err(lib::Error::Argument));
    assert_eq!(check_bind(-1, Some(2)), Err(lib::Error::Argument));
    // Uncounted: only a negative index is refused.
    assert_eq!(check_bind(5, None), Ok(()));
    assert_eq!(check_bind(-1, None), Err(lib::Error::Argument));
}

#[test]
fn a_longer_list_is_refused_and_a_shorter_one_allowed() {
    assert_eq!(check_bind_all(2, Some(1)), Err(lib::Error::Argument));
    assert_eq!(check_bind_all(1, Some(2)), Ok(()));
    assert_eq!(check_bind_all(2, Some(2)), Ok(()));
    assert_eq!(check_bind_all(9, None), Ok(()));
}

#[test]
fn a_fresh_database_runs_every_step_and_inserts_its_version() {
    let m = plan_migration(None, 2);
    assert_eq!(m, Migration { first_run: true, from: 0, to: 2 });
    assert!(!m.is_current());
    assert_eq!(m.version_write(), INSERT_VERSION);
    assert_eq!(m.reported(), 2);
}

#[test]
fn a_stored_version_runs_only_the_pending_steps_and_updates() {
    let m = plan_migration(Some(1), 2);
    assert!(!m.first_run);
    assert_eq!((m.from, m.to), (1, 2));
    assert_eq!(m.version_write(), UPDATE_VERSION);
}

#[test]
fn a_current_schema_has_nothing_to_run() {
    let m = plan_migration(Some(2), 2);
    assert!(m.is_current());
    assert_eq!(m.reported(), 2);
}

#[test]
fn a_newer_database_keeps_its_version() {
    let m = plan_migration(Some(5), 2);
    assert!(m.is_current());
    assert_eq!(m.reported(), 5);
}

#[test]
fn a_column_of_exactly_the_inline_size_takes_one_pass() {
    assert!(fits_inline(TEXT_INLINE));
    assert!(!fits_inline(TEXT_INLINE + 1));
    assert_eq!(second_pass_kept(10, 20), 10);
    assert_eq!(second_pass_kept(30, 20), 20, "never more than the second read had room for");
}

/// A database that records every statement, answers the version query with `stored`, and
/// fails the statement whose text is `fail_on`.
struct FakeSchema {
    statements: Vec<String>,
    stored: Option<i64>,
    fail_on: Option<&'static str>,
}

impl FakeSchema {
    fn new(stored: Option<i64>) -> Self {
        FakeSchema { statements: Vec::new(), stored, fail_on: None }
    }

    fn run(&mut self, sql: &str) -> Result<()> {
        self.statements.push(sql.to_string());
        if self.fail_on == Some(sql) {
            return Err(Error::Platform(-311));
        }
        Ok(())
    }

    fn has(&self, sql: &str) -> bool {
        self.statements.iter().any(|q| q == sql)
    }
}

impl Schema for FakeSchema {
    fn execute(&mut self, sql: &str) -> Result<()> {
        self.run(sql)
    }

    fn execute_int(&mut self, sql: &str, _value: i64) -> Result<()> {
        self.run(sql)
    }

    fn query_int(&mut self, sql: &str) -> Result<Option<i64>> {
        self.run(sql)?;
        Ok(self.stored)
    }
}

#[test]
fn migrate_applies_every_step_on_a_fresh_database() {
    let mut db = FakeSchema::new(None);
    let v = migrate(
        &mut db,
        &["CREATE TABLE chat (id INTEGER PRIMARY KEY)", "ALTER TABLE chat ADD title TEXT"],
    )
    .unwrap();
    assert_eq!(v, 2);
    let s = &db.statements;
    assert!(s.iter().any(|q| q.contains("CREATE TABLE chat")));
    assert!(s.iter().any(|q| q.contains("ALTER TABLE chat")));
    assert!(
        s.iter().any(|q| q.starts_with("INSERT INTO shim_schema_version")),
        "a fresh database must insert its version row, not update a row that is not there"
    );
}

#[test]
fn migrate_applies_only_the_pending_steps() {
    let mut db = FakeSchema::new(Some(1));
    let v = migrate(&mut db, &["step zero", "step one"]).unwrap();
    assert_eq!(v, 2);
    assert!(!db.has("step zero"), "an applied step must not run twice");
    assert!(db.has("step one"));
    assert!(db.statements.iter().any(|q| q.starts_with("UPDATE shim_schema_version")));
}

#[test]
fn migrate_is_a_no_op_when_the_schema_is_current() {
    let mut db = FakeSchema::new(Some(2));
    let v = migrate(&mut db, &["step zero", "step one"]).unwrap();
    assert_eq!(v, 2);
    assert!(!db.has("step zero") && !db.has("step one"));
    assert!(!db.has("BEGIN"), "nothing to do must not open a transaction");
}

#[test]
fn a_database_from_a_newer_build_reports_its_own_version() {
    let mut db = FakeSchema::new(Some(5));
    assert_eq!(migrate(&mut db, &["a", "b"]).unwrap(), 5);
}

#[test]
fn the_steps_and_the_version_write_share_one_transaction() {
    let mut db = FakeSchema::new(Some(0));
    assert_eq!(migrate(&mut db, &["a", "b"]).unwrap(), 2);
    let s: Vec<&str> = db.statements.iter().map(|q| q.as_str()).collect();
    assert_eq!(&s[2..], &["BEGIN", "a", "b", UPDATE_VERSION, "COMMIT"]);
}

#[test]
fn a_failing_step_rolls_the_whole_migration_back() {
    let mut db = FakeSchema::new(Some(0));
    db.fail_on = Some("b");
    assert_eq!(migrate(&mut db, &["a", "b", "c"]), Err(Error::Platform(-311)));
    let s: Vec<&str> = db.statements.iter().map(|q| q.as_str()).collect();
    assert_eq!(&s[2..], &["BEGIN", "a", "b", "ROLLBACK"]);
}

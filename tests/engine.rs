use ic_sql_migrate::engine::{Op, Runner};
use ic_sql_migrate::{AppliedIds, Error};

fn ids(v: &[&str]) -> Vec<String> {
    v.iter().map(|s| s.to_string()).collect()
}

fn ledger(v: &[&str]) -> AppliedIds {
    AppliedIds::from_ids(ids(v))
}

/// Drives a runner, answering each operation from `answers` (success when exhausted),
/// and returns the operations it asked for and its result.
fn drive(mut runner: Runner, answers: &[(Op, &str)]) -> (Vec<Op>, Result<(), Error>) {
    let mut ops = Vec::new();
    loop {
        let op = runner.next_op();
        if op == Op::Finish {
            return (ops, runner.finish());
        }
        ops.push(op);
        let outcome = match answers.iter().find(|(o, _)| *o == op) {
            Some((_, message)) => Err(message.to_string()),
            None => Ok(()),
        };
        runner.advance(outcome);
    }
}

#[test]
fn batch_run_applies_pending_items_in_one_transaction() {
    let runner = Runner::new(false, ids(&["a", "b", "c"]), &ledger(&["b"]));
    let (ops, result) = drive(runner, &[]);
    assert_eq!(
        ops,
        vec![Op::Begin, Op::Apply(0), Op::Record(0), Op::Apply(2), Op::Record(2), Op::Commit]
    );
    assert!(result.is_ok());
}

#[test]
fn per_item_run_opens_a_transaction_per_item() {
    let runner = Runner::new(true, ids(&["a", "b"]), &ledger(&[]));
    let (ops, result) = drive(runner, &[]);
    assert_eq!(
        ops,
        vec![
            Op::Begin,
            Op::Apply(0),
            Op::Record(0),
            Op::Commit,
            Op::Begin,
            Op::Apply(1),
            Op::Record(1),
            Op::Commit
        ]
    );
    assert!(result.is_ok());
}

#[test]
fn nothing_pending_performs_no_operation() {
    let runner = Runner::new(false, ids(&["a", "b"]), &ledger(&["a", "b", "z"]));
    assert!(runner.is_done());
    let (ops, result) = drive(runner, &[]);
    assert!(ops.is_empty());
    assert!(result.is_ok());
}

#[test]
fn failed_payload_rolls_back_and_names_the_item() {
    let runner = Runner::new(false, ids(&["001_valid", "002_invalid", "003_later"]), &ledger(&[]));
    let (ops, result) = drive(runner, &[(Op::Apply(1), "near \"INVALID\": syntax error")]);
    assert_eq!(
        ops,
        vec![Op::Begin, Op::Apply(0), Op::Record(0), Op::Apply(1), Op::Rollback]
    );
    match result {
        Err(Error::MigrationFailed { id, message }) => {
            assert_eq!(id, "002_invalid");
            assert_eq!(message, "near \"INVALID\": syntax error");
        }
        _ => panic!("expected a named failure"),
    }
}

#[test]
fn failed_seed_stops_the_run_after_earlier_commits() {
    let runner = Runner::new(true, ids(&["s1", "s2", "s3"]), &ledger(&[]));
    let (ops, result) = drive(runner, &[(Op::Apply(1), "boom")]);
    assert_eq!(
        ops,
        vec![Op::Begin, Op::Apply(0), Op::Record(0), Op::Commit, Op::Begin, Op::Apply(1), Op::Rollback]
    );
    match result {
        Err(Error::MigrationFailed { id, .. }) => assert_eq!(id, "s2"),
        _ => panic!("expected a named failure"),
    }
}

#[test]
fn failed_ledger_insert_names_the_item() {
    let runner = Runner::new(false, ids(&["a"]), &ledger(&[]));
    let (ops, result) = drive(runner, &[(Op::Record(0), "UNIQUE constraint failed")]);
    assert_eq!(ops, vec![Op::Begin, Op::Apply(0), Op::Record(0), Op::Rollback]);
    match result {
        Err(Error::MigrationFailed { id, message }) => {
            assert_eq!(id, "a");
            assert_eq!(message, "UNIQUE constraint failed");
        }
        _ => panic!("expected a named failure"),
    }
}

#[test]
fn failed_begin_and_commit_end_the_run() {
    let runner = Runner::new(false, ids(&["a"]), &ledger(&[]));
    let (ops, result) = drive(runner, &[(Op::Begin, "database is locked")]);
    assert_eq!(ops, vec![Op::Begin]);
    assert!(matches!(result, Err(Error::Database(_))));

    let runner = Runner::new(false, ids(&["a"]), &ledger(&[]));
    let (ops, result) = drive(runner, &[(Op::Commit, "disk I/O error")]);
    assert_eq!(ops, vec![Op::Begin, Op::Apply(0), Op::Record(0), Op::Commit, Op::Rollback]);
    assert!(matches!(result, Err(Error::Database(_))));
}

#[test]
fn failed_seed_transaction_names_the_seed() {
    let runner = Runner::new(true, ids(&["s1", "s2"]), &ledger(&[]));
    let (ops, result) = drive(runner, &[(Op::Commit, "disk I/O error")]);
    assert_eq!(ops, vec![Op::Begin, Op::Apply(0), Op::Record(0), Op::Commit, Op::Rollback]);
    match result {
        Err(Error::MigrationFailed { id, message }) => {
            assert_eq!(id, "s1");
            assert_eq!(message, "disk I/O error");
        }
        _ => panic!("expected a named failure"),
    }

    let runner = Runner::new(true, ids(&["s1", "s2"]), &ledger(&["s1"]));
    let (ops, result) = drive(runner, &[(Op::Begin, "database is locked")]);
    assert_eq!(ops, vec![Op::Begin]);
    match result {
        Err(Error::MigrationFailed { id, .. }) => assert_eq!(id, "s2"),
        _ => panic!("expected a named failure"),
    }
}

#[test]
fn applied_ids_answer_membership() {
    let applied = ledger(&["001_a", "002_b"]);
    assert!(applied.contains("001_a"));
    assert!(!applied.contains("003_c"));
    assert!(!applied.is_empty());
    assert!(ledger(&[]).is_empty());
}

#[test]
fn error_text_names_the_id_and_the_message() {
    let e = Error::MigrationFailed { id: "002_add".to_string(), message: "no such table: x".to_string() };
    assert_eq!(e.to_string(), "Migration '002_add' failed: no such table: x");
    assert_eq!(Error::Database("locked".to_string()).to_string(), "Database error: locked");
    assert_eq!(Error::Io("denied".to_string()).to_string(), "IO error: denied");
    assert_eq!(
        Error::EnvVarNotFound("OUT_DIR".to_string()).to_string(),
        "Environment variable 'OUT_DIR' not set"
    );
}

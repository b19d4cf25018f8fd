//! Migration and seed runs, and what they are proved to do.
//!
//! Each run creates and reads its ledger through a [`Database`], builds a [`Runner`]
//! and performs the operations that the runner asks for until it finishes. What the
//! database answers is outside any proof; the contracts say, for whatever it answers,
//! which calls were made in which order, and that the result is the one of the proved
//! machine for the ledger that was read. The laws here carry the machine's laws over
//! to those calls.
use vstd::prelude::*;
use rusqlite::{Connection, Error as SqlError};
use crate::engine::{
    initial, law_applied_prefix_is_skipped, law_failed_batch_keeps_ledger,
    law_failed_seed_run_keeps_earlier_seeds, law_nothing_pending_opens_no_transaction,
    law_second_run_is_noop, lemma_initial, pending_ids,
    lemma_run, lemma_run_from_done, lemma_run_push,
    outcome_view, run, Op, Phase, RunState, Runner,
};
use crate::error::{Error, ErrorView, MigrateResult};
use crate::ledger::{texts, AppliedIds, Ledger};
use crate::migration::{Migration, Seed, SqlMigration};
use crate::sqlite::{error_message, rows_view, Database, DbCall};

verus! {

/// The ids of a ledger as read: every row must have been read.
pub open spec fn ledger_read(rows: Option<Seq<Option<Seq<char>>>>) -> Option<Set<Seq<char>>> {
    match rows {
        Some(v) => if forall|i: int| 0 <= i < v.len() ==> (#[trigger] v[i]) is Some {
            Some(Set::new(|x: Seq<char>| exists|i: int| 0 <= i < v.len() && v[i] == Some(x)))
        } else {
            None
        },
        None => None,
    }
}

/// Collects the ids of a ledger from the rows read from it; where a row could not be
/// read, the index of the first such row.
pub fn applied_from_rows(rows: &Vec<Result<String, SqlError>>) -> (r: Result<AppliedIds, usize>)
    ensures
        match r {
            Ok(a) => ledger_read(Some(rows_view(rows@))) == Some(a@),
            Err(k) => k < rows@.len() && rows@[k as int] is Err && ledger_read(Some(rows_view(rows@))) is None
                && forall|j: int| 0 <= j < k ==> (#[trigger] rows@[j]) is Ok,
        },
{
    let ghost v = rows_view(rows@);
    let mut ids: Vec<String> = Vec::new();
    let mut i: usize = 0;
    while i < rows.len()
        invariant
            i <= rows@.len(),
            v == rows_view(rows@),
            forall|k: int| 0 <= k < i ==> (#[trigger] v[k]) is Some,
            forall|k: int| 0 <= k < i ==> (#[trigger] rows@[k]) is Ok,
            texts(ids@).to_set() == Set::new(|x: Seq<char>| exists|k: int| 0 <= k < i && v[k] == Some(x)),
        decreases rows@.len() - i,
    {
        let ghost before = ids@;
        match &rows[i] {
            Ok(s) => {
                ids.push(s.clone());
                assert(texts(ids@) =~= texts(before).push(s@));
            },
            Err(_) => {
                assert(v[i as int] is None);
                return Err(i);
            },
        }
        assert(texts(ids@).to_set() =~= Set::new(|x: Seq<char>| exists|k: int| 0 <= k < i + 1 && v[k] == Some(x))) by {
            assert forall|x: Seq<char>| #[trigger] texts(ids@).to_set().contains(x) implies exists|k: int| 0 <= k < i + 1 && v[k] == Some(x) by {
                let j = choose|j: int| 0 <= j < texts(ids@).len() && texts(ids@)[j] == x;
                if j < texts(before).len() {
                    assert(texts(before)[j] == x);
                    assert(texts(before).to_set().contains(x));
                } else {
                    assert(v[i as int] == Some(x));
                }
            }
            assert forall|x: Seq<char>| (exists|k: int| 0 <= k < i + 1 && v[k] == Some(x)) implies #[trigger] texts(ids@).to_set().contains(x) by {
                let k = choose|k: int| 0 <= k < i + 1 && v[k] == Some(x);
                if k < i {
                    assert(texts(before).to_set().contains(x));
                    let j = choose|j: int| 0 <= j < texts(before).len() && texts(before)[j] == x;
                    assert(texts(ids@)[j] == x);
                } else {
                    assert(texts(ids@)[texts(ids@).len() - 1] == x);
                }
            }
        }
        i = i + 1;
    }
    Ok(AppliedIds::from_ids(ids))
}

/// Whether `r` is a database error.
pub open spec fn is_db_error(r: MigrateResult<()>) -> bool {
    match r {
        Err(e) => e@ is Database,
        Ok(_) => false,
    }
}

/// The call that creates the tracking table of `ledger`.
pub open spec fn create_call(ledger: Ledger, ok: bool) -> DbCall {
    DbCall::Execute { sql: ledger.create_sql_spec(), params: Seq::empty(), ok }
}

/// The call that reads the tracking table of `ledger`.
pub open spec fn read_call(ledger: Ledger, rows: Option<Seq<Option<Seq<char>>>>) -> DbCall {
    DbCall::Query { sql: ledger.select_sql_spec(), rows }
}

/// Creates the tracking table of `ledger` unless it exists.
pub fn ensure_ledger(db: &mut Database, ledger: &Ledger) -> (r: MigrateResult<()>)
    ensures
        final(db).log() == old(db).log().push(create_call(*ledger, r is Ok)),
        r matches Err(e) ==> e@ is Database,
{
    let none: Vec<&str> = Vec::new();
    let r = db.execute(ledger.create_sql(), none.as_slice());
    assert(none@.map_values(|p: &str| p@) =~= Seq::<Seq<char>>::empty());
    match r {
        Ok(_) => Ok(()),
        Err(e) => Err(Error::Database(error_message(&e))),
    }
}

/// Reads the ids recorded in `ledger`, with the rows as read.
fn read(db: &mut Database, ledger: &Ledger) -> (r: (MigrateResult<AppliedIds>, Ghost<Option<Seq<Option<Seq<char>>>>>))
    ensures
        final(db).log() == old(db).log().push(read_call(*ledger, r.1@)),
        match r.0 {
            Ok(a) => ledger_read(r.1@) == Some(a@),
            Err(e) => ledger_read(r.1@) is None && e@ is Database,
        },
{
    match db.query_first_column(ledger.select_sql()) {
        Ok(rows) => {
            let ghost seen = Some(rows_view(rows@));
            match applied_from_rows(&rows) {
                Ok(a) => (Ok(a), Ghost(seen)),
                Err(k) => {
                    let message = match &rows[k] {
                        Err(e) => error_message(e),
                        Ok(s) => s.clone(),
                    };
                    (Err(Error::Database(message)), Ghost(seen))
                },
            }
        },
        Err(e) => (Err(Error::Database(error_message(&e))), Ghost(None)),
    }
}

/// Reads every id recorded in `ledger`; a row that cannot be read fails the read with
/// the database's error for that row.
pub fn read_ledger(db: &mut Database, ledger: &Ledger) -> (r: MigrateResult<AppliedIds>)
    ensures
        exists|rows: Option<Seq<Option<Seq<char>>>>| {
            &&& final(db).log() == old(db).log().push(#[trigger] read_call(*ledger, rows))
            &&& match r {
                Ok(a) => ledger_read(rows) == Some(a@),
                Err(e) => ledger_read(rows) is None && e@ is Database,
            }
        },
{
    let (r, rows) = read(db, ledger);
    assert(final(db).log() == old(db).log().push(read_call(*ledger, rows@)));
    r
}

/// Creates the `_migrations` table unless it exists.
pub fn ensure_migrations_table(db: &mut Database) -> (r: MigrateResult<()>)
    ensures
        final(db).log() == old(db).log().push(create_call(Ledger::Migrations, r is Ok)),
        r matches Err(e) ==> e@ is Database,
{
    ensure_ledger(db, &Ledger::Migrations)
}

/// The ids recorded in the `_migrations` table.
pub fn get_applied_migrations(db: &mut Database) -> (r: MigrateResult<AppliedIds>)
    ensures
        exists|rows: Option<Seq<Option<Seq<char>>>>| {
            &&& final(db).log() == old(db).log().push(#[trigger] read_call(Ledger::Migrations, rows))
            &&& match r {
                Ok(a) => ledger_read(rows) == Some(a@),
                Err(e) => ledger_read(rows) is None && e@ is Database,
            }
        },
{
    read_ledger(db, &Ledger::Migrations)
}

/// Creates the `_seeds` table unless it exists.
pub fn ensure_seeds_table(db: &mut Database) -> (r: MigrateResult<()>)
    ensures
        final(db).log() == old(db).log().push(create_call(Ledger::Seeds, r is Ok)),
        r matches Err(e) ==> e@ is Database,
{
    ensure_ledger(db, &Ledger::Seeds)
}

/// The ids recorded in the `_seeds` table.
pub fn get_applied_seeds(db: &mut Database) -> (r: MigrateResult<AppliedIds>)
    ensures
        exists|rows: Option<Seq<Option<Seq<char>>>>| {
            &&& final(db).log() == old(db).log().push(#[trigger] read_call(Ledger::Seeds, rows))
            &&& match r {
                Ok(a) => ledger_read(rows) == Some(a@),
                Err(e) => ledger_read(rows) is None && e@ is Database,
            }
        },
{
    read_ledger(db, &Ledger::Seeds)
}

/// Creates the migrations ledger unless it exists.
pub fn ensure_table(db: &mut Database) -> (r: MigrateResult<()>)
    ensures
        final(db).log() == old(db).log().push(create_call(Ledger::Migrations, r is Ok)),
        r matches Err(e) ==> e@ is Database,
{
    ensure_ledger(db, &Ledger::Migrations)
}

/// The ids recorded in the migrations ledger.
pub fn applied(db: &mut Database) -> (r: MigrateResult<AppliedIds>)
    ensures
        exists|rows: Option<Seq<Option<Seq<char>>>>| {
            &&& final(db).log() == old(db).log().push(#[trigger] read_call(Ledger::Migrations, rows))
            &&& match r {
                Ok(a) => ledger_read(rows) == Some(a@),
                Err(e) => ledger_read(rows) is None && e@ is Database,
            }
        },
{
    read_ledger(db, &Ledger::Migrations)
}

/// What the payload of an item is: an SQL batch per item, or a seed action.
pub enum Payloads {
    Batches(Seq<Seq<char>>),
    Actions,
}

/// The message of an outcome that failed.
pub open spec fn failure_of(o: Result<(), Seq<char>>) -> Option<Seq<char>> {
    match o {
        Ok(_) => None,
        Err(m) => Some(m),
    }
}

pub open spec fn begin_sql() -> Seq<char> {
    "BEGIN DEFERRED"@
}

pub open spec fn commit_sql() -> Seq<char> {
    "COMMIT"@
}

pub open spec fn rollback_sql() -> Seq<char> {
    "ROLLBACK"@
}

/// The call that performs the operation of `s` and came out as `o`.
pub open spec fn op_call(s: RunState, o: Result<(), Seq<char>>, ledger: Ledger, payloads: Payloads) -> DbCall {
    let ok = o is Ok;
    match s.phase {
        Phase::Begin => DbCall::Batch { sql: begin_sql(), ok },
        Phase::Apply => match payloads {
            Payloads::Batches(sqls) => DbCall::Batch { sql: sqls[s.pending[s.pos]], ok },
            Payloads::Actions => DbCall::Action { index: s.pending[s.pos], failure: failure_of(o) },
        },
        Phase::Record => DbCall::Execute { sql: ledger.insert_sql_spec(), params: seq![s.current()], ok },
        Phase::Commit => DbCall::Batch { sql: commit_sql(), ok },
        _ => DbCall::Batch { sql: rollback_sql(), ok },
    }
}

/// The calls that perform the operations of the run from `s` with outcomes `outs`.
pub open spec fn run_calls(s: RunState, outs: Seq<Result<(), Seq<char>>>, ledger: Ledger, payloads: Payloads) -> Seq<DbCall>
    decreases outs.len(),
{
    if outs.len() == 0 {
        Seq::empty()
    } else {
        let before = run(s, outs.drop_last());
        run_calls(s, outs.drop_last(), ledger, payloads) + if before.phase is Done {
            Seq::<DbCall>::empty()
        } else {
            seq![op_call(before, outs.last(), ledger, payloads)]
        }
    }
}

/// The result `r` is the one that the finished run `s` ends with.
pub open spec fn reports(r: MigrateResult<()>, s: RunState) -> bool {
    &&& s.phase is Done
    &&& match r {
        Ok(()) => s.error is None,
        Err(e) => s.error == Some(e@),
    }
}

/// A run over the list `ids` made the calls `calls` and returned `r`: it created the
/// tracking table of `ledger` and read it, and where both went well, it performed the
/// operations of the proved machine for the ledger that was read, and returned the
/// machine's result.
pub open spec fn ran(calls: Seq<DbCall>, r: MigrateResult<()>, per_item: bool, ids: Seq<Seq<char>>, ledger: Ledger, payloads: Payloads) -> bool {
    ||| calls == seq![create_call(ledger, false)] && is_db_error(r)
    ||| exists|rows: Option<Seq<Option<Seq<char>>>>| {
        &&& #[trigger] ledger_read(rows) is None
        &&& calls == seq![create_call(ledger, true), read_call(ledger, rows)]
        &&& is_db_error(r)
    }
    ||| exists|rows: Option<Seq<Option<Seq<char>>>>, applied: Set<Seq<char>>, outs: Seq<Result<(), Seq<char>>>| {
        &&& #[trigger] ledger_read(rows) == Some(applied)
        &&& calls == seq![create_call(ledger, true), read_call(ledger, rows)] + #[trigger] run_calls(initial(per_item, ids, applied), outs, ledger, payloads)
        &&& reports(r, run(initial(per_item, ids, applied), outs))
    }
}

/// A finished run makes no more calls.
proof fn lemma_run_calls_from_done(s: RunState, outs: Seq<Result<(), Seq<char>>>, ledger: Ledger, payloads: Payloads)
    requires
        s.phase is Done,
    ensures
        run_calls(s, outs, ledger, payloads) == Seq::<DbCall>::empty(),
    decreases outs.len(),
{
    if outs.len() > 0 {
        lemma_run_calls_from_done(s, outs.drop_last(), ledger, payloads);
        lemma_run_from_done(s, outs.drop_last());
        assert(Seq::<DbCall>::empty() + Seq::<DbCall>::empty() =~= Seq::<DbCall>::empty());
    }
}

/// A call that succeeded went through the machine, from the ledger that it read.
proof fn lemma_ran_ok(calls: Seq<DbCall>, per_item: bool, ids: Seq<Seq<char>>, ledger: Ledger, payloads: Payloads)
    -> (w: (Option<Seq<Option<Seq<char>>>>, Set<Seq<char>>, Seq<Result<(), Seq<char>>>))
    requires
        ran(calls, Ok(()), per_item, ids, ledger, payloads),
    ensures
        ledger_read(w.0) == Some(w.1),
        calls == seq![create_call(ledger, true), read_call(ledger, w.0)] + run_calls(initial(per_item, ids, w.1), w.2, ledger, payloads),
        run(initial(per_item, ids, w.1), w.2).phase is Done,
        run(initial(per_item, ids, w.1), w.2).error is None,
{
    choose|rows3: Option<Seq<Option<Seq<char>>>>, applied3: Set<Seq<char>>, outs: Seq<Result<(), Seq<char>>>| {
        &&& #[trigger] ledger_read(rows3) == Some(applied3)
        &&& calls == seq![create_call(ledger, true), read_call(ledger, rows3)] + #[trigger] run_calls(initial(per_item, ids, applied3), outs, ledger, payloads)
        &&& reports(Ok(()), run(initial(per_item, ids, applied3), outs))
    }
}

/// The call that runs the payload of item `p` of the list and succeeds.
pub open spec fn apply_ok(p: int, payloads: Payloads) -> DbCall {
    match payloads {
        Payloads::Batches(sqls) => DbCall::Batch { sql: sqls[p], ok: true },
        Payloads::Actions => DbCall::Action { index: p, failure: None },
    }
}

/// The calls of the pending item `k` (an index into `pending`) when they succeed: its
/// payload, then its ledger row.
pub open spec fn item_calls(ids: Seq<Seq<char>>, pending: Seq<int>, k: int, ledger: Ledger, payloads: Payloads) -> Seq<DbCall> {
    seq![
        apply_ok(pending[k], payloads),
        DbCall::Execute { sql: ledger.insert_sql_spec(), params: seq![ids[pending[k]]], ok: true },
    ]
}

/// The calls of the first `k` pending items of a batch, all in one transaction.
pub open spec fn batch_body(ids: Seq<Seq<char>>, pending: Seq<int>, k: int, ledger: Ledger, payloads: Payloads) -> Seq<DbCall>
    decreases k,
{
    if k <= 0 {
        Seq::empty()
    } else {
        batch_body(ids, pending, k - 1, ledger, payloads) + item_calls(ids, pending, k - 1, ledger, payloads)
    }
}

/// The calls of the first `k` pending items, each in a transaction of its own.
pub open spec fn per_item_body(ids: Seq<Seq<char>>, pending: Seq<int>, k: int, ledger: Ledger, payloads: Payloads) -> Seq<DbCall>
    decreases k,
{
    if k <= 0 {
        Seq::empty()
    } else {
        per_item_body(ids, pending, k - 1, ledger, payloads) + seq![DbCall::Batch { sql: begin_sql(), ok: true }]
            + item_calls(ids, pending, k - 1, ledger, payloads) + seq![DbCall::Batch { sql: commit_sql(), ok: true }]
    }
}

/// The calls of a run that succeeds, from the ledger `applied`: nothing where nothing is
/// pending; else, for a batch, `BEGIN`, each pending item's payload and ledger row in
/// list order, and `COMMIT`; one item at a time, `BEGIN`, the item's payload and ledger
/// row, and `COMMIT` for each pending item in list order.
pub open spec fn success_calls(per_item: bool, ids: Seq<Seq<char>>, applied: Set<Seq<char>>, ledger: Ledger, payloads: Payloads) -> Seq<DbCall> {
    let s = initial(per_item, ids, applied);
    if per_item {
        per_item_body(s.ids, s.pending, s.pending.len() as int, ledger, payloads)
    } else if s.pending.len() == 0 {
        Seq::empty()
    } else {
        seq![DbCall::Batch { sql: begin_sql(), ok: true }] + batch_body(s.ids, s.pending, s.pending.len() as int, ledger, payloads)
            + seq![DbCall::Batch { sql: commit_sql(), ok: true }]
    }
}

/// The calls made so far by a run that has not failed, at the state `s`.
spec fn calls_so_far(s: RunState, ledger: Ledger, payloads: Payloads) -> Seq<DbCall> {
    let begin = seq![DbCall::Batch { sql: begin_sql(), ok: true }];
    if s.per_item {
        let done = per_item_body(s.ids, s.pending, s.pos, ledger, payloads);
        match s.phase {
            Phase::Apply => done + begin,
            Phase::Record => done + begin + seq![apply_ok(s.pending[s.pos], payloads)],
            Phase::Commit => done + begin + item_calls(s.ids, s.pending, s.pos, ledger, payloads),
            _ => done,
        }
    } else {
        let body = begin + batch_body(s.ids, s.pending, s.pos, ledger, payloads);
        match s.phase {
            Phase::Apply => body,
            Phase::Record => body + seq![apply_ok(s.pending[s.pos], payloads)],
            Phase::Commit => body,
            Phase::Done => if s.pending.len() == 0 {
                Seq::empty()
            } else {
                body + seq![DbCall::Batch { sql: commit_sql(), ok: true }]
            },
            _ => Seq::empty(),
        }
    }
}

proof fn lemma_calls_so_far(per_item: bool, ids: Seq<Seq<char>>, applied: Set<Seq<char>>, outs: Seq<Result<(), Seq<char>>>, ledger: Ledger, payloads: Payloads)
    ensures
        run(initial(per_item, ids, applied), outs).error is None ==> run_calls(initial(per_item, ids, applied), outs, ledger, payloads)
            == calls_so_far(run(initial(per_item, ids, applied), outs), ledger, payloads),
    decreases outs.len(),
{
    let s0 = initial(per_item, ids, applied);
    lemma_initial(per_item, ids, applied);
    if outs.len() == 0 {
        assert(calls_so_far(s0, ledger, payloads) =~= Seq::<DbCall>::empty());
    } else {
        let prefix = outs.drop_last();
        let o = outs.last();
        lemma_calls_so_far(per_item, ids, applied, prefix, ledger, payloads);
        lemma_run(s0, prefix);
        let t = run(s0, prefix);
        let f = t.step(o);
        if f.error is None && !(t.phase is Done) {
            assert(o is Ok);
            let begin = seq![DbCall::Batch { sql: begin_sql(), ok: true }];
            let commit = seq![DbCall::Batch { sql: commit_sql(), ok: true }];
            let c = op_call(t, o, ledger, payloads);
            if t.phase is Record {
                assert(c == DbCall::Execute { sql: ledger.insert_sql_spec(), params: seq![t.ids[t.pending[t.pos]]], ok: true });
            }
            if per_item {
                let done = per_item_body(t.ids, t.pending, t.pos, ledger, payloads);
                if t.phase is Commit {
                    assert(calls_so_far(t, ledger, payloads).push(c) =~= per_item_body(t.ids, t.pending, t.pos + 1, ledger, payloads));
                } else {
                    assert(calls_so_far(t, ledger, payloads).push(c) =~= calls_so_far(f, ledger, payloads));
                }
            } else {
                if t.phase is Record {
                    assert(calls_so_far(t, ledger, payloads).push(c) =~= calls_so_far(f, ledger, payloads));
                } else if t.phase is Begin {
                    assert(batch_body(t.ids, t.pending, 0, ledger, payloads) =~= Seq::<DbCall>::empty());
                    assert(calls_so_far(t, ledger, payloads).push(c) =~= calls_so_far(f, ledger, payloads));
                } else {
                    assert(calls_so_far(t, ledger, payloads).push(c) =~= calls_so_far(f, ledger, payloads));
                }
            }
            assert(run_calls(s0, outs, ledger, payloads) =~= calls_so_far(t, ledger, payloads).push(c));
        } else if f.error is None {
            assert(run_calls(s0, outs, ledger, payloads) =~= run_calls(s0, prefix, ledger, payloads));
        }
    }
}

/// A call that succeeded read its ledger and then made exactly the calls of
/// [`success_calls`] for the ledger that it read: each pending payload ran once, in
/// list order, and its ledger row went in, inside one transaction for a batch or one
/// per item, on the tracking table of `ledger` and no other.
pub proof fn law_successful_call(calls: Seq<DbCall>, per_item: bool, ids: Seq<Seq<char>>, ledger: Ledger, payloads: Payloads)
    requires
        ran(calls, Ok(()), per_item, ids, ledger, payloads),
    ensures
        exists|rows: Option<Seq<Option<Seq<char>>>>, applied: Set<Seq<char>>| {
            &&& #[trigger] ledger_read(rows) == Some(applied)
            &&& calls == seq![create_call(ledger, true), read_call(ledger, rows)] + #[trigger] success_calls(per_item, ids, applied, ledger, payloads)
        },
{
    let (rows, applied, outs) = lemma_ran_ok(calls, per_item, ids, ledger, payloads);
    lemma_calls_so_far(per_item, ids, applied, outs, ledger, payloads);
    lemma_initial(per_item, ids, applied);
    lemma_run(initial(per_item, ids, applied), outs);
    let f = run(initial(per_item, ids, applied), outs);
    assert(calls_so_far(f, ledger, payloads) == success_calls(per_item, ids, applied, ledger, payloads));
}

/// A call that failed either failed on its ledger, creating or reading it, or went
/// through the machine from the ledger that it read.
proof fn lemma_ran_err(calls: Seq<DbCall>, e: Error, per_item: bool, ids: Seq<Seq<char>>, ledger: Ledger, payloads: Payloads)
    -> (w: (Option<Seq<Option<Seq<char>>>>, Set<Seq<char>>, Seq<Result<(), Seq<char>>>))
    requires
        ran(calls, Err(e), per_item, ids, ledger, payloads),
        calls.len() > 2,
    ensures
        ledger_read(w.0) == Some(w.1),
        calls == seq![create_call(ledger, true), read_call(ledger, w.0)] + run_calls(initial(per_item, ids, w.1), w.2, ledger, payloads),
        run(initial(per_item, ids, w.1), w.2).phase is Done,
        run(initial(per_item, ids, w.1), w.2).error == Some(e@),
{
    choose|rows3: Option<Seq<Option<Seq<char>>>>, applied3: Set<Seq<char>>, outs: Seq<Result<(), Seq<char>>>| {
        &&& #[trigger] ledger_read(rows3) == Some(applied3)
        &&& calls == seq![create_call(ledger, true), read_call(ledger, rows3)] + #[trigger] run_calls(initial(per_item, ids, applied3), outs, ledger, payloads)
        &&& reports(Err(e), run(initial(per_item, ids, applied3), outs))
    }
}

/// Migrations share one transaction: a call that failed past its ledger read commits
/// no ledger row; in the ledger model of its run the committed ids are the ones it read.
pub proof fn law_failed_batch_call_commits_nothing(calls: Seq<DbCall>, e: Error, ids: Seq<Seq<char>>, ledger: Ledger, payloads: Payloads)
    requires
        ran(calls, Err(e), false, ids, ledger, payloads),
        calls.len() > 2,
    ensures
        exists|rows: Option<Seq<Option<Seq<char>>>>, applied: Set<Seq<char>>, outs: Seq<Result<(), Seq<char>>>| {
            &&& #[trigger] ledger_read(rows) == Some(applied)
            &&& calls == seq![create_call(ledger, true), read_call(ledger, rows)] + #[trigger] run_calls(initial(false, ids, applied), outs, ledger, payloads)
            &&& run(initial(false, ids, applied), outs).error == Some(e@)
            &&& run(initial(false, ids, applied), outs).committed == applied
        },
{
    let (rows, applied, outs) = lemma_ran_err(calls, e, false, ids, ledger, payloads);
    law_failed_batch_keeps_ledger(ids, applied, outs);
}

/// Seeds have a transaction each: a call that failed past its ledger read stopped at a
/// pending seed, names it, and in the ledger model of its run commits exactly the
/// pending seeds before it.
pub proof fn law_failed_seed_call_keeps_earlier_seeds(calls: Seq<DbCall>, e: Error, ids: Seq<Seq<char>>, ledger: Ledger, payloads: Payloads)
    requires
        ran(calls, Err(e), true, ids, ledger, payloads),
        calls.len() > 2,
    ensures
        exists|rows: Option<Seq<Option<Seq<char>>>>, applied: Set<Seq<char>>, outs: Seq<Result<(), Seq<char>>>| {
            &&& #[trigger] ledger_read(rows) == Some(applied)
            &&& calls == seq![create_call(ledger, true), read_call(ledger, rows)] + #[trigger] run_calls(initial(true, ids, applied), outs, ledger, payloads)
            &&& run(initial(true, ids, applied), outs).pos < pending_ids(ids, applied).len()
            &&& run(initial(true, ids, applied), outs).committed == applied.union(
                pending_ids(ids, applied).take(run(initial(true, ids, applied), outs).pos).to_set(),
            )
            &&& e@ matches ErrorView::MigrationFailed { id, .. } && id == pending_ids(ids, applied)[run(initial(true, ids, applied), outs).pos]
        },
{
    let (rows, applied, outs) = lemma_ran_err(calls, e, true, ids, ledger, payloads);
    law_failed_seed_run_keeps_earlier_seeds(ids, applied, outs);
}

/// A call over a list that extends one whose ids its ledger read already holds has only
/// the new items pending: it applies those and no other.
pub proof fn law_extended_list_applies_only_new_items(
    calls: Seq<DbCall>,
    r: MigrateResult<()>,
    per_item: bool,
    old_ids: Seq<Seq<char>>,
    new_ids: Seq<Seq<char>>,
    ledger: Ledger,
    payloads: Payloads,
    rows: Option<Seq<Option<Seq<char>>>>,
    applied: Set<Seq<char>>,
)
    requires
        ran(calls, r, per_item, old_ids + new_ids, ledger, payloads),
        calls.len() >= 2,
        calls[1] == read_call(ledger, rows),
        ledger_read(rows) == Some(applied),
        forall|i: int| 0 <= i < old_ids.len() ==> applied.contains(#[trigger] old_ids[i]),
    ensures
        pending_ids(old_ids + new_ids, applied) == pending_ids(new_ids, applied),
        r is Ok ==> calls == seq![create_call(ledger, true), read_call(ledger, rows)] + success_calls(per_item, old_ids + new_ids, applied, ledger, payloads),
{
    law_applied_prefix_is_skipped(applied, old_ids, new_ids);
    if r is Ok {
        let (rows3, applied3, outs) = lemma_ran_ok(calls, per_item, old_ids + new_ids, ledger, payloads);
        assert(calls[1] == read_call(ledger, rows3));
        law_successful_call(calls, per_item, old_ids + new_ids, ledger, payloads);
        lemma_calls_so_far(per_item, old_ids + new_ids, applied, outs, ledger, payloads);
        lemma_initial(per_item, old_ids + new_ids, applied);
        lemma_run(initial(per_item, old_ids + new_ids, applied), outs);
    }
}

/// Whether a call came out as a failure.
pub open spec fn call_failed(c: DbCall) -> bool {
    match c {
        DbCall::Batch { ok, .. } => !ok,
        DbCall::Execute { ok, .. } => !ok,
        DbCall::Action { failure, .. } => failure is Some,
        DbCall::Query { .. } => false,
    }
}

pub open spec fn is_rollback(c: DbCall) -> bool {
    match c {
        DbCall::Batch { sql, .. } => sql == rollback_sql(),
        _ => false,
    }
}

proof fn lemma_stops(per_item: bool, ids: Seq<Seq<char>>, applied: Set<Seq<char>>, outs: Seq<Result<(), Seq<char>>>, ledger: Ledger, payloads: Payloads)
    ensures
        ({
            let c = run_calls(initial(per_item, ids, applied), outs, ledger, payloads);
            let f = run(initial(per_item, ids, applied), outs);
            &&& forall|i: int| 0 <= i < c.len() && call_failed(#[trigger] c[i]) ==> f.error is Some
            &&& f.phase is Rollback ==> c.len() > 0 && call_failed(c.last())
                && forall|i: int| 0 <= i < c.len() - 1 ==> !call_failed(#[trigger] c[i])
            &&& forall|i: int| 0 <= i < c.len() && call_failed(#[trigger] c[i]) ==> c.len() <= i + 2 && (c.len() == i + 2 ==> is_rollback(c[i + 1]))
        }),
    decreases outs.len(),
{
    let s0 = initial(per_item, ids, applied);
    lemma_initial(per_item, ids, applied);
    if outs.len() > 0 {
        let prefix = outs.drop_last();
        lemma_stops(per_item, ids, applied, prefix, ledger, payloads);
        lemma_run(s0, prefix);
        let t = run(s0, prefix);
        let cp = run_calls(s0, prefix, ledger, payloads);
        let c = run_calls(s0, outs, ledger, payloads);
        assert(run(s0, outs) == t.step(outs.last()));
        if t.phase is Done {
            assert(c =~= cp);
        } else {
            let o = outs.last();
            let d = op_call(t, o, ledger, payloads);
            let f = t.step(o);
            assert(c =~= cp.push(d));
            assert(forall|i: int| 0 <= i < cp.len() ==> c[i] == cp[i]);
            assert(call_failed(d) <==> o is Err);
            if t.phase is Rollback {
                assert(is_rollback(d));
                assert(f.phase is Done);
            } else {
                assert(t.error is None);
                assert(forall|i: int| 0 <= i < cp.len() ==> !call_failed(#[trigger] cp[i]));
            }
            if f.phase is Rollback {
                assert(!(t.phase is Rollback));
                assert(o is Err);
                assert(c.last() == d);
                assert(forall|i: int| 0 <= i < c.len() - 1 ==> c[i] == cp[i]);
            }
            assert forall|i: int| 0 <= i < c.len() && call_failed(#[trigger] c[i]) implies f.error is Some by {
                if i < cp.len() {
                    assert(call_failed(cp[i]));
                }
            }
            assert forall|i: int| 0 <= i < c.len() && call_failed(#[trigger] c[i]) implies c.len() <= i + 2 && (c.len() == i + 2 ==> is_rollback(c[i + 1])) by {
                if i < cp.len() {
                    assert(call_failed(cp[i]));
                    assert(t.phase is Rollback);
                }
            }
        }
    }
}

proof fn lemma_stops_after_read(
    calls: Seq<DbCall>,
    per_item: bool,
    ids: Seq<Seq<char>>,
    ledger: Ledger,
    payloads: Payloads,
    rows: Option<Seq<Option<Seq<char>>>>,
    applied: Set<Seq<char>>,
    outs: Seq<Result<(), Seq<char>>>,
)
    requires
        calls == seq![create_call(ledger, true), read_call(ledger, rows)] + run_calls(initial(per_item, ids, applied), outs, ledger, payloads),
    ensures
        forall|i: int| 0 <= i < calls.len() && call_failed(#[trigger] calls[i]) ==> calls.len() <= i + 2 && (calls.len() == i + 2 ==> is_rollback(calls[i + 1])),
{
    lemma_stops(per_item, ids, applied, outs, ledger, payloads);
    let c = run_calls(initial(per_item, ids, applied), outs, ledger, payloads);
    assert forall|i: int| 0 <= i < calls.len() && call_failed(#[trigger] calls[i]) implies calls.len() <= i + 2 && (calls.len() == i + 2 ==> is_rollback(calls[i + 1])) by {
        assert(i >= 2);
        assert(calls[i] == c[i - 2]);
        if calls.len() == i + 2 {
            assert(calls[i + 1] == c[i - 1]);
        }
    }
}

/// A run stops at its first failure: after a call that failed, at most one call
/// follows, a `ROLLBACK`, so no payload or ledger row after the failing one runs.
pub proof fn law_failed_call_stops(calls: Seq<DbCall>, r: MigrateResult<()>, per_item: bool, ids: Seq<Seq<char>>, ledger: Ledger, payloads: Payloads)
    requires
        ran(calls, r, per_item, ids, ledger, payloads),
    ensures
        forall|i: int| 0 <= i < calls.len() && call_failed(#[trigger] calls[i]) ==> calls.len() <= i + 2 && (calls.len() == i + 2 ==> is_rollback(calls[i + 1])),
{
    if calls.len() > 2 {
        if r is Ok {
            let (rows, applied, outs) = lemma_ran_ok(calls, per_item, ids, ledger, payloads);
            lemma_stops_after_read(calls, per_item, ids, ledger, payloads, rows, applied, outs);
        } else {
            let (rows, applied, outs) = lemma_ran_err(calls, r->Err_0, per_item, ids, ledger, payloads);
            lemma_stops_after_read(calls, per_item, ids, ledger, payloads, rows, applied, outs);
        }
    } else if calls.len() == 2 {
        if calls == seq![create_call(ledger, false)] {
        } else if exists|rows2: Option<Seq<Option<Seq<char>>>>| {
            &&& #[trigger] ledger_read(rows2) is None
            &&& calls == seq![create_call(ledger, true), read_call(ledger, rows2)]
        } {
            let rows2 = choose|rows2: Option<Seq<Option<Seq<char>>>>| {
                &&& #[trigger] ledger_read(rows2) is None
                &&& calls == seq![create_call(ledger, true), read_call(ledger, rows2)]
            };
            assert(calls[1] == read_call(ledger, rows2));
        } else {
            let (rows, applied, outs) = choose|rows3: Option<Seq<Option<Seq<char>>>>, applied3: Set<Seq<char>>, outs: Seq<Result<(), Seq<char>>>| {
                &&& #[trigger] ledger_read(rows3) == Some(applied3)
                &&& calls == seq![create_call(ledger, true), read_call(ledger, rows3)] + #[trigger] run_calls(initial(per_item, ids, applied3), outs, ledger, payloads)
                &&& reports(r, run(initial(per_item, ids, applied3), outs))
            };
            assert(calls[1] == read_call(ledger, rows));
        }
        assert(!call_failed(calls[1]));
        assert(!call_failed(calls[0]));
    }
}

proof fn lemma_action_failure(per_item: bool, ids: Seq<Seq<char>>, applied: Set<Seq<char>>, outs: Seq<Result<(), Seq<char>>>, ledger: Ledger)
    ensures
        ({
            let c = run_calls(initial(per_item, ids, applied), outs, ledger, Payloads::Actions);
            let f = run(initial(per_item, ids, applied), outs);
            forall|i: int| 0 <= i < c.len() && (#[trigger] c[i]) is Action && c[i]->Action_failure is Some
                ==> 0 <= c[i]->Action_index < ids.len() && f.error == Some(ErrorView::MigrationFailed {
                    id: ids[c[i]->Action_index],
                    message: c[i]->Action_failure->Some_0,
                })
        }),
    decreases outs.len(),
{
    let s0 = initial(per_item, ids, applied);
    lemma_initial(per_item, ids, applied);
    if outs.len() > 0 {
        let prefix = outs.drop_last();
        lemma_action_failure(per_item, ids, applied, prefix, ledger);
        lemma_run(s0, prefix);
        let t = run(s0, prefix);
        let cp = run_calls(s0, prefix, ledger, Payloads::Actions);
        let c = run_calls(s0, outs, ledger, Payloads::Actions);
        let o = outs.last();
        assert(run(s0, outs) == t.step(o));
        if t.phase is Done {
            assert(c =~= cp);
        } else {
            let d = op_call(t, o, ledger, Payloads::Actions);
            assert(c =~= cp.push(d));
            assert forall|i: int| 0 <= i < c.len() && (#[trigger] c[i]) is Action && c[i]->Action_failure is Some
                implies 0 <= c[i]->Action_index < ids.len() && run(s0, outs).error == Some(ErrorView::MigrationFailed {
                    id: ids[c[i]->Action_index],
                    message: c[i]->Action_failure->Some_0,
                }) by {
                if i < cp.len() {
                    assert(cp[i] == c[i]);
                    assert(t.error is Some);
                } else {
                    assert(t.phase is Apply);
                    assert(o is Err);
                }
            }
        }
    }
}

/// A failed seed action is what the run reports: its error names the seed and carries
/// the text of the error that the action returned.
pub proof fn law_failed_action_is_reported(
    calls: Seq<DbCall>,
    e: Error,
    per_item: bool,
    ids: Seq<Seq<char>>,
    ledger: Ledger,
    i: int,
    k: int,
    m: Seq<char>,
)
    requires
        ran(calls, Err(e), per_item, ids, ledger, Payloads::Actions),
        0 <= i < calls.len(),
        calls[i] == (DbCall::Action { index: k, failure: Some(m) }),
    ensures
        0 <= k < ids.len(),
        e@ == (ErrorView::MigrationFailed { id: ids[k], message: m }),
{
    if calls.len() <= 2 {
        if calls == seq![create_call(ledger, false)] {
        } else if exists|rows2: Option<Seq<Option<Seq<char>>>>| {
            &&& #[trigger] ledger_read(rows2) is None
            &&& calls == seq![create_call(ledger, true), read_call(ledger, rows2)]
        } {
            let rows2 = choose|rows2: Option<Seq<Option<Seq<char>>>>| {
                &&& #[trigger] ledger_read(rows2) is None
                &&& calls == seq![create_call(ledger, true), read_call(ledger, rows2)]
            };
            assert(calls[1] == read_call(ledger, rows2));
        } else {
            let (rows, applied, outs) = choose|rows3: Option<Seq<Option<Seq<char>>>>, applied3: Set<Seq<char>>, outs: Seq<Result<(), Seq<char>>>| {
                &&& #[trigger] ledger_read(rows3) == Some(applied3)
                &&& calls == seq![create_call(ledger, true), read_call(ledger, rows3)] + #[trigger] run_calls(initial(per_item, ids, applied3), outs, ledger, Payloads::Actions)
                &&& reports(Err(e), run(initial(per_item, ids, applied3), outs))
            };
            assert(calls[1] == read_call(ledger, rows));
        }
    } else {
        let (rows, applied, outs) = lemma_ran_err(calls, e, per_item, ids, ledger, Payloads::Actions);
        lemma_action_failure(per_item, ids, applied, outs, ledger);
        let c = run_calls(initial(per_item, ids, applied), outs, ledger, Payloads::Actions);
        assert(i >= 2);
        assert(calls[i] == c[i - 2]);
    }
}

/// A run whose ledger read holds every id of the list opens no transaction: it makes
/// only the two ledger calls, runs no payload, writes no ledger row, and succeeds.
pub proof fn law_nothing_pending_makes_no_change(
    calls: Seq<DbCall>,
    r: MigrateResult<()>,
    per_item: bool,
    ids: Seq<Seq<char>>,
    ledger: Ledger,
    payloads: Payloads,
    rows: Option<Seq<Option<Seq<char>>>>,
    applied: Set<Seq<char>>,
)
    requires
        ran(calls, r, per_item, ids, ledger, payloads),
        calls.len() >= 2,
        calls[1] == read_call(ledger, rows),
        ledger_read(rows) == Some(applied),
        forall|i: int| 0 <= i < ids.len() ==> applied.contains(#[trigger] ids[i]),
    ensures
        calls == seq![create_call(ledger, true), read_call(ledger, rows)],
        r is Ok,
{
    if calls.len() == 2 && exists|rows2: Option<Seq<Option<Seq<char>>>>| {
        &&& #[trigger] ledger_read(rows2) is None
        &&& calls == seq![create_call(ledger, true), read_call(ledger, rows2)]
    } {
        let rows2 = choose|rows2: Option<Seq<Option<Seq<char>>>>| {
            &&& #[trigger] ledger_read(rows2) is None
            &&& calls == seq![create_call(ledger, true), read_call(ledger, rows2)]
        };
        assert(calls[1] == read_call(ledger, rows2));
    }
    if calls == seq![create_call(ledger, false)] {
        assert(calls.len() == 1);
    }
    let (rows3, applied3, outs) = choose|rows3: Option<Seq<Option<Seq<char>>>>, applied3: Set<Seq<char>>, outs: Seq<Result<(), Seq<char>>>| {
        &&& #[trigger] ledger_read(rows3) == Some(applied3)
        &&& calls == seq![create_call(ledger, true), read_call(ledger, rows3)] + #[trigger] run_calls(initial(per_item, ids, applied3), outs, ledger, payloads)
        &&& reports(r, run(initial(per_item, ids, applied3), outs))
    };
    assert(calls[1] == read_call(ledger, rows3));
    assert(rows3 == rows);
    law_nothing_pending_opens_no_transaction(per_item, ids, applied, outs);
    lemma_run_calls_from_done(initial(per_item, ids, applied), outs, ledger, payloads);
    assert(calls =~= seq![create_call(ledger, true), read_call(ledger, rows)]);
}

/// Applying a list twice applies it once: after a call that succeeded, where the
/// database kept what the call committed, its ledger holds the ids read before and
/// every id of the list; a second call over the same list that reads that ledger
/// makes only the two ledger calls and succeeds.
pub proof fn law_second_call_is_noop(
    calls1: Seq<DbCall>,
    calls2: Seq<DbCall>,
    r2: MigrateResult<()>,
    per_item: bool,
    ids: Seq<Seq<char>>,
    ledger: Ledger,
    payloads: Payloads,
    rows1: Option<Seq<Option<Seq<char>>>>,
    rows2: Option<Seq<Option<Seq<char>>>>,
    applied1: Set<Seq<char>>,
)
    requires
        ran(calls1, Ok(()), per_item, ids, ledger, payloads),
        calls1.len() >= 2,
        calls1[1] == read_call(ledger, rows1),
        ledger_read(rows1) == Some(applied1),
        ran(calls2, r2, per_item, ids, ledger, payloads),
        calls2.len() >= 2,
        calls2[1] == read_call(ledger, rows2),
        ledger_read(rows2) == Some(applied1.union(ids.to_set())),
    ensures
        exists|outs: Seq<Result<(), Seq<char>>>| {
            &&& calls1 == seq![create_call(ledger, true), read_call(ledger, rows1)] + #[trigger] run_calls(initial(per_item, ids, applied1), outs, ledger, payloads)
            &&& run(initial(per_item, ids, applied1), outs).committed == applied1.union(ids.to_set())
        },
        calls2 == seq![create_call(ledger, true), read_call(ledger, rows2)],
        r2 is Ok,
{
    let (rows3, applied3, outs) = lemma_ran_ok(calls1, per_item, ids, ledger, payloads);
    assert(calls1[1] == read_call(ledger, rows3));
    law_second_run_is_noop(per_item, ids, applied1, outs, outs);
    assert forall|i: int| 0 <= i < ids.len() implies applied1.union(ids.to_set()).contains(#[trigger] ids[i]) by {
        assert(ids.to_set().contains(ids[i]));
    }
    law_nothing_pending_makes_no_change(calls2, r2, per_item, ids, ledger, payloads, rows2, applied1.union(ids.to_set()));
}

/// The items of a run, whose payloads the driver applies by index.
trait Payload {
    spec fn count(&self) -> nat;

    spec fn id_at(&self, i: int) -> Seq<char>;

    spec fn payloads(&self) -> Payloads;

    /// Every payload may be run.
    spec fn ready(&self) -> bool;

    fn len(&self) -> (r: usize)
        ensures
            r == self.count(),
    ;

    fn id(&self, index: usize) -> (r: &str)
        requires
            index < self.count(),
        ensures
            r@ == self.id_at(index as int),
    ;

    /// Runs the payload of item `index` inside the open transaction; on failure, the
    /// message to report.
    fn apply(&self, db: &mut Database, index: usize) -> (r: Result<(), String>)
        requires
            self.ready(),
            index < self.count(),
        ensures
            final(db).log() == old(db).log().push(
                match self.payloads() {
                    Payloads::Batches(sqls) => DbCall::Batch { sql: sqls[index as int], ok: r is Ok },
                    Payloads::Actions => DbCall::Action { index: index as int, failure: failure_of(outcome_view(r)) },
                },
            ),
    ;
}

/// The ids of the items of a run, in order.
spec fn payload_ids<P: Payload>(p: &P) -> Seq<Seq<char>> {
    Seq::new(p.count(), |i: int| p.id_at(i))
}

/// The SQL of each migration, in order.
pub open spec fn migration_sqls(m: Seq<Migration>) -> Seq<Seq<char>> {
    m.map_values(|x: Migration| x.sql@)
}

pub open spec fn migration_ids(m: Seq<Migration>) -> Seq<Seq<char>> {
    m.map_values(|x: Migration| x.id@)
}

struct Migrations<'a> {
    items: &'a [Migration],
}

impl<'a> Payload for Migrations<'a> {
    spec fn count(&self) -> nat {
        self.items@.len()
    }

    spec fn id_at(&self, i: int) -> Seq<char> {
        self.items@[i].id@
    }

    spec fn payloads(&self) -> Payloads {
        Payloads::Batches(migration_sqls(self.items@))
    }

    spec fn ready(&self) -> bool {
        true
    }

    fn len(&self) -> (r: usize) {
        self.items.len()
    }

    fn id(&self, index: usize) -> (r: &str) {
        self.items[index].id
    }

    fn apply(&self, db: &mut Database, index: usize) -> (r: Result<(), String>) {
        let r = db.execute_batch(self.items[index].sql);
        match r {
            Ok(()) => Ok(()),
            Err(e) => Err(error_message(&e)),
        }
    }
}

/// The SQL of each migration, in order.
pub open spec fn sql_migration_sqls(m: Seq<SqlMigration>) -> Seq<Seq<char>> {
    m.map_values(|x: SqlMigration| x.sql@)
}

pub open spec fn sql_migration_ids(m: Seq<SqlMigration>) -> Seq<Seq<char>> {
    m.map_values(|x: SqlMigration| x.id@)
}

struct SqlMigrations<'a> {
    items: &'a [SqlMigration],
}

impl<'a> Payload for SqlMigrations<'a> {
    spec fn count(&self) -> nat {
        self.items@.len()
    }

    spec fn id_at(&self, i: int) -> Seq<char> {
        self.items@[i].id@
    }

    spec fn payloads(&self) -> Payloads {
        Payloads::Batches(sql_migration_sqls(self.items@))
    }

    spec fn ready(&self) -> bool {
        true
    }

    fn len(&self) -> (r: usize) {
        self.items.len()
    }

    fn id(&self, index: usize) -> (r: &str) {
        self.items[index].id
    }

    fn apply(&self, db: &mut Database, index: usize) -> (r: Result<(), String>) {
        let r = db.execute_batch(self.items[index].sql);
        match r {
            Ok(()) => Ok(()),
            Err(e) => Err(error_message(&e)),
        }
    }
}

/// Every seed action accepts every connection.
pub open spec fn seeds_ready<F: Fn(&Connection) -> Result<(), Error>>(seeds: Seq<Seed<F>>) -> bool {
    forall|i: int, c: &Connection| 0 <= i < seeds.len() ==> #[trigger] seeds[i].seed_fn.requires((c,))
}

pub open spec fn seed_ids<F>(s: Seq<Seed<F>>) -> Seq<Seq<char>> {
    s.map_values(|x: Seed<F>| x.id@)
}

struct Seeds<'a, F> {
    items: &'a [Seed<F>],
}

impl<'a, F: Fn(&Connection) -> Result<(), Error>> Payload for Seeds<'a, F> {
    spec fn count(&self) -> nat {
        self.items@.len()
    }

    spec fn id_at(&self, i: int) -> Seq<char> {
        self.items@[i].id@
    }

    spec fn payloads(&self) -> Payloads {
        Payloads::Actions
    }

    spec fn ready(&self) -> bool {
        seeds_ready(self.items@)
    }

    fn len(&self) -> (r: usize) {
        self.items.len()
    }

    fn id(&self, index: usize) -> (r: &str) {
        self.items[index].id
    }

    fn apply(&self, db: &mut Database, index: usize) -> (r: Result<(), String>) {
        let r = db.run_action(&self.items[index].seed_fn, index);
        match r {
            Ok(()) => Ok(()),
            Err(e) => Err(e.to_string()),
        }
    }
}

fn ids_of<P: Payload>(p: &P) -> (r: Vec<String>)
    ensures
        texts(r@) == payload_ids(p),
{
    let mut r: Vec<String> = Vec::new();
    let n = p.len();
    let mut i: usize = 0;
    while i < n
        invariant
            i <= n,
            n == p.count(),
            texts(r@) == payload_ids(p).take(i as int),
        decreases n - i,
    {
        let ghost before = r@;
        r.push(String::from_str(p.id(i)));
        assert(texts(r@) =~= texts(before).push(p.id_at(i as int)));
        assert(payload_ids(p).take(i + 1) =~= payload_ids(p).take(i as int).push(p.id_at(i as int)));
        i = i + 1;
    }
    assert(payload_ids(p).take(n as int) =~= payload_ids(p));
    r
}

/// The outcome of a database call as the runner takes it.
fn outcome<T>(r: Result<T, SqlError>) -> (o: Result<(), String>)
    ensures
        r is Ok <==> o is Ok,
{
    match r {
        Ok(_) => Ok(()),
        Err(e) => Err(error_message(&e)),
    }
}

/// Applies the pending items of `items` against `ledger`.
fn drive<P: Payload>(db: &mut Database, ledger: &Ledger, items: &P, per_item: bool) -> (r: MigrateResult<()>)
    requires
        items.ready(),
    ensures
        ran(final(db).log().skip(old(db).log().len() as int), r, per_item, payload_ids(items), *ledger, items.payloads()),
        final(db).log().take(old(db).log().len() as int) == old(db).log(),
{
    let ghost log0 = db.log();
    match ensure_ledger(db, ledger) {
        Ok(()) => {},
        Err(e) => {
            assert(db.log().skip(log0.len() as int) =~= seq![create_call(*ledger, false)]);
            assert(db.log().take(log0.len() as int) =~= log0);
            return Err(e);
        },
    }
    let (read_result, rows) = read(db, ledger);
    let ghost head = seq![create_call(*ledger, true), read_call(*ledger, rows@)];
    assert(db.log() =~= log0 + head);
    let applied = match read_result {
        Ok(a) => a,
        Err(e) => {
            assert(db.log().skip(log0.len() as int) =~= head);
            assert(db.log().take(log0.len() as int) =~= log0);
            return Err(e);
        },
    };
    let n: usize = items.len();
    let mut runner = Runner::new(per_item, ids_of(items), &applied);
    let ghost start = runner@;
    let ghost mut outs: Seq<Result<(), Seq<char>>> = Seq::empty();
    assert(log0 + head + run_calls(start, outs, *ledger, items.payloads()) =~= log0 + head);
    while !runner.is_done()
        invariant
            runner@.wf(),
            runner@ == run(start, outs),
            start == initial(per_item, payload_ids(items), applied@),
            runner@.ids == payload_ids(items),
            n == items.count(),
            db.log() == log0 + head + run_calls(start, outs, *ledger, items.payloads()),
            items.ready(),
        decreases runner@.measure(),
    {
        let ghost s = runner@;
        let ghost before = db.log();
        let op = runner.next_op();
        proof {
            if s.phase is Apply || s.phase is Record {
                assert(s.ids.len() == n);
                assert(0 <= s.pending[s.pos] < s.ids.len());
                assert(s.current() == items.id_at(s.pending[s.pos]));
            }
        }
        let o = match op {
            Op::Begin => outcome(db.execute_batch("BEGIN DEFERRED")),
            Op::Apply(i) => {
                assert(i as int == s.pending[s.pos]);
                items.apply(db, i)
            },
            Op::Record(i) => {
                assert(i as int == s.pending[s.pos]);
                let params = vec![items.id(i)];
                let r = db.execute(ledger.insert_sql(), params.as_slice());
                assert(params@.map_values(|p: &str| p@) =~= seq![s.current()]);
                outcome(r)
            },
            Op::Commit => outcome(db.execute_batch("COMMIT")),
            _ => outcome(db.execute_batch("ROLLBACK")),
        };
        proof {
            lemma_run_push(start, outs, outcome_view(o));
            assert(outs.push(outcome_view(o)).drop_last() =~= outs);
            assert(db.log() == before.push(op_call(s, outcome_view(o), *ledger, items.payloads())));
            outs = outs.push(outcome_view(o));
            assert(db.log() =~= log0 + head + run_calls(start, outs, *ledger, items.payloads()));
        }
        runner.advance(o);
    }
    let r = runner.finish();
    assert(db.log().skip(log0.len() as int) =~= head + run_calls(start, outs, *ledger, items.payloads()));
    assert(db.log().take(log0.len() as int) =~= log0);
    assert(ledger_read(rows@) == Some(applied@));
    assert(reports(r, run(initial(per_item, payload_ids(items), applied@), outs)));
    r
}

/// Applies the pending migrations of `migrations`, in list order, in one transaction.
///
/// The migrations ledger is created if need be and read; the migrations whose ids it
/// lacks are pending. With none pending, no transaction is opened. Otherwise each one's
/// SQL runs and its id is recorded, all in one transaction that is committed at the end.
/// If a migration's SQL or its ledger row fails, the error names that migration, the
/// transaction is rolled back, and nothing after it runs.
pub fn migrate(db: &mut Database, migrations: &[Migration]) -> (r: MigrateResult<()>)
    ensures
        final(db).log().take(old(db).log().len() as int) == old(db).log(),
        ran(
            final(db).log().skip(old(db).log().len() as int),
            r,
            false,
            migration_ids(migrations@),
            Ledger::Migrations,
            Payloads::Batches(migration_sqls(migrations@)),
        ),
{
    let items = Migrations { items: migrations };
    assert(payload_ids(&items) =~= migration_ids(migrations@));
    drive(db, &Ledger::Migrations, &items, false)
}

/// Applies the pending migrations of `migrations`, as [`migrate`] does.
pub fn up(db: &mut Database, migrations: &[Migration]) -> (r: MigrateResult<()>)
    ensures
        final(db).log().take(old(db).log().len() as int) == old(db).log(),
        ran(
            final(db).log().skip(old(db).log().len() as int),
            r,
            false,
            migration_ids(migrations@),
            Ledger::Migrations,
            Payloads::Batches(migration_sqls(migrations@)),
        ),
{
    migrate(db, migrations)
}

/// Applies the pending migrations of `migrations`, as [`migrate`] does.
pub fn run_up(db: &mut Database, migrations: &[SqlMigration]) -> (r: MigrateResult<()>)
    ensures
        final(db).log().take(old(db).log().len() as int) == old(db).log(),
        ran(
            final(db).log().skip(old(db).log().len() as int),
            r,
            false,
            sql_migration_ids(migrations@),
            Ledger::Migrations,
            Payloads::Batches(sql_migration_sqls(migrations@)),
        ),
{
    let items = SqlMigrations { items: migrations };
    assert(payload_ids(&items) =~= sql_migration_ids(migrations@));
    drive(db, &Ledger::Migrations, &items, false)
}

/// Applies the pending seeds of `seeds`, in list order, each in its own transaction.
///
/// The seeds ledger is created if need be and read; the seeds whose ids it lacks are
/// pending. Each pending seed's action runs on the connection inside a new transaction,
/// its id is recorded, and the transaction is committed. If a seed's action, its ledger
/// row or its transaction fails, the transaction is rolled back, the run stops with an
/// error that names the seed, and the seeds committed before it stay.
pub fn seed<F: Fn(&Connection) -> Result<(), Error>>(db: &mut Database, seeds: &[Seed<F>]) -> (r: MigrateResult<()>)
    requires
        seeds_ready(seeds@),
    ensures
        final(db).log().take(old(db).log().len() as int) == old(db).log(),
        ran(
            final(db).log().skip(old(db).log().len() as int),
            r,
            true,
            seed_ids(seeds@),
            Ledger::Seeds,
            Payloads::Actions,
        ),
{
    let items = Seeds { items: seeds };
    assert(payload_ids(&items) =~= seed_ids(seeds@));
    drive(db, &Ledger::Seeds, &items, true)
}

} // verus!

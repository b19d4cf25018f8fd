//! The sequencing of one migration or seed run, as a state machine.
//!
//! A driver asks [`Runner::next_op`] what to do, does it against the database, and
//! reports the outcome with [`Runner::advance`]; it stops at [`Op::Finish`]. The
//! decisions are all here, so a blocking driver and one that awaits each database
//! call issue the same operations in the same order.
//!
//! Beside the executable state the machine keeps a ghost model of the ledger: the
//! ids whose rows are committed, and those recorded in the open transaction. It reads
//! a database that honours transactions: a commit keeps the recorded rows, a failed
//! commit or a rollback drops them.
use vstd::prelude::*;
use crate::error::{Error, ErrorView};
use crate::ledger::{texts, AppliedIds};

verus! {

/// An operation that the driver performs next.
#[derive(Debug, Clone, Copy, PartialEq, Eq, Structural)]
pub enum Op {
    /// Open a transaction.
    Begin,
    /// Run the payload of the item at this index of the list.
    Apply(usize),
    /// Insert the ledger row of the item at this index of the list.
    Record(usize),
    /// Commit the open transaction.
    Commit,
    /// Roll back the open transaction.
    Rollback,
    /// Stop: the run is over and its result is ready.
    Finish,
}

/// Where a run stands.
#[derive(Clone, Copy)]
pub enum Phase {
    Begin,
    Apply,
    Record,
    Commit,
    Rollback,
    Done,
}

/// A run of the machine as mathematical values.
pub struct RunState {
    /// One transaction per item (seeds) rather than one for the whole batch (migrations).
    pub per_item: bool,
    /// The ids of the list, in list order.
    pub ids: Seq<Seq<char>>,
    /// The indices of the pending items, in list order.
    pub pending: Seq<int>,
    /// How many pending items are behind us.
    pub pos: int,
    pub phase: Phase,
    /// The error that the run ends with, once there is one.
    pub error: Option<ErrorView>,
    /// The ledger when the run began.
    pub base: Set<Seq<char>>,
    /// The ids whose ledger rows are committed.
    pub committed: Set<Seq<char>>,
    /// The ids recorded in the open transaction.
    pub staged: Set<Seq<char>>,
}

/// The ids of the list that the ledger lacks, in list order.
pub open spec fn pending_ids(ids: Seq<Seq<char>>, applied: Set<Seq<char>>) -> Seq<Seq<char>> {
    ids.filter(|x: Seq<char>| !applied.contains(x))
}

/// The indices of the items of the list that the ledger lacks, in list order.
pub open spec fn pending_indices(ids: Seq<Seq<char>>, applied: Set<Seq<char>>) -> Seq<int>
    decreases ids.len(),
{
    if ids.len() == 0 {
        Seq::empty()
    } else {
        let rest = pending_indices(ids.drop_last(), applied);
        if applied.contains(ids.last()) {
            rest
        } else {
            rest.push(ids.len() - 1)
        }
    }
}

/// A run before its first operation, given the ledger as read from the database.
pub open spec fn initial(per_item: bool, ids: Seq<Seq<char>>, applied: Set<Seq<char>>) -> RunState {
    let p = pending_indices(ids, applied);
    RunState {
        per_item,
        ids,
        pending: p,
        pos: 0,
        phase: if p.len() == 0 {
            Phase::Done
        } else {
            Phase::Begin
        },
        error: None,
        base: applied,
        committed: applied,
        staged: Set::empty(),
    }
}

/// What the driver reports of an operation: success, or the database's message.
pub open spec fn outcome_view(o: Result<(), String>) -> Result<(), Seq<char>> {
    match o {
        Ok(_) => Ok(()),
        Err(m) => Err(m@),
    }
}

/// The state after the driver has reported each outcome in turn.
pub open spec fn run(s: RunState, outs: Seq<Result<(), Seq<char>>>) -> RunState
    decreases outs.len(),
{
    if outs.len() == 0 {
        s
    } else {
        run(s, outs.drop_last()).step(outs.last())
    }
}

impl RunState {
    /// The id of the pending item at hand.
    pub open spec fn current(self) -> Seq<char> {
        self.ids[self.pending[self.pos]]
    }

    /// The ids of the first `k` pending items.
    pub open spec fn done_ids(self, k: int) -> Set<Seq<char>> {
        Set::new(|x: Seq<char>| exists|j: int| 0 <= j < k && x == self.ids[#[trigger] self.pending[j]])
    }

    /// The error for a failed transaction operation: seeds have a transaction each, so
    /// the failure is the seed's; a batch of migrations shares one, so it is the database's.
    pub open spec fn failure(self, m: Seq<char>) -> ErrorView {
        if self.per_item {
            ErrorView::MigrationFailed { id: self.current(), message: m }
        } else {
            ErrorView::Database(m)
        }
    }

    pub open spec fn next_op(self) -> Op {
        match self.phase {
            Phase::Begin => Op::Begin,
            Phase::Apply => Op::Apply(self.pending[self.pos] as usize),
            Phase::Record => Op::Record(self.pending[self.pos] as usize),
            Phase::Commit => Op::Commit,
            Phase::Rollback => Op::Rollback,
            Phase::Done => Op::Finish,
        }
    }

    /// The state after the operation `self.next_op()` came out as `out`.
    pub open spec fn step(self, out: Result<(), Seq<char>>) -> RunState {
        match self.phase {
            Phase::Begin => match out {
                Ok(_) => RunState { phase: Phase::Apply, staged: Set::empty(), ..self },
                Err(m) => RunState { phase: Phase::Done, error: Some(self.failure(m)), ..self },
            },
            Phase::Apply => match out {
                Ok(_) => RunState { phase: Phase::Record, ..self },
                Err(m) => RunState {
                    phase: Phase::Rollback,
                    error: Some(ErrorView::MigrationFailed { id: self.current(), message: m }),
                    ..self
                },
            },
            Phase::Record => match out {
                Ok(_) => if self.per_item {
                    RunState {
                        phase: Phase::Commit,
                        staged: self.staged.insert(self.current()),
                        ..self
                    }
                } else {
                    RunState {
                        pos: self.pos + 1,
                        phase: if self.pos + 1 < self.pending.len() {
                            Phase::Apply
                        } else {
                            Phase::Commit
                        },
                        staged: self.staged.insert(self.current()),
                        ..self
                    }
                },
                Err(m) => RunState {
                    phase: Phase::Rollback,
                    error: Some(ErrorView::MigrationFailed { id: self.current(), message: m }),
                    ..self
                },
            },
            Phase::Commit => match out {
                Ok(_) => if self.per_item {
                    RunState {
                        pos: self.pos + 1,
                        phase: if self.pos + 1 < self.pending.len() {
                            Phase::Begin
                        } else {
                            Phase::Done
                        },
                        committed: self.committed.union(self.staged),
                        staged: Set::empty(),
                        ..self
                    }
                } else {
                    RunState {
                        phase: Phase::Done,
                        committed: self.committed.union(self.staged),
                        staged: Set::empty(),
                        ..self
                    }
                },
                Err(m) => RunState { phase: Phase::Rollback, error: Some(self.failure(m)), ..self },
            },
            Phase::Rollback => RunState { phase: Phase::Done, staged: Set::empty(), ..self },
            Phase::Done => self,
        }
    }

    pub open spec fn in_item(self) -> bool {
        self.phase is Begin || self.phase is Apply || self.phase is Record
    }

    /// The shape of a reachable state, and what its ledger holds.
    pub open spec fn wf(self) -> bool {
        &&& self.pending == pending_indices(self.ids, self.base)
        &&& forall|k: int| 0 <= k < self.pending.len() ==> 0 <= #[trigger] self.pending[k] < self.ids.len()
        &&& 0 <= self.pos <= self.pending.len()
        &&& self.in_item() ==> self.pos < self.pending.len()
        &&& self.phase is Rollback ==> (self.pos < self.pending.len() || (!self.per_item && self.pos == self.pending.len()))
        &&& self.phase is Commit ==> self.pending.len() > 0
        &&& self.phase is Commit ==> if self.per_item {
            self.pos < self.pending.len()
        } else {
            self.pos == self.pending.len()
        }
        &&& (self.in_item() || self.phase is Commit) ==> self.error is None
        &&& self.phase is Rollback ==> self.error is Some
        &&& (self.phase is Done && self.error is None) ==> self.pos == self.pending.len()
        &&& if self.per_item {
            &&& self.committed == self.base.union(self.done_ids(self.pos))
            &&& self.error is Some ==> self.pos < self.pending.len()
            &&& self.error is Some ==> self.error == Some(self.failure(self.error->Some_0->MigrationFailed_message))
            &&& self.in_item() ==> self.staged == Set::<Seq<char>>::empty()
            &&& self.phase is Commit ==> self.staged == set![self.current()]
        } else {
            &&& self.phase is Begin ==> self.pos == 0
            &&& if self.phase is Done && self.error is None {
                self.committed == self.base.union(self.done_ids(self.pos))
            } else {
                self.committed == self.base
            }
            &&& (self.in_item() || self.phase is Commit) ==> self.staged == self.done_ids(self.pos)
        }
    }

    /// An upper bound on the operations left before `Finish`.
    pub open spec fn measure(self) -> nat {
        let r: int = match self.phase {
            Phase::Begin => 5,
            Phase::Apply => 4,
            Phase::Record => 3,
            Phase::Commit => 2,
            Phase::Rollback => 1,
            Phase::Done => 0,
        };
        if self.phase is Done {
            0
        } else {
            (5 * (self.pending.len() - self.pos) + r) as nat
        }
    }
}

proof fn lemma_done_ids_next(s: RunState)
    requires
        0 <= s.pos < s.pending.len(),
    ensures
        s.done_ids(s.pos + 1) == s.done_ids(s.pos).insert(s.current()),
{
    assert(s.done_ids(s.pos + 1) =~= s.done_ids(s.pos).insert(s.current())) by {
        assert forall|x: Seq<char>| #[trigger] s.done_ids(s.pos + 1).contains(x) implies s.done_ids(
            s.pos,
        ).insert(s.current()).contains(x) by {
            let j = choose|j: int| 0 <= j < s.pos + 1 && x == s.ids[#[trigger] s.pending[j]];
            if j < s.pos {
                assert(s.done_ids(s.pos).contains(x));
            }
        }
    }
}

proof fn lemma_done_ids_zero(s: RunState)
    ensures
        s.done_ids(0) == Set::<Seq<char>>::empty(),
{
    assert(s.done_ids(0) =~= Set::<Seq<char>>::empty());
}

/// The indices of the pending items point into the list, in increasing order, at ids
/// that the ledger lacks, and every such item has one.
pub proof fn lemma_pending_indices(ids: Seq<Seq<char>>, applied: Set<Seq<char>>)
    ensures
        ({
            let p = pending_indices(ids, applied);
            &&& forall|k: int| 0 <= k < p.len() ==> 0 <= #[trigger] p[k] < ids.len()
            &&& forall|j: int, k: int| 0 <= j < k < p.len() ==> p[j] < p[k]
            &&& forall|k: int| 0 <= k < p.len() ==> !applied.contains(ids[#[trigger] p[k]])
            &&& forall|i: int|
                0 <= i < ids.len() && !applied.contains(#[trigger] ids[i]) ==> exists|k: int|
                    0 <= k < p.len() && p[k] == i
            &&& p.map_values(|i: int| ids[i]) == pending_ids(ids, applied)
        }),
    decreases ids.len(),
{
    if ids.len() > 0 {
        let d = ids.drop_last();
        lemma_pending_indices(d, applied);
        let q = pending_indices(d, applied);
        let p = pending_indices(ids, applied);
        assert(q.map_values(|i: int| ids[i]) =~= q.map_values(|i: int| d[i]));
        assert forall|i: int| 0 <= i < ids.len() && !applied.contains(#[trigger] ids[i]) implies exists|k: int|
            0 <= k < p.len() && p[k] == i by {
            if i < ids.len() - 1 {
                assert(d[i] == ids[i]);
                let k = choose|k: int| 0 <= k < q.len() && q[k] == i;
                assert(p[k] == q[k]);
            } else {
                assert(ids.last() == ids[i]);
                assert(p == q.push(ids.len() - 1));
                assert(p[q.len() as int] == i);
            }
        }
        let pred = |x: Seq<char>| !applied.contains(x);
        reveal_with_fuel(Seq::filter, 1);
        assert(pending_ids(ids, applied) == if pred(ids.last()) {
            d.filter(pred).push(ids.last())
        } else {
            d.filter(pred)
        });
        if !applied.contains(ids.last()) {
            assert(p.map_values(|i: int| ids[i]) =~= q.map_values(
                |i: int| ids[i],
            ).push(ids.last()));
        }
        assert(p.map_values(|i: int| ids[i]) =~= pending_ids(ids, applied));
    } else {
        reveal_with_fuel(Seq::filter, 1);
        assert(pending_ids(ids, applied) =~= Seq::<Seq<char>>::empty());
    }
}

/// One step keeps a reachable state reachable, and brings `Finish` nearer.
pub proof fn lemma_step(s: RunState, out: Result<(), Seq<char>>)
    requires
        s.wf(),
    ensures
        s.step(out).wf(),
        s.step(out).per_item == s.per_item,
        s.step(out).ids == s.ids,
        s.step(out).pending == s.pending,
        s.step(out).base == s.base,
        !(s.phase is Done) ==> s.step(out).measure() < s.measure(),
{
    lemma_done_ids_zero(s);
    if s.pos < s.pending.len() {
        lemma_done_ids_next(s);
    }
    let t = s.step(out);
    assert(t.done_ids(t.pos) == s.done_ids(t.pos));
    if s.per_item && s.phase is Commit && out is Ok {
        assert(s.base.union(s.done_ids(s.pos)).union(set![s.current()]) =~= s.base.union(
            s.done_ids(s.pos).insert(s.current()),
        ));
    }
    if !s.per_item && s.phase is Commit && out is Ok {
        assert(s.base.union(s.done_ids(s.pos)) == s.committed.union(s.staged));
    }
}

/// A run stays reachable whatever the database reports.
pub proof fn lemma_run(s: RunState, outs: Seq<Result<(), Seq<char>>>)
    requires
        s.wf(),
    ensures
        run(s, outs).wf(),
        run(s, outs).per_item == s.per_item,
        run(s, outs).ids == s.ids,
        run(s, outs).pending == s.pending,
        run(s, outs).base == s.base,
    decreases outs.len(),
{
    if outs.len() > 0 {
        lemma_run(s, outs.drop_last());
        lemma_step(run(s, outs.drop_last()), outs.last());
    }
}

/// Reporting one more outcome takes one more step.
pub proof fn lemma_run_push(s: RunState, outs: Seq<Result<(), Seq<char>>>, o: Result<(), Seq<char>>)
    ensures
        run(s, outs.push(o)) == run(s, outs).step(o),
{
    assert(outs.push(o).drop_last() =~= outs);
}

/// Outcomes reported in two stretches run as one stretch.
pub proof fn lemma_run_concat(s: RunState, a: Seq<Result<(), Seq<char>>>, b: Seq<Result<(), Seq<char>>>)
    ensures
        run(s, a + b) == run(run(s, a), b),
    decreases b.len(),
{
    if b.len() == 0 {
        assert(a + b =~= a);
    } else {
        lemma_run_concat(s, a, b.drop_last());
        assert((a + b).drop_last() =~= a + b.drop_last());
        assert((a + b).last() == b.last());
    }
}

/// The initial state is reachable.
pub proof fn lemma_initial(per_item: bool, ids: Seq<Seq<char>>, applied: Set<Seq<char>>)
    ensures
        initial(per_item, ids, applied).wf(),
{
    let s = initial(per_item, ids, applied);
    lemma_pending_indices(ids, applied);
    lemma_done_ids_zero(s);
    assert(applied.union(Set::<Seq<char>>::empty()) =~= applied);
}

/// A finished run stays finished: nothing the driver reports changes it.
pub proof fn lemma_run_from_done(s: RunState, outs: Seq<Result<(), Seq<char>>>)
    requires
        s.phase is Done,
    ensures
        run(s, outs) == s,
    decreases outs.len(),
{
    if outs.len() > 0 {
        lemma_run_from_done(s, outs.drop_last());
    }
}

/// The ledger after a run that succeeded holds every id of the list.
proof fn lemma_success_ledger(s: RunState)
    requires
        s.wf(),
        s.phase is Done,
        s.error is None,
    ensures
        s.committed == s.base.union(s.ids.to_set()),
{
    lemma_pending_indices(s.ids, s.base);
    assert(s.base.union(s.done_ids(s.pos)) =~= s.base.union(s.ids.to_set())) by {
        assert forall|x: Seq<char>| #[trigger] s.ids.to_set().contains(x) && !s.base.contains(x) implies s.done_ids(s.pos).contains(x) by {
            let i = choose|i: int| 0 <= i < s.ids.len() && s.ids[i] == x;
            let k = choose|k: int| 0 <= k < s.pending.len() && s.pending[k] == i;
            assert(x == s.ids[s.pending[k]]);
        }
        assert forall|x: Seq<char>| #[trigger] s.done_ids(s.pos).contains(x) implies s.ids.to_set().contains(x) by {
            let j = choose|j: int| 0 <= j < s.pos && x == s.ids[#[trigger] s.pending[j]];
            assert(s.ids[s.pending[j]] == x);
        }
    }
}

/// Nothing is pending where the ledger holds every id of the list.
proof fn lemma_nothing_pending(ids: Seq<Seq<char>>, applied: Set<Seq<char>>)
    requires
        forall|i: int| 0 <= i < ids.len() ==> applied.contains(#[trigger] ids[i]),
    ensures
        pending_indices(ids, applied).len() == 0,
        pending_ids(ids, applied).len() == 0,
{
    lemma_pending_indices(ids, applied);
    let p = pending_indices(ids, applied);
    if p.len() > 0 {
        assert(applied.contains(ids[p[0]]));
    }
}

/// Applying a list twice applies each of its items once: after a run that succeeded
/// the ledger holds every id of the list, so a second run over the same list finds
/// nothing pending, performs no operation, and leaves the ledger as it was, whatever
/// the database would report.
pub proof fn law_second_run_is_noop(
    per_item: bool,
    ids: Seq<Seq<char>>,
    applied: Set<Seq<char>>,
    outs: Seq<Result<(), Seq<char>>>,
    outs2: Seq<Result<(), Seq<char>>>,
)
    requires
        run(initial(per_item, ids, applied), outs).phase is Done,
        run(initial(per_item, ids, applied), outs).error is None,
    ensures
        ({
            let first = run(initial(per_item, ids, applied), outs);
            let again = initial(per_item, ids, first.committed);
            &&& first.committed == applied.union(ids.to_set())
            &&& pending_ids(ids, first.committed).len() == 0
            &&& again.next_op() == Op::Finish
            &&& run(again, outs2) == again
            &&& again.committed == first.committed
            &&& again.error is None
        }),
{
    let s0 = initial(per_item, ids, applied);
    lemma_initial(per_item, ids, applied);
    lemma_run(s0, outs);
    let first = run(s0, outs);
    lemma_success_ledger(first);
    assert forall|i: int| 0 <= i < ids.len() implies first.committed.contains(#[trigger] ids[i]) by {
        assert(ids.to_set().contains(ids[i]));
    }
    lemma_nothing_pending(ids, first.committed);
    lemma_run_from_done(initial(per_item, ids, first.committed), outs2);
}

/// Migrations share one transaction: a batch run that fails commits no ledger row,
/// so the ledger is the one that the run began with.
pub proof fn law_failed_batch_keeps_ledger(
    ids: Seq<Seq<char>>,
    applied: Set<Seq<char>>,
    outs: Seq<Result<(), Seq<char>>>,
)
    requires
        run(initial(false, ids, applied), outs).phase is Done,
        run(initial(false, ids, applied), outs).error is Some,
    ensures
        run(initial(false, ids, applied), outs).committed == applied,
{
    lemma_initial(false, ids, applied);
    lemma_run(initial(false, ids, applied), outs);
}

/// Seeds have a transaction each: a run that fails stops at a pending seed, keeps the
/// rows of the seeds before it, and commits nothing of that seed or of those after it.
pub proof fn law_failed_seed_run_keeps_earlier_seeds(
    ids: Seq<Seq<char>>,
    applied: Set<Seq<char>>,
    outs: Seq<Result<(), Seq<char>>>,
)
    requires
        run(initial(true, ids, applied), outs).phase is Done,
        run(initial(true, ids, applied), outs).error is Some,
    ensures
        ({
            let s = run(initial(true, ids, applied), outs);
            &&& s.pos < pending_ids(ids, applied).len()
            &&& s.committed == applied.union(pending_ids(ids, applied).take(s.pos).to_set())
            &&& s.error matches Some(ErrorView::MigrationFailed { id, .. }) && id == pending_ids(ids, applied)[s.pos]
        }),
{
    let s0 = initial(true, ids, applied);
    lemma_initial(true, ids, applied);
    lemma_run(s0, outs);
    let s = run(s0, outs);
    lemma_pending_indices(ids, applied);
    let p = pending_ids(ids, applied);
    assert(s.done_ids(s.pos) =~= p.take(s.pos).to_set()) by {
        assert forall|x: Seq<char>| #[trigger] s.done_ids(s.pos).contains(x) implies p.take(s.pos).to_set().contains(x) by {
            let j = choose|j: int| 0 <= j < s.pos && x == s.ids[#[trigger] s.pending[j]];
            assert(p.take(s.pos)[j] == x);
        }
        assert forall|x: Seq<char>| #[trigger] p.take(s.pos).to_set().contains(x) implies s.done_ids(s.pos).contains(x) by {
            let j = choose|j: int| 0 <= j < s.pos && p.take(s.pos)[j] == x;
            assert(x == s.ids[s.pending[j]]);
        }
    }
}

/// Items whose ids the ledger already holds are skipped wherever they stand: a list
/// that extends one already applied has only the new items pending.
pub proof fn law_applied_prefix_is_skipped(
    applied: Set<Seq<char>>,
    old_ids: Seq<Seq<char>>,
    new_ids: Seq<Seq<char>>,
)
    requires
        forall|i: int| 0 <= i < old_ids.len() ==> applied.contains(#[trigger] old_ids[i]),
    ensures
        pending_ids(old_ids + new_ids, applied) == pending_ids(new_ids, applied),
{
    let pred = |x: Seq<char>| !applied.contains(x);
    Seq::filter_distributes_over_add(old_ids, new_ids, pred);
    lemma_nothing_pending(old_ids, applied);
    assert(pending_ids(old_ids, applied) + pending_ids(new_ids, applied) =~= pending_ids(
        new_ids,
        applied,
    ));
}

/// A run with nothing pending opens no transaction: its first operation is `Finish`,
/// it succeeds, and the ledger is untouched.
pub proof fn law_nothing_pending_opens_no_transaction(
    per_item: bool,
    ids: Seq<Seq<char>>,
    applied: Set<Seq<char>>,
    outs: Seq<Result<(), Seq<char>>>,
)
    requires
        forall|i: int| 0 <= i < ids.len() ==> applied.contains(#[trigger] ids[i]),
    ensures
        initial(per_item, ids, applied).next_op() == Op::Finish,
        run(initial(per_item, ids, applied), outs) == initial(per_item, ids, applied),
        initial(per_item, ids, applied).committed == applied,
        initial(per_item, ids, applied).error is None,
{
    lemma_nothing_pending(ids, applied);
    lemma_run_from_done(initial(per_item, ids, applied), outs);
}

/// When the payload of an item or the insert of its ledger row fails, the run ends
/// with an error that names the item and carries the database's message, whatever the
/// later operations report.
pub proof fn law_failed_item_is_named(
    s: RunState,
    message: Seq<char>,
    outs: Seq<Result<(), Seq<char>>>,
)
    requires
        s.wf(),
        s.phase is Apply || s.phase is Record,
    ensures
        run(s.step(Err(message)), outs).error == Some(
            ErrorView::MigrationFailed { id: s.current(), message },
        ),
{
    lemma_error_sticks(s.step(Err(message)), outs);
}

/// Once a run has failed, its error stays what it was.
proof fn lemma_error_sticks(t: RunState, outs: Seq<Result<(), Seq<char>>>)
    requires
        t.phase is Rollback || t.phase is Done,
    ensures
        run(t, outs).error == t.error,
        run(t, outs).phase is Rollback || run(t, outs).phase is Done,
    decreases outs.len(),
{
    if outs.len() > 0 {
        lemma_error_sticks(t, outs.drop_last());
    }
}

/// The executable machine: it follows [`RunState::step`] exactly.
pub struct Runner {
    per_item: bool,
    ids: Vec<String>,
    pending: Vec<usize>,
    pos: usize,
    phase: Phase,
    error: Option<Error>,
    base: Ghost<Set<Seq<char>>>,
    committed: Ghost<Set<Seq<char>>>,
    staged: Ghost<Set<Seq<char>>>,
}

impl View for Runner {
    type V = RunState;

    closed spec fn view(&self) -> RunState {
        RunState {
            per_item: self.per_item,
            ids: texts(self.ids@),
            pending: self.pending@.map_values(|i: usize| i as int),
            pos: self.pos as int,
            phase: self.phase,
            error: match self.error {
                Some(e) => Some(e@),
                None => None,
            },
            base: self.base@,
            committed: self.committed@,
            staged: self.staged@,
        }
    }
}

impl Runner {
    /// Starts a run over the list `ids` against the ledger `applied`, with one
    /// transaction per item when `per_item` holds and one for all items otherwise.
    /// Only the items whose ids the ledger lacks are pending, in list order.
    pub fn new(per_item: bool, ids: Vec<String>, applied: &AppliedIds) -> (r: Runner)
        ensures
            r@ == initial(per_item, texts(ids@), applied@),
            r@.wf(),
            r@.pending.map_values(|i: int| r@.ids[i]) == pending_ids(texts(ids@), applied@),
    {
        let ghost tids = texts(ids@);
        let mut pending: Vec<usize> = Vec::new();
        let mut i: usize = 0;
        while i < ids.len()
            invariant
                i <= ids@.len(),
                tids == texts(ids@),
                pending@.map_values(|k: usize| k as int) == pending_indices(tids.take(i as int), applied@),
            decreases ids@.len() - i,
        {
            let ghost before = pending@;
            let found = applied.contains(ids[i].as_str());
            assert(tids.take(i + 1).drop_last() =~= tids.take(i as int));
            assert(tids.take(i + 1).last() == ids@[i as int]@);
            if !found {
                pending.push(i);
                assert(pending@.map_values(|k: usize| k as int) =~= before.map_values(
                    |k: usize| k as int,
                ).push(i as int));
            }
            i = i + 1;
        }
        assert(tids.take(ids@.len() as int) =~= tids);
        let phase = if pending.len() == 0 {
            Phase::Done
        } else {
            Phase::Begin
        };
        let r = Runner {
            per_item,
            ids,
            pending,
            pos: 0,
            phase,
            error: None,
            base: Ghost(applied@),
            committed: Ghost(applied@),
            staged: Ghost(Set::empty()),
        };
        proof {
            lemma_initial(per_item, tids, applied@);
            lemma_pending_indices(tids, applied@);
        }
        r
    }

    /// The operation to perform next.
    pub fn next_op(&self) -> (op: Op)
        requires
            self@.wf(),
        ensures
            op == self@.next_op(),
    {
        match self.phase {
            Phase::Begin => Op::Begin,
            Phase::Apply => Op::Apply(self.pending[self.pos]),
            Phase::Record => Op::Record(self.pending[self.pos]),
            Phase::Commit => Op::Commit,
            Phase::Rollback => Op::Rollback,
            Phase::Done => Op::Finish,
        }
    }

    /// Whether the run is over.
    pub fn is_done(&self) -> (r: bool)
        ensures
            r == (self@.phase is Done),
    {
        match self.phase {
            Phase::Done => true,
            _ => false,
        }
    }

    /// The error for a failed begin or commit of the open transaction.
    fn failure(&self, m: String) -> (e: Error)
        requires
            self@.wf(),
            self@.phase is Begin || self@.phase is Commit,
        ensures
            e@ == self@.failure(m@),
    {
        if self.per_item {
            proof {
                assert(self@.pending.len() == self.pending@.len());
            }
            let id = self.ids[self.pending[self.pos]].clone();
            Error::MigrationFailed { id, message: m }
        } else {
            Error::Database(m)
        }
    }

    /// Takes the outcome of the operation `self.next_op()`.
    pub fn advance(&mut self, outcome: Result<(), String>)
        requires
            old(self)@.wf(),
        ensures
            final(self)@ == old(self)@.step(outcome_view(outcome)),
            final(self)@.wf(),
            !(old(self)@.phase is Done) ==> final(self)@.measure() < old(self)@.measure(),
    {
        proof {
            lemma_step(self@, outcome_view(outcome));
            assert(self@.pending.len() == self.pending@.len());
        }
        let ghost cur = if self@.in_item() {
            self@.current()
        } else {
            Seq::empty()
        };
        let len: usize = self.pending.len();
        match self.phase {
            Phase::Begin => match outcome {
                Ok(()) => {
                    self.phase = Phase::Apply;
                    self.staged = Ghost(Set::empty());
                },
                Err(m) => {
                    let e = self.failure(m);
                    self.phase = Phase::Done;
                    self.error = Some(e);
                },
            },
            Phase::Apply => match outcome {
                Ok(()) => {
                    self.phase = Phase::Record;
                },
                Err(m) => {
                    let id = self.ids[self.pending[self.pos]].clone();
                    self.phase = Phase::Rollback;
                    self.error = Some(Error::MigrationFailed { id, message: m });
                },
            },
            Phase::Record => match outcome {
                Ok(()) => {
                    self.staged = Ghost(self.staged@.insert(cur));
                    if self.per_item {
                        self.phase = Phase::Commit;
                    } else {
                        self.pos = self.pos + 1;
                        self.phase = if self.pos < len {
                            Phase::Apply
                        } else {
                            Phase::Commit
                        };
                    }
                },
                Err(m) => {
                    let id = self.ids[self.pending[self.pos]].clone();
                    self.phase = Phase::Rollback;
                    self.error = Some(Error::MigrationFailed { id, message: m });
                },
            },
            Phase::Commit => match outcome {
                Ok(()) => {
                    self.committed = Ghost(self.committed@.union(self.staged@));
                    self.staged = Ghost(Set::empty());
                    if self.per_item {
                        self.pos = self.pos + 1;
                        self.phase = if self.pos < len {
                            Phase::Begin
                        } else {
                            Phase::Done
                        };
                    } else {
                        self.phase = Phase::Done;
                    }
                },
                Err(m) => {
                    let e = self.failure(m);
                    self.phase = Phase::Rollback;
                    self.error = Some(e);
                },
            },
            Phase::Rollback => {
                self.phase = Phase::Done;
                self.staged = Ghost(Set::empty());
            },
            Phase::Done => {},
        }
        proof {
            assert(self@.pending =~= old(self)@.pending);
            assert(self@.ids =~= old(self)@.ids);
        }
    }

    /// The result of a finished run.
    pub fn finish(self) -> (r: Result<(), Error>)
        requires
            self@.phase is Done,
        ensures
            match r {
                Ok(()) => self@.error is None,
                Err(e) => self@.error == Some(e@),
            },
    {
        match self.error {
            Some(e) => Err(e),
            None => Ok(()),
        }
    }
}

} // verus!

//! Replaying all transactions of some checkpoints.
use crate::error::{ErrorText, LocalExecError};
use crate::local_exec::LocalExec;
use crate::request::{copied, Request, RequestView, Step};
use crate::sandbox::{shows_difference, ExecutionSandboxState};
use crate::types::TransactionDigest;
use std::sync::Arc;
use vstd::pervasive::unreached;
use vstd::prelude::*;

verus! {

/// What a node answers to a request for the transactions of a checkpoint.
pub type TransactionsReply = Result<Vec<TransactionDigest>, LocalExecError>;

/// The transactions of the checkpoints, one checkpoint after the other.
pub open spec fn all_transactions(replies: Seq<TransactionsReply>) -> Seq<TransactionDigest>
    decreases replies.len(),
{
    if replies.len() == 0 {
        Seq::empty()
    } else {
        all_transactions(replies.drop_last()) + replies.last()->Ok_0@
    }
}

/// Whether the first reply that is an error stands at a place.
pub open spec fn is_first_error(replies: Seq<TransactionsReply>, i: int) -> bool {
    &&& 0 <= i < replies.len()
    &&& replies[i] is Err
    &&& forall|j: int| 0 <= j < i ==> (#[trigger] replies[j]) is Ok
}

/// A replay of a list of transactions, one after the other.
#[derive(Debug, PartialEq, Eq)]
pub struct CheckpointRun {
    pub txs: Vec<TransactionDigest>,
    /// How many have been replayed.
    pub done: usize,
    /// How many of these came to the outcome that is on the chain.
    pub succeeded: u64,
    /// Whether the first failure ends the run.
    pub terminate_early: bool,
}

/// What the replay of one transaction means for the run that it belongs to.
#[derive(Debug, PartialEq)]
pub enum Verdict {
    /// It came to the outcome that is on the chain.
    Succeeded,
    /// It did not, for this reason, and the run goes on.
    Failed(LocalExecError),
    /// It did not, for this reason, and the run ends.
    Stop(LocalExecError),
}

/// A replay came to the outcome that is on the chain.
pub open spec fn is_success<S, E>(
    result: Result<ExecutionSandboxState<S, E>, LocalExecError>,
) -> bool {
    result matches Ok(state) && state.agrees()
}

/// Why a replay is a failure: the error it ended with, or that its outcome is not the
/// one on the chain.
pub open spec fn is_failure_of<S, E>(
    result: Result<ExecutionSandboxState<S, E>, LocalExecError>,
    err: LocalExecError,
) -> bool {
    match result {
        Err(e) => err == e,
        Ok(state) => {
            &&& !state.agrees()
            &&& err matches LocalExecError::EffectsForked { digest, diff, on_chain, local }
            &&& digest == state.transaction_info.tx_digest
            &&& diff@ == "\n"@ + state.difference()
            &&& shows_difference(state.difference(), on_chain.rendered@, local.rendered@)
            &&& on_chain == state.transaction_info.effects
            &&& local == state.local_exec_effects
        },
    }
}

impl CheckpointRun {
    /// Not more transactions have been replayed than there are, and not more have
    /// succeeded than have been replayed.
    pub open spec fn wf(&self) -> bool {
        self.succeeded <= self.done <= self.txs@.len()
    }

    /// The run after one more replay.
    pub open spec fn after(self, success: bool) -> CheckpointRun {
        CheckpointRun {
            done: (self.done + 1) as usize,
            succeeded: (self.succeeded + if success {
                1int
            } else {
                0
            }) as u64,
            ..self
        }
    }

    /// The transaction to replay next, if one is left.
    pub fn next_transaction(&self) -> (r: Option<TransactionDigest>)
        requires
            self.wf(),
        ensures
            r == if self.done < self.txs@.len() {
                Some(self.txs@[self.done as int])
            } else {
                None
            },
    {
        if self.done < self.txs.len() {
            Some(self.txs[self.done])
        } else {
            None
        }
    }

    /// Takes in what came of the replay of the next transaction.
    pub fn on_result<S, E>(
        &mut self,
        result: &Result<ExecutionSandboxState<S, E>, LocalExecError>,
    ) -> (r: Verdict)
        requires
            old(self).wf(),
            old(self).done < old(self).txs@.len(),
            *result matches Ok(state) ==> (!state.agrees() ==> state.is_diffable()),
        ensures
            final(self).wf(),
            *final(self) == old(self).after(is_success(*result)),
            match r {
                Verdict::Succeeded => is_success(*result),
                Verdict::Failed(err) => !old(self).terminate_early && is_failure_of(*result, err),
                Verdict::Stop(err) => old(self).terminate_early && is_failure_of(*result, err),
            },
    {
        let checked = match result {
            Ok(state) => state.check_effects(),
            Err(err) => Err(err.clone()),
        };
        assert(self.done < self.txs.len());
        self.done = self.done + 1;
        match checked {
            Ok(()) => {
                self.succeeded = self.succeeded + 1;
                Verdict::Succeeded
            },
            Err(err) => if self.terminate_early {
                Verdict::Stop(err)
            } else {
                Verdict::Failed(err)
            },
        }
    }

    /// How many replays succeeded, and how many transactions there are.
    pub fn totals(&self) -> (r: (u64, u64))
        ensures
            r == (self.succeeded, self.txs@.len() as u64),
    {
        (self.succeeded, self.txs.len() as u64)
    }
}

impl LocalExec {
    /// A replay of all transactions of some checkpoints. The transactions are asked for
    /// first, one checkpoint after the other. The replies are what the node answered so far.
    pub fn execute_all_in_checkpoints(
        &self,
        checkpoint_ids: &Vec<u64>,
        terminate_early: bool,
        replies: &Vec<TransactionsReply>,
    ) -> (r: Step<Result<CheckpointRun, LocalExecError>>)
        requires
            replies@.len() <= checkpoint_ids@.len(),
        ensures
            forall|i: int| #[trigger]
                is_first_error(replies@, i) ==> r == Step::Done(
                    Err::<CheckpointRun, _>(
                        LocalExecError::SuiRpcError {
                            err: ErrorText::Of(Arc::new(replies@[i]->Err_0)),
                        },
                    ),
                ),
            (forall|i: int| !(#[trigger] is_first_error(replies@, i))) ==> if replies@.len()
                < checkpoint_ids@.len() {
                r.asks(
                    RequestView::CheckpointTransactions(checkpoint_ids@[replies@.len() as int]),
                )
            } else {
                r matches Step::Done(Ok(run)) && run.wf() && run.txs@ == all_transactions(replies@)
                    && run.done == 0 && run.succeeded == 0 && run.terminate_early
                    == terminate_early
            },
    {
        let mut txs: Vec<TransactionDigest> = Vec::new();
        let mut i: usize = 0;
        while i < replies.len()
            invariant
                i <= replies.len() <= checkpoint_ids.len(),
                forall|j: int| 0 <= j < i ==> (#[trigger] replies@[j]) is Ok,
                txs@ == all_transactions(replies@.take(i as int)),
            decreases replies.len() - i,
        {
            let reply = match &replies[i] {
                Ok(more) => Ok(copied(more)),
                Err(err) => Err(err.clone()),
            };
            match self.get_checkpoint_txs(checkpoint_ids[i], Some(reply)) {
                Step::Done(Ok(mut more)) => {
                    assert(replies@.take(i + 1).drop_last() =~= replies@.take(i as int));
                    txs.append(&mut more);
                },
                Step::Done(Err(err)) => {
                    assert(is_first_error(replies@, i as int));
                    assert forall|k: int| #[trigger] is_first_error(replies@, k) implies k == i by {
                        if k < i {
                            assert(replies@[k] is Ok);
                        } else if i < k {
                            assert(replies@[i as int] is Ok);
                        }
                    }
                    return Step::Done(Err(err));
                },
                Step::Ask(_) => {
                    return unreached();
                },
            }
            i += 1;
        }
        assert(replies@.take(i as int) =~= replies@);
        if replies.len() < checkpoint_ids.len() {
            match self.get_checkpoint_txs(checkpoint_ids[replies.len()], None) {
                Step::Ask(request) => Step::Ask(request),
                Step::Done(_) => unreached(),
            }
        } else {
            Step::Done(Ok(CheckpointRun { txs, done: 0, succeeded: 0, terminate_early }))
        }
    }
}

/// A run after a number of replays.
pub open spec fn run_after(run: CheckpointRun, successes: Seq<bool>) -> CheckpointRun
    decreases successes.len(),
{
    if successes.len() == 0 {
        run
    } else {
        run_after(run, successes.drop_last()).after(successes.last())
    }
}

/// How many of a number of replays succeeded.
pub open spec fn count_successes(successes: Seq<bool>) -> nat {
    successes.filter(|success: bool| success).len()
}

/// After a run, the first number is how many replays came to the outcome that is on
/// the chain, and the second is how many transactions there are. They are the same
/// exactly if every replay succeeded.
pub proof fn law_totals_count_successes(run: CheckpointRun, successes: Seq<bool>)
    requires
        run.done == 0,
        run.succeeded == 0,
        successes.len() <= run.txs@.len(),
        run.txs@.len() <= usize::MAX,
    ensures
        run_after(run, successes) == (CheckpointRun {
            done: successes.len() as usize,
            succeeded: count_successes(successes) as u64,
            ..run
        }),
        count_successes(successes) <= successes.len(),
        count_successes(successes) == successes.len() <==> (forall|i: int|
            0 <= i < successes.len() ==> #[trigger] successes[i]),
    decreases successes.len(),
{
    reveal(Seq::filter);
    if successes.len() > 0 {
        let shorter = successes.drop_last();
        law_totals_count_successes(run, shorter);
        if count_successes(successes) == successes.len() {
            assert forall|i: int| 0 <= i < successes.len() implies #[trigger] successes[i] by {
                if i < shorter.len() {
                    assert(shorter[i]);
                }
            }
        }
        if forall|i: int| 0 <= i < successes.len() ==> #[trigger] successes[i] {
            assert forall|i: int| 0 <= i < shorter.len() implies #[trigger] shorter[i] by {
                assert(successes[i]);
            }
            assert(successes[successes.len() - 1]);
        }
    }
}

proof fn lemma_all_transactions(replies: Seq<TransactionsReply>, lists: Seq<Seq<TransactionDigest>>)
    requires
        lists.len() == replies.len(),
        forall|k: int| 0 <= k < lists.len() ==> #[trigger] lists[k] == replies[k]->Ok_0@,
    ensures
        all_transactions(replies) == lists.flatten_alt(),
    decreases replies.len(),
{
    if replies.len() > 0 {
        let shorter = lists.drop_last();
        assert forall|k: int| 0 <= k < shorter.len() implies #[trigger] shorter[k]
            == replies.drop_last()[k]->Ok_0@ by {
            assert(shorter[k] == lists[k]);
        }
        lemma_all_transactions(replies.drop_last(), shorter);
        assert(lists[lists.len() - 1] == replies.last()->Ok_0@);
    }
}

/// The transactions of checkpoints are asked for checkpoint by checkpoint, in the order in which
/// the checkpoints are given. When all are there, the run holds all transactions of all
/// checkpoints in their order, and none of them has been replayed.
pub proof fn law_all_transactions_of_all_checkpoints_are_replayed(
    exec: &LocalExec,
    checkpoint_ids: &Vec<u64>,
    terminate_early: bool,
    replies: &Vec<TransactionsReply>,
    lists: Seq<Seq<TransactionDigest>>,
    r: Step<Result<CheckpointRun, LocalExecError>>,
)
    requires
        replies@.len() <= checkpoint_ids@.len(),
        lists.len() == replies@.len(),
        forall|k: int|
            0 <= k < replies@.len() ==> (#[trigger] replies@[k] matches Ok(txs) && txs@
                == lists[k]),
        call_ensures(
            LocalExec::execute_all_in_checkpoints,
            (exec, checkpoint_ids, terminate_early, replies),
            r,
        ),
    ensures
        if replies@.len() < checkpoint_ids@.len() {
            r == Step::<Result<CheckpointRun, LocalExecError>>::Ask(
                Request::CheckpointTransactions(checkpoint_ids@[replies@.len() as int]),
            )
        } else {
            &&& r matches Step::Done(Ok(run))
            &&& run.txs@ == lists.flatten_alt()
            &&& run.done == 0
            &&& run.succeeded == 0
            &&& run.terminate_early == terminate_early
        },
{
    assert forall|k: int| 0 <= k < lists.len() implies #[trigger] lists[k]
        == replies@[k]->Ok_0@ by {
        assert(replies@[k] is Ok);
    }
    lemma_all_transactions(replies@, lists);
    assert forall|i: int| !(#[trigger] is_first_error(replies@, i)) by {
        if 0 <= i < replies@.len() {
            assert(replies@[i] is Ok);
        }
    }
}

/// The first checkpoint whose transactions cannot be had ends it, with the reason in the error.
pub proof fn law_a_missing_checkpoint_is_an_error(
    exec: &LocalExec,
    checkpoint_ids: &Vec<u64>,
    terminate_early: bool,
    replies: &Vec<TransactionsReply>,
    i: int,
    r: Step<Result<CheckpointRun, LocalExecError>>,
)
    requires
        replies@.len() <= checkpoint_ids@.len(),
        0 <= i < replies@.len(),
        replies@[i] is Err,
        forall|k: int| 0 <= k < i ==> (#[trigger] replies@[k]) is Ok,
        call_ensures(
            LocalExec::execute_all_in_checkpoints,
            (exec, checkpoint_ids, terminate_early, replies),
            r,
        ),
    ensures
        r == Step::Done(
            Err::<CheckpointRun, _>(
                LocalExecError::SuiRpcError {
                    err: ErrorText::Of(Arc::new(replies@[i]->Err_0)),
                },
            ),
        ),
{
    assert(is_first_error(replies@, i));
}

/// Whether a replay ended without an error and with the outcome that is on the chain.
pub open spec fn matches_chain<S, E>(
    result: Result<ExecutionSandboxState<S, E>, LocalExecError>,
) -> bool {
    result matches Ok(state) && state.local_exec_effects.encoded@
        == state.transaction_info.effects.encoded@
}

/// Whether an error is the one that a replay ended with or, if it ended without one, holds its
/// outcome and the one on the chain.
pub open spec fn names_failure<S, E>(
    result: Result<ExecutionSandboxState<S, E>, LocalExecError>,
    err: LocalExecError,
) -> bool {
    match result {
        Err(e) => err == e,
        Ok(state) => {
            &&& err matches LocalExecError::EffectsForked { digest, on_chain, local, .. }
            &&& digest == state.transaction_info.tx_digest
            &&& on_chain == state.transaction_info.effects
            &&& local == state.local_exec_effects
        },
    }
}

/// What the replay of one transaction means: it succeeded exactly if it ended with the outcome
/// that is on the chain. Else it failed, with its own error if it had one and with both outcomes
/// otherwise, and ends the run exactly if the run is to end early.
pub proof fn law_a_replay_is_judged_by_the_chain<S, E>(
    before: CheckpointRun,
    result: &Result<ExecutionSandboxState<S, E>, LocalExecError>,
    after: CheckpointRun,
    r: Verdict,
)
    requires
        before.succeeded <= before.done < before.txs@.len() <= usize::MAX,
        *result matches Ok(state) ==> (!state.agrees() ==> state.is_diffable()),
        exists|run: &mut CheckpointRun|
            *run == before && *final(run) == after && #[trigger] call_ensures(
                CheckpointRun::on_result::<S, E>,
                (run, result),
                r,
            ),
    ensures
        after.txs == before.txs,
        after.terminate_early == before.terminate_early,
        after.done == before.done + 1,
        after.succeeded == before.succeeded + if matches_chain(*result) {
            1int
        } else {
            0
        },
        match r {
            Verdict::Succeeded => matches_chain(*result),
            Verdict::Failed(err) => !matches_chain(*result) && !before.terminate_early
                && names_failure(*result, err),
            Verdict::Stop(err) => !matches_chain(*result) && before.terminate_early
                && names_failure(*result, err),
        },
{
}

/// Whether one replay after the other turns each run into the next.
spec fn goes_on<S, E>(
    runs: Seq<CheckpointRun>,
    results: Seq<Result<ExecutionSandboxState<S, E>, LocalExecError>>,
    k: int,
) -> bool {
    runs[k].succeeded <= runs[k].done < runs[k].txs@.len() <= usize::MAX ==> {
        &&& runs[k + 1].txs == runs[k].txs
        &&& runs[k + 1].done == runs[k].done + 1
        &&& runs[k + 1].succeeded == runs[k].succeeded + if matches_chain(results[k]) {
            1int
        } else {
            0
        }
    }
}

/// A run goes through its transactions one by one, from the first to the last, each once. Its
/// totals are how many replays ended with the outcome that is on the chain, and how many
/// transactions there are.
pub proof fn law_a_run_goes_through_all_transactions<S, E>(
    runs: Seq<CheckpointRun>,
    results: Seq<Result<ExecutionSandboxState<S, E>, LocalExecError>>,
    verdicts: Seq<Verdict>,
    n: int,
    next: Option<TransactionDigest>,
    totals: (u64, u64),
)
    requires
        0 <= n <= runs[0].txs@.len(),
        runs[0].txs@.len() <= usize::MAX,
        runs.len() == n + 1,
        results.len() == n,
        verdicts.len() == n,
        runs[0].done == 0,
        runs[0].succeeded == 0,
        forall|k: int|
            0 <= k < n ==> (#[trigger] results[k] matches Ok(state) ==> (!state.agrees()
                ==> state.is_diffable())),
        forall|k: int|
            0 <= k < n ==> exists|run: &mut CheckpointRun|
                *run == runs[k] && *final(run) == runs[k + 1] && #[trigger] call_ensures(
                    CheckpointRun::on_result::<S, E>,
                    (run, &results[k]),
                    #[trigger] verdicts[k],
                ),
        call_ensures(CheckpointRun::next_transaction, (&runs[n],), next),
        call_ensures(CheckpointRun::totals, (&runs[n],), totals),
    ensures
        next == if n < runs[0].txs@.len() {
            Some(runs[0].txs@[n])
        } else {
            None
        },
        totals.0 == results.filter(
            |result: Result<ExecutionSandboxState<S, E>, LocalExecError>| matches_chain(result),
        ).len(),
        totals.1 == runs[0].txs@.len(),
{
    assert forall|k: int| 0 <= k < n implies #[trigger] goes_on(runs, results, k) by {
        if runs[k].succeeded <= runs[k].done < runs[k].txs@.len() <= usize::MAX {
            let result = &results[k];
            assert(*result == results[k]);
            law_a_replay_is_judged_by_the_chain(runs[k], result, runs[k + 1], verdicts[k]);
        }
    }
    lemma_run(runs, results, n);
    assert(results.take(n) =~= results);
}

proof fn lemma_run<S, E>(
    runs: Seq<CheckpointRun>,
    results: Seq<Result<ExecutionSandboxState<S, E>, LocalExecError>>,
    n: int,
)
    requires
        0 <= n < runs.len(),
        runs.len() == results.len() + 1,
        results.len() <= runs[0].txs@.len() <= usize::MAX,
        runs[0].done == 0,
        runs[0].succeeded == 0,
        forall|k: int| 0 <= k < results.len() ==> #[trigger] goes_on(runs, results, k),
    ensures
        runs[n].txs == runs[0].txs,
        runs[n].done == n,
        runs[n].succeeded <= n,
        runs[n].succeeded == results.take(n).filter(
            |result: Result<ExecutionSandboxState<S, E>, LocalExecError>| matches_chain(result),
        ).len(),
    decreases n,
{
    reveal(Seq::filter);
    if n > 0 {
        lemma_run(runs, results, n - 1);
        assert(goes_on(runs, results, n - 1));
        assert(results.take(n).drop_last() =~= results.take(n - 1));
        assert(results.take(n).last() == results[n - 1]);
    }
}

} // verus!

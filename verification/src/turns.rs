//! The turns of a batch: which query is started next, how many are at work at once, and
//! when no more are started.
use crate::batch;
use crate::batch::{Batch, BatchView, EventView};
use crate::model::{RequestView, RowView};
use vstd::prelude::*;

verus! {

/// Leave to run the query of one request.
pub struct Turn {
    /// The index of the request.
    pub index: usize,
    /// How many seconds the query may last.
    pub timeout: u64,
}

/// Hands out the requests of a batch to its workers, each once and in order.
pub struct Turns {
    total: usize,
    limit: usize,
    timeout: u64,
    given: usize,
    running: usize,
}

/// `Turns` as numbers.
#[verifier::ext_equal]
pub struct TurnsView {
    /// How many requests there are.
    pub total: nat,
    /// How many queries may be at work at once.
    pub limit: nat,
    pub timeout: u64,
    /// How many turns were given.
    pub given: nat,
    /// How many queries are at work.
    pub running: nat,
}

impl View for Turns {
    type V = TurnsView;

    closed spec fn view(&self) -> TurnsView {
        TurnsView {
            total: self.total as nat,
            limit: self.limit as nat,
            timeout: self.timeout,
            given: self.given as nat,
            running: self.running as nat,
        }
    }
}

/// The smaller of the two numbers.
pub open spec fn smaller(a: nat, b: nat) -> nat {
    if a <= b {
        a
    } else {
        b
    }
}

impl TurnsView {
    pub open spec fn wf(self) -> bool {
        &&& self.running <= self.limit <= self.total
        &&& self.running <= self.given <= self.total
    }

    /// Before the first turn.
    pub open spec fn fresh(total: nat, parallel: nat, timeout: u64) -> TurnsView {
        TurnsView { total, limit: smaller(parallel, total), timeout, given: 0, running: 0 }
    }

    /// Someone who asks is given a turn: nothing was cancelled, a request is left, and a
    /// query more may be at work.
    pub open spec fn gives(self, cancelled: bool) -> bool {
        !cancelled && self.given < self.total && self.running < self.limit
    }

    pub open spec fn after_giving(self) -> TurnsView {
        TurnsView { given: self.given + 1, running: self.running + 1, ..self }
    }

    pub open spec fn after_release(self) -> TurnsView {
        TurnsView { running: (self.running - 1) as nat, ..self }
    }
}

impl Turns {
    /// The turns of a batch, with at most `parallel` queries at work at once, of at most
    /// `timeout` seconds each.
    pub fn new(batch: &Batch, parallel: usize, timeout: u64) -> (r: Self)
        ensures
            r@ == TurnsView::fresh(batch@.requests.len(), parallel as nat, timeout),
            r@.wf(),
    {
        Turns {
            total: batch.requests().len(),
            limit: batch.workers(parallel),
            timeout,
            given: 0,
            running: 0,
        }
    }

    /// Asks for a turn. There is none once the batch was cancelled or every request had
    /// its turn.
    pub fn take(&mut self, cancelled: bool) -> (r: Option<Turn>)
        requires
            old(self)@.wf(),
        ensures
            final(self)@.wf(),
            if old(self)@.gives(cancelled) {
                &&& r matches Some(turn)
                &&& turn.index == old(self)@.given
                &&& turn.timeout == old(self)@.timeout
                &&& final(self)@ == old(self)@.after_giving()
            } else {
                r is None && final(self)@ == old(self)@
            },
    {
        if cancelled || self.given >= self.total || self.running >= self.limit {
            return None;
        }
        let turn = Turn { index: self.given, timeout: self.timeout };
        self.given += 1;
        self.running += 1;
        Some(turn)
    }

    /// Takes note that a query has ended.
    pub fn release(&mut self)
        requires
            old(self)@.wf(),
            old(self)@.running > 0,
        ensures
            final(self)@ == old(self)@.after_release(),
            final(self)@.wf(),
    {
        self.running -= 1;
    }
}

/// What can happen while a batch runs.
pub enum Happening {
    /// A worker asks for a turn.
    Ask { cancelled: bool },
    /// The query of this request ends.
    End { index: int },
    /// The result of this request comes in.
    Result { index: int, row: RowView },
}

/// A batch while it runs.
pub struct RunView {
    pub turns: TurnsView,
    pub batch: BatchView,
    /// The requests that were given a turn, in that order.
    pub started: Seq<int>,
    /// The requests whose query is at work.
    pub at_work: Set<int>,
    /// The requests whose query has ended and whose result has not come in.
    pub ended: Set<int>,
    /// The results that came in, in that order.
    pub results: Seq<(int, RowView)>,
}

impl RunView {
    pub open spec fn fresh(requests: Seq<RequestView>, parallel: nat, timeout: u64) -> RunView {
        RunView {
            turns: TurnsView::fresh(requests.len(), parallel, timeout),
            batch: BatchView::fresh(requests),
            started: Seq::empty(),
            at_work: Set::empty(),
            ended: Set::empty(),
            results: Seq::empty(),
        }
    }

    /// A query ends only while it is at work, and gives one result after its end.
    pub open spec fn possible(self, h: Happening) -> bool {
        match h {
            Happening::Ask { cancelled } => true,
            Happening::End { index } => self.at_work.contains(index),
            Happening::Result { index, row } => self.ended.contains(index),
        }
    }

    pub open spec fn after(self, h: Happening) -> RunView {
        match h {
            Happening::Ask { cancelled } => if self.turns.gives(cancelled) {
                RunView {
                    turns: self.turns.after_giving(),
                    started: self.started.push(self.turns.given as int),
                    at_work: self.at_work.insert(self.turns.given as int),
                    ..self
                }
            } else {
                self
            },
            Happening::End { index } => RunView {
                turns: self.turns.after_release(),
                at_work: self.at_work.remove(index),
                ended: self.ended.insert(index),
                ..self
            },
            Happening::Result { index, row } => RunView {
                batch: self.batch.recorded(index, row),
                ended: self.ended.remove(index),
                results: self.results.push((index, row)),
                ..self
            },
        }
    }

    /// Each request is in at most one place, and the turns count what is at work.
    spec fn consistent(self, requests: Seq<RequestView>, parallel: nat) -> bool {
        &&& self.turns.wf()
        &&& self.turns.total == requests.len()
        &&& self.turns.limit == smaller(parallel, requests.len())
        &&& self.started == Seq::new(self.turns.given, |i: int| i)
        &&& self.at_work.finite()
        &&& self.at_work.len() == self.turns.running
        &&& forall|i: int| #[trigger] self.at_work.contains(i) ==> 0 <= i < self.turns.given
        &&& forall|i: int| #[trigger] self.ended.contains(i) ==> 0 <= i < self.turns.given
        &&& forall|i: int| #[trigger] self.at_work.contains(i) ==> !self.ended.contains(i)
        &&& forall|k: int|
            0 <= k < self.results.len() ==> 0 <= (#[trigger] self.results[k]).0 < self.turns.given
                && !self.at_work.contains(self.results[k].0) && !self.ended.contains(
                self.results[k].0,
            )
        &&& forall|i: int|
            0 <= i < self.turns.given ==> (#[trigger] self.at_work.contains(i)
                || self.ended.contains(i) || has_result(self.results, i))
        &&& batch::results_distinct(self.results)
        &&& self.batch == batch::after_results(BatchView::fresh(requests), self.results)
    }
}

/// The request has a result.
pub open spec fn has_result(results: Seq<(int, RowView)>, i: int) -> bool {
    exists|k: int| 0 <= k < results.len() && (#[trigger] results[k]).0 == i
}

/// The run after what happened, one thing after the other.
pub open spec fn run_after(run: RunView, trace: Seq<Happening>) -> RunView
    decreases trace.len(),
{
    if trace.len() == 0 {
        run
    } else {
        run_after(run, trace.drop_last()).after(trace.last())
    }
}

/// Each thing that happened was possible when it did.
pub open spec fn can_happen(run: RunView, trace: Seq<Happening>) -> bool
    decreases trace.len(),
{
    trace.len() == 0 || (can_happen(run, trace.drop_last()) && run_after(
        run,
        trace.drop_last(),
    ).possible(trace.last()))
}

proof fn lemma_step(run: RunView, h: Happening, requests: Seq<RequestView>, parallel: nat)
    requires
        run.consistent(requests, parallel),
        run.possible(h),
    ensures
        run.after(h).consistent(requests, parallel),
{
    let next = run.after(h);
    match h {
        Happening::Ask { cancelled } => {
            if run.turns.gives(cancelled) {
                assert forall|i: int| 0 <= i < next.turns.given implies (
                #[trigger] next.at_work.contains(i) || next.ended.contains(i) || has_result(
                    next.results,
                    i,
                )) by {
                    if i < run.turns.given {
                        assert(run.at_work.contains(i) || run.ended.contains(i) || has_result(
                            run.results,
                            i,
                        ));
                    }
                }
                assert(!run.at_work.contains(run.turns.given as int));
                assert(next.started =~= Seq::new(next.turns.given, |i: int| i));
            }
        },
        Happening::End { index } => {
            if run.turns.running == 0 {
                assert(run.at_work.len() == 0);
                assert(run.at_work =~= Set::empty());
            }
            assert(next.at_work.len() == run.at_work.len() - 1);
            assert forall|i: int| 0 <= i < next.turns.given implies (
            #[trigger] next.at_work.contains(i) || next.ended.contains(i) || has_result(
                next.results,
                i,
            )) by {
                assert(run.at_work.contains(i) || run.ended.contains(i) || has_result(
                    run.results,
                    i,
                ));
            }
        },
        Happening::Result { index, row } => {
            assert(next.results.drop_last() =~= run.results);
            assert forall|j: int, k: int| 0 <= j < k < next.results.len() implies (
            #[trigger] next.results[j]).0 != (#[trigger] next.results[k]).0 by {
                assert(next.results[j] == run.results[j]);
                if k < run.results.len() {
                    assert(run.results[j].0 != run.results[k].0);
                } else {
                    assert(!run.ended.contains(run.results[j].0));
                }
            }
            assert forall|k: int| 0 <= k < next.results.len() implies 0 <= (
            #[trigger] next.results[k]).0 < next.turns.given && !next.at_work.contains(
                next.results[k].0,
            ) && !next.ended.contains(next.results[k].0) by {
                if k < run.results.len() {
                    assert(next.results[k] == run.results[k]);
                } else {
                    assert(run.ended.contains(index));
                }
            }
            assert forall|i: int| 0 <= i < next.turns.given implies (
            #[trigger] next.at_work.contains(i) || next.ended.contains(i) || has_result(
                next.results,
                i,
            )) by {
                assert(run.at_work.contains(i) || run.ended.contains(i) || has_result(
                    run.results,
                    i,
                ));
                if i == index {
                    assert(next.results[run.results.len() as int].0 == i);
                } else if has_result(run.results, i) {
                    let k = choose|k: int|
                        0 <= k < run.results.len() && (#[trigger] run.results[k]).0 == i;
                    assert(next.results[k].0 == i);
                }
            }
        },
    }
}

proof fn lemma_run(
    requests: Seq<RequestView>,
    parallel: nat,
    timeout: u64,
    trace: Seq<Happening>,
)
    requires
        can_happen(RunView::fresh(requests, parallel, timeout), trace),
    ensures
        run_after(RunView::fresh(requests, parallel, timeout), trace).consistent(
            requests,
            parallel,
        ),
        run_after(RunView::fresh(requests, parallel, timeout), trace).turns.timeout == timeout,
    decreases trace.len(),
{
    let run = RunView::fresh(requests, parallel, timeout);
    if trace.len() == 0 {
        assert(run.started =~= Seq::new(0, |i: int| i));
    } else {
        lemma_run(requests, parallel, timeout, trace.drop_last());
        lemma_step(run_after(run, trace.drop_last()), trace.last(), requests, parallel);
    }
}

/// At every moment of a run at most as many queries are at work as was set, and no more
/// than there are requests.
pub proof fn law_queries_at_work_are_limited(
    requests: Seq<RequestView>,
    parallel: nat,
    timeout: u64,
    trace: Seq<Happening>,
)
    requires
        can_happen(RunView::fresh(requests, parallel, timeout), trace),
    ensures
        ({
            let run = run_after(RunView::fresh(requests, parallel, timeout), trace);
            &&& run.at_work.finite()
            &&& run.at_work.len() <= parallel
            &&& run.at_work.len() <= requests.len()
        }),
{
    lemma_run(requests, parallel, timeout, trace);
}

/// In every run each query is started at most once, in the order of the requests, and
/// with the time limit that was set when the batch began.
pub proof fn law_each_query_runs_at_most_once(
    requests: Seq<RequestView>,
    parallel: nat,
    timeout: u64,
    trace: Seq<Happening>,
)
    requires
        can_happen(RunView::fresh(requests, parallel, timeout), trace),
    ensures
        ({
            let run = run_after(RunView::fresh(requests, parallel, timeout), trace);
            &&& run.started.len() <= requests.len()
            &&& forall|k: int| 0 <= k < run.started.len() ==> #[trigger] run.started[k] == k
            &&& run.turns.timeout == timeout
        }),
{
    lemma_run(requests, parallel, timeout, trace);
}

/// In every run the results are for requests of the batch, no request has two, and the
/// batch holds what they made of it.
pub proof fn law_each_request_has_at_most_one_result(
    requests: Seq<RequestView>,
    parallel: nat,
    timeout: u64,
    trace: Seq<Happening>,
)
    requires
        can_happen(RunView::fresh(requests, parallel, timeout), trace),
    ensures
        ({
            let run = run_after(RunView::fresh(requests, parallel, timeout), trace);
            &&& batch::results_fit(requests.len(), run.results)
            &&& batch::results_distinct(run.results)
            &&& run.batch == batch::after_results(BatchView::fresh(requests), run.results)
        }),
{
    lemma_run(requests, parallel, timeout, trace);
}

/// Once a batch is cancelled no query is started.
pub proof fn law_nothing_starts_after_a_stop(run: RunView)
    ensures
        run.after(Happening::Ask { cancelled: true }) == run,
{
}

/// Without a stop every server is asked: where no query is at work and a worker that asks
/// is given no turn although nothing was cancelled, each request had its turn.
pub proof fn law_every_server_is_asked(
    requests: Seq<RequestView>,
    parallel: nat,
    timeout: u64,
    trace: Seq<Happening>,
)
    requires
        parallel > 0,
        can_happen(RunView::fresh(requests, parallel, timeout), trace),
        ({
            let run = run_after(RunView::fresh(requests, parallel, timeout), trace);
            run.at_work.len() == 0 && !run.turns.gives(false)
        }),
    ensures
        run_after(RunView::fresh(requests, parallel, timeout), trace).started.len()
            == requests.len(),
{
    lemma_run(requests, parallel, timeout, trace);
}

proof fn lemma_result_is_last(results: Seq<(int, RowView)>, i: int)
    requires
        has_result(results, i),
    ensures
        batch::last_result(results, i) is Some,
    decreases results.len(),
{
    let k = choose|k: int| 0 <= k < results.len() && (#[trigger] results[k]).0 == i;
    if results.last().0 != i {
        assert(results.drop_last()[k].0 == i);
        lemma_result_is_last(results.drop_last(), i);
    }
}

proof fn lemma_nothing_to_close(b: BatchView, n: nat)
    requires
        b.wf(),
        n <= b.requests.len(),
        forall|i: int| 0 <= i < b.requests.len() ==> #[trigger] b.completed[i],
    ensures
        b.closing_events(n) == Seq::<EventView>::empty(),
    decreases n,
{
    if n > 0 {
        lemma_nothing_to_close(b, (n - 1) as nat);
        assert(b.completed[n - 1]);
    }
}

/// Every query that was started is at work, has ended, or has given its result.
pub proof fn law_no_query_is_lost(
    requests: Seq<RequestView>,
    parallel: nat,
    timeout: u64,
    trace: Seq<Happening>,
)
    requires
        can_happen(RunView::fresh(requests, parallel, timeout), trace),
    ensures
        ({
            let run = run_after(RunView::fresh(requests, parallel, timeout), trace);
            forall|k: int|
                0 <= k < run.started.len() ==> run.at_work.contains(#[trigger] run.started[k])
                    || run.ended.contains(run.started[k]) || has_result(
                    run.results,
                    run.started[k],
                )
        }),
{
    lemma_run(requests, parallel, timeout, trace);
    let run = run_after(RunView::fresh(requests, parallel, timeout), trace);
    assert forall|k: int| 0 <= k < run.started.len() implies run.at_work.contains(
        #[trigger] run.started[k],
    ) || run.ended.contains(run.started[k]) || has_result(run.results, run.started[k]) by {
        assert(run.started[k] == k);
    }
}

/// Without a stop every server has its result, once every result has come in: closing the
/// batch then adds no row and changes none.
pub proof fn law_without_a_stop_every_server_has_its_result(
    requests: Seq<RequestView>,
    parallel: nat,
    timeout: u64,
    trace: Seq<Happening>,
)
    requires
        parallel > 0,
        can_happen(RunView::fresh(requests, parallel, timeout), trace),
        ({
            let run = run_after(RunView::fresh(requests, parallel, timeout), trace);
            run.at_work.len() == 0 && run.ended == Set::<int>::empty() && !run.turns.gives(false)
        }),
    ensures
        ({
            let run = run_after(RunView::fresh(requests, parallel, timeout), trace);
            &&& run.results.len() == requests.len()
            &&& forall|i: int|
                0 <= i < requests.len() ==> #[trigger] has_result(run.results, i)
            &&& run.batch.closing_events(requests.len()) == Seq::<EventView>::empty()
            &&& run.batch.closed() == run.batch
        }),
{
    let run = run_after(RunView::fresh(requests, parallel, timeout), trace);
    lemma_run(requests, parallel, timeout, trace);
    law_every_server_is_asked(requests, parallel, timeout, trace);
    law_each_request_has_at_most_one_result(requests, parallel, timeout, trace);
    batch::lemma_after_results(requests, run.results);
    assert(run.at_work =~= Set::<int>::empty());
    assert forall|i: int| 0 <= i < requests.len() implies #[trigger] has_result(
        run.results,
        i,
    ) by {
        assert(run.at_work.contains(i) || run.ended.contains(i) || has_result(run.results, i));
    }
    assert forall|i: int| 0 <= i < requests.len() implies #[trigger] run.batch.completed[i] by {
        assert(has_result(run.results, i));
        lemma_result_is_last(run.results, i);
    }
    lemma_nothing_to_close(run.batch, requests.len());
    batch::law_as_many_rows_as_servers(requests, run.results);
    assert(run.batch.closed() =~= run.batch);
}

/// While a batch is not cancelled a worker that asks is given a turn exactly when a
/// request is left and fewer queries are at work than was set; so as many queries run at
/// once as was set, where there are as many requests.
pub proof fn law_turn_is_given_when_one_is_free(
    requests: Seq<RequestView>,
    parallel: nat,
    timeout: u64,
    trace: Seq<Happening>,
)
    requires
        can_happen(RunView::fresh(requests, parallel, timeout), trace),
    ensures
        ({
            let run = run_after(RunView::fresh(requests, parallel, timeout), trace);
            let next = run.after(Happening::Ask { cancelled: false });
            &&& run.turns.gives(false) <==> run.started.len() < requests.len()
                && run.at_work.len() < parallel
            &&& !run.turns.gives(true)
            &&& run.turns.gives(false) ==> next.started == run.started.push(
                run.started.len() as int,
            )
            &&& run.turns.gives(false) ==> next.at_work == run.at_work.insert(
                run.started.len() as int,
            )
        }),
{
    lemma_run(requests, parallel, timeout, trace);
}

/// A turn counts one query more at work and one request less to come; its end counts one
/// query less at work. The limits stay as they were set.
pub proof fn law_turns_are_counted(turns: TurnsView, total: nat, parallel: nat, timeout: u64)
    requires
        turns.running > 0,
    ensures
        TurnsView::fresh(total, parallel, timeout).total == total,
        TurnsView::fresh(total, parallel, timeout).timeout == timeout,
        TurnsView::fresh(total, parallel, timeout).given == 0,
        TurnsView::fresh(total, parallel, timeout).running == 0,
        parallel <= total ==> TurnsView::fresh(total, parallel, timeout).limit == parallel,
        parallel > total ==> TurnsView::fresh(total, parallel, timeout).limit == total,
        turns.after_giving().given == turns.given + 1,
        turns.after_giving().running == turns.running + 1,
        turns.after_giving().total == turns.total,
        turns.after_giving().limit == turns.limit,
        turns.after_giving().timeout == turns.timeout,
        turns.after_release().running == turns.running - 1,
        turns.after_release().given == turns.given,
        turns.after_release().total == turns.total,
        turns.after_release().limit == turns.limit,
        turns.after_release().timeout == turns.timeout,
{
}

/// A turn is given exactly when nothing was cancelled, a request is left and fewer queries
/// are at work than may be; it is for the next request, with the time limit of the batch.
pub proof fn law_turn_is_for_the_next_request(
    turns: &mut Turns,
    cancelled: bool,
    r: Option<Turn>,
)
    requires
        old(turns)@.wf(),
        call_ensures(Turns::take, (turns, cancelled), r),
    ensures
        r is Some <==> !cancelled && old(turns)@.given < old(turns)@.total && old(turns)@.running
            < old(turns)@.limit,
        r matches Some(turn) ==> turn.index == old(turns)@.given && turn.timeout
            == old(turns)@.timeout && final(turns)@.given == old(turns)@.given + 1
            && final(turns)@.running == old(turns)@.running + 1,
        r is None ==> final(turns)@ == old(turns)@,
        final(turns)@.total == old(turns)@.total,
        final(turns)@.limit == old(turns)@.limit,
        final(turns)@.timeout == old(turns)@.timeout,
{
}

/// The turns of a batch start with none given, allow as many queries at once as was set, or
/// as there are requests where that is fewer, and keep the time limit that was set.
pub proof fn law_turns_of_a_batch(batch: &Batch, parallel: usize, timeout: u64, r: Turns)
    requires
        call_ensures(Turns::new, (batch, parallel, timeout), r),
    ensures
        r@.total == batch@.requests.len(),
        r@.limit <= parallel && r@.limit <= batch@.requests.len(),
        r@.limit == parallel || r@.limit == batch@.requests.len(),
        r@.timeout == timeout,
        r@.given == 0,
        r@.running == 0,
{
}

/// A query that ended leaves its place to another, and changes nothing else.
pub proof fn law_ended_query_leaves_its_place(turns: &mut Turns)
    requires
        old(turns)@.wf(),
        old(turns)@.running > 0,
        call_ensures(Turns::release, (turns,), ()),
    ensures
        final(turns)@.running == old(turns)@.running - 1,
        final(turns)@.given == old(turns)@.given,
        final(turns)@.total == old(turns)@.total,
        final(turns)@.limit == old(turns)@.limit,
        final(turns)@.timeout == old(turns)@.timeout,
{
}

} // verus!

//! A batch of queries: the rows that its report holds while results come in, when the
//! batch is stopped, and when it ends.
use crate::model;
use crate::model::{Request, RequestView, ResultRow, RowView, Verdict};
use vstd::prelude::*;
use vstd::string::*;

verus! {

/// Why a server has no result before its query.
pub const QUEUED: &'static str = "En cola; todavia no validado";

/// Why a server has no result when its query was never started.
pub const NOT_STARTED: &'static str = "No iniciado: lote detenido";

/// What is said when a worker died.
pub const WORKER_FAILED: &'static str = "Un trabajador fallo; revisar servidores incompletos";

/// What a batch tells the window.
pub enum Event {
    /// A server has its row.
    Row(ResultRow),
    /// The reports are whole.
    Saved,
    /// Something went wrong.
    Error(String),
    /// The batch has ended.
    Done,
}

/// An `Event` as texts.
#[verifier::ext_equal]
pub enum EventView {
    Row(RowView),
    Saved,
    Error(Seq<char>),
    Done,
}

impl View for Event {
    type V = EventView;

    open spec fn view(&self) -> EventView {
        match *self {
            Event::Row(row) => EventView::Row(row@),
            Event::Saved => EventView::Saved,
            Event::Error(e) => EventView::Error(e@),
            Event::Done => EventView::Done,
        }
    }
}

pub open spec fn events_view(v: Seq<Event>) -> Seq<EventView> {
    Seq::new(v.len(), |i: int| v[i]@)
}

/// The row of a server that waits for its query.
pub open spec fn queued_row(req: RequestView) -> RowView {
    RowView::error(req, QUEUED@, "PENDIENTE"@)
}

/// The row of a server whose query was never started.
pub open spec fn cancelled_row(req: RequestView) -> RowView {
    RowView::error(req, NOT_STARTED@, "CANCELADO"@)
}

/// The requests of a batch, with a row and a mark for each: whether it has its result.
pub struct Batch {
    requests: Vec<Request>,
    snapshot: Vec<ResultRow>,
    completed: Vec<bool>,
    save_failed: bool,
}

/// A `Batch` as sequences.
#[verifier::ext_equal]
pub struct BatchView {
    pub requests: Seq<RequestView>,
    pub snapshot: Seq<RowView>,
    pub completed: Seq<bool>,
    pub save_failed: bool,
}

impl View for Batch {
    type V = BatchView;

    closed spec fn view(&self) -> BatchView {
        BatchView {
            requests: model::requests_view(self.requests@),
            snapshot: model::rows_view(self.snapshot@),
            completed: self.completed@,
            save_failed: self.save_failed,
        }
    }
}

impl BatchView {
    /// There is a row and a mark for each request.
    pub open spec fn wf(self) -> bool {
        &&& self.snapshot.len() == self.requests.len()
        &&& self.completed.len() == self.requests.len()
    }

    /// A batch before its first result.
    pub open spec fn fresh(requests: Seq<RequestView>) -> BatchView {
        BatchView {
            requests,
            snapshot: Seq::new(requests.len(), |i: int| queued_row(requests[i])),
            completed: Seq::new(requests.len(), |i: int| false),
            save_failed: false,
        }
    }

    /// The batch with the result of one request.
    pub open spec fn recorded(self, i: int, row: RowView) -> BatchView {
        BatchView {
            snapshot: self.snapshot.update(i, row),
            completed: self.completed.update(i, true),
            ..self
        }
    }

    /// The batch with a row for each request that has no result.
    pub open spec fn closed(self) -> BatchView {
        BatchView {
            snapshot: Seq::new(
                self.requests.len(),
                |i: int|
                    if self.completed[i] {
                        self.snapshot[i]
                    } else {
                        cancelled_row(self.requests[i])
                    },
            ),
            ..self
        }
    }

    /// The rows that closing adds, in the order of the first `n` requests.
    pub open spec fn closing_events(self, n: nat) -> Seq<EventView>
        decreases n,
    {
        if n == 0 {
            Seq::empty()
        } else {
            let before = self.closing_events((n - 1) as nat);
            if self.completed[n - 1] {
                before
            } else {
                before.push(EventView::Row(cancelled_row(self.requests[n - 1])))
            }
        }
    }
}

/// What to do after a snapshot was written.
pub enum AfterSave {
    Continue,
    /// Start no more queries, cancel those at work, and tell the window.
    Stop(Event),
}

/// What is said when a snapshot cannot be written.
pub open spec fn save_message(reason: Seq<char>) -> Seq<char> {
    "Error guardando reportes: "@ + reason + ". Lote detenido."@
}

/// What is said when the last report cannot be written.
pub open spec fn final_save_message(reason: Seq<char>) -> Seq<char> {
    "No se pudo guardar el reporte final: "@ + reason
}

/// What the window is told at the end of a batch, given whether a snapshot could not be
/// written and why the last report could not, if so.
pub open spec fn final_events(save_failed: bool, failure: Option<Seq<char>>) -> Seq<EventView> {
    match failure {
        Some(reason) => seq![EventView::Error(final_save_message(reason)), EventView::Done],
        None => if save_failed {
            seq![EventView::Done]
        } else {
            seq![EventView::Saved, EventView::Done]
        },
    }
}

/// A batch always ends, and says that its reports are whole only when every write of
/// them succeeded.
pub proof fn law_saved_only_when_every_write_succeeded(
    save_failed: bool,
    failure: Option<Seq<char>>,
)
    ensures
        final_events(save_failed, failure).last() == EventView::Done,
        final_events(save_failed, failure).contains(EventView::Saved) <==> !save_failed
            && failure is None,
{
    let events = final_events(save_failed, failure);
    if !save_failed && failure is None {
        assert(events[0] == EventView::Saved);
    }
}

impl Batch {
    /// A batch of requests, each with a row that says that it waits.
    pub fn new(requests: Vec<Request>) -> (r: Self)
        ensures
            r@ == BatchView::fresh(model::requests_view(requests@)),
            r@.wf(),
    {
        let ghost all = model::requests_view(requests@);
        let mut snapshot: Vec<ResultRow> = Vec::new();
        let mut completed: Vec<bool> = Vec::new();
        let mut i: usize = 0;
        while i < requests.len()
            invariant
                i <= requests.len(),
                all == model::requests_view(requests@),
                snapshot@.len() == i,
                completed@.len() == i,
                forall|j: int| 0 <= j < i ==> (#[trigger] snapshot@[j])@ == queued_row(all[j]),
                forall|j: int| 0 <= j < i ==> !(#[trigger] completed@[j]),
            decreases requests.len() - i,
        {
            snapshot.push(ResultRow::error(&requests[i], QUEUED.to_owned(), "PENDIENTE"));
            completed.push(false);
            i += 1;
        }
        let r = Batch { requests, snapshot, completed, save_failed: false };
        assert(r@ =~= BatchView::fresh(all));
        r
    }

    /// The requests of the batch.
    pub fn requests(&self) -> (r: &Vec<Request>)
        ensures
            model::requests_view(r@) == self@.requests,
    {
        &self.requests
    }

    /// The rows of the report as it stands.
    pub fn snapshot(&self) -> (r: &Vec<ResultRow>)
        ensures
            model::rows_view(r@) == self@.snapshot,
    {
        &self.snapshot
    }

    /// How many queries run at once: no more than there are requests.
    pub fn workers(&self, parallel: usize) -> (r: usize)
        ensures
            r == if parallel <= self@.requests.len() {
                parallel as int
            } else {
                self@.requests.len() as int
            },
    {
        if parallel <= self.requests.len() {
            parallel
        } else {
            self.requests.len()
        }
    }

    /// Takes the result of the request with this index.
    pub fn record(&mut self, i: usize, row: ResultRow) -> (r: Event)
        requires
            old(self)@.wf(),
            i < old(self)@.requests.len(),
        ensures
            final(self)@ == old(self)@.recorded(i as int, row@),
            final(self)@.wf(),
            r@ == EventView::Row(row@),
    {
        let shown = row.clone();
        self.completed.set(i, true);
        self.snapshot.set(i, row);
        assert(self@ =~= old(self)@.recorded(i as int, row@));
        Event::Row(shown)
    }

    /// Takes the outcome of writing a snapshot. A batch that cannot be written stops.
    pub fn after_save(&mut self, saved: Result<(), String>) -> (r: AfterSave)
        ensures
            match saved {
                Ok(()) => final(self)@ == old(self)@ && r is Continue,
                Err(e) => {
                    &&& final(self)@ == (BatchView { save_failed: true, ..old(self)@ })
                    &&& r matches AfterSave::Stop(event)
                    &&& event@ == EventView::Error(save_message(e@))
                },
            },
    {
        match saved {
            Ok(()) => AfterSave::Continue,
            Err(e) => {
                self.save_failed = true;
                let mut m = "Error guardando reportes: ".to_owned();
                m.append(e.as_str());
                m.append(". Lote detenido.");
                AfterSave::Stop(Event::Error(m))
            },
        }
    }

    /// What the window is told of a worker that died.
    pub fn worker_failed() -> (r: Event)
        ensures
            r@ == EventView::Error(WORKER_FAILED@),
    {
        Event::Error(WORKER_FAILED.to_owned())
    }

    /// Gives a row to each request without a result, once no query is left at work.
    pub fn close(&mut self) -> (r: Vec<Event>)
        requires
            old(self)@.wf(),
        ensures
            final(self)@ == old(self)@.closed(),
            final(self)@.wf(),
            events_view(r@) == old(self)@.closing_events(old(self)@.requests.len()),
    {
        let ghost before = self@;
        let mut events: Vec<Event> = Vec::new();
        let mut i: usize = 0;
        assert(events_view(events@) =~= before.closing_events(0));
        while i < self.requests.len()
            invariant
                before.wf(),
                self@.wf(),
                i <= self@.requests.len(),
                self@.requests == before.requests,
                self@.completed == before.completed,
                self@.save_failed == before.save_failed,
                forall|j: int|
                    0 <= j < i ==> #[trigger] self@.snapshot[j] == before.closed().snapshot[j],
                forall|j: int|
                    i <= j < self@.requests.len() ==> #[trigger] self@.snapshot[j]
                        == before.snapshot[j],
                events_view(events@) == before.closing_events(i as nat),
            decreases self@.requests.len() - i,
        {
            assert(self.completed@ == before.completed);
            if !self.completed[i] {
                let ghost was = self@;
                let ghost told = events@;
                let row = ResultRow::error(&self.requests[i], NOT_STARTED.to_owned(), "CANCELADO");
                assert(row@ == cancelled_row(before.requests[i as int]));
                let shown = row.clone();
                self.snapshot.set(i, row);
                assert(self@.snapshot =~= was.snapshot.update(i as int, row@));
                events.push(Event::Row(shown));
                assert(events_view(events@) =~= events_view(told).push(EventView::Row(row@)));
            }
            i += 1;
        }
        assert(self@ =~= before.closed());
        events
    }

    /// What the window is told once the last report was written. The reports are whole
    /// only if every snapshot could be written, and the batch ends in any case.
    pub fn finish(&self, saved: Result<(), String>) -> (r: Vec<Event>)
        ensures
            events_view(r@) == final_events(
                self@.save_failed,
                match saved {
                    Ok(()) => None,
                    Err(e) => Some(e@),
                },
            ),
    {
        let mut r: Vec<Event> = Vec::new();
        match saved {
            Ok(()) => {
                if !self.save_failed {
                    r.push(Event::Saved);
                }
            },
            Err(e) => {
                let mut m = "No se pudo guardar el reporte final: ".to_owned();
                m.append(e.as_str());
                r.push(Event::Error(m));
            },
        }
        r.push(Event::Done);
        assert(events_view(r@) =~= final_events(
            self@.save_failed,
            match saved {
                Ok(()) => None,
                Err(e) => Some(e@),
            },
        ));
        r
    }
}

/// The batch after results came in, each with the index of its request.
pub open spec fn after_results(b: BatchView, results: Seq<(int, RowView)>) -> BatchView
    decreases results.len(),
{
    if results.len() == 0 {
        b
    } else {
        after_results(b, results.drop_last()).recorded(results.last().0, results.last().1)
    }
}

/// The last result for a request, if it has one.
pub open spec fn last_result(results: Seq<(int, RowView)>, i: int) -> Option<RowView>
    decreases results.len(),
{
    if results.len() == 0 {
        None
    } else if results.last().0 == i {
        Some(results.last().1)
    } else {
        last_result(results.drop_last(), i)
    }
}

/// The results are for requests of the batch.
pub open spec fn results_fit(n: nat, results: Seq<(int, RowView)>) -> bool {
    forall|k: int| 0 <= k < results.len() ==> 0 <= (#[trigger] results[k]).0 < n
}

/// No request has two results.
pub open spec fn results_distinct(results: Seq<(int, RowView)>) -> bool {
    forall|j: int, k: int|
        0 <= j < k < results.len() ==> (#[trigger] results[j]).0 != (#[trigger] results[k]).0
}

/// What results make of a fresh batch.
pub proof fn lemma_after_results(requests: Seq<RequestView>, results: Seq<(int, RowView)>)
    requires
        results_fit(requests.len(), results),
    ensures
        ({
            let b = after_results(BatchView::fresh(requests), results);
            &&& b.wf()
            &&& b.requests == requests
            &&& !b.save_failed
            &&& forall|i: int|
                0 <= i < requests.len() ==> (#[trigger] b.completed[i] <==> last_result(
                    results,
                    i,
                ) is Some)
            &&& forall|i: int|
                0 <= i < requests.len() ==> #[trigger] b.snapshot[i] == (match last_result(
                    results,
                    i,
                ) {
                    Some(row) => row,
                    None => queued_row(requests[i]),
                })
        }),
    decreases results.len(),
{
    if results.len() > 0 {
        let init = results.drop_last();
        assert forall|k: int| 0 <= k < init.len() implies 0 <= (#[trigger] init[k]).0
            < requests.len() by {
            assert(init[k] == results[k]);
        }
        lemma_after_results(requests, init);
        let before = after_results(BatchView::fresh(requests), init);
        let b = after_results(BatchView::fresh(requests), results);
        let at = results[results.len() - 1].0;
        assert(b == before.recorded(at, results.last().1));
        assert forall|i: int| 0 <= i < requests.len() implies (#[trigger] b.completed[i]
            <==> last_result(results, i) is Some) by {
            if i != at {
                assert(b.completed[i] == before.completed[i]);
            }
        }
        assert forall|i: int| 0 <= i < requests.len() implies #[trigger] b.snapshot[i] == (
        match last_result(results, i) {
            Some(row) => row,
            None => queued_row(requests[i]),
        }) by {
            if i != at {
                assert(b.snapshot[i] == before.snapshot[i]);
            }
        }
    }
}

/// When a batch is closed, each server has one row, in the order of the requests: its
/// result, or else the row that says that its query was never started.
pub proof fn law_every_server_has_its_row(
    requests: Seq<RequestView>,
    results: Seq<(int, RowView)>,
)
    requires
        results_fit(requests.len(), results),
    ensures
        ({
            let end = after_results(BatchView::fresh(requests), results).closed();
            &&& end.snapshot.len() == requests.len()
            &&& forall|i: int|
                0 <= i < requests.len() ==> #[trigger] end.snapshot[i] == (match last_result(
                    results,
                    i,
                ) {
                    Some(row) => row,
                    None => cancelled_row(requests[i]),
                })
        }),
{
    lemma_after_results(requests, results);
    let b = after_results(BatchView::fresh(requests), results);
    assert forall|i: int| 0 <= i < requests.len() implies #[trigger] b.closed().snapshot[i] == (
    match last_result(results, i) {
        Some(row) => row,
        None => cancelled_row(requests[i]),
    }) by {
        assert(b.completed[i] <==> last_result(results, i) is Some);
        if b.completed[i] {
            assert(b.closed().snapshot[i] == b.snapshot[i]);
        }
    }
}

/// A snapshot taken at any time holds, for each server, its result or a row that says
/// that the server waits.
pub proof fn law_snapshot_holds_what_came_in(
    requests: Seq<RequestView>,
    results: Seq<(int, RowView)>,
)
    requires
        results_fit(requests.len(), results),
    ensures
        ({
            let b = after_results(BatchView::fresh(requests), results);
            &&& b.snapshot.len() == requests.len()
            &&& forall|i: int|
                0 <= i < requests.len() ==> #[trigger] b.snapshot[i] == (match last_result(
                    results,
                    i,
                ) {
                    Some(row) => row,
                    None => queued_row(requests[i]),
                })
        }),
{
    lemma_after_results(requests, results);
}

/// A server without a result is incomplete, while it waits and after the batch stopped.
pub proof fn law_pending_servers_are_incomplete(req: RequestView)
    ensures
        queued_row(req).verdict() == Verdict::Incomplete,
        cancelled_row(req).verdict() == Verdict::Incomplete,
{
    reveal_strlit("PENDIENTE");
    reveal_strlit("CANCELADO");
    reveal_strlit("FAIL");
    reveal_strlit("OK");
    reveal_strlit("WARN");
    reveal_strlit("INFO");
    assert("PENDIENTE"@.len() == 9);
    assert("CANCELADO"@.len() == 9);
    model::law_missing_result_is_incomplete(req, QUEUED@, "PENDIENTE"@);
    model::law_missing_result_is_incomplete(req, NOT_STARTED@, "CANCELADO"@);
}

/// The rows of a report stay with their servers: where each result is about the server
/// and environment of its request, so is each row of the closed batch.
pub proof fn law_rows_stay_with_their_servers(
    requests: Seq<RequestView>,
    results: Seq<(int, RowView)>,
)
    requires
        results_fit(requests.len(), results),
        forall|k: int|
            0 <= k < results.len() ==> (#[trigger] results[k]).1.server
                == requests[results[k].0].server && results[k].1.environment
                == requests[results[k].0].environment,
    ensures
        ({
            let end = after_results(BatchView::fresh(requests), results).closed();
            forall|i: int|
                0 <= i < requests.len() ==> (#[trigger] end.snapshot[i]).server
                    == requests[i].server && end.snapshot[i].environment
                    == requests[i].environment
        }),
{
    law_every_server_has_its_row(requests, results);
    let end = after_results(BatchView::fresh(requests), results).closed();
    assert forall|i: int| 0 <= i < requests.len() implies (#[trigger] end.snapshot[i]).server
        == requests[i].server && end.snapshot[i].environment == requests[i].environment by {
        lemma_last_result_is_one(results, i);
    }
}

/// The last result for a request is one of the results.
pub proof fn lemma_last_result_is_one(results: Seq<(int, RowView)>, i: int)
    ensures
        last_result(results, i) matches Some(row) ==> exists|k: int|
            0 <= k < results.len() && (#[trigger] results[k]).0 == i && results[k].1 == row,
    decreases results.len(),
{
    if results.len() > 0 {
        if results.last().0 == i {
            assert(results[results.len() - 1].0 == i);
        } else {
            lemma_last_result_is_one(results.drop_last(), i);
            if last_result(results, i) is Some {
                let row = last_result(results, i)->0;
                let k = choose|k: int|
                    0 <= k < results.len() - 1 && (#[trigger] results.drop_last()[k]).0 == i
                        && results.drop_last()[k].1 == row;
                assert(results[k].0 == i);
            }
        }
    }
}

/// How many of the first `n` marks are set.
pub open spec fn marks(completed: Seq<bool>, n: nat) -> nat
    decreases n,
{
    if n == 0 {
        0
    } else {
        marks(completed, (n - 1) as nat) + if completed[n - 1] {
            1nat
        } else {
            0nat
        }
    }
}

proof fn lemma_marks_update(completed: Seq<bool>, i: int, n: nat)
    requires
        0 <= i < completed.len(),
        n <= completed.len(),
        !completed[i],
    ensures
        marks(completed.update(i, true), n) == marks(completed, n) + if i < n {
            1nat
        } else {
            0nat
        },
    decreases n,
{
    if n > 0 {
        lemma_marks_update(completed, i, (n - 1) as nat);
    }
}

proof fn lemma_closing_fills(b: BatchView, n: nat)
    requires
        b.wf(),
        n <= b.requests.len(),
    ensures
        b.closing_events(n).len() + marks(b.completed, n) == n,
    decreases n,
{
    if n > 0 {
        lemma_closing_fills(b, (n - 1) as nat);
    }
}

proof fn lemma_no_marks(n: nat, m: nat)
    requires
        m <= n,
    ensures
        marks(Seq::new(n, |i: int| false), m) == 0,
    decreases m,
{
    if m > 0 {
        lemma_no_marks(n, (m - 1) as nat);
    }
}

proof fn lemma_marks_of_results(requests: Seq<RequestView>, results: Seq<(int, RowView)>)
    requires
        results_fit(requests.len(), results),
        results_distinct(results),
    ensures
        marks(
            after_results(BatchView::fresh(requests), results).completed,
            requests.len(),
        ) == results.len(),
    decreases results.len(),
{
    if results.len() == 0 {
        lemma_no_marks(requests.len(), requests.len());
    } else {
        let init = results.drop_last();
        let at = results[results.len() - 1].0;
        assert forall|k: int| 0 <= k < init.len() implies 0 <= (#[trigger] init[k]).0
            < requests.len() by {
            assert(init[k] == results[k]);
        }
        assert forall|j: int, k: int| 0 <= j < k < init.len() implies (#[trigger] init[j]).0 != (
        #[trigger] init[k]).0 by {
            assert(results[j].0 != results[k].0);
        }
        lemma_marks_of_results(requests, init);
        lemma_after_results(requests, init);
        let before = after_results(BatchView::fresh(requests), init);
        lemma_last_result_is_one(init, at);
        if before.completed[at] {
            let row = last_result(init, at)->0;
            let k = choose|k: int|
                0 <= k < init.len() && (#[trigger] init[k]).0 == at && init[k].1 == row;
            assert(results[k].0 != results[results.len() - 1].0);
        }
        lemma_marks_update(before.completed, at, requests.len());
    }
}

/// The window is shown as many rows as there are servers: the results that came in and
/// the rows that closing adds.
pub proof fn law_as_many_rows_as_servers(
    requests: Seq<RequestView>,
    results: Seq<(int, RowView)>,
)
    requires
        results_fit(requests.len(), results),
        results_distinct(results),
    ensures
        results.len() + after_results(BatchView::fresh(requests), results).closing_events(
            requests.len(),
        ).len() == requests.len(),
{
    let b = after_results(BatchView::fresh(requests), results);
    lemma_after_results(requests, results);
    lemma_marks_of_results(requests, results);
    lemma_closing_fills(b, requests.len());
}

/// A server that waits, and one whose query was never started, have a row of their own
/// that names the server and its environment, says why there is no result, and passes
/// neither as fit nor as failed.
pub proof fn law_rows_without_a_result(req: RequestView)
    ensures
        queued_row(req).server == req.server,
        queued_row(req).environment == req.environment,
        queued_row(req).checks.len() == 1,
        queued_row(req).checks[0].state == "PENDIENTE"@,
        queued_row(req).checks[0].detail == "En cola; todavia no validado"@,
        queued_row(req).verdict() == Verdict::Incomplete,
        cancelled_row(req).server == req.server,
        cancelled_row(req).environment == req.environment,
        cancelled_row(req).checks.len() == 1,
        cancelled_row(req).checks[0].state == "CANCELADO"@,
        cancelled_row(req).checks[0].detail == "No iniciado: lote detenido"@,
        cancelled_row(req).verdict() == Verdict::Incomplete,
{
    reveal_strlit("PENDIENTE");
    reveal_strlit("CANCELADO");
    reveal_strlit("FAIL");
    reveal_strlit("OK");
    reveal_strlit("WARN");
    reveal_strlit("INFO");
    assert("PENDIENTE"@.len() == 9);
    assert("CANCELADO"@.len() == 9);
    model::law_missing_result_is_incomplete(req, QUEUED@, "PENDIENTE"@);
    model::law_missing_result_is_incomplete(req, NOT_STARTED@, "CANCELADO"@);
}

/// A batch starts with the row of a waiting server for each request, no result, and no
/// failed write.
pub proof fn law_batch_starts_with_every_server(requests: Seq<RequestView>, i: int)
    ensures
        BatchView::fresh(requests).requests == requests,
        BatchView::fresh(requests).snapshot.len() == requests.len(),
        BatchView::fresh(requests).completed.len() == requests.len(),
        !BatchView::fresh(requests).save_failed,
        0 <= i < requests.len() ==> BatchView::fresh(requests).snapshot[i] == queued_row(
            requests[i],
        ),
        0 <= i < requests.len() ==> !BatchView::fresh(requests).completed[i],
{
}

/// A result takes the place of its own request: that row becomes the result and counts as
/// done, and every other row and mark stays.
pub proof fn law_result_takes_its_place(b: BatchView, i: int, row: RowView, j: int)
    requires
        b.wf(),
        0 <= i < b.requests.len(),
        0 <= j < b.requests.len(),
    ensures
        b.recorded(i, row).requests == b.requests,
        b.recorded(i, row).save_failed == b.save_failed,
        b.recorded(i, row).snapshot.len() == b.snapshot.len(),
        b.recorded(i, row).completed.len() == b.completed.len(),
        b.recorded(i, row).snapshot[i] == row,
        b.recorded(i, row).completed[i],
        j != i ==> b.recorded(i, row).snapshot[j] == b.snapshot[j],
        j != i ==> b.recorded(i, row).completed[j] == b.completed[j],
{
}

/// Closing a batch keeps the row of every request that has its result, and replaces the
/// others by the row that says that the query was never started; nothing else changes.
pub proof fn law_closing_keeps_results(b: BatchView, i: int)
    requires
        b.wf(),
        0 <= i < b.requests.len(),
    ensures
        b.closed().requests == b.requests,
        b.closed().completed == b.completed,
        b.closed().save_failed == b.save_failed,
        b.closed().snapshot.len() == b.snapshot.len(),
        b.completed[i] ==> b.closed().snapshot[i] == b.snapshot[i],
        !b.completed[i] ==> b.closed().snapshot[i] == cancelled_row(b.requests[i]),
{
}

/// Closing a batch tells the row of each request without a result, each once and in the
/// order of the requests: `places` are the places of those requests.
pub proof fn law_closing_tells_each_missing_row(b: BatchView, n: nat) -> (places: Seq<int>)
    requires
        b.wf(),
        n <= b.requests.len(),
    ensures
        places.len() == b.closing_events(n).len(),
        forall|k: int|
            0 <= k < places.len() ==> 0 <= #[trigger] places[k] < n && b.closing_events(n)[k]
                == EventView::Row(b.closed().snapshot[places[k]]),
        forall|j: int, k: int|
            0 <= j < k < places.len() ==> #[trigger] places[j] < #[trigger] places[k],
        forall|i: int| 0 <= i < n ==> (#[trigger] places.contains(i) <==> !b.completed[i]),
    decreases n,
{
    if n == 0 {
        Seq::empty()
    } else {
        let last = n - 1;
        let first = law_closing_tells_each_missing_row(b, (n - 1) as nat);
        let places = if b.completed[last] {
            first
        } else {
            first.push(last)
        };
        assert forall|i: int| 0 <= i < n implies (#[trigger] places.contains(i)
            <==> !b.completed[i]) by {
            if i < last {
                assert(first.contains(i) <==> !b.completed[i]);
                if first.contains(i) {
                    let k = choose|k: int| 0 <= k < first.len() && first[k] == i;
                    assert(places[k] == i);
                }
                if places.contains(i) {
                    let k = choose|k: int| 0 <= k < places.len() && places[k] == i;
                    assert(first[k] == i);
                }
            } else if !b.completed[last] {
                assert(places[places.len() - 1] == i);
            } else if places.contains(i) {
                let k = choose|k: int| 0 <= k < places.len() && places[k] == i;
                assert(first[k] < last);
            }
        }
        places
    }
}

/// Failed writes are told with their reason, and the end of a batch with the outcome of
/// the last write.
pub proof fn law_failed_writes_are_told(reason: Seq<char>, save_failed: bool)
    ensures
        save_message(reason) == "Error guardando reportes: "@ + reason + ". Lote detenido."@,
        final_save_message(reason) == "No se pudo guardar el reporte final: "@ + reason,
        final_events(save_failed, Some(reason)) == seq![
            EventView::Error("No se pudo guardar el reporte final: "@ + reason),
            EventView::Done,
        ],
        final_events(true, None) == seq![EventView::Done],
        final_events(false, None) == seq![EventView::Saved, EventView::Done],
{
}

/// An event as texts is the event itself, with its row or its message.
pub proof fn law_events_as_texts(events: Seq<Event>, row: ResultRow, e: String, i: int)
    ensures
        Event::Row(row)@ == EventView::Row(row@),
        Event::Error(e)@ == EventView::Error(e@),
        Event::Saved@ == EventView::Saved,
        Event::Done@ == EventView::Done,
        events_view(events).len() == events.len(),
        0 <= i < events.len() ==> events_view(events)[i] == events[i]@,
{
}

/// A new batch has a waiting row for each of its requests, and works on no more of them at
/// once than there are.
#[verifier::rlimit(60)]
pub proof fn law_new_batch_waits(
    requests: Vec<Request>,
    b: Batch,
    parallel: usize,
    workers: usize,
    i: int,
)
    requires
        call_ensures(Batch::new, (requests,), b),
        call_ensures(Batch::workers, (&b, parallel), workers),
    ensures
        b@.wf(),
        b@.requests.len() == requests@.len(),
        !b@.save_failed,
        0 <= i < requests@.len() ==> b@.requests[i] == requests@[i]@ && !b@.completed[i]
            && b@.snapshot[i].server == requests@[i].server@ && b@.snapshot[i].environment
            == requests@[i].environment@ && b@.snapshot[i].checks.len() == 1
            && b@.snapshot[i].checks[0].state == "PENDIENTE"@
            && b@.snapshot[i].checks[0].detail == "En cola; todavia no validado"@,
        workers <= parallel && workers <= requests@.len(),
        workers == parallel || workers == requests@.len(),
{
}

/// A batch that takes a result shows that row, keeps it, and changes no other.
pub proof fn law_batch_takes_a_result(
    b: &mut Batch,
    i: usize,
    row: ResultRow,
    event: Event,
    j: int,
)
    requires
        old(b)@.wf(),
        i < old(b)@.requests.len(),
        0 <= j < old(b)@.requests.len(),
        call_ensures(Batch::record, (b, i, row), event),
    ensures
        event@ == EventView::Row(row@),
        final(b)@.requests == old(b)@.requests,
        final(b)@.save_failed == old(b)@.save_failed,
        final(b)@.snapshot[i as int] == row@,
        final(b)@.completed[i as int],
        j != i ==> final(b)@.snapshot[j] == old(b)@.snapshot[j],
        j != i ==> final(b)@.completed[j] == old(b)@.completed[j],
        final(b)@.snapshot.len() == old(b)@.snapshot.len(),
{
}

/// A batch goes on exactly while its snapshots can be written; the first that cannot is
/// told with its reason, and never forgotten.
pub proof fn law_batch_stops_when_it_cannot_be_written(
    b: &mut Batch,
    saved: Result<(), String>,
    r: AfterSave,
)
    requires
        call_ensures(Batch::after_save, (b, saved), r),
    ensures
        r is Continue <==> saved is Ok,
        saved matches Err(e) ==> (r matches AfterSave::Stop(event) && event@ == EventView::Error(
            "Error guardando reportes: "@ + e@ + ". Lote detenido."@,
        )),
        final(b)@.save_failed <==> old(b)@.save_failed || saved is Err,
        final(b)@.requests == old(b)@.requests,
        final(b)@.snapshot == old(b)@.snapshot,
        final(b)@.completed == old(b)@.completed,
{
}

/// Closing a batch keeps its results and tells a row for each request without one.
#[verifier::rlimit(60)]
pub proof fn law_batch_is_closed(b: &mut Batch, events: Vec<Event>, i: int)
    requires
        old(b)@.wf(),
        0 <= i < old(b)@.requests.len(),
        call_ensures(Batch::close, (b,), events),
    ensures
        final(b)@.requests == old(b)@.requests,
        final(b)@.completed == old(b)@.completed,
        final(b)@.save_failed == old(b)@.save_failed,
        old(b)@.completed[i] ==> final(b)@.snapshot[i] == old(b)@.snapshot[i],
        !old(b)@.completed[i] ==> {
            &&& final(b)@.snapshot[i].server == old(b)@.requests[i].server
            &&& final(b)@.snapshot[i].environment == old(b)@.requests[i].environment
            &&& final(b)@.snapshot[i].checks.len() == 1
            &&& final(b)@.snapshot[i].checks[0].state == "CANCELADO"@
            &&& final(b)@.snapshot[i].checks[0].detail == "No iniciado: lote detenido"@
            &&& exists|k: int|
                0 <= k < events@.len() && (#[trigger] events@[k])@ == EventView::Row(
                    final(b)@.snapshot[i],
                )
        },
        events@.len() == old(b)@.completed.filter(|done: bool| !done).len(),
{
    let v = old(b)@;
    let n = v.requests.len();
    let places = law_closing_tells_each_missing_row(v, n);
    if !v.completed[i] {
        assert(places.contains(i));
        let k = choose|k: int| 0 <= k < places.len() && places[k] == i;
        assert(events_view(events@)[k] == EventView::Row(v.closed().snapshot[places[k]]));
        assert(events@[k]@ == EventView::Row(v.closed().snapshot[i]));
    }
    lemma_as_many_events_as_missing(v, n);
    assert(v.completed.take(n as int) =~= v.completed);
    assert(events_view(events@).len() == events@.len());
}

proof fn lemma_as_many_events_as_missing(b: BatchView, n: nat)
    requires
        b.wf(),
        n <= b.requests.len(),
    ensures
        b.closing_events(n).len() == b.completed.take(n as int).filter(|done: bool| !done).len(),
    decreases n,
{
    reveal(Seq::filter);
    if n > 0 {
        lemma_as_many_events_as_missing(b, (n - 1) as nat);
        assert(b.completed.take(n as int).drop_last() =~= b.completed.take(n - 1));
    }
}

/// At its end a batch says that its reports are whole exactly when every write succeeded,
/// tells why the last did not, and says that it has ended; a worker that died is told.
pub proof fn law_batch_tells_its_end(
    b: &Batch,
    saved: Result<(), String>,
    events: Vec<Event>,
    failed: Event,
)
    requires
        call_ensures(Batch::finish, (b, saved), events),
        call_ensures(Batch::worker_failed, (), failed),
    ensures
        saved is Ok && !b@.save_failed ==> events_view(events@) == seq![
            EventView::Saved,
            EventView::Done,
        ],
        saved is Ok && b@.save_failed ==> events_view(events@) == seq![EventView::Done],
        saved matches Err(e) ==> events_view(events@) == seq![
            EventView::Error("No se pudo guardar el reporte final: "@ + e@),
            EventView::Done,
        ],
        failed@ == EventView::Error("Un trabajador fallo; revisar servidores incompletos"@),
{
}

/// A batch shows its requests and its rows as they are.
pub proof fn law_batch_shows_its_rows(
    b: &Batch,
    requests: &Vec<Request>,
    rows: &Vec<ResultRow>,
    i: int,
)
    requires
        b@.wf(),
        0 <= i < b@.requests.len(),
        call_ensures(Batch::requests, (b,), requests),
        call_ensures(Batch::snapshot, (b,), rows),
    ensures
        requests@.len() == b@.requests.len(),
        rows@.len() == b@.requests.len(),
        requests@[i]@ == b@.requests[i],
        rows@[i]@ == b@.snapshot[i],
{
    assert(model::requests_view(requests@)[i] == requests@[i]@);
    assert(model::rows_view(rows@)[i] == rows@[i]@);
}

} // verus!

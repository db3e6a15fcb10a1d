//! The window's state: what the user set, the rows that came in, and what is shown.
use crate::batch;
use crate::batch::{Batch, BatchView, Event, EventView};
use crate::model;
use crate::model::{Check, Request, RequestView, ResultRow, RowView, Verdict};
use crate::ports;
use crate::report;
use crate::servers;
use crate::text;
use crate::text::CharClass;
use crate::turns;
use crate::turns::{Happening, RunView};
use vstd::prelude::*;
use vstd::string::*;
use vstd::utf8::*;

verus! {

/// The message of a fresh window.
pub const WELCOME: &'static str =
    "Selecciona el ambiente y los servidores. El precheck detecta las rutas automáticamente.";

/// The message while a batch runs.
pub const RUNNING: &'static str = "Validando...";

/// The message when the reports of a batch are whole.
pub const SAVED: &'static str =
    "Reportes guardados. Revisa observaciones y validaciones incompletas antes del parche.";

/// The message when the user wants to close the window while a batch runs.
pub const CLOSING: &'static str =
    "Deteniendo consultas y guardando resultados; podrás cerrar al terminar.";

/// The message when the user stops a batch.
pub const STOPPING: &'static str = "Deteniendo; los servidores pendientes quedarán incompletos.";

/// The state of the window.
pub struct App {
    pub request: Request,
    pub servers: String,
    pub ports: String,
    pub parallel: usize,
    pub timeout: u64,
    pub rows: Vec<ResultRow>,
    pub running: bool,
    pub output: Option<String>,
    pub message: String,
    pub filter: String,
    pub selected: Option<usize>,
    pub total: usize,
}

/// An `App` as texts and sequences.
#[verifier::ext_equal]
pub struct AppView {
    pub request: RequestView,
    pub servers: Seq<char>,
    pub ports: Seq<char>,
    pub parallel: usize,
    pub timeout: u64,
    pub rows: Seq<RowView>,
    pub running: bool,
    pub output: Option<Seq<char>>,
    pub message: Seq<char>,
    pub filter: Seq<char>,
    pub selected: Option<usize>,
    pub total: usize,
}

pub open spec fn option_text(s: Option<String>) -> Option<Seq<char>> {
    match s {
        Some(t) => Some(t@),
        None => None,
    }
}

impl View for App {
    type V = AppView;

    open spec fn view(&self) -> AppView {
        AppView {
            request: self.request@,
            servers: self.servers@,
            ports: self.ports@,
            parallel: self.parallel,
            timeout: self.timeout,
            rows: model::rows_view(self.rows@),
            running: self.running,
            output: option_text(self.output),
            message: self.message@,
            filter: self.filter@,
            selected: self.selected,
            total: self.total,
        }
    }
}

/// A request for each of the servers, alike but for the server.
pub open spec fn requests_for(req: RequestView, names: Seq<Seq<char>>) -> Seq<RequestView> {
    Seq::new(names.len(), |i: int| RequestView { server: names[i], ..req })
}

impl AppView {
    /// A fresh window.
    pub open spec fn initial(app_folder: Seq<char>) -> AppView {
        AppView {
            request: RequestView::initial(app_folder),
            servers: Seq::empty(),
            ports: "1363,1364,1365"@,
            parallel: 4,
            timeout: 180,
            rows: Seq::empty(),
            running: false,
            output: None,
            message: WELCOME@,
            filter: Seq::empty(),
            selected: None,
            total: 0,
        }
    }

    /// The servers to ask: this computer, or those of the list.
    pub open spec fn names(self) -> Seq<Seq<char>> {
        if self.request.local {
            seq!["localhost"@]
        } else {
            servers::first_spellings(text::words(self.servers))
        }
    }

    /// Why no batch can start, if it cannot. The list of servers comes first.
    pub open spec fn start_error(self) -> Option<Seq<char>> {
        if !self.request.local && servers::first_invalid(text::words(self.servers)) is Some {
            Some(
                servers::invalid_message(
                    servers::first_invalid(text::words(self.servers))->0,
                ),
            )
        } else if !self.request.local && text::words(self.servers).len() == 0 {
            Some(servers::NO_SERVERS@)
        } else if !ports::all_numbers(self.ports) {
            Some(ports::INVALID_PORTS@)
        } else if ports::port_list(self.ports).contains(0) {
            Some(ports::PORT_RANGE@)
        } else {
            None
        }
    }

    /// The window with the ports of its list in the request.
    pub open spec fn with_ports(self) -> AppView {
        AppView {
            request: RequestView { ports: ports::port_list(self.ports), ..self.request },
            ..self
        }
    }

    /// The window when a batch has started.
    pub open spec fn begun(self, folder: Seq<char>, total: usize) -> AppView {
        AppView {
            rows: Seq::empty(),
            running: true,
            output: Some(folder),
            message: RUNNING@,
            selected: None,
            total,
            ..self
        }
    }

    /// The window after an event of its batch.
    pub open spec fn after(self, event: EventView) -> AppView {
        match event {
            EventView::Row(row) => AppView { rows: self.rows.push(row), ..self },
            EventView::Saved => AppView { message: SAVED@, ..self },
            EventView::Error(e) => AppView { message: e, ..self },
            EventView::Done => AppView { running: false, ..self },
        }
    }
}

/// What the search looks at: the server and its verdict.
pub open spec fn search_text(row: RowView) -> Seq<char> {
    row.server + " "@ + row.verdict().label()
}

/// The row is found by this search.
pub open spec fn is_found(row: RowView, filter: Seq<char>) -> bool {
    text::is_substring(text::lowercase(search_text(row)), text::lowercase(filter))
}

/// The indices of the rows that a search finds, in order.
pub open spec fn found_rows(rows: Seq<RowView>, filter: Seq<char>) -> Seq<usize>
    decreases rows.len(),
{
    if rows.len() == 0 {
        Seq::empty()
    } else {
        let before = found_rows(rows.drop_last(), filter);
        if is_found(rows.last(), filter) {
            before.push((rows.len() - 1) as usize)
        } else {
            before
        }
    }
}

/// Whether a search finds a row. Case does not matter, and an empty search finds all.
pub fn found(row: &ResultRow, filter: &str) -> (r: bool)
    ensures
        r == is_found(row@, filter@),
        filter@.len() == 0 ==> r,
        is_ascii_chars(search_text(row@)) && is_ascii_chars(filter@) ==> r == text::is_substring(
            text::ascii_lowercase(search_text(row@)),
            text::ascii_lowercase(filter@),
        ),
{
    let mut label = row.server.clone();
    label.append(" ");
    label.append(row.status());
    let shown = text::to_lowercase(label.as_str());
    let wanted = text::to_lowercase(filter);
    proof {
        if filter@.len() == 0 {
            assert(wanted@.len() == 0);
            assert(shown@.subrange(0, 0int + wanted@.len()) =~= wanted@);
            assert(text::is_substring(shown@, wanted@));
        }
    }
    text::contains(shown.as_str(), wanted.as_str())
}

/// What is said when the folder of the reports cannot be made.
pub fn folder_error(reason: &str) -> (r: String)
    ensures
        r@ == "No se pueden crear reportes: "@ + reason@,
{
    let mut r = "No se pueden crear reportes: ".to_owned();
    r.append(reason);
    r
}

/// The line of counts of a server.
pub open spec fn counts_line(row: RowView) -> Seq<char> {
    text::decimal(model::state_count(row.checks, "OK"@)) + " OK · "@ + text::decimal(
        model::state_count(row.checks, "WARN"@),
    ) + " WARN · "@ + text::decimal(model::state_count(row.checks, "FAIL"@)) + " FAIL · "@
        + text::decimal(model::state_count(row.checks, "ERROR"@)) + " ERROR"@
}

/// Counts the checks of a server by their state.
pub fn counts_label(row: &ResultRow) -> (r: String)
    ensures
        r@ == counts_line(row@),
{
    let mut r = text::decimal_text(row.count("OK") as u64);
    r.append(" OK · ");
    r.append(text::decimal_text(row.count("WARN") as u64).as_str());
    r.append(" WARN · ");
    r.append(text::decimal_text(row.count("FAIL") as u64).as_str());
    r.append(" FAIL · ");
    r.append(text::decimal_text(row.count("ERROR") as u64).as_str());
    r.append(" ERROR");
    r
}

/// The heading of the details of a server.
pub fn detail_heading(row: &ResultRow) -> (r: String)
    ensures
        r@ == "Detalle · "@ + row@.server,
{
    let mut r = "Detalle · ".to_owned();
    r.append(row.server.as_str());
    r
}

/// The line under the heading of the details of a server.
pub fn detail_line(row: &ResultRow) -> (r: String)
    ensures
        r@ == "Equipo: "@ + row@.computer + " · Ambiente: "@ + row@.environment + " · "@
            + row@.finished,
{
    let mut r = "Equipo: ".to_owned();
    r.append(row.computer.as_str());
    r.append(" · Ambiente: ");
    r.append(row.environment.as_str());
    r.append(" · ");
    r.append(row.finished.as_str());
    r
}

/// The title of a check.
pub fn check_title(check: &Check) -> (r: String)
    ensures
        r@ == check@.phase + " / "@ + check@.name,
{
    let mut r = check.phase.clone();
    r.append(" / ");
    r.append(check.name.as_str());
    r
}

/// The red, green and blue of a verdict or of the state of a check.
pub open spec fn color_of(status: Seq<char>) -> (u8, u8, u8) {
    if status == "APTO"@ || status == "OK"@ {
        (26u8, 125u8, 89u8)
    } else if status == "NO APTO"@ || status == "FAIL"@ {
        (190u8, 48u8, 53u8)
    } else if status == "INFO"@ {
        (61u8, 103u8, 140u8)
    } else {
        (170u8, 105u8, 15u8)
    }
}

/// The color of a verdict or of the state of a check: green, red, blue, or amber for
/// anything else.
pub fn status_color(status: &str) -> (r: (u8, u8, u8))
    ensures
        r == color_of(status@),
{
    if text::same_text(status, "APTO") || text::same_text(status, "OK") {
        (26, 125, 89)
    } else if text::same_text(status, "NO APTO") || text::same_text(status, "FAIL") {
        (190, 48, 53)
    } else if text::same_text(status, "INFO") {
        (61, 103, 140)
    } else {
        (170, 105, 15)
    }
}

impl App {
    /// A fresh window. `app_folder` is the folder that holds the executable.
    pub fn initial(app_folder: String) -> (r: Self)
        ensures
            r@ == AppView::initial(app_folder@),
    {
        let rows: Vec<ResultRow> = Vec::new();
        assert(model::rows_view(rows@) =~= Seq::<RowView>::empty());
        App {
            request: Request::initial(app_folder),
            servers: String::new(),
            ports: "1363,1364,1365".to_owned(),
            parallel: 4,
            timeout: 180,
            rows,
            running: false,
            output: None,
            message: WELCOME.to_owned(),
            filter: String::new(),
            selected: None,
            total: 0,
        }
    }

    fn names_to_ask(&self) -> (r: Result<Vec<String>, String>)
        ensures
            match r {
                Ok(names) => {
                    &&& text::texts(names@) == self@.names()
                    &&& self@.request.local || (servers::first_invalid(text::words(self@.servers))
                        is None && text::words(self@.servers).len() > 0)
                },
                Err(e) => {
                    &&& self@.start_error() == Some(e@)
                },
            },
    {
        if self.request.local {
            let mut names: Vec<String> = Vec::new();
            names.push("localhost".to_owned());
            assert(text::texts(names@) =~= seq!["localhost"@]);
            Ok(names)
        } else {
            servers::servers(self.servers.as_str())
        }
    }

    /// Prepares a batch of what the user set: a request for each server, with the ports
    /// of the list. Where the servers or the ports are not accepted, nothing changes.
    pub fn prepare(&mut self) -> (r: Result<Batch, String>)
        ensures
            match old(self)@.start_error() {
                Some(reason) => {
                    &&& r matches Err(e)
                    &&& e@ == reason
                    &&& final(self)@ == old(self)@
                },
                None => {
                    &&& r matches Ok(batch)
                    &&& final(self)@ == old(self)@.with_ports()
                    &&& batch@ == BatchView::fresh(
                        requests_for(final(self)@.request, old(self)@.names()),
                    )
                    &&& batch@.wf()
                    &&& batch@.requests.len() == old(self)@.names().len()
                    &&& forall|i: int|
                        0 <= i < batch@.requests.len() ==> #[trigger] batch@.requests[i] == (
                        RequestView {
                            server: old(self)@.names()[i],
                            ports: ports::port_list(old(self)@.ports),
                            ..old(self)@.request
                        })
                },
            },
    {
        let names = match self.names_to_ask() {
            Ok(names) => names,
            Err(e) => {
                return Err(e);
            },
        };
        let list = match ports::read_ports(self.ports.as_str()) {
            Ok(list) => list,
            Err(e) => {
                return Err(e);
            },
        };
        self.request.ports = list;
        assert(self@ =~= old(self)@.with_ports());
        let ghost wanted = requests_for(self@.request, old(self)@.names());
        let mut requests: Vec<Request> = Vec::new();
        let mut i: usize = 0;
        while i < names.len()
            invariant
                i <= names.len(),
                text::texts(names@) == old(self)@.names(),
                self@ == old(self)@.with_ports(),
                wanted == requests_for(self@.request, old(self)@.names()),
                requests@.len() == i,
                forall|j: int| 0 <= j < i ==> (#[trigger] requests@[j])@ == wanted[j],
            decreases names.len() - i,
        {
            let mut req = self.request.clone();
            req.server = names[i].clone();
            assert(text::texts(names@)[i as int] == names@[i as int]@);
            assert(req@ =~= wanted[i as int]);
            requests.push(req);
            i += 1;
        }
        assert(model::requests_view(requests@) =~= wanted);
        Ok(Batch::new(requests))
    }

    /// Shows that a batch runs, with its reports in `folder`.
    pub fn begin(&mut self, folder: String, batch: &Batch)
        ensures
            final(self)@ == old(self)@.begun(folder@, batch@.requests.len() as usize),
            final(self)@.total == batch@.requests.len(),
    {
        self.total = batch.requests().len();
        self.rows.clear();
        self.selected = None;
        self.output = Some(folder);
        self.message = RUNNING.to_owned();
        self.running = true;
        assert(self@ =~= old(self)@.begun(folder@, self@.total));
    }

    /// Takes an event of the batch.
    pub fn apply(&mut self, event: Event)
        ensures
            final(self)@ == old(self)@.after(event@),
    {
        match event {
            Event::Row(row) => {
                self.rows.push(row);
                assert(model::rows_view(self.rows@) =~= model::rows_view(old(self).rows@).push(
                    row@,
                ));
            },
            Event::Saved => {
                self.message = SAVED.to_owned();
            },
            Event::Error(e) => {
                self.message = e;
            },
            Event::Done => {
                self.running = false;
            },
        }
    }

    /// Takes the user's wish to close the window. While a batch runs the window stays and
    /// the batch is to be cancelled: the result says so.
    pub fn close_requested(&mut self) -> (r: bool)
        ensures
            r == old(self)@.running,
            final(self)@ == if old(self)@.running {
                AppView { message: CLOSING@, ..old(self)@ }
            } else {
                old(self)@
            },
    {
        if self.running {
            self.message = CLOSING.to_owned();
            true
        } else {
            false
        }
    }

    /// Takes the user's wish to stop the batch. A running batch is to be cancelled: the
    /// result says so.
    pub fn stop(&mut self) -> (r: bool)
        ensures
            r == old(self)@.running,
            final(self)@ == if old(self)@.running {
                AppView { message: STOPPING@, ..old(self)@ }
            } else {
                old(self)@
            },
    {
        if self.running {
            self.message = STOPPING.to_owned();
            true
        } else {
            false
        }
    }

    /// Takes the list of servers of a file, without the byte order marks at its start, or
    /// shows why the file could not be read.
    pub fn load_servers(&mut self, read: Result<String, String>)
        ensures
            final(self)@ == match read {
                Ok(s) => AppView {
                    servers: text::trim_start(s@, CharClass::Only('\u{feff}')),
                    ..old(self)@
                },
                Err(e) => AppView { message: e@, ..old(self)@ },
            },
    {
        match read {
            Ok(s) => {
                let chars = text::chars_of(s.as_str());
                let list = text::strip_start(chars.as_slice(), &CharClass::Only('\u{feff}'));
                self.servers = text::string_of(list);
            },
            Err(e) => {
                self.message = e;
            },
        }
    }

    /// Where the reports are, once a batch has started.
    pub fn output_label(&self) -> (r: Option<String>)
        ensures
            match self@.output {
                Some(folder) => r matches Some(label) && label@ == "Reportes: "@ + folder,
                None => r is None,
            },
    {
        match &self.output {
            Some(folder) => {
                let mut label = "Reportes: ".to_owned();
                label.append(folder.as_str());
                Some(label)
            },
            None => None,
        }
    }

    /// How many of the servers have a row.
    pub fn progress_label(&self) -> (r: String)
        ensures
            r@ == text::decimal(self@.rows.len()) + " / "@ + text::decimal(self@.total as nat)
                + " servidores"@,
    {
        let mut r = text::decimal_text(self.rows.len() as u64);
        r.append(" / ");
        r.append(text::decimal_text(self.total as u64).as_str());
        r.append(" servidores");
        r
    }

    /// How many of the rows have a verdict.
    pub fn verdict_label(&self, v: Verdict) -> (r: String)
        ensures
            r@ == text::decimal(report::verdict_count(self@.rows, v)) + "  "@ + v.label(),
    {
        let n = report::count_verdict(self.rows.as_slice(), v);
        let mut r = text::decimal_text(n as u64);
        r.append("  ");
        r.append(v.name());
        r
    }

    /// The indices of the rows that the search finds, in order.
    pub fn visible_rows(&self) -> (r: Vec<usize>)
        ensures
            r@ == found_rows(self@.rows, self@.filter),
            self@.filter.len() == 0 ==> r@ == Seq::new(self@.rows.len(), |i: int| i as usize),
    {
        let mut r: Vec<usize> = Vec::new();
        let mut i: usize = 0;
        while i < self.rows.len()
            invariant
                i <= self.rows.len(),
                r@ == found_rows(self@.rows.take(i as int), self@.filter),
                self@.filter.len() == 0 ==> r@ == Seq::new(i as nat, |i: int| i as usize),
            decreases self.rows.len() - i,
        {
            proof {
                assert(self@.rows.take(i + 1).drop_last() =~= self@.rows.take(i as int));
                assert(self@.rows.take(i + 1).last() == self.rows@[i as int]@);
            }
            if found(&self.rows[i], self.filter.as_str()) {
                r.push(i);
            }
            i += 1;
        }
        assert(self@.rows.take(self@.rows.len() as int) =~= self@.rows);
        r
    }

    /// The row whose details are shown.
    pub fn selected_row(&self) -> (r: Option<&ResultRow>)
        ensures
            match self@.selected {
                Some(i) => if i < self@.rows.len() {
                    r matches Some(row) && row@ == self@.rows[i as int]
                } else {
                    r is None
                },
                None => r is None,
            },
    {
        match self.selected {
            Some(i) => if i < self.rows.len() {
                Some(&self.rows[i])
            } else {
                None
            },
            None => None,
        }
    }
}

/// The window after events of its batch, one after the other.
pub open spec fn after_events(app: AppView, events: Seq<EventView>) -> AppView
    decreases events.len(),
{
    if events.len() == 0 {
        app
    } else {
        after_events(app, events.drop_last()).after(events.last())
    }
}

/// The rows among events, in order.
pub open spec fn rows_of(events: Seq<EventView>) -> Seq<RowView>
    decreases events.len(),
{
    if events.len() == 0 {
        Seq::empty()
    } else {
        let before = rows_of(events.drop_last());
        match events.last() {
            EventView::Row(row) => before.push(row),
            _ => before,
        }
    }
}

/// The rows that a batch tells the window of: its results as they came in, then those
/// that closing adds.
pub open spec fn told_rows(
    requests: Seq<RequestView>,
    results: Seq<(int, RowView)>,
) -> Seq<RowView> {
    Seq::new(results.len(), |k: int| results[k].1) + rows_of(
        batch::after_results(BatchView::fresh(requests), results).closing_events(requests.len()),
    )
}

/// What a batch tells before its end: rows, and messages between them.
pub open spec fn rows_and_messages(events: Seq<EventView>) -> bool {
    forall|k: int| 0 <= k < events.len() ==> (#[trigger] events[k]) is Row || events[k] is Error
}

/// Some row is about the server and the environment of the request.
pub open spec fn is_shown(rows: Seq<RowView>, req: RequestView) -> bool {
    exists|k: int|
        0 <= k < rows.len() && (#[trigger] rows[k]).server == req.server && rows[k].environment
            == req.environment
}

/// Each result is about the server and the environment of its request.
pub open spec fn results_match(
    requests: Seq<RequestView>,
    results: Seq<(int, RowView)>,
) -> bool {
    forall|k: int|
        0 <= k < results.len() ==> (#[trigger] results[k]).1.server
            == requests[results[k].0].server && results[k].1.environment
            == requests[results[k].0].environment
}

proof fn lemma_rows_grow(app: AppView, events: Seq<EventView>)
    requires
        rows_and_messages(events),
    ensures
        after_events(app, events).rows == app.rows + rows_of(events),
        after_events(app, events).running == app.running,
        after_events(app, events).total == app.total,
    decreases events.len(),
{
    if events.len() == 0 {
        assert(app.rows + rows_of(events) =~= app.rows);
    } else {
        let init = events.drop_last();
        assert forall|k: int| 0 <= k < init.len() implies (#[trigger] init[k]) is Row
            || init[k] is Error by {
            assert(init[k] == events[k]);
        }
        lemma_rows_grow(app, init);
        assert(events[events.len() - 1] is Row || events[events.len() - 1] is Error);
        assert(after_events(app, events).rows =~= app.rows + rows_of(events));
    }
}

proof fn lemma_closing_rows(b: BatchView, n: nat)
    requires
        b.wf(),
        n <= b.requests.len(),
    ensures
        rows_of(b.closing_events(n)).len() == b.closing_events(n).len(),
        forall|i: int|
            0 <= i < n && !(#[trigger] b.completed[i]) ==> rows_of(b.closing_events(n)).contains(
                batch::cancelled_row(b.requests[i]),
            ),
    decreases n,
{
    if n > 0 {
        let m = (n - 1) as nat;
        let before = rows_of(b.closing_events(m));
        let all = rows_of(b.closing_events(n));
        lemma_closing_rows(b, m);
        if !b.completed[n - 1] {
            assert(b.closing_events(n).drop_last() =~= b.closing_events(m));
            assert(all[all.len() - 1] == batch::cancelled_row(b.requests[n - 1]));
        }
        assert forall|i: int| 0 <= i < n && !(#[trigger] b.completed[i]) implies all.contains(
            batch::cancelled_row(b.requests[i]),
        ) by {
            if i < m {
                let row = batch::cancelled_row(b.requests[i]);
                assert(before.contains(row));
                let k = choose|k: int| 0 <= k < before.len() && before[k] == row;
                assert(all[k] == row);
            }
        }
    }
}

proof fn lemma_told_rows(requests: Seq<RequestView>, results: Seq<(int, RowView)>)
    requires
        batch::results_fit(requests.len(), results),
        batch::results_distinct(results),
    ensures
        told_rows(requests, results).len() == requests.len(),
        results_match(requests, results) ==> forall|i: int|
            0 <= i < requests.len() ==> is_shown(
                told_rows(requests, results),
                #[trigger] requests[i],
            ),
{
    let b = batch::after_results(BatchView::fresh(requests), results);
    let first = Seq::new(results.len(), |k: int| results[k].1);
    let closing = rows_of(b.closing_events(requests.len()));
    let all = told_rows(requests, results);
    batch::lemma_after_results(requests, results);
    batch::law_as_many_rows_as_servers(requests, results);
    lemma_closing_rows(b, requests.len());
    if results_match(requests, results) {
        assert forall|i: int| 0 <= i < requests.len() implies is_shown(
            all,
            #[trigger] requests[i],
        ) by {
            if b.completed[i] {
                batch::lemma_last_result_is_one(results, i);
                let row = batch::last_result(results, i)->0;
                let k = choose|k: int|
                    0 <= k < results.len() && (#[trigger] results[k]).0 == i && results[k].1
                        == row;
                assert(all[k] == results[k].1);
                assert(all[k].server == requests[i].server);
            } else {
                let row = batch::cancelled_row(requests[i]);
                assert(closing.contains(row));
                let k = choose|k: int| 0 <= k < closing.len() && closing[k] == row;
                assert(all[first.len() + k] == row);
                assert(all[first.len() + k].server == requests[i].server);
            }
        }
    }
}

proof fn lemma_after_final_events(app: AppView, events: Seq<EventView>, last: Seq<EventView>)
    ensures
        after_events(app, events + last) == after_events(after_events(app, events), last),
    decreases last.len(),
{
    if last.len() == 0 {
        assert(events + last =~= events);
    } else {
        assert((events + last).drop_last() =~= events + last.drop_last());
        lemma_after_final_events(app, events, last.drop_last());
    }
}

/// When a batch has told all its rows, with any messages between them, and its end, the
/// window shows as many rows as the batch has servers; where each result is about its
/// request, there is one about the server and the environment of every request. The end
/// is told once, as the last thing, and until then the batch runs.
pub proof fn law_window_shows_every_server(
    app: AppView,
    folder: Seq<char>,
    requests: Seq<RequestView>,
    results: Seq<(int, RowView)>,
    events: Seq<EventView>,
    save_failed: bool,
    failure: Option<Seq<char>>,
)
    requires
        requests.len() <= usize::MAX,
        batch::results_fit(requests.len(), results),
        batch::results_distinct(results),
        rows_and_messages(events),
        rows_of(events) == told_rows(requests, results),
    ensures
        ({
            let begun = app.begun(folder, requests.len() as usize);
            let all = events + batch::final_events(save_failed, failure);
            let end = after_events(begun, all);
            &&& end.rows == told_rows(requests, results)
            &&& end.rows.len() == requests.len()
            &&& end.total == requests.len()
            &&& results_match(requests, results) ==> forall|i: int|
                0 <= i < requests.len() ==> is_shown(end.rows, #[trigger] requests[i])
            &&& after_events(begun, events).running
            &&& !end.running
            &&& all.last() == EventView::Done
            &&& forall|k: int| 0 <= k < all.len() - 1 ==> #[trigger] all[k] != EventView::Done
        }),
{
    let begun = app.begun(folder, requests.len() as usize);
    let last = batch::final_events(save_failed, failure);
    let all = events + last;
    lemma_rows_grow(begun, events);
    lemma_told_rows(requests, results);
    assert(begun.rows + rows_of(events) =~= rows_of(events));
    lemma_after_final_events(begun, events, last);
    let told = after_events(begun, events);
    let end = after_events(told, last);
    assert(end.rows == told.rows && end.total == told.total && !end.running) by {
        if last.len() == 2 {
            assert(last.drop_last() =~= seq![last[0]]);
            assert(seq![last[0]].drop_last() =~= Seq::<EventView>::empty());
            assert(after_events(told, last.drop_last().drop_last()) == told);
            assert(after_events(told, last.drop_last()) == told.after(last[0]));
        } else {
            assert(last.drop_last() =~= Seq::<EventView>::empty());
        }
    }
    assert forall|k: int| 0 <= k < all.len() - 1 implies #[trigger] all[k] != EventView::Done by {
        if k < events.len() {
            assert(events[k] is Row || events[k] is Error);
        }
    }
}

/// However a batch runs, with any number of queries at once and whenever it is cancelled,
/// the window ends with a row for every server, and the batch with its end.
pub proof fn law_every_run_shows_every_server(
    app: AppView,
    folder: Seq<char>,
    requests: Seq<RequestView>,
    parallel: nat,
    timeout: u64,
    trace: Seq<Happening>,
    events: Seq<EventView>,
    save_failed: bool,
    failure: Option<Seq<char>>,
)
    requires
        requests.len() <= usize::MAX,
        turns::can_happen(RunView::fresh(requests, parallel, timeout), trace),
        rows_and_messages(events),
        rows_of(events) == told_rows(
            requests,
            turns::run_after(RunView::fresh(requests, parallel, timeout), trace).results,
        ),
    ensures
        ({
            let results = turns::run_after(
                RunView::fresh(requests, parallel, timeout),
                trace,
            ).results;
            let all = events + batch::final_events(save_failed, failure);
            let end = after_events(app.begun(folder, requests.len() as usize), all);
            &&& end.rows.len() == requests.len()
            &&& end.total == requests.len()
            &&& results_match(requests, results) ==> forall|i: int|
                0 <= i < requests.len() ==> is_shown(end.rows, #[trigger] requests[i])
            &&& !end.running
            &&& all.last() == EventView::Done
            &&& forall|k: int| 0 <= k < all.len() - 1 ==> #[trigger] all[k] != EventView::Done
        }),
{
    let results = turns::run_after(RunView::fresh(requests, parallel, timeout), trace).results;
    turns::law_each_request_has_at_most_one_result(requests, parallel, timeout, trace);
    law_window_shows_every_server(
        app,
        folder,
        requests,
        results,
        events,
        save_failed,
        failure,
    );
}

/// A running batch ends only when its end is told: no other event lets the window close.
pub proof fn law_only_the_end_lets_the_window_close(app: AppView, event: EventView)
    requires
        app.running,
    ensures
        !app.after(event).running <==> event == EventView::Done,
{
}

/// Every request of a batch asks for its own server, with every setting of the window and
/// ports from 1 to 65535: only the server and the ports differ from the window's request.
pub proof fn law_requests_follow_the_settings(app: AppView)
    requires
        app.start_error() is None,
    ensures
        app.names().len() > 0,
        ({
            let requests = requests_for(app.with_ports().request, app.names());
            &&& requests.len() == app.names().len()
            &&& forall|i: int|
                0 <= i < requests.len() ==> (#[trigger] requests[i]).server == app.names()[i]
                    && requests[i].local == app.request.local
                    && requests[i].app_folder == app.request.app_folder
                    && requests[i].environment == app.request.environment
                    && requests[i].min_system_gb == app.request.min_system_gb
                    && requests[i].min_install_gb == app.request.min_install_gb
                    && requests[i].min_temp_gb == app.request.min_temp_gb
                    && requests[i].backup_margin_gb == app.request.backup_margin_gb
                    && requests[i].ports == ports::port_list(app.ports)
            &&& forall|i: int|
                0 <= i < requests.len() ==> #[trigger] requests[i] == (RequestView {
                    server: requests[i].server,
                    ports: requests[i].ports,
                    ..app.request
                })
        }),
        ports::port_list(app.ports).len() > 0,
        forall|k: int|
            0 <= k < ports::port_list(app.ports).len() ==> 1 <= #[trigger] ports::port_list(
                app.ports,
            )[k] <= 65535,
{
    let list = ports::port_list(app.ports);
    text::lemma_pieces_are_free(app.ports, CharClass::Only(','));
    assert forall|k: int| 0 <= k < list.len() implies 1 <= #[trigger] list[k] <= 65535 by {
        if list[k] == 0 {
            assert(list.contains(0));
        }
    }
    if !app.request.local {
        let words = text::words(app.servers);
        servers::law_each_server_once(words);
        assert(servers::is_listed(servers::first_spellings(words), words[0]));
    }
}

/// The servers of a batch: this computer alone where it is set, and else the words of the
/// list without those that repeat an earlier one up to case.
pub proof fn law_servers_to_ask(app: AppView)
    ensures
        app.request.local ==> app.names() == seq!["localhost"@],
        !app.request.local ==> app.names() == servers::first_spellings(text::words(app.servers)),
{
}

/// A batch can start exactly when there is a server to ask, every word of the list is a
/// server name, and the ports are numbers other than zero. The list of servers does not
/// count where this computer is to be asked.
pub proof fn law_when_a_batch_can_start(app: AppView)
    ensures
        app.start_error() is None <==> {
            &&& app.request.local || {
                &&& text::words(app.servers).len() > 0
                &&& forall|k: int|
                    0 <= k < text::words(app.servers).len() ==> servers::is_server_name(
                        #[trigger] text::words(app.servers)[k],
                    )
            }
            &&& ports::all_numbers(app.ports)
            &&& forall|k: int|
                0 <= k < ports::port_list(app.ports).len() ==> #[trigger] ports::port_list(
                    app.ports,
                )[k] != 0
        },
{
    servers::law_refused_for_the_first_bad_word(text::words(app.servers), 0);
    let list = ports::port_list(app.ports);
    if list.contains(0) {
        let k = choose|k: int| 0 <= k < list.len() && list[k] == 0;
        assert(list[k] == 0);
    }
    if exists|k: int| 0 <= k < list.len() && #[trigger] list[k] == 0 {
        let k = choose|k: int| 0 <= k < list.len() && #[trigger] list[k] == 0;
        assert(list.contains(list[k]));
    }
}

/// What is said when a batch cannot start: the first bad word of the list, then that there
/// is no server, then that a port is no number, then that a port is zero.
pub proof fn law_why_a_batch_cannot_start(app: AppView, i: int)
    requires
        0 <= i,
    ensures
        !app.request.local && i < text::words(app.servers).len() && !servers::is_server_name(
            text::words(app.servers)[i],
        ) && (forall|k: int|
            0 <= k < i ==> servers::is_server_name(#[trigger] text::words(app.servers)[k]))
            ==> app.start_error() == Some(
            "Servidor invalido: "@ + text::words(app.servers)[i]
                + ". Usa nombres DNS, no IP (autenticacion Kerberos)."@,
        ),
        !app.request.local && text::words(app.servers).len() == 0 ==> app.start_error() == Some(
            "Ingresa al menos un servidor."@,
        ),
        (app.request.local || (text::words(app.servers).len() > 0 && forall|k: int|
            0 <= k < text::words(app.servers).len() ==> servers::is_server_name(
                #[trigger] text::words(app.servers)[k],
            ))) && !ports::all_numbers(app.ports) ==> app.start_error() == Some(
            "Puertos invalidos: usa numeros separados por comas"@,
        ),
        (app.request.local || (text::words(app.servers).len() > 0 && forall|k: int|
            0 <= k < text::words(app.servers).len() ==> servers::is_server_name(
                #[trigger] text::words(app.servers)[k],
            ))) && ports::all_numbers(app.ports) && ports::port_list(app.ports).contains(0)
            ==> app.start_error() == Some("Los puertos deben estar entre 1 y 65535"@),
{
    let words = text::words(app.servers);
    servers::law_refused_for_the_first_bad_word(words, i);
    if words.len() == 0 {
        assert(servers::first_invalid(words) is None);
    }
}

/// Reading the ports changes the ports of the request and nothing else.
pub proof fn law_ports_go_into_the_request(app: AppView)
    ensures
        app.with_ports().request.ports == ports::port_list(app.ports),
        app.with_ports().request == (RequestView {
            ports: app.with_ports().request.ports,
            ..app.request
        }),
        app.with_ports() == (AppView { request: app.with_ports().request, ..app }),
{
}

/// When a batch starts the window shows its folder and no row of an earlier batch; what
/// the user set stays.
pub proof fn law_batch_starts_with_an_empty_table(app: AppView, folder: Seq<char>, total: usize)
    ensures
        app.begun(folder, total).rows.len() == 0,
        app.begun(folder, total).running,
        app.begun(folder, total).output == Some(folder),
        app.begun(folder, total).selected is None,
        app.begun(folder, total).total == total,
        app.begun(folder, total).message == "Validando..."@,
        app.begun(folder, total).request == app.request,
        app.begun(folder, total).servers == app.servers,
        app.begun(folder, total).ports == app.ports,
        app.begun(folder, total).parallel == app.parallel,
        app.begun(folder, total).timeout == app.timeout,
        app.begun(folder, total).filter == app.filter,
{
}

/// An event changes what it is about and nothing else: a row comes after those that are
/// there, a failure is shown as it is told, and the end stops the batch.
pub proof fn law_event_changes_one_thing(app: AppView, row: RowView, e: Seq<char>)
    ensures
        app.after(EventView::Row(row)).rows == app.rows.push(row),
        app.after(EventView::Row(row)) == (AppView {
            rows: app.after(EventView::Row(row)).rows,
            ..app
        }),
        app.after(EventView::Error(e)).message == e,
        app.after(EventView::Error(e)) == (AppView { message: e, ..app }),
        app.after(EventView::Saved) == (AppView {
            message:
                "Reportes guardados. Revisa observaciones y validaciones incompletas antes del parche."@,
            ..app
        }),
        app.after(EventView::Done).running == false,
        app.after(EventView::Done) == (AppView { running: false, ..app }),
{
}

/// A fresh window asks this computer, four servers at once and for three minutes each, of
/// the ports that its request has, and shows nothing.
pub proof fn law_first_window(app_folder: Seq<char>)
    ensures
        AppView::initial(app_folder).request == RequestView::initial(app_folder),
        AppView::initial(app_folder).servers.len() == 0,
        AppView::initial(app_folder).ports == "1363,1364,1365"@,
        AppView::initial(app_folder).parallel == 4,
        AppView::initial(app_folder).timeout == 180,
        AppView::initial(app_folder).rows.len() == 0,
        !AppView::initial(app_folder).running,
        AppView::initial(app_folder).output is None,
        AppView::initial(app_folder).filter.len() == 0,
        AppView::initial(app_folder).selected is None,
        AppView::initial(app_folder).total == 0,
{
}

/// The window as texts has every field of the window.
pub proof fn law_window_as_texts(app: App)
    ensures
        app@.request == app.request@,
        app@.servers == app.servers@,
        app@.ports == app.ports@,
        app@.parallel == app.parallel,
        app@.timeout == app.timeout,
        app@.rows == model::rows_view(app.rows@),
        app@.running == app.running,
        app@.output is Some <==> app.output is Some,
        app.output is Some ==> app@.output->0 == app.output->0@,
        app@.message == app.message@,
        app@.filter == app.filter@,
        app@.selected == app.selected,
        app@.total == app.total,
{
}

/// A search finds a row exactly when the server, a space and the name of its verdict hold
/// what is searched for, both in small letters.
pub proof fn law_search_looks_at_server_and_verdict(row: RowView, filter: Seq<char>)
    ensures
        is_found(row, filter) <==> exists|before: Seq<char>, after: Seq<char>|
            text::lowercase(row.server + " "@ + model::verdict_of(row.checks).label())
                == #[trigger] (before + text::lowercase(filter) + after),
{
    text::law_substring_is_a_middle(
        text::lowercase(search_text(row)),
        text::lowercase(filter),
    );
}

/// The rows that are shown are exactly those that the search finds, each once and in their
/// order.
pub proof fn law_found_rows_are_shown(rows: Seq<RowView>, filter: Seq<char>)
    requires
        rows.len() <= usize::MAX,
    ensures
        forall|k: int|
            0 <= k < found_rows(rows, filter).len() ==> (#[trigger] found_rows(rows, filter)[k])
                < rows.len(),
        forall|j: int, k: int|
            0 <= j < k < found_rows(rows, filter).len() ==> #[trigger] found_rows(rows, filter)[j]
                < #[trigger] found_rows(rows, filter)[k],
        forall|i: usize|
            i < rows.len() ==> (#[trigger] found_rows(rows, filter).contains(i) <==> is_found(
                rows[i as int],
                filter,
            )),
    decreases rows.len(),
{
    if rows.len() > 0 {
        let init = rows.drop_last();
        let before = found_rows(init, filter);
        let all = found_rows(rows, filter);
        law_found_rows_are_shown(init, filter);
        assert forall|i: usize| i < rows.len() implies (#[trigger] all.contains(i) <==> is_found(
            rows[i as int],
            filter,
        )) by {
            if i < init.len() {
                assert(init[i as int] == rows[i as int]);
                assert(before.contains(i) <==> is_found(init[i as int], filter));
                if before.contains(i) {
                    let k = choose|k: int| 0 <= k < before.len() && before[k] == i;
                    assert(all[k] == i);
                }
                if all.contains(i) {
                    let k = choose|k: int| 0 <= k < all.len() && all[k] == i;
                    assert(before[k] == i);
                }
            } else if is_found(rows.last(), filter) {
                assert(all[all.len() - 1] == i);
            } else if all.contains(i) {
                let k = choose|k: int| 0 <= k < all.len() && all[k] == i;
                assert(before[k] < init.len());
            }
        }
    }
}

/// The counts of a server are the numbers of its checks in each state.
pub proof fn law_counts_are_of_the_states(row: RowView)
    ensures
        counts_line(row) == text::decimal(
            row.checks.filter(|c: model::CheckView| c.state == "OK"@).len(),
        ) + " OK · "@ + text::decimal(
            row.checks.filter(|c: model::CheckView| c.state == "WARN"@).len(),
        ) + " WARN · "@ + text::decimal(
            row.checks.filter(|c: model::CheckView| c.state == "FAIL"@).len(),
        ) + " FAIL · "@ + text::decimal(
            row.checks.filter(|c: model::CheckView| c.state == "ERROR"@).len(),
        ) + " ERROR"@,
{
    model::law_state_count_counts(row.checks, row.checks, "OK"@);
    model::law_state_count_counts(row.checks, row.checks, "WARN"@);
    model::law_state_count_counts(row.checks, row.checks, "FAIL"@);
    model::law_state_count_counts(row.checks, row.checks, "ERROR"@);
    assert((|c: model::CheckView| c.state == "OK"@) =~= (|c: model::CheckView| c.state == "OK"@));
}

/// What passed has one color, what failed another, information a third, and everything
/// else, missing evidence among it, a fourth; no two of the four are alike.
pub proof fn law_colors_tell_states_apart(status: Seq<char>)
    ensures
        color_of(status) == (26u8, 125u8, 89u8) <==> status == "APTO"@ || status == "OK"@,
        color_of(status) == (190u8, 48u8, 53u8) <==> status == "NO APTO"@ || status == "FAIL"@,
        color_of(status) == (61u8, 103u8, 140u8) <==> status == "INFO"@,
        color_of(status) == (170u8, 105u8, 15u8) <==> status != "APTO"@ && status != "OK"@ && status
            != "NO APTO"@ && status != "FAIL"@ && status != "INFO"@,
{
    reveal_strlit("APTO");
    reveal_strlit("OK");
    reveal_strlit("NO APTO");
    reveal_strlit("FAIL");
    reveal_strlit("INFO");
    assert("APTO"@[0] == 'A');
    assert("OK"@[0] == 'O');
    assert("NO APTO"@[0] == 'N');
    assert("FAIL"@[0] == 'F');
    assert("INFO"@[0] == 'I');
}

/// A batch that is prepared has one request for each server to ask, in order, with every
/// setting of the window: only the server and the ports are its own. The window keeps the
/// ports that were read; where no batch can start, it stays as it is.
#[verifier::rlimit(60)]
pub proof fn law_batch_keeps_every_setting(app: &mut App, r: Result<Batch, String>, i: int)
    requires
        call_ensures(App::prepare, (app,), r),
    ensures
        r is Ok <==> old(app)@.start_error() is None,
        r is Err ==> r->Err_0@ == old(app)@.start_error()->0 && final(app)@ == old(app)@,
        r matches Ok(batch) ==> batch@.requests.len() == old(app)@.names().len(),
        r matches Ok(batch) ==> 0 <= i < batch@.requests.len() ==> {
            &&& batch@.requests[i].server == old(app)@.names()[i]
            &&& batch@.requests[i].ports == ports::port_list(old(app)@.ports)
            &&& batch@.requests[i].local == old(app).request.local
            &&& batch@.requests[i].environment == old(app).request.environment@
            &&& batch@.requests[i].app_folder == old(app).request.app_folder@
            &&& batch@.requests[i].min_system_gb == old(app).request.min_system_gb
            &&& batch@.requests[i].min_install_gb == old(app).request.min_install_gb
            &&& batch@.requests[i].min_temp_gb == old(app).request.min_temp_gb
            &&& batch@.requests[i].backup_margin_gb == old(app).request.backup_margin_gb
            &&& !batch@.completed[i]
            &&& batch@.snapshot[i].server == old(app)@.names()[i]
        },
        r is Ok ==> final(app)@.request.ports == ports::port_list(old(app)@.ports),
        final(app)@.request == (RequestView {
            ports: final(app)@.request.ports,
            ..old(app)@.request
        }),
        final(app)@ == (AppView { request: final(app)@.request, ..old(app)@ }),
{
    if r is Ok {
        let batch = r->Ok_0;
        let names = old(app)@.names();
        let wanted = requests_for(final(app)@.request, names);
        assert(batch@.requests == wanted);
        if 0 <= i < names.len() {
            assert(wanted[i].server == names[i]);
            assert(batch@.requests[i] == wanted[i]);
        }
    }
}

/// A batch that begins empties the table and shows its folder and how many servers it has;
/// what the user set stays.
pub proof fn law_begin_empties_the_table(app: &mut App, folder: String, batch: &Batch)
    requires
        call_ensures(App::begin, (app, folder, batch), ()),
    ensures
        final(app)@.rows.len() == 0,
        final(app)@.running,
        final(app)@.output == Some(folder@),
        final(app)@.selected is None,
        final(app)@.total == batch@.requests.len(),
        final(app)@.message == "Validando..."@,
        final(app)@.request == old(app)@.request,
        final(app)@.servers == old(app)@.servers,
        final(app)@.ports == old(app)@.ports,
        final(app)@.parallel == old(app)@.parallel,
        final(app)@.timeout == old(app)@.timeout,
        final(app)@.filter == old(app)@.filter,
{
}

/// A row that comes in is shown after those that are there, and changes nothing else.
pub proof fn law_row_is_shown_last(app: &mut App, row: ResultRow)
    requires
        call_ensures(App::apply, (app, Event::Row(row)), ()),
    ensures
        final(app)@.rows == old(app)@.rows.push(row@),
        final(app)@ == (AppView { rows: final(app)@.rows, ..old(app)@ }),
{
}

/// A failure is shown as it is told, and changes nothing else.
pub proof fn law_failure_is_shown(app: &mut App, e: String)
    requires
        call_ensures(App::apply, (app, Event::Error(e)), ()),
    ensures
        final(app)@ == (AppView { message: e@, ..old(app)@ }),
{
}

/// Whole reports are told to the user, and change nothing else.
pub proof fn law_whole_reports_are_told(app: &mut App)
    requires
        call_ensures(App::apply, (app, Event::Saved), ()),
    ensures
        final(app)@ == (AppView {
            message:
                "Reportes guardados. Revisa observaciones y validaciones incompletas antes del parche."@,
            ..old(app)@
        }),
{
}

/// The end of a batch lets another begin, and changes nothing else.
pub proof fn law_end_lets_another_begin(app: &mut App)
    requires
        call_ensures(App::apply, (app, Event::Done), ()),
    ensures
        final(app)@ == (AppView { running: false, ..old(app)@ }),
{
}

/// The wish to close the window cancels a running batch, and the window stays until its
/// end; without a running batch nothing changes.
pub proof fn law_close_waits_for_the_batch(app: &mut App, r: bool)
    requires
        call_ensures(App::close_requested, (app,), r),
    ensures
        r <==> old(app)@.running,
        final(app)@.running == old(app)@.running,
        r ==> final(app)@.message
            == "Deteniendo consultas y guardando resultados; podrás cerrar al terminar."@,
        final(app)@ == (AppView { message: final(app)@.message, ..old(app)@ }),
        !r ==> final(app)@ == old(app)@,
{
}

/// The wish to stop cancels a running batch, which runs on until its end; without a running
/// batch nothing changes.
pub proof fn law_stop_cancels_a_running_batch(app: &mut App, r: bool)
    requires
        call_ensures(App::stop, (app,), r),
    ensures
        r <==> old(app)@.running,
        final(app)@.running == old(app)@.running,
        r ==> final(app)@.message
            == "Deteniendo; los servidores pendientes quedarán incompletos."@,
        final(app)@ == (AppView { message: final(app)@.message, ..old(app)@ }),
        !r ==> final(app)@ == old(app)@,
{
}

/// A list that is loaded replaces the servers, without the byte order marks before it and
/// otherwise as it is; a file that cannot be read leaves the servers and is told.
pub proof fn law_list_is_loaded(
    app: &mut App,
    marks: Seq<char>,
    list: Seq<char>,
    read: Result<String, String>,
)
    requires
        forall|i: int| 0 <= i < marks.len() ==> #[trigger] marks[i] == '\u{feff}',
        list.len() > 0 ==> list.first() != '\u{feff}',
        read is Ok ==> read->Ok_0@ == marks + list,
        call_ensures(App::load_servers, (app, read), ()),
    ensures
        read is Ok ==> final(app)@ == (AppView { servers: list, ..old(app)@ }),
        read matches Err(e) ==> final(app)@ == (AppView { message: e@, ..old(app)@ }),
{
    text::law_trim_start_drops_the_lead(marks, list, CharClass::Only('\u{feff}'));
}

/// The window shows where the reports are, how many servers have a row, and how many rows
/// have each verdict.
pub proof fn law_labels_tell_the_state(
    app: &App,
    output: Option<String>,
    progress: String,
    v: Verdict,
    verdict: String,
)
    requires
        call_ensures(App::output_label, (app,), output),
        call_ensures(App::progress_label, (app,), progress),
        call_ensures(App::verdict_label, (app, v), verdict),
    ensures
        output is Some <==> app.output is Some,
        output is Some ==> output->0@ == "Reportes: "@ + app.output->0@,
        progress@ == text::decimal(app.rows@.len()) + " / "@ + text::decimal(app.total as nat)
            + " servidores"@,
        verdict@ == text::decimal(
            model::rows_view(app.rows@).filter(|r: RowView| r.verdict() == v).len(),
        ) + "  "@ + v.label(),
{
    report::law_verdict_count_counts(app@.rows, app@.rows, v);
}

/// The table shows exactly the rows that the search finds, each once and in order; the
/// details are those of the row that is selected.
#[verifier::rlimit(60)]
pub proof fn law_table_shows_what_is_found(
    app: &App,
    filter: &str,
    shown: Vec<usize>,
    i: usize,
    found_here: bool,
    selected: Option<&ResultRow>,
)
    requires
        i < app.rows@.len(),
        call_ensures(App::visible_rows, (app,), shown),
        filter@ == app.filter@,
        call_ensures(found, (&app.rows@[i as int], filter), found_here),
        call_ensures(App::selected_row, (app,), selected),
        app.rows@.len() <= usize::MAX,
    ensures
        shown@.contains(i) <==> found_here,
        app.filter@.len() == 0 ==> shown@.contains(i),
        forall|k: int| 0 <= k < shown@.len() ==> (#[trigger] shown@[k]) < app.rows@.len(),
        forall|j: int, k: int|
            0 <= j < k < shown@.len() ==> #[trigger] shown@[j] < #[trigger] shown@[k],
        selected is Some <==> app.selected is Some && app.selected->0 < app.rows@.len(),
        selected is Some ==> selected->0@ == app.rows@[app.selected->0 as int]@,
{
    law_found_rows_are_shown(app@.rows, app@.filter);
    assert(app@.rows[i as int] == app.rows@[i as int]@);
    assert(found_rows(app@.rows, app@.filter).contains(i) <==> is_found(
        app@.rows[i as int],
        app@.filter,
    ));
}

/// The details of a server, and what is said of a folder that cannot be made.
#[verifier::rlimit(60)]
pub proof fn law_details_tell_the_row(
    row: &ResultRow,
    check: &Check,
    reason: &str,
    counts: String,
    heading: String,
    line: String,
    title: String,
    failure: String,
)
    requires
        call_ensures(counts_label, (row,), counts),
        call_ensures(detail_heading, (row,), heading),
        call_ensures(detail_line, (row,), line),
        call_ensures(check_title, (check,), title),
        call_ensures(folder_error, (reason,), failure),
    ensures
        counts@ == text::decimal(
            row@.checks.filter(|c: model::CheckView| c.state == "OK"@).len(),
        ) + " OK · "@ + text::decimal(
            row@.checks.filter(|c: model::CheckView| c.state == "WARN"@).len(),
        ) + " WARN · "@ + text::decimal(
            row@.checks.filter(|c: model::CheckView| c.state == "FAIL"@).len(),
        ) + " FAIL · "@ + text::decimal(
            row@.checks.filter(|c: model::CheckView| c.state == "ERROR"@).len(),
        ) + " ERROR"@,
        heading@ == "Detalle · "@ + row.server@,
        line@ == "Equipo: "@ + row.computer@ + " · Ambiente: "@ + row.environment@ + " · "@
            + row.finished@,
        title@ == check.phase@ + " / "@ + check.name@,
        failure@ == "No se pueden crear reportes: "@ + reason@,
{
    law_counts_are_of_the_states(row@);
}

/// The color of a status, told apart from the others.
pub proof fn law_color_of_a_status(status: &str, r: (u8, u8, u8))
    requires
        call_ensures(status_color, (status,), r),
    ensures
        r == (26u8, 125u8, 89u8) <==> status@ == "APTO"@ || status@ == "OK"@,
        r == (190u8, 48u8, 53u8) <==> status@ == "NO APTO"@ || status@ == "FAIL"@,
        r == (61u8, 103u8, 140u8) <==> status@ == "INFO"@,
        r == (170u8, 105u8, 15u8) <==> status@ != "APTO"@ && status@ != "OK"@ && status@
            != "NO APTO"@ && status@ != "FAIL"@ && status@ != "INFO"@,
{
    law_colors_tell_states_apart(status@);
}

/// A window that is opened has the settings of an ordinary installation, the folder it was
/// given, and nothing to show.
pub proof fn law_window_opens_empty(app_folder: String, app: App)
    requires
        call_ensures(App::initial, (app_folder,), app),
    ensures
        app.request.app_folder@ == app_folder@,
        app.request.local,
        app.servers@.len() == 0,
        app.ports@ == "1363,1364,1365"@,
        app.parallel == 4,
        app.timeout == 180,
        app.rows@.len() == 0,
        !app.running,
        app.output is None,
        app.message@ == WELCOME@,
        app.filter@.len() == 0,
        app.selected is None,
        app.total == 0,
{
    law_window_as_texts(app);
    law_first_window(app_folder@);
    assert(app@.rows.len() == app.rows@.len());
    assert(app@.request == app.request@);
}

} // verus!

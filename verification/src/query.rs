//! One query: how the collector process is watched, and which answer is accepted.
use crate::model::{Request, RequestView, ResultRow, RowView, Verdict};
use crate::text;
use vstd::prelude::*;
use vstd::string::*;
use vstd::utf8::*;

verus! {

/// How many milliseconds pass between two looks at the process.
pub const POLL_MILLIS: u64 = 100;

/// Why a cancelled query has no result.
pub const CANCELLED: &'static str = "Consulta cancelada";

/// Why an answer for another server or environment is refused.
pub const MISMATCH: &'static str =
    "La respuesta no coincide con el servidor/ambiente solicitado";

/// Why a query has no result when the thread that reads the output died.
pub const OUTPUT_LOST: &'static str = "Fallo leyendo salida";

/// Why a query has no result when the thread that reads the error output died.
pub const ERRORS_LOST: &'static str = "Fallo leyendo errores";

/// What a look at the process shows.
pub enum ChildState {
    /// It ended, well or not.
    Exited { success: bool },
    /// It is still at work.
    Running,
    /// Its state cannot be had.
    Lost { reason: String },
}

/// How a process came to its end.
pub enum QueryEnd {
    /// It ended by itself.
    Exited { success: bool },
    /// It has to be killed, for this reason.
    Stopped { reason: String },
}

/// What to do after a look at the process.
pub enum Step {
    /// Look again in a while.
    Wait,
    /// Stop looking.
    End(QueryEnd),
}

/// Why a query that took too long has no result.
pub open spec fn timeout_message(timeout: u64) -> Seq<char> {
    "Tiempo maximo de "@ + text::decimal(timeout as nat)
        + "s agotado; validacion incompleta"@
}

fn timeout_text(timeout: u64) -> (r: String)
    ensures
        r@ == timeout_message(timeout),
{
    let mut r = "Tiempo maximo de ".to_owned();
    r.append(text::decimal_text(timeout).as_str());
    r.append("s agotado; validacion incompleta");
    r
}

impl Step {
    /// The query is stopped for this reason.
    pub open spec fn stops(self, reason: Seq<char>) -> bool {
        self matches Step::End(QueryEnd::Stopped { reason: r }) && r@ == reason
    }
}

/// Decides what to do after a look at the process: one that ended is taken as it is; one
/// at work is stopped when the query was cancelled or has lasted `timeout` seconds.
pub fn poll(child: ChildState, cancelled: bool, elapsed_secs: u64, timeout: u64) -> (r: Step)
    ensures
        match child {
            ChildState::Exited { success } => r == Step::End(QueryEnd::Exited { success }),
            ChildState::Lost { reason } => r.stops(reason@),
            ChildState::Running => if cancelled {
                r.stops(CANCELLED@)
            } else if elapsed_secs >= timeout {
                r.stops(timeout_message(timeout))
            } else {
                r == Step::Wait
            },
        },
{
    match child {
        ChildState::Exited { success } => Step::End(QueryEnd::Exited { success }),
        ChildState::Lost { reason } => Step::End(QueryEnd::Stopped { reason }),
        ChildState::Running => if cancelled {
            Step::End(QueryEnd::Stopped { reason: CANCELLED.to_owned() })
        } else if elapsed_secs >= timeout {
            Step::End(QueryEnd::Stopped { reason: timeout_text(timeout) })
        } else {
            Step::Wait
        },
    }
}

/// What came of reading an output of the process to its end.
pub enum Pipe {
    /// These bytes.
    Read(Vec<u8>),
    /// An error.
    Failed(String),
    /// The thread that read it died.
    Lost,
}

/// The outputs of a process that ended well.
pub struct Response {
    pub output: Vec<u8>,
    pub errors: Vec<u8>,
}

/// What is said of a process that ended badly.
pub open spec fn failed_message(errors: Seq<char>) -> Seq<char> {
    "PowerShell fallo: "@ + errors
}

/// Why a process gave no response, given its error output as text.
pub open spec fn end_failure(end: QueryEnd, errors: Seq<char>) -> Option<Seq<char>> {
    match end {
        QueryEnd::Stopped { reason } => Some(reason@),
        QueryEnd::Exited { success } => if success {
            None
        } else {
            Some(failed_message(errors))
        },
    }
}

/// Says why a process gave no response, if it gave none.
pub fn end_result(end: QueryEnd, errors: &str) -> (r: Result<(), String>)
    ensures
        match end_failure(end, errors@) {
            Some(reason) => r matches Err(e) && e@ == reason,
            None => r is Ok,
        },
{
    match end {
        QueryEnd::Stopped { reason } => Err(reason),
        QueryEnd::Exited { success } => if success {
            Ok(())
        } else {
            let mut e = "PowerShell fallo: ".to_owned();
            e.append(errors);
            Err(e)
        },
    }
}

/// Takes the outputs of a process that came to its end. What went wrong with the outputs
/// is said first, then why the process was stopped, then that it ended badly.
pub fn collect(end: QueryEnd, output: Pipe, errors: Pipe) -> (r: Result<Response, String>)
    ensures
        match (output, errors) {
            (Pipe::Lost, _) => r matches Err(e) && e@ == OUTPUT_LOST@,
            (Pipe::Failed(reason), _) => r matches Err(e) && e@ == reason@,
            (Pipe::Read(_), Pipe::Lost) => r matches Err(e) && e@ == ERRORS_LOST@,
            (Pipe::Read(_), Pipe::Failed(reason)) => r matches Err(e) && e@ == reason@,
            (Pipe::Read(out), Pipe::Read(err)) => match end_failure(
                end,
                text::lossy_text(err@),
            ) {
                Some(reason) => r matches Err(e) && e@ == reason,
                None => r == Ok::<Response, String>((Response { output: out, errors: err })),
            },
        },
        output is Read ==> (errors matches Pipe::Read(err) ==> valid_utf8(err@)
            ==> text::lossy_text(err@) == decode_utf8(err@)),
{
    let out = match output {
        Pipe::Read(bytes) => bytes,
        Pipe::Failed(reason) => {
            return Err(reason);
        },
        Pipe::Lost => {
            return Err(OUTPUT_LOST.to_owned());
        },
    };
    let err = match errors {
        Pipe::Read(bytes) => bytes,
        Pipe::Failed(reason) => {
            return Err(reason);
        },
        Pipe::Lost => {
            return Err(ERRORS_LOST.to_owned());
        },
    };
    let shown = text::from_utf8_lossy(err.as_slice());
    match end_result(end, shown.as_str()) {
        Ok(()) => Ok(Response { output: out, errors: err }),
        Err(e) => Err(e),
    }
}

/// A row or an error, as texts.
pub open spec fn result_view(r: Result<ResultRow, String>) -> Result<RowView, Seq<char>> {
    match r {
        Ok(row) => Ok(row@),
        Err(e) => Err(e@),
    }
}

/// What is said of an output that is no row.
pub open spec fn unreadable_message(reason: Seq<char>, errors: Seq<char>) -> Seq<char> {
    "Respuesta no valida: "@ + reason + "; "@ + errors
}

/// The answer to a request: the row that was read, when it is the row of that server and
/// environment.
pub open spec fn answer(
    req: RequestView,
    parsed: Result<RowView, Seq<char>>,
    errors: Seq<char>,
) -> Result<RowView, Seq<char>> {
    match parsed {
        Err(reason) => Err(unreadable_message(reason, errors)),
        Ok(row) => if row.server == req.server && row.environment == req.environment {
            Ok(row)
        } else {
            Err(MISMATCH@)
        },
    }
}

/// Accepts the row read from a response, given the error output as text.
pub fn accept(req: &Request, parsed: Result<ResultRow, String>, errors: &str) -> (r: Result<
    ResultRow,
    String,
>)
    ensures
        result_view(r) == answer(req@, result_view(parsed), errors@),
        parsed matches Ok(row) ==> row@.server == req@.server && row@.environment
            == req@.environment ==> r == Ok::<ResultRow, String>(row),
{
    match parsed {
        Err(reason) => {
            let mut e = "Respuesta no valida: ".to_owned();
            e.append(reason.as_str());
            e.append("; ");
            e.append(errors);
            Err(e)
        },
        Ok(row) => if text::same_text(row.server.as_str(), req.server.as_str())
            && text::same_text(row.environment.as_str(), req.environment.as_str()) {
            Ok(row)
        } else {
            Err(MISMATCH.to_owned())
        },
    }
}

/// Accepts the row read from a response that had this error output.
pub fn accept_response(
    req: &Request,
    parsed: Result<ResultRow, String>,
    errors: &[u8],
) -> (r: Result<ResultRow, String>)
    ensures
        result_view(r) == answer(req@, result_view(parsed), text::lossy_text(errors@)),
        valid_utf8(errors@) ==> result_view(r) == answer(
            req@,
            result_view(parsed),
            decode_utf8(errors@),
        ),
        parsed matches Ok(row) ==> row@.server == req@.server && row@.environment
            == req@.environment ==> r == Ok::<ResultRow, String>(row),
{
    let shown = text::from_utf8_lossy(errors);
    accept(req, parsed, shown.as_str())
}

/// The row of a request: its result, or a row that says why there is none.
pub open spec fn row_of(req: RequestView, result: Result<RowView, Seq<char>>) -> RowView {
    match result {
        Ok(row) => row,
        Err(e) => RowView::error(req, e, "ERROR"@),
    }
}

/// The row of a request, whether it has a result or not.
pub fn result_row(req: &Request, result: Result<ResultRow, String>) -> (r: ResultRow)
    ensures
        r@ == row_of(req@, result_view(result)),
        result matches Ok(row) ==> r == row,
{
    match result {
        Ok(row) => row,
        Err(e) => ResultRow::error(req, e, "ERROR"),
    }
}

/// The row of a request is about the server and the environment that were asked for,
/// whatever was read.
pub proof fn law_row_is_about_its_request(
    req: RequestView,
    parsed: Result<RowView, Seq<char>>,
    errors: Seq<char>,
)
    ensures
        row_of(req, answer(req, parsed, errors)).server == req.server,
        row_of(req, answer(req, parsed, errors)).environment == req.environment,
{
}

/// A query without a result gives an incomplete row, never one that allows the patch.
pub proof fn law_no_result_is_incomplete(req: RequestView, reason: Seq<char>)
    ensures
        row_of(req, Err(reason)).verdict() == Verdict::Incomplete,
{
    reveal_strlit("ERROR");
    reveal_strlit("FAIL");
    reveal_strlit("OK");
    reveal_strlit("WARN");
    reveal_strlit("INFO");
    assert("ERROR"@.len() == 5);
    crate::model::law_missing_result_is_incomplete(req, reason, "ERROR"@);
}

/// An accepted answer is the row that was read, with every field and every check, so the
/// verdict on the server is the verdict on the checks that were read. A row for another
/// server or environment is refused, and of an output that is no row the answer tells
/// both the reason and the error output.
pub proof fn law_accepted_answer_is_the_row_read(
    req: RequestView,
    row: RowView,
    reason: Seq<char>,
    errors: Seq<char>,
)
    ensures
        row.server == req.server && row.environment == req.environment ==> answer(
            req,
            Ok(row),
            errors,
        ) == Ok::<RowView, Seq<char>>(row),
        row.server == req.server && row.environment == req.environment ==> row_of(
            req,
            answer(req, Ok(row), errors),
        ) == row,
        row.server == req.server && row.environment == req.environment ==> row_of(
            req,
            answer(req, Ok(row), errors),
        ).verdict() == crate::model::verdict_of(row.checks),
        row.server != req.server || row.environment != req.environment ==> answer(
            req,
            Ok(row),
            errors,
        ) == Err::<RowView, Seq<char>>(
            "La respuesta no coincide con el servidor/ambiente solicitado"@,
        ),
        answer(req, Err(reason), errors) == Err::<RowView, Seq<char>>(
            "Respuesta no valida: "@ + reason + "; "@ + errors,
        ),
{
}

/// The row of a request is its result where there is one, unchanged; else it is the row of
/// that request in state `ERROR` whose one check tells the reason.
pub proof fn law_row_of_a_request(req: RequestView, row: RowView, reason: Seq<char>)
    ensures
        row_of(req, Ok(row)) == row,
        row_of(req, Err(reason)).server == req.server,
        row_of(req, Err(reason)).environment == req.environment,
        row_of(req, Err(reason)).checks.len() == 1,
        row_of(req, Err(reason)).checks[0].state == "ERROR"@,
        row_of(req, Err(reason)).checks[0].detail == reason,
{
}

/// A process that ended well gave a response. One that ended badly is answered with its
/// whole error output, one that was stopped with the reason for stopping it.
pub proof fn law_failure_tells_its_reason(reason: String, errors: Seq<char>)
    ensures
        end_failure(QueryEnd::Exited { success: true }, errors) is None,
        end_failure(QueryEnd::Exited { success: false }, errors) == Some(
            "PowerShell fallo: "@ + errors,
        ),
        end_failure(QueryEnd::Stopped { reason }, errors) == Some(reason@),
{
}

/// What is said of a query that took too long names the seconds that it was given, so
/// different limits are told apart.
pub proof fn law_timeout_names_the_limit(timeout: u64, other: u64)
    ensures
        text::is_substring(timeout_message(timeout), text::decimal(timeout as nat)),
        timeout_message(timeout) == "Tiempo maximo de "@ + text::decimal(timeout as nat)
            + "s agotado; validacion incompleta"@,
        timeout_message(timeout) == timeout_message(other) ==> timeout == other,
{
    let before = "Tiempo maximo de "@;
    let after = "s agotado; validacion incompleta"@;
    let a = text::decimal(timeout as nat);
    let b = text::decimal(other as nat);
    text::law_substring_is_a_middle(timeout_message(timeout), a);
    text::law_decimal_reads_back(timeout as nat);
    text::law_decimal_reads_back(other as nat);
    if timeout_message(timeout) == timeout_message(other) {
        assert((before + a + after).len() == (before + b + after).len());
        assert forall|i: int| 0 <= i < a.len() implies a[i] == b[i] by {
            assert((before + a + after)[before.len() + i] == a[i]);
            assert((before + b + after)[before.len() + i] == b[i]);
        }
        assert(a =~= b);
    }
}

/// A stopped query is stopped for one reason.
pub proof fn law_stopped_for_one_reason(step: Step, reason: Seq<char>, other: Seq<char>)
    ensures
        step.stops(reason) <==> exists|r: String|
            step == Step::End(QueryEnd::Stopped { reason: r }) && #[trigger] r@ == reason,
        step.stops(reason) && step.stops(other) ==> reason == other,
{
}

/// A result as texts is the row itself, or the error itself.
pub proof fn law_result_as_texts(row: ResultRow, e: String)
    ensures
        result_view(Ok(row)) == Ok::<RowView, Seq<char>>(row@),
        result_view(Err(e)) == Err::<RowView, Seq<char>>(e@),
{
}

/// A query at work is stopped by the first look that finds it cancelled or at its time
/// limit, and by no look before; one that has ended is taken as it ended, though it be
/// late.
pub proof fn law_query_is_stopped_in_time(
    cancelled: bool,
    elapsed_secs: u64,
    timeout: u64,
    r: Step,
)
    requires
        call_ensures(poll, (ChildState::Running, cancelled, elapsed_secs, timeout), r),
    ensures
        r == Step::Wait <==> !cancelled && elapsed_secs < timeout,
        cancelled ==> r.stops("Consulta cancelada"@),
        !cancelled && elapsed_secs >= timeout ==> r.stops(timeout_message(timeout)),
{
}

/// A process that has ended is taken as it ended, whatever else holds, and one whose state
/// is lost is stopped for the reason that is told.
pub proof fn law_ended_process_is_taken_as_it_is(
    success: bool,
    reason: String,
    cancelled: bool,
    elapsed_secs: u64,
    timeout: u64,
    ended: Step,
    lost: Step,
)
    requires
        call_ensures(poll, (ChildState::Exited { success }, cancelled, elapsed_secs, timeout), ended),
        call_ensures(poll, (ChildState::Lost { reason }, cancelled, elapsed_secs, timeout), lost),
    ensures
        ended == Step::End(QueryEnd::Exited { success }),
        lost.stops(reason@),
{
}

/// A response is had exactly from a process that ended well and whose outputs could both be
/// read, and it holds those outputs, byte for byte.
pub proof fn law_response_holds_the_outputs(
    end: QueryEnd,
    output: Pipe,
    errors: Pipe,
    r: Result<Response, String>,
)
    requires
        call_ensures(collect, (end, output, errors), r),
    ensures
        r is Ok <==> output is Read && errors is Read && end == (QueryEnd::Exited {
            success: true,
        }),
        r matches Ok(response) ==> output == Pipe::Read(response.output) && errors == Pipe::Read(
            response.errors,
        ),
{
}

/// Where there is no response, what is told is the first thing that went wrong: the output,
/// then the error output, then why the process was stopped, then what it wrote of its
/// failure.
pub proof fn law_first_failure_is_told(
    end: QueryEnd,
    output: Pipe,
    errors: Pipe,
    r: Result<Response, String>,
)
    requires
        call_ensures(collect, (end, output, errors), r),
    ensures
        output is Lost ==> r is Err && r->Err_0@ == "Fallo leyendo salida"@,
        output matches Pipe::Failed(reason) ==> r is Err && r->Err_0@ == reason@,
        output is Read && errors is Lost ==> r is Err && r->Err_0@ == "Fallo leyendo errores"@,
        output is Read ==> (errors matches Pipe::Failed(reason) ==> r is Err && r->Err_0@
            == reason@),
        output is Read && errors is Read ==> (end matches QueryEnd::Stopped { reason } ==> r is Err
            && r->Err_0@ == reason@),
        output is Read && end == (QueryEnd::Exited { success: false }) ==> (
        errors matches Pipe::Read(bytes) ==> r is Err && r->Err_0@ == "PowerShell fallo: "@
            + text::lossy_text(bytes@)),
{
}

/// The row that was read is accepted whole, as every field and check of it shows, where it
/// is about the server and the environment that were asked for; else nothing is accepted.
pub proof fn law_row_is_accepted_whole(
    req: &Request,
    parsed: Result<ResultRow, String>,
    errors: &str,
    r: Result<ResultRow, String>,
)
    requires
        call_ensures(accept, (req, parsed, errors), r),
    ensures
        r is Ok <==> parsed is Ok && parsed->Ok_0.server@ == req.server@
            && parsed->Ok_0.environment@ == req.environment@,
        r is Ok ==> r == parsed,
        parsed is Ok && r is Err ==> r->Err_0@
            == "La respuesta no coincide con el servidor/ambiente solicitado"@,
        parsed is Err ==> r is Err && r->Err_0@ == "Respuesta no valida: "@ + parsed->Err_0@
            + "; "@ + errors@,
{
}

/// The same of a response with its error output as bytes.
pub proof fn law_response_is_accepted_whole(
    req: &Request,
    parsed: Result<ResultRow, String>,
    errors: &[u8],
    r: Result<ResultRow, String>,
)
    requires
        call_ensures(accept_response, (req, parsed, errors), r),
    ensures
        r is Ok <==> parsed is Ok && parsed->Ok_0.server@ == req.server@
            && parsed->Ok_0.environment@ == req.environment@,
        r is Ok ==> r == parsed,
        parsed is Ok && r is Err ==> r->Err_0@
            == "La respuesta no coincide con el servidor/ambiente solicitado"@,
        parsed is Err ==> r is Err && r->Err_0@ == "Respuesta no valida: "@ + parsed->Err_0@
            + "; "@ + text::lossy_text(errors@),
{
}

/// A result is its own row; without one the row of the request tells why.
pub proof fn law_result_is_its_row(
    req: &Request,
    result: Result<ResultRow, String>,
    r: ResultRow,
)
    requires
        call_ensures(result_row, (req, result), r),
    ensures
        result matches Ok(row) ==> r == row,
        result is Err ==> r@.server == req.server@ && r@.environment == req.environment@
            && r@.checks.len() == 1 && r@.checks[0].state == "ERROR"@ && r@.checks[0].detail
            == result->Err_0@,
{
}

} // verus!

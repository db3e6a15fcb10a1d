//! The reports of a batch: a CSV table, an HTML page, and the files that hold them.
use crate::model;
use crate::model::{Check, CheckView, ResultRow, RowView, Verdict};
use crate::text;
use crate::text::CharClass;
use vstd::prelude::*;
use vstd::string::*;
use vstd::utf8::*;

verus! {

/// The version that the reports name.
pub const VERSION: &'static str = "0.2.0";

/// What stands for `c` in HTML text and attributes.
pub open spec fn html_char(c: char) -> Seq<char> {
    if c == '&' {
        "&amp;"@
    } else if c == '<' {
        "&lt;"@
    } else if c == '>' {
        "&gt;"@
    } else if c == '"' {
        "&quot;"@
    } else if c == '\'' {
        "&#39;"@
    } else {
        seq![c]
    }
}

pub open spec fn html_escape() -> spec_fn(char) -> Seq<char> {
    |c: char| html_char(c)
}

/// A text as it stands in HTML.
pub open spec fn html_text(s: Seq<char>) -> Seq<char> {
    text::expanded(s, html_escape())
}

/// Escapes a text for HTML.
pub fn html(s: &str) -> (r: String)
    ensures
        r@ == html_text(s@),
{
    let chars = text::chars_of(s);
    let mut r = String::new();
    let mut i: usize = 0;
    while i < chars.len()
        invariant
            i <= chars.len(),
            chars@ == s@,
            r@ == html_text(s@.take(i as int)),
        decreases chars.len() - i,
    {
        let c = chars[i];
        let ghost before = r@;
        if c == '&' {
            r.append("&amp;");
        } else if c == '<' {
            r.append("&lt;");
        } else if c == '>' {
            r.append("&gt;");
        } else if c == '"' {
            r.append("&quot;");
        } else if c == '\'' {
            r.append("&#39;");
        } else {
            r.push(c);
        }
        proof {
            assert(r@ =~= before + html_char(c));
            assert(s@.take(i + 1).drop_last() =~= s@.take(i as int));
        }
        i += 1;
    }
    assert(s@.take(s@.len() as int) =~= s@);
    r
}

/// A text that a spreadsheet would take for a formula.
pub open spec fn looks_like_formula(s: Seq<char>) -> bool {
    let t = text::trim_start(s, CharClass::WhiteSpace);
    t.len() > 0 && (t.first() == '=' || t.first() == '+' || t.first() == '-' || t.first() == '@')
}

/// A text, with an apostrophe before it where it looks like a formula.
pub open spec fn without_formula(s: Seq<char>) -> Seq<char> {
    if looks_like_formula(s) {
        seq!['\''] + s
    } else {
        s
    }
}

/// What stands for `c` between quotes.
pub open spec fn csv_char(c: char) -> Seq<char> {
    if c == '"' {
        seq!['"', '"']
    } else {
        seq![c]
    }
}

pub open spec fn csv_escape() -> spec_fn(char) -> Seq<char> {
    |c: char| csv_char(c)
}

/// A text as a quoted CSV field that is no formula.
pub open spec fn csv_field(s: Seq<char>) -> Seq<char> {
    seq!['"'] + text::expanded(without_formula(s), csv_escape()) + seq!['"']
}

fn formula(s: &[char]) -> (r: bool)
    ensures
        r == looks_like_formula(s@),
{
    let t = text::strip_start(s, &CharClass::WhiteSpace);
    t.len() > 0 && (t[0] == '=' || t[0] == '+' || t[0] == '-' || t[0] == '@')
}

/// Writes a text as a quoted CSV field that a spreadsheet takes for no formula.
pub fn csv(s: &str) -> (r: String)
    ensures
        r@ == csv_field(s@),
{
    let chars = text::chars_of(s);
    let mut safe: Vec<char> = Vec::new();
    if formula(chars.as_slice()) {
        safe.push('\'');
    }
    let ghost start = safe@;
    let mut i: usize = 0;
    while i < chars.len()
        invariant
            i <= chars.len(),
            safe@ == start + chars@.take(i as int),
        decreases chars.len() - i,
    {
        safe.push(chars[i]);
        i += 1;
    }
    assert(safe@ =~= without_formula(s@));
    let mut r = String::new();
    r.push('"');
    i = 0;
    assert(r@ =~= seq!['"'] + text::expanded(safe@.take(0), csv_escape()));
    while i < safe.len()
        invariant
            i <= safe.len(),
            r@ == seq!['"'] + text::expanded(safe@.take(i as int), csv_escape()),
        decreases safe.len() - i,
    {
        let c = safe[i];
        let ghost before = r@;
        if c == '"' {
            r.push('"');
        }
        r.push(c);
        proof {
            assert(safe@.take(i + 1).drop_last() =~= safe@.take(i as int));
            assert(r@ =~= before + csv_char(c));
            assert(r@ =~= seq!['"'] + text::expanded(safe@.take(i + 1), csv_escape()));
        }
        i += 1;
    }
    assert(safe@.take(safe@.len() as int) =~= safe@);
    let ghost before = r@;
    r.push('"');
    assert(r@ =~= before + seq!['"']);
    r
}

/// The line of names at the start of the CSV table, after a byte order mark.
pub const CSV_HEADER: &'static str =
    "\u{feff}Servidor,Equipo,Ambiente,Veredicto,Inicio,Fin,Fase,Comprobacion,Estado,Detalle\r\n";

/// The fields of one line of the CSV table.
pub open spec fn record_fields(row: RowView, check: CheckView) -> Seq<Seq<char>> {
    seq![
        row.server,
        row.computer,
        row.environment,
        row.verdict().label(),
        row.started,
        row.finished,
        check.phase,
        check.name,
        check.state,
        check.detail,
    ]
}

/// Fields as one line of CSV.
pub open spec fn csv_record(fields: Seq<Seq<char>>) -> Seq<char> {
    text::joined(Seq::new(fields.len(), |i: int| csv_field(fields[i])), seq![',']) + seq![
        '\r',
        '\n',
    ]
}

/// The lines of a server: one for each check.
pub open spec fn row_records(row: RowView, checks: Seq<CheckView>) -> Seq<Seq<Seq<char>>> {
    Seq::new(checks.len(), |i: int| record_fields(row, checks[i]))
}

/// The lines of a table, in the order of its rows and of their checks.
pub open spec fn table_records(rows: Seq<RowView>) -> Seq<Seq<Seq<char>>>
    decreases rows.len(),
{
    if rows.len() == 0 {
        Seq::empty()
    } else {
        table_records(rows.drop_last()) + row_records(rows.last(), rows.last().checks)
    }
}

/// Lines of CSV, one after the other.
pub open spec fn csv_lines(records: Seq<Seq<Seq<char>>>) -> Seq<char>
    decreases records.len(),
{
    if records.len() == 0 {
        Seq::empty()
    } else {
        csv_lines(records.drop_last()) + csv_record(records.last())
    }
}

/// The CSV table of a batch.
pub open spec fn csv_table(rows: Seq<RowView>) -> Seq<char> {
    CSV_HEADER@ + csv_lines(table_records(rows))
}

/// Writes `fields` as one line of CSV.
fn record(fields: &[&str]) -> (r: String)
    ensures
        r@ == csv_record(Seq::new(fields@.len(), |i: int| fields@[i]@)),
{
    let ghost all = Seq::new(fields@.len(), |i: int| fields@[i]@);
    let ghost quoted = Seq::new(all.len(), |i: int| csv_field(all[i]));
    let mut r = String::new();
    let mut i: usize = 0;
    assert(r@ =~= text::joined(quoted.take(0), seq![',']));
    while i < fields.len()
        invariant
            i <= fields.len(),
            all == Seq::new(fields@.len(), |i: int| fields@[i]@),
            quoted == Seq::new(all.len(), |i: int| csv_field(all[i])),
            r@ == text::joined(quoted.take(i as int), seq![',']),
        decreases fields.len() - i,
    {
        let field = csv(fields[i]);
        let ghost before = r@;
        if i > 0 {
            r.push(',');
        }
        r.append(field.as_str());
        proof {
            assert(quoted.take(i + 1).drop_last() =~= quoted.take(i as int));
            assert(quoted.take(i + 1).last() == field@);
            assert(r@ =~= text::joined(quoted.take(i + 1), seq![',']));
        }
        i += 1;
    }
    assert(quoted.take(quoted.len() as int) =~= quoted);
    let ghost before = r@;
    r.push('\r');
    r.push('\n');
    assert(r@ =~= before + seq!['\r', '\n']);
    r
}

/// Writes the lines of one server.
fn csv_row(row: &ResultRow) -> (r: String)
    ensures
        r@ == csv_lines(row_records(row@, row@.checks)),
{
    let status = row.status();
    let ghost records = row_records(row@, row@.checks);
    let mut r = String::new();
    let mut i: usize = 0;
    assert(r@ =~= csv_lines(records.take(0)));
    while i < row.checks.len()
        invariant
            i <= row.checks.len(),
            status@ == row@.verdict().label(),
            records == row_records(row@, row@.checks),
            r@ == csv_lines(records.take(i as int)),
        decreases row.checks.len() - i,
    {
        let check = &row.checks[i];
        let fields: [&str; 10] = [
            row.server.as_str(),
            row.computer.as_str(),
            row.environment.as_str(),
            status,
            row.started.as_str(),
            row.finished.as_str(),
            check.phase.as_str(),
            check.name.as_str(),
            check.state.as_str(),
            check.detail.as_str(),
        ];
        let line = record(fields.as_slice());
        proof {
            assert(Seq::new(fields@.len(), |i: int| fields@[i]@) =~= record_fields(
                row@,
                check@,
            ));
            assert(row@.checks[i as int] == check@);
            assert(records.take(i + 1).drop_last() =~= records.take(i as int));
        }
        r.append(line.as_str());
        i += 1;
    }
    assert(records.take(records.len() as int) =~= records);
    r
}

proof fn lemma_csv_lines_append(a: Seq<Seq<Seq<char>>>, b: Seq<Seq<Seq<char>>>)
    ensures
        csv_lines(a + b) == csv_lines(a) + csv_lines(b),
    decreases b.len(),
{
    if b.len() == 0 {
        assert(a + b =~= a);
        assert(csv_lines(a + b) =~= csv_lines(a) + csv_lines(b));
    } else {
        assert((a + b).drop_last() =~= a + b.drop_last());
        lemma_csv_lines_append(a, b.drop_last());
        assert(csv_lines(a + b) =~= csv_lines(a) + csv_lines(b));
    }
}

/// Writes the CSV table of a batch.
pub fn csv_report(rows: &[ResultRow]) -> (r: String)
    ensures
        r@ == csv_table(model::rows_view(rows@)),
{
    let ghost all = model::rows_view(rows@);
    let mut r = CSV_HEADER.to_owned();
    let mut i: usize = 0;
    assert(r@ =~= csv_table(all.take(0)));
    while i < rows.len()
        invariant
            i <= rows.len(),
            all == model::rows_view(rows@),
            r@ == csv_table(all.take(i as int)),
        decreases rows.len() - i,
    {
        let lines = csv_row(&rows[i]);
        let ghost before = r@;
        r.append(lines.as_str());
        proof {
            let row = all[i as int];
            assert(all.take(i + 1).drop_last() =~= all.take(i as int));
            assert(all.take(i + 1).last() == row);
            lemma_csv_lines_append(
                table_records(all.take(i as int)),
                row_records(row, row.checks),
            );
            assert(r@ =~= csv_table(all.take(i + 1)));
        }
        i += 1;
    }
    assert(all.take(all.len() as int) =~= all);
    r
}

/// The page up to the version.
pub const PAGE_START: &'static str =
    "<!doctype html><html lang=\"es\"><meta charset=\"utf-8\"><meta name=\"viewport\" content=\"width=device-width,initial-scale=1\"><title>Connect:Direct · Precheck</title><style>body{font:15px system-ui;background:#f3f6fa;color:#19334b;margin:32px}section{background:white;padding:20px;border-radius:12px;margin:20px 0}table{width:100%;border-collapse:collapse}td,th{text-align:left;padding:10px;border-bottom:1px solid #dae3ec;vertical-align:top;overflow-wrap:anywhere}td:last-child{width:58%}span{font-size:14px}.ok{color:#19774f}.fail{color:#b42d35}.warn{color:#906012}input{padding:10px;width:300px}@media print{input{display:none}body{margin:0}}</style><h1>Connect:Direct / Precheck</h1><p>Solo lectura · Versión ";

/// What stands between the version and the summary.
pub const PAGE_SUMMARY: &'static str = "</p><p>";

/// What stands between the summary and the sections.
pub const PAGE_SECTIONS: &'static str =
    "</p><p>CON OBSERVACIONES requiere revisión. INCOMPLETO no autoriza parchado. NO APTO puede incluir errores adicionales de consulta. Los requisitos del fix IBM y los permisos efectivos se revisan manualmente.</p><input aria-label=\"Buscar\" placeholder=\"Buscar servidor, estado o comprobación\" oninput=\"document.querySelectorAll('section').forEach(s=>s.hidden=!s.textContent.toLowerCase().includes(this.value.toLowerCase()))\">";

/// The end of the page.
pub const PAGE_END: &'static str = "</html>";

/// What stands between the counts of the summary.
pub const SUMMARY_SEPARATOR: &'static str = " &nbsp; | &nbsp; ";

/// The end of the details of a server and the head of its table.
pub const TABLE_START: &'static str =
    "</p><table><thead><tr><th>Fase</th><th>Comprobación</th><th>Estado</th><th>Evidencia</th></tr></thead><tbody>";

/// The end of the section of a server.
pub const SECTION_END: &'static str = "</tbody></table></section>";

/// How many rows have this verdict.
pub open spec fn verdict_count(rows: Seq<RowView>, v: Verdict) -> nat
    decreases rows.len(),
{
    if rows.len() == 0 {
        0
    } else {
        verdict_count(rows.drop_last(), v) + if rows.last().verdict() == v {
            1nat
        } else {
            0nat
        }
    }
}

/// Counts the rows with this verdict.
pub fn count_verdict(rows: &[ResultRow], v: Verdict) -> (r: usize)
    ensures
        r == verdict_count(model::rows_view(rows@), v),
{
    let ghost all = model::rows_view(rows@);
    let mut n: usize = 0;
    let mut i: usize = 0;
    while i < rows.len()
        invariant
            n <= i <= rows.len(),
            all == model::rows_view(rows@),
            n == verdict_count(all.take(i as int), v),
        decreases rows.len() - i,
    {
        assert(all.take(i + 1).drop_last() =~= all.take(i as int));
        if rows[i].verdict() == v {
            n += 1;
        }
        i += 1;
    }
    assert(all.take(all.len() as int) =~= all);
    n
}

/// The class that gives a verdict its color in the page.
pub open spec fn verdict_class(v: Verdict) -> Seq<char> {
    match v {
        Verdict::Fit => "ok"@,
        Verdict::Unfit => "fail"@,
        _ => "warn"@,
    }
}

fn class_name(v: Verdict) -> (r: &'static str)
    ensures
        r@ == verdict_class(v),
{
    match v {
        Verdict::Fit => "ok",
        Verdict::Unfit => "fail",
        _ => "warn",
    }
}

/// The line of a check in the table of its server.
pub open spec fn check_html(check: CheckView) -> Seq<char> {
    "<tr><td>"@ + html_text(check.phase) + "</td><td>"@ + html_text(check.name) + "</td><td>"@
        + html_text(check.state) + "</td><td>"@ + html_text(check.detail) + "</td></tr>"@
}

/// The lines of checks, one after the other.
pub open spec fn checks_html(checks: Seq<CheckView>) -> Seq<char>
    decreases checks.len(),
{
    if checks.len() == 0 {
        Seq::empty()
    } else {
        checks_html(checks.drop_last()) + check_html(checks.last())
    }
}

/// The heading of a server, with its verdict and its details.
pub open spec fn section_start(row: RowView) -> Seq<char> {
    "<section><h2>"@ + html_text(row.server) + " <span class='"@ + verdict_class(row.verdict())
        + "'>"@ + row.verdict().label() + "</span></h2><p>Equipo: "@ + html_text(row.computer)
        + " · Ambiente: "@ + html_text(row.environment) + " · Inicio: "@ + html_text(
        row.started,
    ) + " · Fin: "@ + html_text(row.finished) + TABLE_START@
}

/// The section of a server.
pub open spec fn section_html(row: RowView) -> Seq<char> {
    section_start(row) + checks_html(row.checks) + SECTION_END@
}

/// The sections of a batch, one after the other.
pub open spec fn sections_html(rows: Seq<RowView>) -> Seq<char>
    decreases rows.len(),
{
    if rows.len() == 0 {
        Seq::empty()
    } else {
        sections_html(rows.drop_last()) + section_html(rows.last())
    }
}

/// How many servers have a verdict.
pub open spec fn count_html(rows: Seq<RowView>, v: Verdict) -> Seq<char> {
    "<b>"@ + text::decimal(verdict_count(rows, v)) + "</b> "@ + v.label()
}

/// How many servers have each verdict.
pub open spec fn summary_html(rows: Seq<RowView>) -> Seq<char> {
    count_html(rows, Verdict::Fit) + SUMMARY_SEPARATOR@ + count_html(rows, Verdict::Observations)
        + SUMMARY_SEPARATOR@ + count_html(rows, Verdict::Unfit) + SUMMARY_SEPARATOR@ + count_html(
        rows,
        Verdict::Incomplete,
    )
}

/// The page of a batch.
pub open spec fn html_page(rows: Seq<RowView>) -> Seq<char> {
    PAGE_START@ + VERSION@ + PAGE_SUMMARY@ + summary_html(rows) + PAGE_SECTIONS@ + sections_html(
        rows,
    ) + PAGE_END@
}

fn check_line(check: &Check) -> (r: String)
    ensures
        r@ == check_html(check@),
{
    let mut r = "<tr><td>".to_owned();
    r.append(html(check.phase.as_str()).as_str());
    r.append("</td><td>");
    r.append(html(check.name.as_str()).as_str());
    r.append("</td><td>");
    r.append(html(check.state.as_str()).as_str());
    r.append("</td><td>");
    r.append(html(check.detail.as_str()).as_str());
    r.append("</td></tr>");
    r
}

fn section(row: &ResultRow) -> (r: String)
    ensures
        r@ == section_html(row@),
{
    let verdict = row.verdict();
    let mut r = "<section><h2>".to_owned();
    r.append(html(row.server.as_str()).as_str());
    r.append(" <span class='");
    r.append(class_name(verdict));
    r.append("'>");
    r.append(verdict.name());
    r.append("</span></h2><p>Equipo: ");
    r.append(html(row.computer.as_str()).as_str());
    r.append(" · Ambiente: ");
    r.append(html(row.environment.as_str()).as_str());
    r.append(" · Inicio: ");
    r.append(html(row.started.as_str()).as_str());
    r.append(" · Fin: ");
    r.append(html(row.finished.as_str()).as_str());
    r.append(TABLE_START);
    let mut i: usize = 0;
    assert(r@ =~= section_start(row@) + checks_html(row@.checks.take(0)));
    while i < row.checks.len()
        invariant
            i <= row.checks.len(),
            r@ == section_start(row@) + checks_html(row@.checks.take(i as int)),
        decreases row.checks.len() - i,
    {
        let line = check_line(&row.checks[i]);
        r.append(line.as_str());
        proof {
            assert(row@.checks.take(i + 1).drop_last() =~= row@.checks.take(i as int));
            assert(row@.checks.take(i + 1).last() == row.checks@[i as int]@);
            assert(r@ =~= section_start(row@) + checks_html(row@.checks.take(i + 1)));
        }
        i += 1;
    }
    assert(row@.checks.take(row@.checks.len() as int) =~= row@.checks);
    r.append(SECTION_END);
    r
}

fn sections(rows: &[ResultRow]) -> (r: String)
    ensures
        r@ == sections_html(model::rows_view(rows@)),
{
    let ghost all = model::rows_view(rows@);
    let mut r = String::new();
    let mut i: usize = 0;
    assert(r@ =~= sections_html(all.take(0)));
    while i < rows.len()
        invariant
            i <= rows.len(),
            all == model::rows_view(rows@),
            r@ == sections_html(all.take(i as int)),
        decreases rows.len() - i,
    {
        let one = section(&rows[i]);
        r.append(one.as_str());
        proof {
            assert(all.take(i + 1).drop_last() =~= all.take(i as int));
            assert(all.take(i + 1).last() == rows@[i as int]@);
        }
        i += 1;
    }
    assert(all.take(all.len() as int) =~= all);
    r
}

fn count_line(rows: &[ResultRow], v: Verdict) -> (r: String)
    ensures
        r@ == count_html(model::rows_view(rows@), v),
{
    let mut r = "<b>".to_owned();
    r.append(text::decimal_text(count_verdict(rows, v) as u64).as_str());
    r.append("</b> ");
    r.append(v.name());
    r
}

fn summary(rows: &[ResultRow]) -> (r: String)
    ensures
        r@ == summary_html(model::rows_view(rows@)),
{
    let mut r = count_line(rows, Verdict::Fit);
    r.append(SUMMARY_SEPARATOR);
    r.append(count_line(rows, Verdict::Observations).as_str());
    r.append(SUMMARY_SEPARATOR);
    r.append(count_line(rows, Verdict::Unfit).as_str());
    r.append(SUMMARY_SEPARATOR);
    r.append(count_line(rows, Verdict::Incomplete).as_str());
    r
}

/// Writes the HTML page of a batch.
pub fn html_report(rows: &[ResultRow]) -> (r: String)
    ensures
        r@ == html_page(model::rows_view(rows@)),
{
    let mut r = PAGE_START.to_owned();
    r.append(VERSION);
    r.append(PAGE_SUMMARY);
    r.append(summary(rows).as_str());
    r.append(PAGE_SECTIONS);
    r.append(sections(rows).as_str());
    r.append(PAGE_END);
    r
}

/// A file of a report. Its bytes are written under the temporary name first, and the
/// file is renamed when it is whole, so that a report on disk is never half written.
pub struct ReportFile {
    pub name: String,
    pub temporary: String,
    pub bytes: Vec<u8>,
}

impl ReportFile {
    /// This is the file `name` with these contents.
    pub open spec fn is_file(self, name: Seq<char>, bytes: Seq<u8>) -> bool {
        &&& self.name@ == name
        &&& self.temporary@ == name + ".tmp"@
        &&& self.bytes@ == bytes
    }

    fn new(name: &str, bytes: Vec<u8>) -> (r: Self)
        ensures
            r.is_file(name@, bytes@),
    {
        let mut temporary = name.to_owned();
        temporary.append(".tmp");
        ReportFile { name: name.to_owned(), temporary, bytes }
    }
}

/// The files of a report, in the order in which they are written. `json` holds the rows
/// as JSON.
pub fn report_files(rows: &[ResultRow], json: Vec<u8>) -> (r: Vec<ReportFile>)
    ensures
        r@.len() == 3,
        r@[0].is_file("resultado.csv"@, encode_utf8(csv_table(model::rows_view(rows@)))),
        r@[1].is_file("resultado.html"@, encode_utf8(html_page(model::rows_view(rows@)))),
        r@[2].is_file("resultado.json"@, json@),
        forall|k: int|
            0 <= k < 3 ==> (#[trigger] r@[k]).is_file(
                file_name(k),
                file_bytes(model::rows_view(rows@), json@, k),
            ),
{
    let table = csv_report(rows);
    let page = html_report(rows);
    let mut r: Vec<ReportFile> = Vec::new();
    r.push(ReportFile::new("resultado.csv", table.as_str().as_bytes_vec()));
    r.push(ReportFile::new("resultado.html", page.as_str().as_bytes_vec()));
    r.push(ReportFile::new("resultado.json", json));
    r
}

/// No text can open a tag or end an attribute: escaped, it holds no angle bracket and
/// no quote.
pub proof fn law_escaped_text_is_inert(s: Seq<char>)
    ensures
        forall|i: int|
            0 <= i < html_text(s).len() ==> (#[trigger] html_text(s)[i]) != '<' && html_text(s)[i]
                != '>' && html_text(s)[i] != '"' && html_text(s)[i] != '\'',
    decreases s.len(),
{
    if s.len() > 0 {
        let init = html_text(s.drop_last());
        law_escaped_text_is_inert(s.drop_last());
        lemma_entities();
        let all = html_text(s);
        assert(all == init + html_char(s.last()));
        assert forall|i: int| 0 <= i < all.len() implies (#[trigger] all[i]) != '<' && all[i] != '>'
            && all[i] != '"' && all[i] != '\'' by {
            if i < init.len() {
                assert(all[i] == init[i]);
            } else {
                assert(all[i] == html_char(s.last())[i - init.len()]);
            }
        }
    }
}

proof fn lemma_entities()
    ensures
        "&amp;"@ =~= seq!['&', 'a', 'm', 'p', ';'],
        "&lt;"@ =~= seq!['&', 'l', 't', ';'],
        "&gt;"@ =~= seq!['&', 'g', 't', ';'],
        "&quot;"@ =~= seq!['&', 'q', 'u', 'o', 't', ';'],
        "&#39;"@ =~= seq!['&', '#', '3', '9', ';'],
{
    reveal_strlit("&amp;");
    reveal_strlit("&lt;");
    reveal_strlit("&gt;");
    reveal_strlit("&quot;");
    reveal_strlit("&#39;");
}

/// The character that HTML text starts with, and how many characters stand for it.
pub open spec fn html_first(s: Seq<char>) -> (char, int) {
    if "&amp;"@.is_prefix_of(s) {
        ('&', 5)
    } else if "&lt;"@.is_prefix_of(s) {
        ('<', 4)
    } else if "&gt;"@.is_prefix_of(s) {
        ('>', 4)
    } else if "&quot;"@.is_prefix_of(s) {
        ('"', 6)
    } else if "&#39;"@.is_prefix_of(s) {
        ('\'', 5)
    } else {
        (s.first(), 1)
    }
}

/// What a browser shows for HTML text.
pub open spec fn html_shown(s: Seq<char>) -> Seq<char>
    decreases s.len(),
{
    if s.len() == 0 {
        Seq::empty()
    } else {
        let (c, n) = html_first(s);
        if n <= s.len() {
            seq![c] + html_shown(s.skip(n))
        } else {
            Seq::empty()
        }
    }
}

/// An escaped text is shown as it was.
pub proof fn law_escaped_text_is_shown_unchanged(s: Seq<char>)
    ensures
        html_shown(html_text(s)) == s,
    decreases s.len(),
{
    if s.len() == 0 {
        assert(html_shown(html_text(s)) =~= s);
    } else {
        let c = s.first();
        let rest = html_text(s.drop_first());
        let all = html_text(s);
        text::lemma_expanded_first(s, html_escape());
        law_escaped_text_is_shown_unchanged(s.drop_first());
        lemma_entities();
        assert(all == html_char(c) + rest);
        assert(all[0] == html_char(c)[0]);
        if html_char(c).len() > 1 {
            assert(all[1] == html_char(c)[1]);
        }
        assert(html_char(c).is_prefix_of(all)) by {
            assert(all.subrange(0, html_char(c).len() as int) =~= html_char(c));
        }
        assert(html_first(all) == (c, html_char(c).len() as int)) by {
            lemma_prefix_start("&amp;"@, all);
            lemma_prefix_start("&lt;"@, all);
            lemma_prefix_start("&gt;"@, all);
            lemma_prefix_start("&quot;"@, all);
            lemma_prefix_start("&#39;"@, all);
        }
        assert(all.skip(html_char(c).len() as int) =~= rest);
        assert(seq![c] + s.drop_first() =~= s);
    }
}

proof fn lemma_prefix_start(p: Seq<char>, s: Seq<char>)
    requires
        p.len() >= 2,
    ensures
        p.is_prefix_of(s) ==> s.len() >= 2 && s[0] == p[0] && s[1] == p[1],
{
    if p.is_prefix_of(s) {
        assert(s.subrange(0, p.len() as int)[0] == p[0]);
        assert(s.subrange(0, p.len() as int)[1] == p[1]);
    }
}

/// What a CSV reader takes from a quoted field after its opening quote: the field, and
/// what follows its closing quote.
pub open spec fn read_quoted(s: Seq<char>) -> Option<(Seq<char>, Seq<char>)>
    decreases s.len(),
{
    if s.len() == 0 {
        None
    } else if s[0] != '"' {
        match read_quoted(s.skip(1)) {
            Some((field, rest)) => Some((seq![s[0]] + field, rest)),
            None => None,
        }
    } else if s.len() > 1 && s[1] == '"' {
        match read_quoted(s.skip(2)) {
            Some((field, rest)) => Some((seq!['"'] + field, rest)),
            None => None,
        }
    } else {
        Some((Seq::empty(), s.skip(1)))
    }
}

/// What a CSV reader takes from one line of quoted fields: the fields, and what follows
/// the line.
pub open spec fn read_record(s: Seq<char>) -> Option<(Seq<Seq<char>>, Seq<char>)>
    decreases s.len(),
{
    if s.len() == 0 || s[0] != '"' {
        None
    } else {
        match read_quoted(s.skip(1)) {
            Some((field, rest)) => if rest.len() >= 2 && rest[0] == '\r' && rest[1] == '\n' {
                Some((seq![field], rest.skip(2)))
            } else if 0 < rest.len() < s.len() && rest[0] == ',' {
                match read_record(rest.skip(1)) {
                    Some((fields, after)) => Some((seq![field] + fields, after)),
                    None => None,
                }
            } else {
                None
            },
            None => None,
        }
    }
}

/// What a CSV reader takes from lines of quoted fields.
pub open spec fn read_records(s: Seq<char>) -> Option<Seq<Seq<Seq<char>>>>
    decreases s.len(),
{
    if s.len() == 0 {
        Some(Seq::empty())
    } else {
        match read_record(s) {
            Some((fields, rest)) => if rest.len() < s.len() {
                match read_records(rest) {
                    Some(records) => Some(seq![fields] + records),
                    None => None,
                }
            } else {
                None
            },
            None => None,
        }
    }
}

/// Fields as they are read back: the same, but for the apostrophe before a formula.
pub open spec fn safe_fields(fields: Seq<Seq<char>>) -> Seq<Seq<char>> {
    Seq::new(fields.len(), |i: int| without_formula(fields[i]))
}

/// Records as they are read back.
pub open spec fn safe_records(records: Seq<Seq<Seq<char>>>) -> Seq<Seq<Seq<char>>> {
    Seq::new(records.len(), |i: int| safe_fields(records[i]))
}

proof fn lemma_read_quoted(s: Seq<char>, rest: Seq<char>)
    requires
        rest.len() > 0 ==> rest[0] != '"',
    ensures
        read_quoted(text::expanded(s, csv_escape()) + seq!['"'] + rest) == Some((s, rest)),
    decreases s.len(),
{
    let all = text::expanded(s, csv_escape()) + seq!['"'] + rest;
    if s.len() == 0 {
        assert(all =~= seq!['"'] + rest);
        assert(all.skip(1) =~= rest);
        assert(s =~= Seq::<char>::empty());
    } else {
        let tail = text::expanded(s.drop_first(), csv_escape()) + seq!['"'] + rest;
        text::lemma_expanded_first(s, csv_escape());
        lemma_read_quoted(s.drop_first(), rest);
        assert(all =~= csv_char(s.first()) + tail);
        assert(all.skip(csv_char(s.first()).len() as int) =~= tail);
        assert(all[0] == csv_char(s.first())[0]);
        if s.first() == '"' {
            assert(all[1] == csv_char(s.first())[1]);
        }
        assert(seq![s.first()] + s.drop_first() =~= s);
    }
}

/// What a quoted field starts with is read as the text that it was made of, with an
/// apostrophe before it where it looked like a formula.
pub proof fn law_field_reads_back(s: Seq<char>, rest: Seq<char>)
    requires
        rest.len() > 0 ==> rest[0] != '"',
    ensures
        csv_field(s)[0] == '"',
        read_quoted((csv_field(s) + rest).skip(1)) == Some((without_formula(s), rest)),
{
    let t = without_formula(s);
    lemma_read_quoted(t, rest);
    assert((csv_field(s) + rest).skip(1) =~= text::expanded(t, csv_escape()) + seq!['"'] + rest);
}

/// No field is read as a formula.
pub proof fn law_no_field_is_a_formula(s: Seq<char>)
    ensures
        !looks_like_formula(without_formula(s)),
{
    if looks_like_formula(s) {
        let t = seq!['\''] + s;
        assert(t.first() == '\'');
        assert(text::trim_start(t, CharClass::WhiteSpace) == t);
    }
}

proof fn lemma_joined_first(parts: Seq<Seq<char>>, sep: Seq<char>)
    requires
        parts.len() > 1,
    ensures
        text::joined(parts, sep) == parts[0] + sep + text::joined(parts.drop_first(), sep),
    decreases parts.len(),
{
    if parts.len() == 2 {
        assert(parts.drop_last() =~= seq![parts[0]]);
        assert(parts.drop_first() =~= seq![parts[1]]);
        assert(text::joined(parts.drop_first(), sep) == parts[1]);
        assert(text::joined(parts.drop_last(), sep) == parts[0]);
    } else {
        lemma_joined_first(parts.drop_last(), sep);
        assert(parts.drop_last().drop_first() =~= parts.drop_first().drop_last());
        assert(text::joined(parts, sep) =~= parts[0] + sep + text::joined(
            parts.drop_first(),
            sep,
        ));
    }
}

/// A line reads back as the fields that it was made of.
pub proof fn law_record_reads_back(fields: Seq<Seq<char>>, rest: Seq<char>)
    requires
        fields.len() > 0,
    ensures
        read_record(csv_record(fields) + rest) == Some((safe_fields(fields), rest)),
    decreases fields.len(),
{
    let quoted = Seq::new(fields.len(), |i: int| csv_field(fields[i]));
    let all = csv_record(fields) + rest;
    if fields.len() == 1 {
        let end = seq!['\r', '\n'] + rest;
        law_field_reads_back(fields[0], end);
        assert(text::joined(quoted, seq![',']) == csv_field(fields[0]));
        assert(all =~= csv_field(fields[0]) + end);
        assert(end.skip(2) =~= rest);
        assert(safe_fields(fields) =~= seq![without_formula(fields[0])]);
    } else {
        let others = fields.drop_first();
        let tail = csv_record(others) + rest;
        let end = seq![','] + tail;
        law_record_reads_back(others, rest);
        law_field_reads_back(fields[0], end);
        lemma_joined_first(quoted, seq![',']);
        assert(quoted.drop_first() =~= Seq::new(others.len(), |i: int| csv_field(others[i])));
        assert(all =~= csv_field(fields[0]) + end);
        assert(end.skip(1) =~= tail);
        assert(safe_fields(fields) =~= seq![without_formula(fields[0])] + safe_fields(others));
    }
}

proof fn lemma_csv_lines_first(records: Seq<Seq<Seq<char>>>)
    requires
        records.len() > 0,
    ensures
        csv_lines(records) == csv_record(records[0]) + csv_lines(records.drop_first()),
{
    let one = seq![records[0]];
    assert(one + records.drop_first() =~= records);
    lemma_csv_lines_append(one, records.drop_first());
    assert(one.drop_last() =~= Seq::<Seq<Seq<char>>>::empty());
    assert(csv_lines(one.drop_last()) =~= Seq::<char>::empty());
    assert(csv_lines(one) =~= csv_record(records[0]));
}

proof fn lemma_lines_read_back(records: Seq<Seq<Seq<char>>>)
    requires
        forall|i: int| 0 <= i < records.len() ==> (#[trigger] records[i]).len() > 0,
    ensures
        read_records(csv_lines(records)) == Some(safe_records(records)),
    decreases records.len(),
{
    if records.len() == 0 {
        assert(safe_records(records) =~= Seq::<Seq<Seq<char>>>::empty());
    } else {
        let others = records.drop_first();
        let rest = csv_lines(others);
        assert forall|i: int| 0 <= i < others.len() implies (#[trigger] others[i]).len() > 0 by {
            assert(others[i] == records[i + 1]);
        }
        lemma_lines_read_back(others);
        lemma_csv_lines_first(records);
        assert(records[0].len() > 0);
        law_record_reads_back(records[0], rest);
        assert(safe_records(records) =~= seq![safe_fields(records[0])] + safe_records(others));
    }
}

/// The CSV table reads back as its header and, for each check of each server in order,
/// the fields of that check: nothing that a field holds can add or remove a line.
pub proof fn law_table_reads_back(rows: Seq<RowView>)
    ensures
        CSV_HEADER@.is_prefix_of(csv_table(rows)),
        read_records(csv_table(rows).skip(CSV_HEADER@.len() as int)) == Some(
            safe_records(table_records(rows)),
        ),
{
    let lines = csv_lines(table_records(rows));
    lemma_records_have_fields(rows);
    lemma_lines_read_back(table_records(rows));
    assert(csv_table(rows).skip(CSV_HEADER@.len() as int) =~= lines);
    assert(csv_table(rows).subrange(0, CSV_HEADER@.len() as int) =~= CSV_HEADER@);
}

proof fn lemma_records_have_fields(rows: Seq<RowView>)
    ensures
        forall|i: int|
            0 <= i < table_records(rows).len() ==> (#[trigger] table_records(rows)[i]).len() == 10,
    decreases rows.len(),
{
    if rows.len() > 0 {
        let before = table_records(rows.drop_last());
        let all = table_records(rows);
        lemma_records_have_fields(rows.drop_last());
        assert forall|i: int| 0 <= i < all.len() implies (#[trigger] all[i]).len() == 10 by {
            if i < before.len() {
                assert(all[i] == before[i]);
            } else {
                assert(all[i] == record_fields(
                    rows.last(),
                    rows.last().checks[i - before.len()],
                ));
            }
        }
    }
}

/// The number of checks of all rows.
pub open spec fn check_total(rows: Seq<RowView>) -> nat
    decreases rows.len(),
{
    if rows.len() == 0 {
        0
    } else {
        check_total(rows.drop_last()) + rows.last().checks.len()
    }
}

/// The CSV table has one line for each check, of ten fields.
pub proof fn law_one_line_per_check(rows: Seq<RowView>)
    ensures
        table_records(rows).len() == check_total(rows),
        forall|i: int|
            0 <= i < table_records(rows).len() ==> (#[trigger] table_records(rows)[i]).len() == 10,
    decreases rows.len(),
{
    lemma_records_have_fields(rows);
    if rows.len() > 0 {
        law_one_line_per_check(rows.drop_last());
    }
}

/// Every server is counted under exactly one verdict of the summary.
pub proof fn law_counts_add_up(rows: Seq<RowView>)
    ensures
        verdict_count(rows, Verdict::Fit) + verdict_count(rows, Verdict::Observations)
            + verdict_count(rows, Verdict::Unfit) + verdict_count(rows, Verdict::Incomplete)
            == rows.len(),
    decreases rows.len(),
{
    if rows.len() > 0 {
        law_counts_add_up(rows.drop_last());
    }
}

/// The files of a folder, by name.
pub type Folder = Map<Seq<char>, Seq<u8>>;

/// A folder after a file was written under its temporary name and renamed.
pub open spec fn after_file(folder: Folder, name: Seq<char>, bytes: Seq<u8>) -> Folder {
    let temporary = name + ".tmp"@;
    folder.insert(temporary, bytes).remove(temporary).insert(name, bytes)
}

/// The names of the files of a report, in the order in which they are written.
pub open spec fn file_name(k: int) -> Seq<char> {
    if k == 0 {
        "resultado.csv"@
    } else if k == 1 {
        "resultado.html"@
    } else {
        "resultado.json"@
    }
}

/// The contents of the files of a report, in the order in which they are written.
pub open spec fn file_bytes(rows: Seq<RowView>, json: Seq<u8>, k: int) -> Seq<u8> {
    if k == 0 {
        encode_utf8(csv_table(rows))
    } else if k == 1 {
        encode_utf8(html_page(rows))
    } else {
        json
    }
}

/// A folder after the first `k` files of a report were written, one after the other.
pub open spec fn after_files(
    folder: Folder,
    rows: Seq<RowView>,
    json: Seq<u8>,
    k: nat,
) -> Folder
    decreases k,
{
    if k == 0 {
        folder
    } else {
        after_file(
            after_files(folder, rows, json, (k - 1) as nat),
            file_name(k - 1),
            file_bytes(rows, json, k - 1),
        )
    }
}

/// A folder after all files of a report were written.
pub open spec fn after_report(folder: Folder, rows: Seq<RowView>, json: Seq<u8>) -> Folder {
    after_files(folder, rows, json, 3)
}

/// A folder when the writing of a report was cut off after `k` files. Of the next file
/// there may be some bytes under its temporary name.
pub open spec fn cut_off(
    folder: Folder,
    rows: Seq<RowView>,
    json: Seq<u8>,
    k: nat,
    partial: Option<Seq<u8>>,
) -> Folder {
    let written = after_files(folder, rows, json, k);
    match partial {
        Some(bytes) => written.insert(file_name(k as int) + ".tmp"@, bytes),
        None => written,
    }
}

proof fn lemma_file_names()
    ensures
        "resultado.csv"@.len() == 13,
        "resultado.html"@.len() == 14,
        "resultado.json"@.len() == 14,
        ".tmp"@.len() == 4,
        "resultado.html"@ != "resultado.json"@,
{
    reveal_strlit("resultado.csv");
    reveal_strlit("resultado.html");
    reveal_strlit("resultado.json");
    reveal_strlit(".tmp");
    assert("resultado.html"@[10] == 'h');
    assert("resultado.json"@[10] == 'j');
}

/// A report replaces the one before it: its files hold what the rows make of them,
/// whatever the folder held, and every other file stays, but for one that had a
/// temporary name.
pub proof fn law_report_replaces_report(folder: Folder, rows: Seq<RowView>, json: Seq<u8>)
    ensures
        ({
            let after = after_report(folder, rows, json);
            &&& after.contains_key("resultado.csv"@)
            &&& after["resultado.csv"@] == encode_utf8(csv_table(rows))
            &&& after.contains_key("resultado.html"@)
            &&& after["resultado.html"@] == encode_utf8(html_page(rows))
            &&& after.contains_key("resultado.json"@)
            &&& after["resultado.json"@] == json
            &&& !after.contains_key("resultado.csv"@ + ".tmp"@)
            &&& !after.contains_key("resultado.html"@ + ".tmp"@)
            &&& !after.contains_key("resultado.json"@ + ".tmp"@)
        }),
        forall|name: Seq<char>|
            name != "resultado.csv"@ && name != "resultado.html"@ && name != "resultado.json"@
                && name != "resultado.csv"@ + ".tmp"@ && name != "resultado.html"@ + ".tmp"@
                && name != "resultado.json"@ + ".tmp"@ ==> {
                &&& #[trigger] after_report(folder, rows, json).contains_key(name)
                    == folder.contains_key(name)
                &&& folder.contains_key(name) ==> after_report(folder, rows, json)[name]
                    == folder[name]
            },
{
    lemma_file_names();
    reveal_with_fuel(after_files, 4);
    assert(("resultado.csv"@ + ".tmp"@).len() == 17);
    assert(("resultado.html"@ + ".tmp"@).len() == 18);
    assert(("resultado.json"@ + ".tmp"@).len() == 18);
}

/// Nothing of an earlier report is left once a report was written.
pub proof fn law_nothing_of_earlier_reports_is_left(
    folder: Folder,
    earlier: Seq<RowView>,
    earlier_json: Seq<u8>,
    rows: Seq<RowView>,
    json: Seq<u8>,
)
    ensures
        after_report(after_report(folder, earlier, earlier_json), rows, json) == after_report(
            folder,
            rows,
            json,
        ),
{
    lemma_file_names();
    reveal_with_fuel(after_files, 4);
    assert(("resultado.csv"@ + ".tmp"@).len() == 17);
    assert(("resultado.html"@ + ".tmp"@).len() == 18);
    assert(("resultado.json"@ + ".tmp"@).len() == 18);
    assert(after_report(after_report(folder, earlier, earlier_json), rows, json) =~= after_report(
        folder,
        rows,
        json,
    ));
}

/// A report that is cut off keeps the one before it, file by file: each file holds either
/// the whole of the new report or what it held before, never a part.
pub proof fn law_cut_off_report_keeps_whole_files(
    folder: Folder,
    rows: Seq<RowView>,
    json: Seq<u8>,
    k: nat,
    partial: Option<Seq<u8>>,
)
    requires
        k < 3,
    ensures
        forall|j: int|
            0 <= j < k ==> {
                &&& cut_off(folder, rows, json, k, partial).contains_key(#[trigger] file_name(j))
                &&& cut_off(folder, rows, json, k, partial)[file_name(j)] == file_bytes(
                    rows,
                    json,
                    j,
                )
            },
        forall|j: int|
            k <= j < 3 ==> {
                &&& cut_off(folder, rows, json, k, partial).contains_key(#[trigger] file_name(j))
                    == folder.contains_key(file_name(j))
                &&& folder.contains_key(file_name(j)) ==> cut_off(
                    folder,
                    rows,
                    json,
                    k,
                    partial,
                )[file_name(j)] == folder[file_name(j)]
            },
        forall|name: Seq<char>|
            (forall|j: int|
                0 <= j < 3 ==> name != #[trigger] file_name(j) && name != file_name(j) + ".tmp"@)
                ==> {
                &&& #[trigger] cut_off(folder, rows, json, k, partial).contains_key(name)
                    == folder.contains_key(name)
                &&& folder.contains_key(name) ==> cut_off(folder, rows, json, k, partial)[name]
                    == folder[name]
            },
{
    lemma_file_names();
    reveal_with_fuel(after_files, 4);
    assert((file_name(0) + ".tmp"@).len() == 17);
    assert((file_name(1) + ".tmp"@).len() == 18);
    assert((file_name(2) + ".tmp"@).len() == 18);
}

/// The count for a verdict is the number of rows with that very verdict, and the counts of
/// two batches add up.
pub proof fn law_verdict_count_counts(rows: Seq<RowView>, more: Seq<RowView>, v: Verdict)
    ensures
        verdict_count(rows, v) == rows.filter(|r: RowView| r.verdict() == v).len(),
        (forall|i: int| 0 <= i < rows.len() ==> (#[trigger] rows[i]).verdict() == v)
            ==> verdict_count(rows, v) == rows.len(),
        (forall|i: int| 0 <= i < rows.len() ==> (#[trigger] rows[i]).verdict() != v)
            ==> verdict_count(rows, v) == 0,
        verdict_count(rows + more, v) == verdict_count(rows, v) + verdict_count(more, v),
    decreases rows.len() + more.len(),
{
    reveal(Seq::filter);
    if rows.len() > 0 {
        let init = rows.drop_last();
        law_verdict_count_counts(init, Seq::empty(), v);
        assert(forall|i: int| 0 <= i < init.len() ==> #[trigger] init[i] == rows[i]);
        assert(rows.last() == rows[rows.len() - 1]);
    }
    if more.len() > 0 {
        law_verdict_count_counts(rows, more.drop_last(), v);
        assert((rows + more).drop_last() =~= rows + more.drop_last());
    } else {
        assert(rows + more =~= rows);
    }
}

/// The name of a verdict reaches the table as it is.
proof fn lemma_label_is_no_formula(v: Verdict)
    ensures
        without_formula(v.label()) == v.label(),
{
    reveal_strlit("APTO");
    reveal_strlit("CON OBSERVACIONES");
    reveal_strlit("NO APTO");
    reveal_strlit("INCOMPLETO");
    assert("APTO"@[0] == 'A');
    assert("CON OBSERVACIONES"@[0] == 'C');
    assert("NO APTO"@[0] == 'N');
    assert("INCOMPLETO"@[0] == 'I');
}

proof fn lemma_record_at(rows: Seq<RowView>, i: int, j: int)
    requires
        0 <= i < rows.len(),
        0 <= j < rows[i].checks.len(),
    ensures
        check_total(rows.take(i)) + j < table_records(rows).len(),
        table_records(rows)[check_total(rows.take(i)) + j] == record_fields(
            rows[i],
            rows[i].checks[j],
        ),
    decreases rows.len(),
{
    let init = rows.drop_last();
    law_one_line_per_check(init);
    if i < init.len() {
        lemma_record_at(init, i, j);
        assert(init.take(i) =~= rows.take(i));
    } else {
        assert(rows.take(i) =~= init);
    }
}

/// Read back, the table has a line for check `j` of row `i`, after the lines of the rows
/// before it and of the checks before it. Under the names of the header it holds the
/// server, the computer, the environment, the verdict on the row, the two times, and the
/// phase, name, state and detail of the check; the verdict is `NO APTO` exactly when some
/// check of the row failed.
#[verifier::rlimit(60)]
pub proof fn law_line_names_server_verdict_and_evidence(rows: Seq<RowView>, i: int, j: int)
    requires
        0 <= i < rows.len(),
        0 <= j < rows[i].checks.len(),
    ensures
        ({
            let lines = read_records(csv_table(rows).skip(CSV_HEADER@.len() as int));
            let at = check_total(rows.take(i)) + j;
            let row = rows[i];
            let check = row.checks[j];
            &&& lines is Some
            &&& at < lines->0.len()
            &&& lines->0[at].len() == 10
            &&& lines->0[at][0] == without_formula(row.server)
            &&& lines->0[at][1] == without_formula(row.computer)
            &&& lines->0[at][2] == without_formula(row.environment)
            &&& lines->0[at][3] == model::verdict_of(row.checks).label()
            &&& lines->0[at][4] == without_formula(row.started)
            &&& lines->0[at][5] == without_formula(row.finished)
            &&& lines->0[at][6] == without_formula(check.phase)
            &&& lines->0[at][7] == without_formula(check.name)
            &&& lines->0[at][8] == without_formula(check.state)
            &&& lines->0[at][9] == without_formula(check.detail)
            &&& lines->0[at][3] == "NO APTO"@ <==> exists|k: int|
                0 <= k < row.checks.len() && (#[trigger] row.checks[k]).state == "FAIL"@
            &&& lines->0[at][3] == "APTO"@ <==> forall|k: int|
                0 <= k < row.checks.len() ==> ((#[trigger] row.checks[k]).state == "OK"@
                    || row.checks[k].state == "INFO"@)
        }),
{
    law_table_reads_back(rows);
    lemma_record_at(rows, i, j);
    lemma_label_is_no_formula(rows[i].verdict());
    model::law_verdict_named_by_states(rows[i].checks);
    let at = check_total(rows.take(i)) + j;
    assert(safe_records(table_records(rows))[at] == safe_fields(
        record_fields(rows[i], rows[i].checks[j]),
    ));
}

/// A table has no lines but those of its checks.
pub proof fn law_table_has_no_other_lines(rows: Seq<RowView>)
    ensures
        read_records(csv_table(rows).skip(CSV_HEADER@.len() as int)) is Some,
        read_records(csv_table(rows).skip(CSV_HEADER@.len() as int))->0.len() == check_total(rows),
{
    law_table_reads_back(rows);
    law_one_line_per_check(rows);
}

/// An apostrophe comes before a text whose first character, after any white space, starts
/// a formula; every other text stays as it is.
pub proof fn law_apostrophe_before_formulas(lead: Seq<char>, rest: Seq<char>)
    requires
        text::all_white_space(lead),
        rest.len() > 0 ==> !text::is_white_space(rest.first()),
    ensures
        without_formula(lead + rest) == if rest.len() > 0 && (rest.first() == '=' || rest.first()
            == '+' || rest.first() == '-' || rest.first() == '@') {
            seq!['\''] + (lead + rest)
        } else {
            lead + rest
        },
{
    let class = CharClass::WhiteSpace;
    assert forall|i: int| 0 <= i < lead.len() implies class.has(#[trigger] lead[i]) by {
        assert(text::is_white_space(lead[i]));
    }
    text::law_trim_start_drops_the_lead(lead, rest, class);
}

/// A field is its text between quotes, with every quote in it doubled.
pub proof fn law_field_doubles_quotes(s: Seq<char>)
    ensures
        csv_field(s) == seq!['"'] + text::replaced(without_formula(s), '"', seq!['"', '"'])
            + seq!['"'],
{
    let by = seq!['"', '"'];
    text::lemma_replaced(without_formula(s), '"', by);
    assert(csv_escape() =~= text::replacement('"', by));
}

/// A line is its fields with commas between them and a line end after the last.
pub proof fn law_line_is_its_fields(first: Seq<char>, others: Seq<Seq<char>>)
    ensures
        csv_record(seq![first]) == csv_field(first) + "\r\n"@,
        others.len() > 0 ==> csv_record(seq![first] + others) == csv_field(first) + ","@
            + csv_record(others),
{
    reveal_strlit("\r\n");
    reveal_strlit(",");
    let all = seq![first] + others;
    let quoted = Seq::new(all.len(), |i: int| csv_field(all[i]));
    let one = Seq::new(seq![first].len(), |i: int| csv_field(seq![first][i]));
    assert(text::joined(one, seq![',']) == csv_field(first));
    assert(csv_record(seq![first]) =~= csv_field(first) + "\r\n"@);
    if others.len() > 0 {
        lemma_joined_first(quoted, seq![',']);
        assert(quoted.drop_first() =~= Seq::new(others.len(), |i: int| csv_field(others[i])));
        assert(csv_record(all) =~= csv_field(first) + ","@ + csv_record(others));
    }
}

/// The table of two batches one after the other is the table of the first and the lines of
/// the second.
pub proof fn law_tables_append(rows: Seq<RowView>, more: Seq<RowView>)
    ensures
        csv_table(rows + more) == csv_table(rows) + csv_table(more).skip(CSV_HEADER@.len() as int),
        table_records(rows + more) == table_records(rows) + table_records(more),
    decreases more.len(),
{
    if more.len() == 0 {
        assert(rows + more =~= rows);
        assert(table_records(rows + more) =~= table_records(rows) + table_records(more));
    } else {
        law_tables_append(rows, more.drop_last());
        assert((rows + more).drop_last() =~= rows + more.drop_last());
        assert(table_records(rows + more) =~= table_records(rows) + table_records(more));
    }
    lemma_csv_lines_append(table_records(rows), table_records(more));
    assert(csv_table(more).skip(CSV_HEADER@.len() as int) =~= csv_lines(table_records(more)));
    assert(csv_table(rows + more) =~= csv_table(rows) + csv_table(more).skip(
        CSV_HEADER@.len() as int,
    ));
}

/// Escaping for HTML replaces the ampersand first, then each bracket and quote.
#[verifier::rlimit(60)]
pub proof fn law_escaping_replaces_five_characters(s: Seq<char>)
    ensures
        html_text(s) == text::replaced(
            text::replaced(
                text::replaced(
                    text::replaced(text::replaced(s, '&', "&amp;"@), '<', "&lt;"@),
                    '>',
                    "&gt;"@,
                ),
                '"',
                "&quot;"@,
            ),
            '\'',
            "&#39;"@,
        ),
{
    let a = text::replacement('&', "&amp;"@);
    let b = text::replacement('<', "&lt;"@);
    let c = text::replacement('>', "&gt;"@);
    let d = text::replacement('"', "&quot;"@);
    let e = text::replacement('\'', "&#39;"@);
    let ab = |x: char| text::expanded(a(x), b);
    let abc = |x: char| text::expanded(ab(x), c);
    let abcd = |x: char| text::expanded(abc(x), d);
    let abcde = |x: char| text::expanded(abcd(x), e);
    text::lemma_replaced(s, '&', "&amp;"@);
    let s1 = text::expanded(s, a);
    text::lemma_replaced(s1, '<', "&lt;"@);
    text::lemma_expanded_twice(s, a, b, ab);
    let s2 = text::expanded(s, ab);
    text::lemma_replaced(s2, '>', "&gt;"@);
    text::lemma_expanded_twice(s, ab, c, abc);
    let s3 = text::expanded(s, abc);
    text::lemma_replaced(s3, '"', "&quot;"@);
    text::lemma_expanded_twice(s, abc, d, abcd);
    let s4 = text::expanded(s, abcd);
    text::lemma_replaced(s4, '\'', "&#39;"@);
    text::lemma_expanded_twice(s, abcd, e, abcde);
    assert forall|x: char| #[trigger] abcde(x) == html_char(x) by {
        lemma_entities();
        lemma_stays(a(x), b, '<', "&lt;"@);
        lemma_stays(ab(x), c, '>', "&gt;"@);
        lemma_stays(abc(x), d, '"', "&quot;"@);
        lemma_stays(abcd(x), e, '\'', "&#39;"@);
        text::law_expanded_piece_by_piece(Seq::empty(), Seq::empty(), x, b);
        text::law_expanded_piece_by_piece(Seq::empty(), Seq::empty(), x, c);
        text::law_expanded_piece_by_piece(Seq::empty(), Seq::empty(), x, d);
        text::law_expanded_piece_by_piece(Seq::empty(), Seq::empty(), x, e);
    }
    assert(abcde =~= html_escape());
}

/// A text without a character is not changed by replacing it.
proof fn lemma_stays(s: Seq<char>, f: spec_fn(char) -> Seq<char>, c: char, by: Seq<char>)
    requires
        f == text::replacement(c, by),
    ensures
        (forall|i: int| 0 <= i < s.len() ==> (#[trigger] s[i]) != c) ==> text::expanded(s, f) == s,
    decreases s.len(),
{
    if s.len() > 0 {
        lemma_stays(s.drop_last(), f, c, by);
        if forall|i: int| 0 <= i < s.len() ==> (#[trigger] s[i]) != c {
            assert forall|i: int| 0 <= i < s.drop_last().len() implies (
            #[trigger] s.drop_last()[i]) != c by {
                assert(s[i] != c);
            }
            assert(s[s.len() - 1] != c);
            assert(s.drop_last() + seq![s.last()] =~= s);
        }
    } else {
        assert(text::expanded(s, f) =~= s);
    }
}

/// The color of a server in the page goes by the states of its checks: failures show as
/// failures, only a server that passed shows as passed, and the rest asks for a look.
pub proof fn law_color_goes_by_states(checks: Seq<CheckView>)
    ensures
        verdict_class(model::verdict_of(checks)) == "fail"@ <==> exists|i: int|
            0 <= i < checks.len() && (#[trigger] checks[i]).state == "FAIL"@,
        verdict_class(model::verdict_of(checks)) == "ok"@ <==> checks.len() > 0 && forall|i: int|
            0 <= i < checks.len() ==> ((#[trigger] checks[i]).state == "OK"@ || checks[i].state
                == "INFO"@),
        verdict_class(model::verdict_of(checks)) != "fail"@ && verdict_class(
            model::verdict_of(checks),
        ) != "ok"@ ==> verdict_class(model::verdict_of(checks)) == "warn"@,
{
    model::law_verdict_meaning(checks);
    reveal_strlit("fail");
    reveal_strlit("ok");
    reveal_strlit("warn");
    assert("fail"@[0] == 'f');
    assert("ok"@[0] == 'o');
    assert("warn"@[0] == 'w');
}

/// The summary of the page says of each verdict how many rows have it.
#[verifier::rlimit(60)]
pub proof fn law_summary_says_how_many(rows: Seq<RowView>)
    ensures
        summary_html(rows) == "<b>"@ + text::decimal(
            rows.filter(|r: RowView| r.verdict() == Verdict::Fit).len(),
        ) + "</b> "@ + "APTO"@ + " &nbsp; | &nbsp; "@ + ("<b>"@ + text::decimal(
            rows.filter(|r: RowView| r.verdict() == Verdict::Observations).len(),
        ) + "</b> "@ + "CON OBSERVACIONES"@) + " &nbsp; | &nbsp; "@ + ("<b>"@ + text::decimal(
            rows.filter(|r: RowView| r.verdict() == Verdict::Unfit).len(),
        ) + "</b> "@ + "NO APTO"@) + " &nbsp; | &nbsp; "@ + ("<b>"@ + text::decimal(
            rows.filter(|r: RowView| r.verdict() == Verdict::Incomplete).len(),
        ) + "</b> "@ + "INCOMPLETO"@),
{
    law_verdict_count_counts(rows, rows, Verdict::Fit);
    law_verdict_count_counts(rows, rows, Verdict::Observations);
    law_verdict_count_counts(rows, rows, Verdict::Unfit);
    law_verdict_count_counts(rows, rows, Verdict::Incomplete);
}

/// The page is the same for all batches but for the summary and the sections, and has the
/// sections of its rows, one after the other, before its end.
#[verifier::rlimit(60)]
pub proof fn law_page_holds_summary_and_sections(rows: Seq<RowView>, more: Seq<RowView>, i: int)
    ensures
        html_page(rows) == PAGE_START@ + VERSION@ + "</p><p>"@ + summary_html(rows)
            + PAGE_SECTIONS@ + sections_html(rows) + "</html>"@,
        sections_html(rows + more) == sections_html(rows) + sections_html(more),
        sections_html(Seq::empty()) == Seq::<char>::empty(),
        0 <= i < rows.len() ==> sections_html(seq![rows[i]]) == section_html(rows[i]),
        0 <= i < rows.len() ==> sections_html(rows) == sections_html(rows.take(i)) + section_html(
            rows[i],
        ) + sections_html(rows.skip(i + 1)),
        0 <= i < rows.len() ==> text::is_substring(html_page(rows), section_html(rows[i])),
{
    lemma_sections_append(rows, more);
    if 0 <= i < rows.len() {
        let one = seq![rows[i]];
        assert(one.drop_last() =~= Seq::<RowView>::empty());
        assert(sections_html(one.drop_last()) =~= Seq::<char>::empty());
        assert(sections_html(one) =~= section_html(rows[i]));
        assert(rows =~= rows.take(i) + one + rows.skip(i + 1));
        lemma_sections_append(rows.take(i), one);
        lemma_sections_append(rows.take(i) + one, rows.skip(i + 1));
        let top = PAGE_START@ + VERSION@ + PAGE_SUMMARY@ + summary_html(rows) + PAGE_SECTIONS@;
        let earlier = sections_html(rows.take(i));
        let later = sections_html(rows.skip(i + 1));
        lemma_middle(top, earlier, section_html(rows[i]), later, PAGE_END@);
        assert(html_page(rows) == (top + earlier) + section_html(rows[i]) + (later + PAGE_END@));
        text::law_substring_is_a_middle(html_page(rows), section_html(rows[i]));
    }
}

proof fn lemma_middle(
    top: Seq<char>,
    before: Seq<char>,
    part: Seq<char>,
    after: Seq<char>,
    end: Seq<char>,
)
    ensures
        top + (before + part + after) + end == (top + before) + part + (after + end),
{
    assert(top + (before + part + after) + end =~= (top + before) + part + (after + end));
}

proof fn lemma_sections_append(a: Seq<RowView>, b: Seq<RowView>)
    ensures
        sections_html(a + b) == sections_html(a) + sections_html(b),
    decreases b.len(),
{
    if b.len() == 0 {
        assert(a + b =~= a);
        assert(sections_html(a + b) =~= sections_html(a) + sections_html(b));
    } else {
        lemma_sections_append(a, b.drop_last());
        assert((a + b).drop_last() =~= a + b.drop_last());
        assert(sections_html(a + b) =~= sections_html(a) + sections_html(b));
    }
}

/// What follows the end of a tag.
pub open spec fn after_tag(s: Seq<char>) -> Seq<char>
    decreases s.len(),
{
    if s.len() == 0 {
        Seq::empty()
    } else if s.first() == '>' {
        s.drop_first()
    } else {
        after_tag(s.drop_first())
    }
}

/// What a browser shows after each tag of a page, up to the next.
pub open spec fn shown_after_tags(s: Seq<char>) -> Seq<Seq<char>> {
    let parts = text::pieces(s, CharClass::Only('<'));
    Seq::new((parts.len() - 1) as nat, |i: int| html_shown(after_tag(parts[i + 1])))
}

/// A tag.
pub open spec fn tag(name: Seq<char>) -> Seq<char> {
    seq!['<'] + name + seq!['>']
}

/// A name that a tag can have.
pub open spec fn is_tag_name(name: Seq<char>) -> bool {
    forall|i: int| 0 <= i < name.len() ==> (#[trigger] name[i]) != '<' && name[i] != '>'
}

proof fn lemma_after_tag(name: Seq<char>, rest: Seq<char>)
    requires
        is_tag_name(name),
    ensures
        after_tag(name + seq!['>'] + rest) == rest,
    decreases name.len(),
{
    let all = name + seq!['>'] + rest;
    if name.len() == 0 {
        assert(all.first() == '>');
        assert(all.drop_first() =~= rest);
    } else {
        assert(name[0] != '>');
        assert forall|i: int| 0 <= i < name.drop_first().len() implies (
        #[trigger] name.drop_first()[i]) != '<' && name.drop_first()[i] != '>' by {
            assert(name[i + 1] != '<' && name[i + 1] != '>');
        }
        lemma_after_tag(name.drop_first(), rest);
        assert(all.drop_first() =~= name.drop_first() + seq!['>'] + rest);
    }
}

/// A tag and an escaped text at the end are shown as that text.
proof fn lemma_shown_after_tag(page: Seq<char>, name: Seq<char>, s: Seq<char>)
    requires
        is_tag_name(name),
    ensures
        shown_after_tags(page + tag(name) + html_text(s)) == shown_after_tags(page).push(s),
{
    let class = CharClass::Only('<');
    let part = name + seq!['>'] + html_text(s);
    law_escaped_text_is_inert(s);
    law_escaped_text_is_shown_unchanged(s);
    lemma_after_tag(name, html_text(s));
    assert forall|i: int| 0 <= i < part.len() implies !class.has(#[trigger] part[i]) by {
        if i < name.len() {
            assert(part[i] == name[i]);
        } else if i > name.len() {
            assert(part[i] == html_text(s)[i - name.len() - 1]);
        }
    }
    text::lemma_pieces_append(page, '<', part, class);
    text::lemma_pieces_are_free(page, class);
    assert(page + tag(name) + html_text(s) =~= page.push('<') + part);
    assert(shown_after_tags(page + tag(name) + html_text(s)) =~= shown_after_tags(page).push(s));
}

proof fn lemma_shown_after_lone_tag(page: Seq<char>, name: Seq<char>)
    requires
        is_tag_name(name),
    ensures
        shown_after_tags(page + tag(name)) == shown_after_tags(page).push(Seq::empty()),
{
    let none = Seq::<char>::empty();
    lemma_shown_after_tag(page, name, none);
    assert(html_text(none) =~= none);
    assert(page + tag(name) + html_text(none) =~= page + tag(name));
}

/// What is shown of a page and of another that starts with a tag is shown of the two
/// together.
proof fn lemma_shown_of_both(a: Seq<char>, b: Seq<char>)
    requires
        b.len() > 0,
        b.first() == '<',
    ensures
        shown_after_tags(a + b) == shown_after_tags(a) + shown_after_tags(b),
        text::pieces(a + b, CharClass::Only('<')) == text::pieces(a, CharClass::Only('<'))
            + text::pieces(b, CharClass::Only('<')).drop_first(),
        text::pieces(b, CharClass::Only('<')).len() >= 2,
    decreases b.len(),
{
    let class = CharClass::Only('<');
    let of_a = text::pieces(a, class);
    let of_b = text::pieces(b, class);
    let both = text::pieces(a + b, class);
    let init = b.drop_last();
    assert((a + b).drop_last() =~= a + init);
    text::lemma_pieces_are_free(a, class);
    if init.len() == 0 {
        assert(a + init =~= a);
        assert(text::pieces(init, class) =~= seq![Seq::<char>::empty()]);
        assert(of_b.drop_first() =~= seq![Seq::<char>::empty()]);
        assert(both =~= of_a + of_b.drop_first());
    } else {
        assert(init.first() == '<');
        lemma_shown_of_both(a, init);
        let of_init = text::pieces(init, class);
        let before = text::pieces(a + init, class);
        assert(before.last() == of_init.last());
        if class.has(b.last()) {
            assert(of_b.drop_first() =~= of_init.drop_first().push(Seq::<char>::empty()));
        } else {
            assert(of_b.drop_first() =~= of_init.drop_first().drop_last().push(
                of_init.last().push(b.last()),
            ));
            assert(before.drop_last() =~= of_a + of_init.drop_first().drop_last());
        }
        assert(both =~= of_a + of_b.drop_first());
    }
    assert(shown_after_tags(a + b) =~= shown_after_tags(a) + shown_after_tags(b));
}

/// The line of a check shows its phase, name, state and detail, each in a cell of its own.
#[verifier::rlimit(60)]
pub proof fn law_check_is_shown(check: CheckView)
    ensures
        shown_after_tags(check_html(check)) == seq![
            Seq::empty(),
            check.phase,
            Seq::empty(),
            check.name,
            Seq::empty(),
            check.state,
            Seq::empty(),
            check.detail,
            Seq::empty(),
            Seq::empty(),
        ],
{
    reveal_strlit("<tr><td>");
    reveal_strlit("</td><td>");
    reveal_strlit("</td></tr>");
    let tr = seq!['t', 'r'];
    let td = seq!['t', 'd'];
    let end_td = seq!['/', 't', 'd'];
    let end_tr = seq!['/', 't', 'r'];
    let none = Seq::<char>::empty();
    assert("<tr><td>"@ =~= tag(tr) + tag(td));
    assert("</td><td>"@ =~= tag(end_td) + tag(td));
    assert("</td></tr>"@ =~= tag(end_td) + tag(end_tr));
    assert(shown_after_tags(none) =~= Seq::<Seq<char>>::empty());
    let p0 = none + tag(tr);
    lemma_shown_after_lone_tag(none, tr);
    let p1 = p0 + tag(td) + html_text(check.phase);
    lemma_shown_after_tag(p0, td, check.phase);
    let p2 = p1 + tag(end_td);
    lemma_shown_after_lone_tag(p1, end_td);
    let p3 = p2 + tag(td) + html_text(check.name);
    lemma_shown_after_tag(p2, td, check.name);
    let p4 = p3 + tag(end_td);
    lemma_shown_after_lone_tag(p3, end_td);
    let p5 = p4 + tag(td) + html_text(check.state);
    lemma_shown_after_tag(p4, td, check.state);
    let p6 = p5 + tag(end_td);
    lemma_shown_after_lone_tag(p5, end_td);
    let p7 = p6 + tag(td) + html_text(check.detail);
    lemma_shown_after_tag(p6, td, check.detail);
    let p8 = p7 + tag(end_td);
    lemma_shown_after_lone_tag(p7, end_td);
    let p9 = p8 + tag(end_tr);
    lemma_shown_after_lone_tag(p8, end_tr);
    let tr_td = tag(tr) + tag(td);
    let td_td = tag(end_td) + tag(td);
    let td_tr = tag(end_td) + tag(end_tr);
    assert(p1 =~= tr_td + html_text(check.phase));
    assert(p3 =~= p1 + td_td + html_text(check.name));
    assert(p5 =~= p3 + td_td + html_text(check.state));
    assert(p7 =~= p5 + td_td + html_text(check.detail));
    assert(p9 =~= p7 + td_tr);
    assert(p9 == check_html(check));
    assert(shown_after_tags(p9) =~= seq![
        none,
        check.phase,
        none,
        check.name,
        none,
        check.state,
        none,
        check.detail,
        none,
        none,
    ]);
}

proof fn lemma_check_starts_with_tag(check: CheckView)
    ensures
        check_html(check).len() > 0,
        check_html(check).first() == '<',
{
    reveal_strlit("<tr><td>");
    assert("<tr><td>"@.len() == 8);
    assert(check_html(check)[0] == "<tr><td>"@[0]);
}

/// The lines of checks show the cells of each, in order.
proof fn lemma_checks_are_shown(checks: Seq<CheckView>, j: int)
    ensures
        shown_after_tags(checks_html(checks)).len() == 10 * checks.len(),
        0 <= j < checks.len() ==> {
            let cells = shown_after_tags(checks_html(checks));
            &&& cells[10 * j + 1] == checks[j].phase
            &&& cells[10 * j + 3] == checks[j].name
            &&& cells[10 * j + 5] == checks[j].state
            &&& cells[10 * j + 7] == checks[j].detail
        },
    decreases checks.len(),
{
    if checks.len() == 0 {
        assert(shown_after_tags(checks_html(checks)) =~= Seq::<Seq<char>>::empty());
    } else {
        let init = checks.drop_last();
        lemma_checks_are_shown(init, j);
        law_check_is_shown(checks.last());
        lemma_check_starts_with_tag(checks.last());
        lemma_shown_of_both(checks_html(init), check_html(checks.last()));
    }
}

/// A text without markup is the same in HTML.
proof fn lemma_plain_html(s: Seq<char>)
    requires
        forall|i: int|
            0 <= i < s.len() ==> (#[trigger] s[i]) != '&' && s[i] != '<' && s[i] != '>' && s[i]
                != '"' && s[i] != '\'',
    ensures
        html_text(s) == s,
    decreases s.len(),
{
    if s.len() == 0 {
        assert(html_text(s) =~= s);
    } else {
        assert forall|i: int| 0 <= i < s.drop_last().len() implies (#[trigger] s.drop_last()[i])
            != '&' && s.drop_last()[i] != '<' && s.drop_last()[i] != '>' && s.drop_last()[i] != '"'
            && s.drop_last()[i] != '\'' by {
            assert(s[i] == s.drop_last()[i]);
        }
        lemma_plain_html(s.drop_last());
        assert(html_char(s[s.len() - 1]) == seq![s.last()]);
        assert(s.drop_last() + seq![s.last()] =~= s);
    }
}

proof fn lemma_html_of_both(a: Seq<char>, b: Seq<char>)
    ensures
        html_text(a + b) == html_text(a) + html_text(b),
{
    text::law_expanded_piece_by_piece(a, b, ' ', html_escape());
}

/// The details of a server as they are shown.
pub open spec fn details_shown(row: RowView) -> Seq<char> {
    "Equipo: "@ + row.computer + " · Ambiente: "@ + row.environment + " · Inicio: "@ + row.started
        + " · Fin: "@ + row.finished
}

#[verifier::rlimit(60)]
proof fn lemma_details_html(row: RowView)
    ensures
        html_text(details_shown(row)) == "Equipo: "@ + html_text(row.computer) + " · Ambiente: "@
            + html_text(row.environment) + " · Inicio: "@ + html_text(row.started) + " · Fin: "@
            + html_text(row.finished),
{
    reveal_strlit("Equipo: ");
    reveal_strlit(" · Ambiente: ");
    reveal_strlit(" · Inicio: ");
    reveal_strlit(" · Fin: ");
    lemma_plain_html("Equipo: "@);
    lemma_plain_html(" · Ambiente: "@);
    lemma_plain_html(" · Inicio: "@);
    lemma_plain_html(" · Fin: "@);
    let a = "Equipo: "@;
    let b = a + row.computer;
    let c = b + " · Ambiente: "@;
    let d = c + row.environment;
    let e = d + " · Inicio: "@;
    let f = e + row.started;
    let g = f + " · Fin: "@;
    lemma_html_of_both(a, row.computer);
    lemma_html_of_both(b, " · Ambiente: "@);
    lemma_html_of_both(c, row.environment);
    lemma_html_of_both(d, " · Inicio: "@);
    lemma_html_of_both(e, row.started);
    lemma_html_of_both(f, " · Fin: "@);
    lemma_html_of_both(g, row.finished);
}

/// The heading of a server, up to the head of its table.
spec fn heading(row: RowView) -> Seq<char> {
    "<section><h2>"@ + html_text(row.server) + " <span class='"@ + verdict_class(row.verdict())
        + "'>"@ + row.verdict().label() + "</span></h2><p>Equipo: "@ + html_text(row.computer)
        + " · Ambiente: "@ + html_text(row.environment) + " · Inicio: "@ + html_text(row.started)
        + " · Fin: "@ + html_text(row.finished)
}

proof fn lemma_label_html(v: Verdict)
    ensures
        html_text(v.label()) == v.label(),
        is_tag_name("span class='"@ + verdict_class(v) + "'"@),
{
    reveal_strlit("APTO");
    reveal_strlit("CON OBSERVACIONES");
    reveal_strlit("NO APTO");
    reveal_strlit("INCOMPLETO");
    reveal_strlit("span class='");
    reveal_strlit("'");
    reveal_strlit("ok");
    reveal_strlit("fail");
    reveal_strlit("warn");
    lemma_plain_html(v.label());
}

#[verifier::rlimit(60)]
proof fn lemma_heading_tags()
    ensures
        "<section><h2>"@ == tag("section"@) + tag("h2"@),
        " <span class='"@ == " "@ + seq!['<'] + "span class='"@,
        "'>"@ == "'"@ + seq!['>'],
        "</span></h2><p>Equipo: "@ == tag("/span"@) + tag("/h2"@) + tag("p"@) + "Equipo: "@,
        is_tag_name("section"@),
        is_tag_name("h2"@),
        is_tag_name("/span"@),
        is_tag_name("/h2"@),
        is_tag_name("p"@),
        html_text(" "@) == " "@,
{
    reveal_strlit("<section><h2>");
    reveal_strlit("section");
    reveal_strlit("h2");
    reveal_strlit(" <span class='");
    reveal_strlit(" ");
    reveal_strlit("span class='");
    reveal_strlit("'>");
    reveal_strlit("'");
    reveal_strlit("</span></h2><p>Equipo: ");
    reveal_strlit("/span");
    reveal_strlit("/h2");
    reveal_strlit("p");
    reveal_strlit("Equipo: ");
    assert("<section><h2>"@ =~= tag("section"@) + tag("h2"@));
    assert(" <span class='"@ =~= " "@ + seq!['<'] + "span class='"@);
    assert("'>"@ =~= "'"@ + seq!['>']);
    assert("</span></h2><p>Equipo: "@ =~= tag("/span"@) + tag("/h2"@) + tag("p"@) + "Equipo: "@);
    lemma_plain_html(" "@);
}

/// Texts put together one by one are the first, the next three, and the rest.
proof fn lemma_regroup(a: Seq<char>, b: Seq<char>, c: Seq<char>, d: Seq<char>, e: Seq<char>)
    ensures
        a + (b + c + d + e) == a + b + c + d + e,
{
    assert(a + (b + c + d + e) =~= a + b + c + d + e);
}

#[verifier::rlimit(60)]
proof fn lemma_heading_is_shown(row: RowView)
    ensures
        shown_after_tags(heading(row)) == seq![
            Seq::empty(),
            row.server + " "@,
            row.verdict().label(),
            Seq::empty(),
            Seq::empty(),
            details_shown(row),
        ],
{
    let none = Seq::<char>::empty();
    let v = row.verdict();
    let class = verdict_class(v);
    let span = "span class='"@ + class + "'"@;
    lemma_heading_tags();
    lemma_label_html(v);
    lemma_html_of_both(row.server, " "@);
    lemma_details_html(row);
    assert(shown_after_tags(none) =~= Seq::<Seq<char>>::empty());
    let p0 = none + tag("section"@);
    lemma_shown_after_lone_tag(none, "section"@);
    let p1 = p0 + tag("h2"@) + html_text(row.server + " "@);
    lemma_shown_after_tag(p0, "h2"@, row.server + " "@);
    let p2 = p1 + tag(span) + html_text(v.label());
    lemma_shown_after_tag(p1, span, v.label());
    let p3 = p2 + tag("/span"@);
    lemma_shown_after_lone_tag(p2, "/span"@);
    let p4 = p3 + tag("/h2"@);
    lemma_shown_after_lone_tag(p3, "/h2"@);
    let p5 = p4 + tag("p"@) + html_text(details_shown(row));
    lemma_shown_after_tag(p4, "p"@, details_shown(row));
    lemma_heading_form(row);
    assert(shown_after_tags(p5) =~= seq![
        none,
        row.server + " "@,
        v.label(),
        none,
        none,
        details_shown(row),
    ]);
}

/// The heading as tags and escaped texts.
#[verifier::rlimit(60)]
proof fn lemma_heading_form(row: RowView)
    ensures
        ({
            let v = row.verdict();
            let span = "span class='"@ + verdict_class(v) + "'"@;
            let p1 = Seq::<char>::empty() + tag("section"@) + tag("h2"@) + html_text(
                row.server + " "@,
            );
            let p2 = p1 + tag(span) + html_text(v.label());
            heading(row) == p2 + tag("/span"@) + tag("/h2"@) + tag("p"@) + html_text(
                details_shown(row),
            )
        }),
{
    let none = Seq::<char>::empty();
    let v = row.verdict();
    let class = verdict_class(v);
    let attribute = "span class='"@;
    let quote = "'"@;
    let span = attribute + class + quote;
    let space = " "@;
    let server = html_text(row.server);
    let label = v.label();
    lemma_heading_tags();
    lemma_label_html(v);
    lemma_html_of_both(row.server, space);
    lemma_details_html(row);
    let q1 = "<section><h2>"@ + server + " <span class='"@ + class + "'>"@ + label;
    let p1 = none + tag("section"@) + tag("h2"@) + html_text(row.server + space);
    let p2 = p1 + tag(span) + html_text(label);
    lemma_opening(tag("section"@), tag("h2"@), server, space, attribute, class, quote, label);
    assert(p2 == q1);
    let rest = html_text(details_shown(row));
    let others = html_text(row.computer) + " · Ambiente: "@ + html_text(row.environment)
        + " · Inicio: "@ + html_text(row.started) + " · Fin: "@ + html_text(row.finished);
    let equipo = "Equipo: "@;
    lemma_details_after(
        equipo,
        html_text(row.computer),
        " · Ambiente: "@,
        html_text(row.environment),
        " · Inicio: "@,
        html_text(row.started),
        " · Fin: "@,
        html_text(row.finished),
    );
    assert(rest == equipo + others);
    lemma_details_after(
        q1 + (tag("/span"@) + tag("/h2"@) + tag("p"@) + equipo),
        html_text(row.computer),
        " · Ambiente: "@,
        html_text(row.environment),
        " · Inicio: "@,
        html_text(row.started),
        " · Fin: "@,
        html_text(row.finished),
    );
    assert(heading(row) == q1 + (tag("/span"@) + tag("/h2"@) + tag("p"@) + equipo) + others);
    lemma_regroup(q1, tag("/span"@), tag("/h2"@), tag("p"@), equipo);
    let front = q1 + tag("/span"@) + tag("/h2"@) + tag("p"@);
    assert(front + equipo + others =~= front + (equipo + others));
}

proof fn lemma_opening(
    section: Seq<char>,
    h2: Seq<char>,
    server: Seq<char>,
    space: Seq<char>,
    attribute: Seq<char>,
    class: Seq<char>,
    quote: Seq<char>,
    label: Seq<char>,
)
    ensures
        Seq::<char>::empty() + section + h2 + (server + space) + tag(attribute + class + quote)
            + label == (section + h2) + server + (space + seq!['<'] + attribute) + class + (quote
            + seq!['>']) + label,
{
    let a = Seq::<char>::empty() + section + h2 + (server + space);
    let b = section + h2 + server + space;
    assert(a =~= b);
    let c = b + tag(attribute + class + quote);
    let d = b + seq!['<'] + attribute + class + quote + seq!['>'];
    assert(c =~= d);
    let e = (section + h2) + server + (space + seq!['<'] + attribute);
    assert(e =~= b + seq!['<'] + attribute);
    let f = e + class + (quote + seq!['>']);
    assert(f =~= e + class + quote + seq!['>']);
}

proof fn lemma_details_after(
    a: Seq<char>,
    b: Seq<char>,
    c: Seq<char>,
    d: Seq<char>,
    e: Seq<char>,
    f: Seq<char>,
    g: Seq<char>,
    h: Seq<char>,
)
    ensures
        a + b + c + d + e + f + g + h == a + (b + c + d + e + f + g + h),
{
    assert(a + b + c + d + e + f + g + h =~= a + (b + c + d + e + f + g + h));
}

/// The section of a server shows its name, its verdict and its details, and then, below
/// the head of the table, the phase, name, state and detail of each of its checks in
/// order.
#[verifier::rlimit(60)]
pub proof fn law_section_shows_server_verdict_and_evidence(row: RowView, j: int)
    ensures
        ({
            let shown = shown_after_tags(section_html(row));
            let head = 6 + shown_after_tags(TABLE_START@).len();
            &&& shown.len() == head + 10 * row.checks.len() + shown_after_tags(SECTION_END@).len()
            &&& shown[1] == row.server + " "@
            &&& shown[2] == model::verdict_of(row.checks).label()
            &&& shown[5] == "Equipo: "@ + row.computer + " · Ambiente: "@ + row.environment
                + " · Inicio: "@ + row.started + " · Fin: "@ + row.finished
            &&& 0 <= j < row.checks.len() ==> {
                &&& shown[head + 10 * j + 1] == row.checks[j].phase
                &&& shown[head + 10 * j + 3] == row.checks[j].name
                &&& shown[head + 10 * j + 5] == row.checks[j].state
                &&& shown[head + 10 * j + 7] == row.checks[j].detail
            }
        }),
{
    reveal_strlit(
        "</p><table><thead><tr><th>Fase</th><th>Comprobación</th><th>Estado</th><th>Evidencia</th></tr></thead><tbody>",
    );
    reveal_strlit("</tbody></table></section>");
    assert(TABLE_START@.len() > 0 && TABLE_START@.first() == '<');
    assert(SECTION_END@.len() > 0 && SECTION_END@.first() == '<');
    lemma_heading_is_shown(row);
    assert(section_start(row) == heading(row) + TABLE_START@);
    lemma_shown_of_both(heading(row), TABLE_START@);
    let top = section_start(row);
    if row.checks.len() == 0 {
        assert(checks_html(row.checks) =~= Seq::<char>::empty());
        assert(top + checks_html(row.checks) =~= top);
        assert(shown_after_tags(checks_html(row.checks)) =~= Seq::<Seq<char>>::empty());
    } else {
        lemma_checks_start_with_tag(row.checks);
        lemma_shown_of_both(top, checks_html(row.checks));
    }
    lemma_checks_are_shown(row.checks, j);
    lemma_shown_of_both(top + checks_html(row.checks), SECTION_END@);
}

proof fn lemma_checks_start_with_tag(checks: Seq<CheckView>)
    requires
        checks.len() > 0,
    ensures
        checks_html(checks).len() > 0,
        checks_html(checks).first() == '<',
    decreases checks.len(),
{
    lemma_check_starts_with_tag(checks.last());
    if checks.len() > 1 {
        lemma_checks_start_with_tag(checks.drop_last());
        assert(checks_html(checks)[0] == checks_html(checks.drop_last())[0]);
    } else {
        assert(checks.drop_last() =~= Seq::<CheckView>::empty());
        assert(checks_html(checks.drop_last()) =~= Seq::<char>::empty());
        assert(checks_html(checks)[0] == check_html(checks.last())[0]);
    }
}

/// A text is escaped by replacing five characters, the ampersand first.
pub proof fn law_html_replaces(s: &str, r: String)
    requires
        call_ensures(html, (s,), r),
    ensures
        r@ == text::replaced(
            text::replaced(
                text::replaced(
                    text::replaced(text::replaced(s@, '&', "&amp;"@), '<', "&lt;"@),
                    '>',
                    "&gt;"@,
                ),
                '"',
                "&quot;"@,
            ),
            '\'',
            "&#39;"@,
        ),
        html_shown(r@) == s@,
{
    law_escaping_replaces_five_characters(s@);
    law_escaped_text_is_shown_unchanged(s@);
}

/// A text becomes a field by an apostrophe where it would be a formula, doubled quotes, and
/// quotes around it.
pub proof fn law_csv_quotes(lead: Seq<char>, rest: Seq<char>, s: &str, r: String)
    requires
        text::all_white_space(lead),
        rest.len() > 0 ==> !text::is_white_space(rest.first()),
        s@ == lead + rest,
        call_ensures(csv, (s,), r),
    ensures
        rest.len() > 0 && (rest.first() == '=' || rest.first() == '+' || rest.first() == '-'
            || rest.first() == '@') ==> r@ == seq!['"'] + text::replaced(
            seq!['\''] + s@,
            '"',
            seq!['"', '"'],
        ) + seq!['"'],
        rest.len() == 0 || (rest.first() != '=' && rest.first() != '+' && rest.first() != '-'
            && rest.first() != '@') ==> r@ == seq!['"'] + text::replaced(s@, '"', seq!['"', '"'])
            + seq!['"'],
{
    law_apostrophe_before_formulas(lead, rest);
    law_field_doubles_quotes(s@);
}

/// Counting a verdict counts the rows with that very verdict.
pub proof fn law_rows_of_a_verdict_are_counted(rows: &[ResultRow], v: Verdict, n: usize)
    requires
        call_ensures(count_verdict, (rows, v), n),
    ensures
        n == model::rows_view(rows@).filter(|r: RowView| r.verdict() == v).len(),
        (forall|i: int| 0 <= i < rows@.len() ==> (#[trigger] rows@[i])@.verdict() == v) ==> n
            == rows@.len(),
        (forall|i: int| 0 <= i < rows@.len() ==> (#[trigger] rows@[i])@.verdict() != v) ==> n == 0,
{
    let all = model::rows_view(rows@);
    law_verdict_count_counts(all, all, v);
    assert(forall|i: int| 0 <= i < all.len() ==> #[trigger] all[i] == rows@[i]@);
}

/// The table that is written names, in the line of each check, the server of the check, the
/// verdict on that server, and the evidence.
#[verifier::rlimit(60)]
pub proof fn law_written_table_names_every_check(rows: &[ResultRow], i: int, j: int, r: String)
    requires
        0 <= i < rows@.len(),
        0 <= j < rows@[i].checks@.len(),
        call_ensures(csv_report, (rows,), r),
    ensures
        ({
            let lines = read_records(r@.skip(CSV_HEADER@.len() as int));
            let at = check_total(model::rows_view(rows@).take(i)) + j;
            let row = rows@[i];
            let check = row.checks@[j];
            &&& CSV_HEADER@.is_prefix_of(r@)
            &&& lines is Some
            &&& lines->0.len() == check_total(model::rows_view(rows@))
            &&& at < lines->0.len()
            &&& lines->0[at] == seq![
                without_formula(row.server@),
                without_formula(row.computer@),
                without_formula(row.environment@),
                row@.verdict().label(),
                without_formula(row.started@),
                without_formula(row.finished@),
                without_formula(check.phase@),
                without_formula(check.name@),
                without_formula(check.state@),
                without_formula(check.detail@),
            ]
            &&& lines->0[at][3] == "NO APTO"@ <==> exists|k: int|
                0 <= k < row@.checks.len() && (#[trigger] row@.checks[k]).state == "FAIL"@
        }),
{
    let all = model::rows_view(rows@);
    law_table_reads_back(all);
    law_table_has_no_other_lines(all);
    law_line_names_server_verdict_and_evidence(all, i, j);
    let at = check_total(all.take(i)) + j;
    let row = rows@[i];
    let check = row.checks@[j];
    let line = read_records(r@.skip(CSV_HEADER@.len() as int))->0[at];
    assert(all[i] == row@);
    assert(row@.checks[j] == check@);
    assert(line =~= seq![
        without_formula(row.server@),
        without_formula(row.computer@),
        without_formula(row.environment@),
        row@.verdict().label(),
        without_formula(row.started@),
        without_formula(row.finished@),
        without_formula(check.phase@),
        without_formula(check.name@),
        without_formula(check.state@),
        without_formula(check.detail@),
    ]);
}

/// The page that is written holds the counts of its verdicts, and a section for each
/// server, which shows the server, its verdict and its checks.
#[verifier::rlimit(60)]
pub proof fn law_written_page_shows_every_server(rows: &[ResultRow], i: int, j: int, r: String)
    requires
        0 <= i < rows@.len(),
        0 <= j < rows@[i].checks@.len(),
        call_ensures(html_report, (rows,), r),
    ensures
        text::is_substring(r@, section_html(rows@[i]@)),
        ({
            let shown = shown_after_tags(section_html(rows@[i]@));
            let head = 6 + shown_after_tags(TABLE_START@).len();
            let check = rows@[i].checks@[j];
            &&& shown[1] == rows@[i].server@ + " "@
            &&& shown[2] == rows@[i]@.verdict().label()
            &&& shown[head + 10 * j + 1] == check.phase@
            &&& shown[head + 10 * j + 3] == check.name@
            &&& shown[head + 10 * j + 5] == check.state@
            &&& shown[head + 10 * j + 7] == check.detail@
        }),
{
    let all = model::rows_view(rows@);
    law_page_holds_summary_and_sections(all, all, i);
    law_section_shows_server_verdict_and_evidence(rows@[i]@, j);
    assert(all[i] == rows@[i]@);
    assert(rows@[i]@.checks[j] == rows@[i].checks@[j]@);
}

/// A report consists of the table, the page and the rows as JSON, each under its own name
/// and first under that name with an ending of its own.
pub proof fn law_files_of_a_report(
    rows: &[ResultRow],
    json: Vec<u8>,
    files: Vec<ReportFile>,
    table: String,
    page: String,
)
    requires
        call_ensures(report_files, (rows, json), files),
        call_ensures(csv_report, (rows,), table),
        call_ensures(html_report, (rows,), page),
    ensures
        files@.len() == 3,
        files@[0].name@ == "resultado.csv"@,
        files@[1].name@ == "resultado.html"@,
        files@[2].name@ == "resultado.json"@,
        files@[0].bytes@ == encode_utf8(table@),
        files@[1].bytes@ == encode_utf8(page@),
        files@[2].bytes@ == json@,
        forall|k: int|
            0 <= k < 3 ==> (#[trigger] files@[k]).temporary@ == files@[k].name@ + ".tmp"@,
{
    assert forall|k: int| 0 <= k < 3 implies (#[trigger] files@[k]).temporary@ == files@[k].name@
        + ".tmp"@ by {
        assert(k == 0 || k == 1 || k == 2);
    }
}

} // verus!

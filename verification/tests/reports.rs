use connectdirect_precheck::launch::{open_input, open_outcome, open_result};
use connectdirect_precheck::model::{Check, Request, ResultRow, Verdict};
use connectdirect_precheck::report::{
    count_verdict, csv, csv_report, html, html_report, report_files, VERSION,
};

const HEADER: &str =
    "\u{feff}Servidor,Equipo,Ambiente,Veredicto,Inicio,Fin,Fase,Comprobacion,Estado,Detalle\r\n";

fn page(version: &str, summary: &str, body: &str) -> String {
    format!(
        r#"<!doctype html><html lang="es"><meta charset="utf-8"><meta name="viewport" content="width=device-width,initial-scale=1"><title>Connect:Direct · Precheck</title><style>body{{font:15px system-ui;background:#f3f6fa;color:#19334b;margin:32px}}section{{background:white;padding:20px;border-radius:12px;margin:20px 0}}table{{width:100%;border-collapse:collapse}}td,th{{text-align:left;padding:10px;border-bottom:1px solid #dae3ec;vertical-align:top;overflow-wrap:anywhere}}td:last-child{{width:58%}}span{{font-size:14px}}.ok{{color:#19774f}}.fail{{color:#b42d35}}.warn{{color:#906012}}input{{padding:10px;width:300px}}@media print{{input{{display:none}}body{{margin:0}}}}</style><h1>Connect:Direct / Precheck</h1><p>Solo lectura · Versión {}</p><p>{}</p><p>CON OBSERVACIONES requiere revisión. INCOMPLETO no autoriza parchado. NO APTO puede incluir errores adicionales de consulta. Los requisitos del fix IBM y los permisos efectivos se revisan manualmente.</p><input aria-label="Buscar" placeholder="Buscar servidor, estado o comprobación" oninput="document.querySelectorAll('section').forEach(s=>s.hidden=!s.textContent.toLowerCase().includes(this.value.toLowerCase()))">{}</html>"#,
        version, summary, body
    )
}

fn sample() -> ResultRow {
    ResultRow {
        server: "srv<1>".into(),
        computer: "PC \"1\"".into(),
        environment: "DESA".into(),
        started: "ayer".into(),
        finished: "hoy".into(),
        checks: vec![
            Check {
                phase: "Disco".into(),
                name: "C:".into(),
                state: "OK".into(),
                detail: "10 > 5 & más".into(),
            },
            Check {
                phase: "Fix".into(),
                name: "@version".into(),
                state: "WARN".into(),
                detail: "-1,\r\n\"x\"".into(),
            },
        ],
    }
}

#[test]
fn escapes_reports_and_replaces_snapshots() {
    assert_eq!(csv("=1+1"), "\"'=1+1\"");
    assert_eq!(html("<script>"), "&lt;script&gt;");
    let first = report_files(&[], b"[]".to_vec());
    let second = report_files(&[], b"[]".to_vec());
    for files in [first, second] {
        let names: Vec<&str> = files.iter().map(|f| f.name.as_str()).collect();
        assert_eq!(names, vec!["resultado.csv", "resultado.html", "resultado.json"]);
        assert!(String::from_utf8(files[1].bytes.clone()).unwrap().contains("Precheck"));
    }
}

#[test]
fn html_escapes_once() {
    assert_eq!(html("&<>\"'"), "&amp;&lt;&gt;&quot;&#39;");
    assert_eq!(html("&lt;"), "&amp;lt;");
    assert_eq!(html("señal · 1"), "señal · 1");
    assert_eq!(html(""), "");
}

#[test]
fn escaped_html_shows_the_text() {
    let s = "a && <b a='1' c=\"2\"> &amp; &#39;";
    let shown = html(s)
        .replace("&lt;", "<")
        .replace("&gt;", ">")
        .replace("&quot;", "\"")
        .replace("&#39;", "'")
        .replace("&amp;", "&");
    assert_eq!(shown, s);
    for c in ['<', '>', '"', '\''] {
        assert!(!html(s).contains(c));
    }
}

#[test]
fn csv_quotes_and_disarms_formulas() {
    assert_eq!(csv("abc"), "\"abc\"");
    assert_eq!(csv(""), "\"\"");
    assert_eq!(csv("a\"b"), "\"a\"\"b\"");
    assert_eq!(csv(" \t+1"), "\"' \t+1\"");
    assert_eq!(csv("\u{3000}@x"), "\"'\u{3000}@x\"");
    assert_eq!(csv("-\"1\""), "\"'-\"\"1\"\"\"");
    assert_eq!(csv("a=1"), "\"a=1\"");
    assert_eq!(csv("'=1"), "\"'=1\"");
    assert_eq!(csv("   "), "\"   \"");
}

#[test]
fn csv_table_of_a_batch() {
    assert_eq!(csv_report(&[]), HEADER);
    let line1 = "\"srv<1>\",\"PC \"\"1\"\"\",\"DESA\",\"CON OBSERVACIONES\",\"ayer\",\"hoy\",\"Disco\",\"C:\",\"OK\",\"10 > 5 & más\"\r\n";
    let line2 = "\"srv<1>\",\"PC \"\"1\"\"\",\"DESA\",\"CON OBSERVACIONES\",\"ayer\",\"hoy\",\"Fix\",\"'@version\",\"WARN\",\"'-1,\r\n\"\"x\"\"\"\r\n";
    assert_eq!(csv_report(&[sample()]), format!("{HEADER}{line1}{line2}"));
    let mut empty = sample();
    empty.checks.clear();
    assert_eq!(
        csv_report(&[empty, sample(), sample()]),
        format!("{HEADER}{line1}{line2}{line1}{line2}")
    );
}

/// A reader of quoted CSV fields.
fn read(table: &str) -> Vec<Vec<String>> {
    let mut records = Vec::new();
    let mut record = Vec::new();
    let mut chars = table.chars().peekable();
    while let Some(c) = chars.next() {
        match c {
            '"' => {
                let mut field = String::new();
                loop {
                    match chars.next() {
                        Some('"') => {
                            if chars.peek() == Some(&'"') {
                                chars.next();
                                field.push('"');
                            } else {
                                break;
                            }
                        }
                        Some(c) => field.push(c),
                        None => panic!("open field"),
                    }
                }
                record.push(field);
            }
            ',' => {}
            '\r' => {
                assert_eq!(chars.next(), Some('\n'));
                records.push(record);
                record = Vec::new();
            }
            _ => panic!("{c}"),
        }
    }
    records
}

#[test]
fn csv_table_reads_back() {
    let table = csv_report(&[sample(), sample()]);
    let records = read(&table[HEADER.len()..]);
    assert_eq!(records.len(), 4);
    for r in &records {
        assert_eq!(r.len(), 10);
        for field in r {
            assert!(!field.trim_start().starts_with(['=', '+', '-', '@']));
        }
    }
    assert_eq!(records[0][0], "srv<1>");
    assert_eq!(records[0][1], "PC \"1\"");
    assert_eq!(records[3][7], "'@version");
    assert_eq!(records[3][9], "'-1,\r\n\"x\"");
}

#[test]
fn html_page_of_a_batch() {
    assert_eq!(VERSION, "0.2.0");
    let none = "<b>0</b> APTO &nbsp; | &nbsp; <b>0</b> CON OBSERVACIONES &nbsp; | &nbsp; <b>0</b> NO APTO &nbsp; | &nbsp; <b>0</b> INCOMPLETO";
    assert_eq!(html_report(&[]), page("0.2.0", none, ""));
    let head = "<table><thead><tr><th>Fase</th><th>Comprobación</th><th>Estado</th><th>Evidencia</th></tr></thead><tbody>";
    let section = format!("<section><h2>srv&lt;1&gt; <span class='warn'>CON OBSERVACIONES</span></h2><p>Equipo: PC &quot;1&quot; · Ambiente: DESA · Inicio: ayer · Fin: hoy</p>{head}<tr><td>Disco</td><td>C:</td><td>OK</td><td>10 &gt; 5 &amp; más</td></tr><tr><td>Fix</td><td>@version</td><td>WARN</td><td>-1,\r\n&quot;x&quot;</td></tr></tbody></table></section>");
    let mut fit = sample();
    fit.checks.clear();
    let mut unfit = fit.clone();
    fit.checks.push(Check { phase: "f".into(), name: "n".into(), state: "OK".into(), detail: "d".into() });
    unfit.checks.push(Check { phase: "f".into(), name: "n".into(), state: "FAIL".into(), detail: "d".into() });
    let small = |class: &str, status: &str, state: &str| format!("<section><h2>srv&lt;1&gt; <span class='{class}'>{status}</span></h2><p>Equipo: PC &quot;1&quot; · Ambiente: DESA · Inicio: ayer · Fin: hoy</p>{head}<tr><td>f</td><td>n</td><td>{state}</td><td>d</td></tr></tbody></table></section>");
    let body = format!("{section}{}{}", small("ok", "APTO", "OK"), small("fail", "NO APTO", "FAIL"));
    let summary = "<b>1</b> APTO &nbsp; | &nbsp; <b>1</b> CON OBSERVACIONES &nbsp; | &nbsp; <b>1</b> NO APTO &nbsp; | &nbsp; <b>0</b> INCOMPLETO";
    assert_eq!(html_report(&[sample(), fit, unfit]), page("0.2.0", summary, &body));
}

#[test]
fn verdict_counts_add_up() {
    let rows = vec![
        sample(),
        ResultRow::error(&Request::initial(String::new()), "x".into(), "ERROR"),
        ResultRow::error(&Request::initial(String::new()), "x".into(), "FAIL"),
        ResultRow::error(&Request::initial(String::new()), "x".into(), "OK"),
        ResultRow::error(&Request::initial(String::new()), "x".into(), "OK"),
    ];
    assert_eq!(count_verdict(&rows, Verdict::Fit), 2);
    assert_eq!(count_verdict(&rows, Verdict::Observations), 1);
    assert_eq!(count_verdict(&rows, Verdict::Unfit), 1);
    assert_eq!(count_verdict(&rows, Verdict::Incomplete), 1);
}

#[test]
fn files_of_a_report() {
    let files = report_files(&[sample()], b"{}".to_vec());
    assert_eq!(files.len(), 3);
    assert_eq!(files[0].temporary, "resultado.csv.tmp");
    assert_eq!(files[0].bytes, csv_report(&[sample()]).into_bytes());
    assert_eq!(&files[0].bytes[..3], &[0xef, 0xbb, 0xbf]);
    assert_eq!(files[1].temporary, "resultado.html.tmp");
    assert_eq!(files[1].bytes, html_report(&[sample()]).into_bytes());
    assert_eq!(files[2].temporary, "resultado.json.tmp");
    assert_eq!(files[2].bytes, b"{}");
}

#[test]
fn paths_are_handed_over_as_json() {
    assert_eq!(open_input("C:\\Reportes\\1"), "\"C:\\\\Reportes\\\\1\"");
    assert_eq!(
        open_input("a\"\u{8}\t\n\u{c}\r\u{1}\u{1f}\u{7f}ñ/"),
        "\"a\\\"\\b\\t\\n\\f\\r\\u0001\\u001f\u{7f}ñ/\""
    );
    for s in ["", "C:\\a b\\ñ\u{1b}\"", "\u{0}\u{b}\u{e}"] {
        let back: String = serde_json::from_str(&open_input(s)).unwrap();
        assert_eq!(back, s);
    }
}

#[test]
fn outcome_of_opening() {
    assert!(open_outcome(true, "x").is_ok());
    assert_eq!(open_outcome(false, "x").unwrap_err(), "x");
    assert!(open_result(true, b"x").is_ok());
    assert_eq!(open_result(false, &[0xc3, 0xb3, 0x80]).unwrap_err(), "ó\u{fffd}");
}

#[test]
fn a_report_replaces_the_one_before() {
    let write = |folder: &mut std::collections::BTreeMap<String, Vec<u8>>, rows: &[ResultRow], json: &[u8]| {
        for f in report_files(rows, json.to_vec()) {
            folder.insert(f.temporary.clone(), f.bytes);
            let bytes = folder.remove(&f.temporary).unwrap();
            folder.insert(f.name, bytes);
        }
    };
    let mut once = std::collections::BTreeMap::new();
    once.insert("configuracion.json".to_string(), b"x".to_vec());
    let mut twice = once.clone();
    write(&mut once, &[], b"[]");
    write(&mut twice, &[sample()], b"[1]");
    write(&mut twice, &[], b"[]");
    assert_eq!(once, twice);
    assert_eq!(once.len(), 4);
}

#[test]
fn a_report_that_is_cut_off_keeps_whole_files() {
    let old: Vec<(String, Vec<u8>)> = report_files(&[], b"[]".to_vec())
        .into_iter()
        .map(|f| (f.name, f.bytes))
        .collect();
    for k in 0usize..3 {
        let mut folder: std::collections::BTreeMap<String, Vec<u8>> = old.iter().cloned().collect();
        let new = report_files(&[sample()], b"[1]".to_vec());
        for f in &new[..k] {
            folder.insert(f.name.clone(), f.bytes.clone());
        }
        folder.insert(new[k].temporary.clone(), new[k].bytes[..1].to_vec());
        for j in 0usize..3 {
            let want = if j < k { &new[j].bytes } else { &old[j].1 };
            assert_eq!(&folder[&new[j].name], want);
        }
    }
}

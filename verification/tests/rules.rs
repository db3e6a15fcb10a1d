use connectdirect_precheck::model::{Check, Request, ResultRow, Verdict};
use connectdirect_precheck::ports::read_ports;
use connectdirect_precheck::query::{
    accept, accept_response, collect, end_result, poll, result_row, ChildState, Pipe, QueryEnd, Step,
};
use connectdirect_precheck::servers::{ipv4, servers};
use connectdirect_precheck::text;

fn request() -> Request {
    Request::initial(String::new())
}

fn check(state: &str) -> Check {
    Check {
        phase: "x".into(),
        name: "x".into(),
        state: state.into(),
        detail: String::new(),
    }
}

fn row(states: &[&str]) -> ResultRow {
    let mut r = ResultRow::error(&request(), String::new(), "ERROR");
    r.checks.clear();
    for s in states {
        r.checks.push(check(s));
    }
    r
}

fn reason(step: Step) -> String {
    match step {
        Step::End(QueryEnd::Stopped { reason }) => reason,
        _ => panic!("the query goes on"),
    }
}

#[test]
fn timeout_stops_the_collector_without_a_result() {
    let end = match poll(ChildState::Running, false, 0, 0) {
        Step::End(end) => end,
        Step::Wait => panic!("the query goes on"),
    };
    let error = match collect(end, Pipe::Read(Vec::new()), Pipe::Read(Vec::new())) {
        Ok(_) => panic!("a stopped query has a result"),
        Err(e) => e,
    };
    assert!(error.contains("Tiempo maximo"), "{error}");
    assert_eq!(error, "Tiempo maximo de 0s agotado; validacion incompleta");
    let row = result_row(&request(), Err(error));
    assert_eq!(row.status(), "INCOMPLETO");
}

#[test]
fn rejects_injection_deduplicates_and_never_passes_missing_evidence() {
    assert_eq!(servers("SRV01 srv01\nsrv02.example.com").unwrap().len(), 2);
    for bad in ["", "srv;whoami", "-srv", "srv..com", "10.0.0.1", "srv_1"] {
        assert!(servers(bad).is_err(), "{bad}");
    }
    let mut row = ResultRow::error(&Request::initial(String::new()), "test".into(), "ERROR");
    assert_eq!(row.status(), "INCOMPLETO");
    row.checks.clear();
    assert_eq!(row.status(), "INCOMPLETO");
    row.checks.push(Check {
        phase: "x".into(),
        name: "x".into(),
        state: "FAIL".into(),
        detail: String::new(),
    });
    assert_eq!(row.status(), "NO APTO");
    row.checks[0].state = "WARN".into();
    assert_eq!(row.status(), "CON OBSERVACIONES");
    row.checks[0].state = "OK".into();
    assert_eq!(row.status(), "APTO");
}

#[test]
fn a_known_failure_outweighs_missing_evidence() {
    assert_eq!(row(&["ERROR", "OK", "FAIL"]).status(), "NO APTO");
    assert_eq!(row(&["WARN", "ERROR"]).status(), "INCOMPLETO");
    assert_eq!(row(&["OK", "INFO", "WARN"]).status(), "CON OBSERVACIONES");
    assert_eq!(row(&["OK", "INFO"]).status(), "APTO");
    assert_eq!(row(&["ok"]).status(), "INCOMPLETO");
    assert_eq!(row(&["OK", "INFO"]).verdict(), Verdict::Fit);
}

#[test]
fn the_order_of_checks_does_not_matter() {
    assert_eq!(row(&["WARN", "OK"]).status(), row(&["OK", "WARN", "OK"]).status());
}

#[test]
fn one_more_check_never_helps() {
    assert_eq!(row(&["WARN"]).status(), "CON OBSERVACIONES");
    assert_eq!(row(&["WARN", "OK"]).status(), "CON OBSERVACIONES");
    assert_eq!(row(&["WARN", "OK", "PENDIENTE"]).status(), "INCOMPLETO");
    assert_eq!(row(&["WARN", "OK", "PENDIENTE", "FAIL"]).status(), "NO APTO");
}

#[test]
fn checks_together_have_the_worse_verdict() {
    assert_eq!(row(&["WARN", "OK", "INFO"]).status(), row(&["WARN"]).status());
    assert_eq!(row(&["ERROR", "WARN"]).status(), row(&["ERROR"]).status());
    assert_eq!(row(&["OK", "FAIL", "ERROR"]).status(), row(&["FAIL"]).status());
}

#[test]
fn verdict_names() {
    assert_eq!(Verdict::Fit.name(), "APTO");
    assert_eq!(Verdict::Observations.name(), "CON OBSERVACIONES");
    assert_eq!(Verdict::Unfit.name(), "NO APTO");
    assert_eq!(Verdict::Incomplete.name(), "INCOMPLETO");
}

#[test]
fn counts_of_states() {
    let r = row(&["OK", "WARN", "OK", "ERROR"]);
    assert_eq!(r.count("OK"), 2);
    assert_eq!(r.count("WARN"), 1);
    assert_eq!(r.count("FAIL"), 0);
    assert_eq!(r.count("ERROR"), 1);
}

#[test]
fn error_row_holds_the_reason() {
    let mut req = request();
    req.server = "srv".into();
    req.environment = "PROD".into();
    let r = ResultRow::error(&req, "motivo".into(), "ERROR");
    assert_eq!(r.server, "srv");
    assert_eq!(r.environment, "PROD");
    assert_eq!(r.computer, "");
    assert_eq!(r.started, "");
    assert_eq!(r.finished, "");
    assert_eq!(r.checks.len(), 1);
    assert_eq!(r.checks[0].phase, "Ejecucion");
    assert_eq!(r.checks[0].name, "Consulta");
    assert_eq!(r.checks[0].state, "ERROR");
    assert_eq!(r.checks[0].detail, "motivo");
}

#[test]
fn initial_request() {
    let r = Request::initial("C:\\app".into());
    assert_eq!(r.server, "localhost");
    assert!(r.local);
    assert_eq!(r.environment, "DESA");
    assert_eq!(r.app_folder, "C:\\app");
    assert_eq!(
        (r.min_system_gb, r.min_install_gb, r.min_temp_gb, r.backup_margin_gb),
        (10, 5, 3, 2)
    );
    assert_eq!(r.ports, vec![1363, 1364, 1365]);
    let copy = r.clone();
    assert_eq!(copy.app_folder, "C:\\app");
    assert_eq!(copy.ports, vec![1363, 1364, 1365]);
}

#[test]
fn servers_keep_order_and_first_spelling() {
    assert_eq!(
        servers("  b.Local\tA\u{a0}B.LOCAL\r\n a c-1 ").unwrap(),
        vec!["b.Local", "A", "c-1"]
    );
}

#[test]
fn accepted_servers_read_back() {
    let names = servers("Srv02 srv01.example.com SRV02").unwrap();
    assert_eq!(servers(&names.join(" ")).unwrap(), names);
    assert_eq!(servers(&format!("\t{}\n", names.join(" \r\n\u{a0}"))).unwrap(), names);
    assert_eq!(
        servers(&format!("{} sRv02 SRV01.EXAMPLE.COM", names.join("\n"))).unwrap(),
        names
    );
}

#[test]
fn further_spellings_change_nothing() {
    assert_eq!(servers("a B A c").unwrap(), servers("a B c").unwrap());
    assert_eq!(servers("a A x_y").unwrap_err(), servers("a x_y").unwrap_err());
    assert_eq!(servers("Srv-1.Local").is_ok(), servers("sRV-1.lOCAL").is_ok());
}

#[test]
fn servers_say_what_is_wrong() {
    assert_eq!(servers(" \n\t").unwrap_err(), "Ingresa al menos un servidor.");
    assert_eq!(
        servers("ok bad_1 also;bad").unwrap_err(),
        "Servidor invalido: bad_1. Usa nombres DNS, no IP (autenticacion Kerberos)."
    );
}

#[test]
fn limits_of_server_names() {
    let label = "a".repeat(63);
    assert!(servers(&label).is_ok());
    assert!(servers(&"a".repeat(64)).is_err());
    let name = format!("{label}.{label}.{label}.{}", "a".repeat(61));
    assert_eq!(name.len(), 253);
    assert!(servers(&name).is_ok());
    assert!(servers(&format!("{name}a")).is_err());
    for bad in [
        "srv-", "a.-b", "a.b-", ".a", "a.", "ñandu", "fe80::1", "::1", "a/b", "a b$", "0.0.0.0",
        "255.255.255.255",
    ] {
        assert!(servers(bad).is_err(), "{bad}");
    }
    for good in ["1", "1.2.3", "1.2.3.4.5", "256.1.1.1", "01.2.3.4", "1.2.3.x", "a--b", "1.2.3.0000"] {
        assert!(servers(good).is_ok(), "{good}");
    }
}

#[test]
fn addresses() {
    for (s, want) in [
        ("10.0.0.1", true),
        ("0.0.0.0", true),
        ("255.255.255.255", true),
        ("256.0.0.1", false),
        ("1.2.3", false),
        ("1.2.3.4.5", false),
        ("01.2.3.4", false),
        ("1.2.3.", false),
        ("1.2.3.0004", false),
        ("", false),
    ] {
        assert_eq!(ipv4(&text::chars_of(s)), want, "{s}");
    }
}

#[test]
fn ports_are_read() {
    assert_eq!(read_ports("1363,1364,1365").unwrap(), vec![1363, 1364, 1365]);
    assert_eq!(read_ports(" 1 ,\t+80, 00443,65535\n").unwrap(), vec![1, 80, 443, 65535]);
}

#[test]
fn ports_say_what_is_wrong() {
    let invalid = "Puertos invalidos: usa numeros separados por comas";
    for bad in ["", "1,", "a", "-1", "65536", "1;2", "+", "++1", "1 2", "0,x", "99999999999999999999999"] {
        assert_eq!(read_ports(bad).unwrap_err(), invalid, "{bad}");
    }
    let range = "Los puertos deben estar entre 1 y 65535";
    for bad in ["0", "1,0,2", "+0", "000"] {
        assert_eq!(read_ports(bad).unwrap_err(), range, "{bad}");
    }
}

#[test]
fn written_ports_read_back() {
    let list: Vec<u16> = vec![1, 10, 9999, 65535];
    let written: Vec<String> = list.iter().map(|p| text::decimal_text(*p as u64)).collect();
    assert_eq!(written.join(","), "1,10,9999,65535");
    assert_eq!(read_ports(&written.join(",")).unwrap(), list);
}

#[test]
fn white_space_is_that_of_unicode() {
    for n in 0u32..=0x10ffff {
        if let Some(c) = char::from_u32(n) {
            assert_eq!(text::white_space(c), c.is_whitespace(), "{n:x}");
        }
    }
}

#[test]
fn splitting_and_trimming() {
    let cs = text::chars_of(" a,,b ");
    let parts: Vec<String> = text::split(&cs, &text::CharClass::Only(','))
        .iter()
        .map(|p| text::string_of(p))
        .collect();
    assert_eq!(parts, vec![" a", "", "b "]);
    assert_eq!(parts.join(","), " a,,b ");
    assert_eq!(text::string_of(text::trim(&cs)), "a,,b");
    assert_eq!(text::trim(&text::chars_of(" \t ")).len(), 0);
    assert!(text::eq_ignoring_case("SrV", "sRv"));
    assert!(!text::eq_ignoring_case("Ñ", "ñ"));
    assert!(!text::eq_ignoring_case("a", "ab"));
    assert_eq!(text::decimal_text(0), "0");
    assert_eq!(text::decimal_text(u64::MAX), u64::MAX.to_string());
    assert!(text::contains("abcab", "cab"));
    assert!(text::contains("abc", ""));
    assert!(!text::contains("ab", "abc"));
    assert!(!text::contains("aab", "aaa"));
    assert_eq!(text::read_digits(&text::chars_of("255"), 255), Some(255));
    assert_eq!(text::read_digits(&text::chars_of("256"), 255), None);
}

#[test]
fn a_query_is_watched() {
    assert!(matches!(poll(ChildState::Running, false, 179, 180), Step::Wait));
    assert_eq!(
        reason(poll(ChildState::Running, false, 180, 180)),
        "Tiempo maximo de 180s agotado; validacion incompleta"
    );
    assert_eq!(reason(poll(ChildState::Running, true, 0, 180)), "Consulta cancelada");
    assert_eq!(reason(poll(ChildState::Running, true, 999, 180)), "Consulta cancelada");
    assert_eq!(
        reason(poll(ChildState::Lost { reason: "e".into() }, true, 0, 180)),
        "e"
    );
    assert!(matches!(
        poll(ChildState::Exited { success: true }, true, 999, 180),
        Step::End(QueryEnd::Exited { success: true })
    ));
    assert!(matches!(
        poll(ChildState::Exited { success: false }, false, 0, 180),
        Step::End(QueryEnd::Exited { success: false })
    ));
}

fn failure(end: QueryEnd, output: Pipe, errors: Pipe) -> String {
    match collect(end, output, errors) {
        Ok(_) => panic!("a failed query has a response"),
        Err(e) => e,
    }
}

#[test]
fn outputs_are_collected() {
    let well = || QueryEnd::Exited { success: true };
    let badly = || QueryEnd::Exited { success: false };
    let stopped = || QueryEnd::Stopped { reason: "alto".into() };
    let bytes = |s: &str| Pipe::Read(s.as_bytes().to_vec());
    assert_eq!(failure(stopped(), Pipe::Lost, Pipe::Lost), "Fallo leyendo salida");
    assert_eq!(failure(stopped(), Pipe::Failed("x".into()), Pipe::Lost), "x");
    assert_eq!(failure(stopped(), bytes(""), Pipe::Lost), "Fallo leyendo errores");
    assert_eq!(failure(well(), bytes(""), Pipe::Failed("y".into())), "y");
    assert_eq!(failure(stopped(), bytes("a"), bytes("b")), "alto");
    assert_eq!(failure(badly(), bytes("a"), bytes("malo")), "PowerShell fallo: malo");
    assert_eq!(
        failure(badly(), bytes("a"), Pipe::Read(vec![b'm', 0xff, b'l'])),
        "PowerShell fallo: m\u{fffd}l"
    );
    let r = match collect(well(), bytes("a"), bytes("b")) {
        Ok(r) => r,
        Err(e) => panic!("{e}"),
    };
    assert_eq!(r.output, b"a");
    assert_eq!(r.errors, b"b");
    assert_eq!(end_result(badly(), "z").unwrap_err(), "PowerShell fallo: z");
    assert!(end_result(well(), "z").is_ok());
    assert_eq!(end_result(stopped(), "z").unwrap_err(), "alto");
}

#[test]
fn only_the_answer_of_the_request_is_accepted() {
    let req = request();
    let mismatch = "La respuesta no coincide con el servidor/ambiente solicitado";
    let good = row(&["OK"]);
    assert_eq!(accept(&req, Ok(good.clone()), "").unwrap().status(), "APTO");
    let mut other = good.clone();
    other.server = "LOCALHOST".into();
    assert_eq!(accept(&req, Ok(other), "").unwrap_err(), mismatch);
    let mut other = good.clone();
    other.environment = "PROD".into();
    assert_eq!(accept(&req, Ok(other), "").unwrap_err(), mismatch);
    assert_eq!(
        accept(&req, Err("EOF".into()), "err").unwrap_err(),
        "Respuesta no valida: EOF; err"
    );
    assert_eq!(
        accept_response(&req, Err("EOF".into()), &[0xc3, 0xb1, 0xff]).unwrap_err(),
        "Respuesta no valida: EOF; ñ\u{fffd}"
    );
    assert_eq!(accept_response(&req, Ok(good), b"aviso").unwrap().checks.len(), 1);
}

#[test]
fn a_query_without_a_result_is_incomplete() {
    let r = result_row(&request(), Err("alto".into()));
    assert_eq!(r.status(), "INCOMPLETO");
    assert_eq!(r.server, "localhost");
    assert_eq!(r.checks[0].state, "ERROR");
    assert_eq!(r.checks[0].detail, "alto");
    assert_eq!(result_row(&request(), Ok(row(&["WARN"]))).status(), "CON OBSERVACIONES");
}

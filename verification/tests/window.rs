use connectdirect_precheck::app::{
    check_title, counts_label, detail_heading, detail_line, folder_error, found, status_color, App,
};
use connectdirect_precheck::batch::{AfterSave, Batch, Event};
use connectdirect_precheck::turns::Turns;
use connectdirect_precheck::model::{Check, Request, ResultRow, Verdict};

fn request(server: &str) -> Request {
    let mut r = Request::initial(String::new());
    r.server = server.into();
    r
}

fn result(server: &str, state: &str) -> ResultRow {
    ResultRow::error(&request(server), "d".into(), state)
}

fn batch(servers: &[&str]) -> Batch {
    Batch::new(servers.iter().map(|s| request(s)).collect())
}

fn states(b: &Batch) -> Vec<String> {
    b.snapshot().iter().map(|r| format!("{}:{}", r.server, r.checks[0].state)).collect()
}

fn row_of(e: Event) -> ResultRow {
    match e {
        Event::Row(r) => r,
        _ => panic!("no row"),
    }
}

fn error_of(e: Event) -> String {
    match e {
        Event::Error(e) => e,
        _ => panic!("no error"),
    }
}

#[test]
fn a_fresh_batch_waits() {
    let b = batch(&["a", "b"]);
    assert_eq!(states(&b), vec!["a:PENDIENTE", "b:PENDIENTE"]);
    assert_eq!(b.snapshot()[0].checks[0].detail, "En cola; todavia no validado");
    for r in b.snapshot() {
        assert_eq!(r.status(), "INCOMPLETO");
    }
    assert_eq!(b.requests().len(), 2);
    assert_eq!(b.requests()[1].server, "b");
}

#[test]
fn workers_are_no_more_than_requests() {
    let b = batch(&["a", "b", "c"]);
    assert_eq!(b.workers(4), 3);
    assert_eq!(b.workers(3), 3);
    assert_eq!(b.workers(1), 1);
    assert_eq!(batch(&[]).workers(4), 0);
}

#[test]
fn a_stopped_batch_has_a_row_for_each_server() {
    let mut b = batch(&["a", "b", "c"]);
    let told = row_of(b.record(1, result("b", "OK")));
    assert_eq!(told.status(), "APTO");
    assert_eq!(states(&b), vec!["a:PENDIENTE", "b:OK", "c:PENDIENTE"]);
    let closing: Vec<ResultRow> = b.close().into_iter().map(row_of).collect();
    assert_eq!(closing.len(), 2);
    assert_eq!(closing[0].server, "a");
    assert_eq!(closing[1].server, "c");
    assert_eq!(closing[0].checks[0].detail, "No iniciado: lote detenido");
    assert_eq!(states(&b), vec!["a:CANCELADO", "b:OK", "c:CANCELADO"]);
    assert_eq!(b.snapshot()[0].status(), "INCOMPLETO");
    assert_eq!(b.snapshot()[1].status(), "APTO");
}

#[test]
fn a_whole_batch_adds_nothing_when_closed() {
    let mut b = batch(&["a", "b"]);
    b.record(1, result("b", "FAIL"));
    b.record(0, result("a", "OK"));
    assert_eq!(b.close().len(), 0);
    assert_eq!(states(&b), vec!["a:OK", "b:FAIL"]);
    for (req, row) in b.requests().iter().zip(b.snapshot()) {
        assert_eq!(req.server, row.server);
    }
}

#[test]
fn a_batch_that_cannot_be_saved_stops() {
    let mut b = batch(&["a"]);
    assert!(matches!(b.after_save(Ok(())), AfterSave::Continue));
    let end = b.finish(Ok(()));
    assert!(matches!(end[0], Event::Saved));
    assert!(matches!(end[1], Event::Done));
    assert_eq!(end.len(), 2);
    match b.after_save(Err("lleno".into())) {
        AfterSave::Stop(e) => {
            assert_eq!(error_of(e), "Error guardando reportes: lleno. Lote detenido.")
        }
        AfterSave::Continue => panic!("the batch goes on"),
    }
    assert!(matches!(b.after_save(Ok(())), AfterSave::Continue));
    let end = b.finish(Ok(()));
    assert!(matches!(end[0], Event::Done));
    assert_eq!(end.len(), 1);
    let mut end = b.finish(Err("lleno".into()));
    assert_eq!(end.len(), 2);
    assert!(matches!(end[1], Event::Done));
    assert_eq!(
        error_of(end.remove(0)),
        "No se pudo guardar el reporte final: lleno"
    );
    assert_eq!(
        error_of(Batch::worker_failed()),
        "Un trabajador fallo; revisar servidores incompletos"
    );
}

#[test]
fn a_fresh_window() {
    let a = App::initial("dir".into());
    assert_eq!(a.request.app_folder, "dir");
    assert_eq!(a.servers, "");
    assert_eq!(a.ports, "1363,1364,1365");
    assert_eq!((a.parallel, a.timeout), (4, 180));
    assert!(a.rows.is_empty() && !a.running && a.output.is_none() && a.selected.is_none());
    assert_eq!(
        a.message,
        "Selecciona el ambiente y los servidores. El precheck detecta las rutas automáticamente."
    );
    assert_eq!((a.filter.as_str(), a.total), ("", 0));
}

#[test]
fn a_local_batch() {
    let mut a = App::initial(String::new());
    a.servers = "not;read".into();
    a.ports = "80, 81".into();
    let b = a.prepare().ok().unwrap();
    assert_eq!(b.requests().len(), 1);
    assert_eq!(b.requests()[0].server, "localhost");
    assert_eq!(b.requests()[0].ports, vec![80, 81]);
    assert_eq!(a.request.ports, vec![80, 81]);
}

#[test]
fn a_batch_of_a_list() {
    let mut a = App::initial("dir".into());
    a.request.local = false;
    a.request.environment = "CERT".into();
    a.request.min_temp_gb = 7;
    a.servers = "uno dos UNO tres".into();
    let b = a.prepare().ok().unwrap();
    let names: Vec<&str> = b.requests().iter().map(|r| r.server.as_str()).collect();
    assert_eq!(names, vec!["uno", "dos", "tres"]);
    for r in b.requests() {
        assert!(!r.local);
        assert_eq!(r.environment, "CERT");
        assert_eq!(r.app_folder, "dir");
        assert_eq!(r.min_temp_gb, 7);
        assert_eq!(r.ports, vec![1363, 1364, 1365]);
    }
}

#[test]
fn nothing_changes_when_a_batch_cannot_start() {
    let mut a = App::initial(String::new());
    a.request.local = false;
    a.ports = "x".into();
    assert_eq!(a.prepare().err().unwrap(), "Ingresa al menos un servidor.");
    a.servers = "10.0.0.1".into();
    assert!(a.prepare().err().unwrap().starts_with("Servidor invalido: 10.0.0.1."));
    a.servers = "srv".into();
    assert_eq!(
        a.prepare().err().unwrap(),
        "Puertos invalidos: usa numeros separados por comas"
    );
    a.ports = "0".into();
    assert_eq!(a.prepare().err().unwrap(), "Los puertos deben estar entre 1 y 65535");
    assert_eq!(a.request.ports, vec![1363, 1364, 1365]);
}

#[test]
fn the_window_follows_its_batch() {
    let mut a = App::initial(String::new());
    a.request.local = false;
    a.servers = "a b c".into();
    a.selected = Some(0);
    a.rows.push(result("old", "OK"));
    assert!(a.output_label().is_none());
    assert_eq!(folder_error("lleno"), "No se pueden crear reportes: lleno");
    let mut b = a.prepare().ok().unwrap();
    a.begin("carpeta".into(), &b);
    assert_eq!(a.total, 3);
    assert!(a.running && a.rows.is_empty() && a.selected.is_none());
    assert_eq!(a.message, "Validando...");
    assert_eq!(a.output.as_deref(), Some("carpeta"));
    assert_eq!(a.output_label().unwrap(), "Reportes: carpeta");
    assert_eq!(a.progress_label(), "0 / 3 servidores");
    let e = b.record(2, result("c", "OK"));
    a.apply(e);
    assert_eq!(a.progress_label(), "1 / 3 servidores");
    for e in b.close() {
        a.apply(e);
    }
    assert_eq!(a.progress_label(), "3 / 3 servidores");
    assert_eq!(a.verdict_label(Verdict::Incomplete), "2  INCOMPLETO");
    assert_eq!(a.verdict_label(Verdict::Fit), "1  APTO");
    a.apply(Event::Error("algo".into()));
    assert_eq!(a.message, "algo");
    a.apply(Event::Saved);
    assert_eq!(
        a.message,
        "Reportes guardados. Revisa observaciones y validaciones incompletas antes del parche."
    );
    assert!(a.running);
    a.apply(Event::Done);
    assert!(!a.running);
}

#[test]
fn closing_waits_for_the_batch() {
    let mut a = App::initial(String::new());
    let before = a.message.clone();
    assert!(!a.close_requested());
    assert!(!a.stop());
    assert_eq!(a.message, before);
    a.begin("x".into(), &batch(&["a"]));
    assert!(a.stop());
    assert_eq!(a.message, "Deteniendo; los servidores pendientes quedarán incompletos.");
    assert!(a.close_requested());
    assert_eq!(
        a.message,
        "Deteniendo consultas y guardando resultados; podrás cerrar al terminar."
    );
    a.apply(Event::Done);
    assert!(!a.close_requested());
}

#[test]
fn lists_are_loaded_without_marks() {
    let mut a = App::initial(String::new());
    a.load_servers(Ok("\u{feff}\u{feff}srv\u{feff}".into()));
    assert_eq!(a.servers, "srv\u{feff}");
    a.load_servers(Err("no existe".into()));
    assert_eq!(a.servers, "srv\u{feff}");
    assert_eq!(a.message, "no existe");
}

#[test]
fn searching_ignores_case() {
    let mut a = App::initial(String::new());
    a.rows = vec![result("SRV01", "OK"), result("ÑANDÚ", "WARN"), result("otro", "FAIL")];
    assert_eq!(a.visible_rows(), vec![0, 1, 2]);
    a.filter = "sRv0".into();
    assert_eq!(a.visible_rows(), vec![0]);
    a.filter = "apto".into();
    assert_eq!(a.visible_rows(), vec![0, 2]);
    a.filter = "ñandÚ CON".into();
    assert_eq!(a.visible_rows(), vec![1]);
    a.filter = "nada".into();
    assert_eq!(a.visible_rows(), Vec::<usize>::new());
    assert!(found(&a.rows[2], "OTRO no"));
    assert!(!found(&a.rows[2], "OTRO  no"));
}

#[test]
fn details_of_a_server() {
    let mut a = App::initial(String::new());
    a.rows = vec![ResultRow {
        server: "srv".into(),
        computer: "PC".into(),
        environment: "DESA".into(),
        started: "ayer".into(),
        finished: "hoy".into(),
        checks: ["OK", "WARN", "OK", "ERROR", "INFO"]
            .iter()
            .map(|s| Check {
                phase: "f".into(),
                name: "n".into(),
                state: s.to_string(),
                detail: String::new(),
            })
            .collect(),
    }];
    assert!(a.selected_row().is_none());
    a.selected = Some(1);
    assert!(a.selected_row().is_none());
    a.selected = Some(0);
    let row = a.selected_row().unwrap();
    assert_eq!(counts_label(row), "2 OK · 1 WARN · 0 FAIL · 1 ERROR");
    assert_eq!(detail_heading(row), "Detalle · srv");
    assert_eq!(detail_line(row), "Equipo: PC · Ambiente: DESA · hoy");
    assert_eq!(check_title(&row.checks[0]), "f / n");
}

#[test]
fn colors() {
    assert_eq!(status_color("APTO"), (26, 125, 89));
    assert_eq!(status_color("OK"), (26, 125, 89));
    assert_eq!(status_color("NO APTO"), (190, 48, 53));
    assert_eq!(status_color("FAIL"), (190, 48, 53));
    assert_eq!(status_color("INFO"), (61, 103, 140));
    assert_eq!(status_color("INCOMPLETO"), (170, 105, 15));
    assert_eq!(status_color("WARN"), (170, 105, 15));
    assert_eq!(status_color(""), (170, 105, 15));
}

#[test]
fn turns_are_given_once_and_in_order() {
    let b = batch(&["a", "b", "c"]);
    let mut t = Turns::new(&b, 2, 90);
    let first = t.take(false).unwrap();
    assert_eq!((first.index, first.timeout), (0, 90));
    assert_eq!(t.take(false).unwrap().index, 1);
    assert!(t.take(false).is_none());
    t.release();
    assert_eq!(t.take(false).unwrap().index, 2);
    t.release();
    t.release();
    assert!(t.take(false).is_none());
}

#[test]
fn no_turn_is_given_after_a_stop() {
    let b = batch(&["a", "b"]);
    let mut t = Turns::new(&b, 4, 90);
    assert_eq!(t.take(false).unwrap().index, 0);
    assert!(t.take(true).is_none());
    assert!(Turns::new(&b, 0, 90).take(false).is_none());
    assert!(Turns::new(&batch(&[]), 4, 90).take(false).is_none());
}

#[test]
fn every_server_is_shown_however_the_batch_runs() {
    for parallel in [0usize, 1, 2, 5] {
        for stop_at in [0usize, 1, 3] {
            let mut a = App::initial(String::new());
            a.request.local = false;
            a.servers = "uno dos tres".into();
            let mut b = a.prepare().ok().unwrap();
            a.begin("x".into(), &b);
            let mut t = Turns::new(&b, parallel, 1);
            let mut asked = 0;
            while let Some(turn) = t.take(asked >= stop_at) {
                t.release();
                let row = result(&b.requests()[turn.index].server, "OK");
                let event = b.record(turn.index, row);
                a.apply(event);
                asked += 1;
            }
            a.apply(Batch::worker_failed());
            for event in b.close() {
                a.apply(event);
            }
            for event in b.finish(Ok(())) {
                a.apply(event);
            }
            assert!(!a.running);
            assert_eq!(a.rows.len(), a.total);
            for name in ["uno", "dos", "tres"] {
                assert!(a.rows.iter().any(|r| r.server == name));
            }
        }
    }
}

#[test]
fn without_a_stop_every_server_has_its_result() {
    for parallel in [1usize, 2, 5] {
        let mut b = batch(&["a", "b", "c"]);
        let mut t = Turns::new(&b, parallel, 1);
        let mut at_work = Vec::new();
        loop {
            while let Some(turn) = t.take(false) {
                at_work.push(turn.index);
            }
            assert!(at_work.len() <= parallel);
            let Some(i) = at_work.pop() else {
                break;
            };
            t.release();
            let row = result(&b.requests()[i].server, "OK");
            b.record(i, row);
        }
        assert_eq!(b.close().len(), 0);
        assert_eq!(states(&b), vec!["a:OK", "b:OK", "c:OK"]);
    }
}

//! The checks of a server, their verdict, and the request that asks for them.
use crate::text::same_text;
use vstd::prelude::*;

verus! {

/// One check made on a server, with its evidence.
#[derive(Debug)]
pub struct Check {
    pub phase: String,
    pub name: String,
    pub state: String,
    pub detail: String,
}

/// A `Check` as texts.
#[verifier::ext_equal]
pub struct CheckView {
    pub phase: Seq<char>,
    pub name: Seq<char>,
    pub state: Seq<char>,
    pub detail: Seq<char>,
}

impl View for Check {
    type V = CheckView;

    open spec fn view(&self) -> CheckView {
        CheckView {
            phase: self.phase@,
            name: self.name@,
            state: self.state@,
            detail: self.detail@,
        }
    }
}

impl Clone for Check {
    fn clone(&self) -> (r: Self)
        ensures
            r == *self,
    {
        Check {
            phase: self.phase.clone(),
            name: self.name.clone(),
            state: self.state.clone(),
            detail: self.detail.clone(),
        }
    }
}

/// The result of one server.
#[derive(Debug)]
pub struct ResultRow {
    pub server: String,
    pub computer: String,
    pub environment: String,
    pub started: String,
    pub finished: String,
    pub checks: Vec<Check>,
}

/// A `ResultRow` as texts.
#[verifier::ext_equal]
pub struct RowView {
    pub server: Seq<char>,
    pub computer: Seq<char>,
    pub environment: Seq<char>,
    pub started: Seq<char>,
    pub finished: Seq<char>,
    pub checks: Seq<CheckView>,
}

pub open spec fn checks_view(v: Seq<Check>) -> Seq<CheckView> {
    Seq::new(v.len(), |i: int| v[i]@)
}

pub open spec fn rows_view(v: Seq<ResultRow>) -> Seq<RowView> {
    Seq::new(v.len(), |i: int| v[i]@)
}

pub open spec fn requests_view(v: Seq<Request>) -> Seq<RequestView> {
    Seq::new(v.len(), |i: int| v[i]@)
}

impl View for ResultRow {
    type V = RowView;

    open spec fn view(&self) -> RowView {
        RowView {
            server: self.server@,
            computer: self.computer@,
            environment: self.environment@,
            started: self.started@,
            finished: self.finished@,
            checks: checks_view(self.checks@),
        }
    }
}

impl Clone for ResultRow {
    fn clone(&self) -> (r: Self)
        ensures
            r@ == self@,
    {
        let checks = self.checks.clone();
        assert(checks_view(checks@) =~= checks_view(self.checks@));
        ResultRow {
            server: self.server.clone(),
            computer: self.computer.clone(),
            environment: self.environment.clone(),
            started: self.started.clone(),
            finished: self.finished.clone(),
            checks,
        }
    }
}

/// What is asked of one server.
#[derive(Debug)]
pub struct Request {
    pub server: String,
    pub local: bool,
    pub environment: String,
    pub app_folder: String,
    pub min_system_gb: u32,
    pub min_install_gb: u32,
    pub min_temp_gb: u32,
    pub backup_margin_gb: u32,
    pub ports: Vec<u16>,
}

/// A `Request` with texts and sequences for its fields.
#[verifier::ext_equal]
pub struct RequestView {
    pub server: Seq<char>,
    pub local: bool,
    pub environment: Seq<char>,
    pub app_folder: Seq<char>,
    pub min_system_gb: u32,
    pub min_install_gb: u32,
    pub min_temp_gb: u32,
    pub backup_margin_gb: u32,
    pub ports: Seq<u16>,
}

impl View for Request {
    type V = RequestView;

    open spec fn view(&self) -> RequestView {
        RequestView {
            server: self.server@,
            local: self.local,
            environment: self.environment@,
            app_folder: self.app_folder@,
            min_system_gb: self.min_system_gb,
            min_install_gb: self.min_install_gb,
            min_temp_gb: self.min_temp_gb,
            backup_margin_gb: self.backup_margin_gb,
            ports: self.ports@,
        }
    }
}

impl Clone for Request {
    fn clone(&self) -> (r: Self)
        ensures
            r@ == self@,
    {
        let ports = self.ports.clone();
        assert(ports@ =~= self.ports@);
        Request {
            server: self.server.clone(),
            local: self.local,
            environment: self.environment.clone(),
            app_folder: self.app_folder.clone(),
            min_system_gb: self.min_system_gb,
            min_install_gb: self.min_install_gb,
            min_temp_gb: self.min_temp_gb,
            backup_margin_gb: self.backup_margin_gb,
            ports,
        }
    }
}

impl RequestView {
    /// The request of this computer, in the first environment, with the thresholds and
    /// ports that hold unless the user sets others.
    pub open spec fn initial(app_folder: Seq<char>) -> RequestView {
        RequestView {
            server: "localhost"@,
            local: true,
            environment: "DESA"@,
            app_folder,
            min_system_gb: 10,
            min_install_gb: 5,
            min_temp_gb: 3,
            backup_margin_gb: 2,
            ports: seq![1363u16, 1364u16, 1365u16],
        }
    }
}

impl Request {
    /// The request that a fresh window starts with. `app_folder` is the folder that
    /// holds the executable, empty where it is not known.
    pub fn initial(app_folder: String) -> (r: Self)
        ensures
            r@ == RequestView::initial(app_folder@),
    {
        let ports: Vec<u16> = vec![1363, 1364, 1365];
        assert(ports@ =~= seq![1363u16, 1364u16, 1365u16]);
        Request {
            server: "localhost".to_owned(),
            local: true,
            environment: "DESA".to_owned(),
            app_folder,
            min_system_gb: 10,
            min_install_gb: 5,
            min_temp_gb: 3,
            backup_margin_gb: 2,
            ports,
        }
    }
}

/// What the checks of a server amount to.
#[derive(Clone, Copy, Debug, PartialEq, Eq, Structural)]
pub enum Verdict {
    /// Every check passed.
    Fit,
    /// There are warnings, and nothing worse.
    Observations,
    /// Some check failed.
    Unfit,
    /// Evidence is missing, and no failure is known.
    Incomplete,
}

impl Verdict {
    /// The verdict's name in the reports.
    pub open spec fn label(self) -> Seq<char> {
        match self {
            Verdict::Fit => "APTO"@,
            Verdict::Observations => "CON OBSERVACIONES"@,
            Verdict::Unfit => "NO APTO"@,
            Verdict::Incomplete => "INCOMPLETO"@,
        }
    }

    /// The verdict's name in the reports.
    pub fn name(&self) -> (r: &'static str)
        ensures
            r@ == self.label(),
    {
        match self {
            Verdict::Fit => "APTO",
            Verdict::Observations => "CON OBSERVACIONES",
            Verdict::Unfit => "NO APTO",
            Verdict::Incomplete => "INCOMPLETO",
        }
    }
}

/// Some check is in this state.
pub open spec fn any_in_state(checks: Seq<CheckView>, state: Seq<char>) -> bool {
    exists|i: int| 0 <= i < checks.len() && (#[trigger] checks[i]).state == state
}

/// The states that a finished check can have, other than failure.
pub open spec fn is_evidence(state: Seq<char>) -> bool {
    state == "OK"@ || state == "WARN"@ || state == "INFO"@
}

/// There are checks, and each of them is finished.
pub open spec fn evidence_complete(checks: Seq<CheckView>) -> bool {
    checks.len() > 0 && forall|i: int|
        0 <= i < checks.len() ==> is_evidence((#[trigger] checks[i]).state)
}

/// A known failure decides; then missing evidence; then warnings.
pub open spec fn verdict_of(checks: Seq<CheckView>) -> Verdict {
    if any_in_state(checks, "FAIL"@) {
        Verdict::Unfit
    } else if !evidence_complete(checks) {
        Verdict::Incomplete
    } else if any_in_state(checks, "WARN"@) {
        Verdict::Observations
    } else {
        Verdict::Fit
    }
}

impl RowView {
    pub open spec fn verdict(self) -> Verdict {
        verdict_of(self.checks)
    }

    /// The row of a request that has no result, with the reason as its only check.
    pub open spec fn error(req: RequestView, detail: Seq<char>, state: Seq<char>) -> RowView {
        RowView {
            server: req.server,
            computer: Seq::empty(),
            environment: req.environment,
            started: Seq::empty(),
            finished: Seq::empty(),
            checks: seq![
                CheckView { phase: "Ejecucion"@, name: "Consulta"@, state, detail },
            ],
        }
    }
}

/// How many checks are in this state.
pub open spec fn state_count(checks: Seq<CheckView>, state: Seq<char>) -> nat
    decreases checks.len(),
{
    if checks.len() == 0 {
        0
    } else {
        state_count(checks.drop_last(), state) + if checks.last().state == state {
            1nat
        } else {
            0nat
        }
    }
}

impl ResultRow {
    fn has_state(&self, state: &str) -> (r: bool)
        ensures
            r == any_in_state(self@.checks, state@),
    {
        let mut i: usize = 0;
        while i < self.checks.len()
            invariant
                i <= self.checks.len(),
                forall|j: int| 0 <= j < i ==> (#[trigger] self@.checks[j]).state != state@,
            decreases self.checks.len() - i,
        {
            if same_text(self.checks[i].state.as_str(), state) {
                assert(self@.checks[i as int].state == state@);
                return true;
            }
            i += 1;
        }
        false
    }

    fn has_evidence(&self) -> (r: bool)
        ensures
            r == evidence_complete(self@.checks),
    {
        let mut i: usize = 0;
        while i < self.checks.len()
            invariant
                i <= self.checks.len(),
                forall|j: int| 0 <= j < i ==> is_evidence((#[trigger] self@.checks[j]).state),
            decreases self.checks.len() - i,
        {
            let state = self.checks[i].state.as_str();
            if !same_text(state, "OK") && !same_text(state, "WARN") && !same_text(state, "INFO") {
                assert(!is_evidence(self@.checks[i as int].state));
                return false;
            }
            i += 1;
        }
        self.checks.len() > 0
    }

    /// The verdict on the server.
    pub fn verdict(&self) -> (r: Verdict)
        ensures
            r == self@.verdict(),
    {
        if self.has_state("FAIL") {
            Verdict::Unfit
        } else if !self.has_evidence() {
            Verdict::Incomplete
        } else if self.has_state("WARN") {
            Verdict::Observations
        } else {
            Verdict::Fit
        }
    }

    /// The verdict's name: `NO APTO`, `INCOMPLETO`, `CON OBSERVACIONES` or `APTO`.
    pub fn status(&self) -> (r: &'static str)
        ensures
            r@ == self@.verdict().label(),
    {
        self.verdict().name()
    }

    /// The row of a request that has no result, with the reason as its only check.
    pub fn error(req: &Request, detail: String, state: &str) -> (r: Self)
        ensures
            r@ == RowView::error(req@, detail@, state@),
    {
        let check = Check {
            phase: "Ejecucion".to_owned(),
            name: "Consulta".to_owned(),
            state: state.to_owned(),
            detail,
        };
        let ghost only = check@;
        let mut checks: Vec<Check> = Vec::new();
        checks.push(check);
        assert(checks_view(checks@) =~= seq![only]);
        ResultRow {
            server: req.server.clone(),
            computer: String::new(),
            environment: req.environment.clone(),
            started: String::new(),
            finished: String::new(),
            checks,
        }
    }

    /// How many of the checks are in this state.
    pub fn count(&self, state: &str) -> (r: usize)
        ensures
            r == state_count(self@.checks, state@),
    {
        let mut n: usize = 0;
        let mut i: usize = 0;
        while i < self.checks.len()
            invariant
                n <= i <= self.checks.len(),
                n == state_count(self@.checks.take(i as int), state@),
            decreases self.checks.len() - i,
        {
            assert(self@.checks.take(i + 1).drop_last() =~= self@.checks.take(i as int));
            if same_text(self.checks[i].state.as_str(), state) {
                n += 1;
            }
            i += 1;
        }
        assert(self@.checks.take(self@.checks.len() as int) =~= self@.checks);
        n
    }
}

/// The four verdicts, each with exactly the checks that lead to it.
pub proof fn law_verdict_meaning(checks: Seq<CheckView>)
    ensures
        verdict_of(checks) == Verdict::Unfit <==> any_in_state(checks, "FAIL"@),
        verdict_of(checks) == Verdict::Incomplete <==> !any_in_state(checks, "FAIL"@) && (
        checks.len() == 0 || exists|i: int|
            0 <= i < checks.len() && !is_evidence((#[trigger] checks[i]).state)),
        verdict_of(checks) == Verdict::Observations <==> evidence_complete(checks)
            && any_in_state(checks, "WARN"@),
        verdict_of(checks) == Verdict::Fit <==> checks.len() > 0 && forall|i: int|
            0 <= i < checks.len() ==> ((#[trigger] checks[i]).state == "OK"@ || checks[i].state
                == "INFO"@),
{
    lemma_states_differ();
    if any_in_state(checks, "FAIL"@) {
        let i = choose|i: int| 0 <= i < checks.len() && (#[trigger] checks[i]).state == "FAIL"@;
        assert(!is_evidence(checks[i].state));
    }
    if any_in_state(checks, "WARN"@) {
        let i = choose|i: int| 0 <= i < checks.len() && (#[trigger] checks[i]).state == "WARN"@;
        assert(checks[i].state != "OK"@ && checks[i].state != "INFO"@);
    }
    if verdict_of(checks) == Verdict::Fit {
        assert forall|i: int| 0 <= i < checks.len() implies ((#[trigger] checks[i]).state == "OK"@
            || checks[i].state == "INFO"@) by {
            assert(is_evidence(checks[i].state));
        }
    }
}

proof fn lemma_states_differ()
    ensures
        "FAIL"@ != "OK"@,
        "FAIL"@ != "WARN"@,
        "FAIL"@ != "INFO"@,
        "WARN"@ != "OK"@,
        "WARN"@ != "INFO"@,
{
    reveal_strlit("FAIL");
    reveal_strlit("OK");
    reveal_strlit("WARN");
    reveal_strlit("INFO");
    assert("FAIL"@[0] == 'F');
    assert("WARN"@[0] == 'W');
    assert("INFO"@[0] == 'I');
    assert("OK"@[0] == 'O');
}

/// Different verdicts have different names, so the name tells the verdict.
pub proof fn law_names_tell_verdicts_apart(a: Verdict, b: Verdict)
    ensures
        a.label() == b.label() ==> a == b,
{
    reveal_strlit("APTO");
    reveal_strlit("CON OBSERVACIONES");
    reveal_strlit("NO APTO");
    reveal_strlit("INCOMPLETO");
    assert("APTO"@.len() == 4);
    assert("CON OBSERVACIONES"@.len() == 17);
    assert("NO APTO"@.len() == 7);
    assert("INCOMPLETO"@.len() == 10);
}

/// Missing evidence never passes: a row made for a request without a result is
/// incomplete, whatever reason it gives, unless its state is one of a finished check.
pub proof fn law_missing_result_is_incomplete(req: RequestView, detail: Seq<char>, state: Seq<char>)
    requires
        state != "FAIL"@,
        !is_evidence(state),
    ensures
        RowView::error(req, detail, state).verdict() == Verdict::Incomplete,
{
    let checks = RowView::error(req, detail, state).checks;
    assert(checks[0].state == state);
    law_verdict_meaning(checks);
}

/// The order and number of the checks do not matter, only which states occur.
pub proof fn law_verdict_depends_on_states(a: Seq<CheckView>, b: Seq<CheckView>)
    requires
        forall|state: Seq<char>| any_in_state(a, state) == any_in_state(b, state),
    ensures
        verdict_of(a) == verdict_of(b),
{
    if evidence_complete(a) {
        lemma_same_evidence(a, b);
    }
    if evidence_complete(b) {
        lemma_same_evidence(b, a);
    }
}

proof fn lemma_same_evidence(a: Seq<CheckView>, b: Seq<CheckView>)
    requires
        forall|state: Seq<char>| any_in_state(a, state) == any_in_state(b, state),
        evidence_complete(a),
    ensures
        evidence_complete(b),
{
    assert(a[0].state == a[0].state);
    assert(any_in_state(a, a[0].state));
    assert(any_in_state(b, a[0].state));
    assert forall|i: int| 0 <= i < b.len() implies is_evidence((#[trigger] b[i]).state) by {
        assert(any_in_state(b, b[i].state));
        assert(any_in_state(a, b[i].state));
        let j = choose|j: int| 0 <= j < a.len() && (#[trigger] a[j]).state == b[i].state;
        assert(is_evidence(a[j].state));
    }
}

/// How far a verdict is from allowing the patch.
pub open spec fn severity(v: Verdict) -> int {
    match v {
        Verdict::Fit => 0,
        Verdict::Observations => 1,
        Verdict::Incomplete => 2,
        Verdict::Unfit => 3,
    }
}

/// The checks of two lists put together, in any order, have the worse of their verdicts.
/// So one more check never makes the verdict on a server milder, and makes it worse only
/// as far as that check alone would.
pub proof fn law_together_the_worse_verdict(
    a: Seq<CheckView>,
    b: Seq<CheckView>,
    all: Seq<CheckView>,
)
    requires
        a.len() > 0,
        b.len() > 0,
        all.to_multiset() == (a + b).to_multiset(),
    ensures
        severity(verdict_of(all)) == if severity(verdict_of(a)) >= severity(verdict_of(b)) {
            severity(verdict_of(a))
        } else {
            severity(verdict_of(b))
        },
{
    let both = a + b;
    all.to_multiset_ensures();
    both.to_multiset_ensures();
    assert forall|state: Seq<char>| any_in_state(all, state) == any_in_state(both, state) by {
        if any_in_state(all, state) {
            let i = choose|i: int| 0 <= i < all.len() && (#[trigger] all[i]).state == state;
            assert(all.contains(all[i]));
            assert(all.to_multiset().count(all[i]) > 0);
            assert(both.contains(all[i]));
            let j = choose|j: int| 0 <= j < both.len() && both[j] == all[i];
            assert(both[j].state == state);
        }
        if any_in_state(both, state) {
            let i = choose|i: int| 0 <= i < both.len() && (#[trigger] both[i]).state == state;
            assert(both.contains(both[i]));
            assert(both.to_multiset().count(both[i]) > 0);
            assert(all.contains(both[i]));
            let j = choose|j: int| 0 <= j < all.len() && all[j] == both[i];
            assert(all[j].state == state);
        }
    }
    law_verdict_depends_on_states(all, both);
    lemma_any_in_both(a, b, "FAIL"@);
    lemma_any_in_both(a, b, "WARN"@);
    lemma_evidence_of_both(a, b);
    law_verdict_meaning(a);
    law_verdict_meaning(b);
}

proof fn lemma_any_in_both(a: Seq<CheckView>, b: Seq<CheckView>, state: Seq<char>)
    ensures
        any_in_state(a + b, state) == (any_in_state(a, state) || any_in_state(b, state)),
{
    let both = a + b;
    if any_in_state(a, state) {
        let i = choose|i: int| 0 <= i < a.len() && (#[trigger] a[i]).state == state;
        assert(both[i].state == state);
    }
    if any_in_state(b, state) {
        let i = choose|i: int| 0 <= i < b.len() && (#[trigger] b[i]).state == state;
        assert(both[a.len() + i].state == state);
    }
    if any_in_state(both, state) {
        let i = choose|i: int| 0 <= i < both.len() && (#[trigger] both[i]).state == state;
        if i < a.len() {
            assert(a[i].state == state);
        } else {
            assert(b[i - a.len()].state == state);
        }
    }
}

proof fn lemma_evidence_of_both(a: Seq<CheckView>, b: Seq<CheckView>)
    requires
        a.len() > 0,
        b.len() > 0,
    ensures
        evidence_complete(a + b) == (evidence_complete(a) && evidence_complete(b)),
{
    let both = a + b;
    if evidence_complete(both) {
        assert forall|i: int| 0 <= i < a.len() implies is_evidence((#[trigger] a[i]).state) by {
            assert(is_evidence(both[i].state));
        }
        assert forall|i: int| 0 <= i < b.len() implies is_evidence((#[trigger] b[i]).state) by {
            assert(is_evidence(both[a.len() + i].state));
        }
    }
    if evidence_complete(a) && evidence_complete(b) {
        assert forall|i: int| 0 <= i < both.len() implies is_evidence(
            (#[trigger] both[i]).state,
        ) by {
            if i < a.len() {
                assert(is_evidence(a[i].state));
            } else {
                assert(is_evidence(b[i - a.len()].state));
            }
        }
    }
}

/// A verdict's name, read off the states of the checks: `NO APTO` where some check
/// failed; else `INCOMPLETO` where there is no check or one in a state other than `OK`,
/// `INFO` and `WARN`; else `CON OBSERVACIONES` where some check warns; else `APTO`.
#[verifier::rlimit(60)]
pub proof fn law_verdict_named_by_states(checks: Seq<CheckView>)
    ensures
        verdict_of(checks).label() == "NO APTO"@ <==> exists|i: int|
            0 <= i < checks.len() && (#[trigger] checks[i]).state == "FAIL"@,
        verdict_of(checks).label() == "APTO"@ <==> checks.len() > 0 && forall|i: int|
            0 <= i < checks.len() ==> ((#[trigger] checks[i]).state == "OK"@ || checks[i].state
                == "INFO"@),
        verdict_of(checks).label() == "CON OBSERVACIONES"@ <==> (exists|i: int|
            0 <= i < checks.len() && (#[trigger] checks[i]).state == "WARN"@) && forall|i: int|
            0 <= i < checks.len() ==> ((#[trigger] checks[i]).state == "OK"@ || checks[i].state
                == "INFO"@ || checks[i].state == "WARN"@),
        verdict_of(checks).label() == "INCOMPLETO"@ <==> (forall|i: int|
            0 <= i < checks.len() ==> (#[trigger] checks[i]).state != "FAIL"@) && (checks.len()
            == 0 || exists|i: int|
            0 <= i < checks.len() && (#[trigger] checks[i]).state != "OK"@ && checks[i].state
                != "INFO"@ && checks[i].state != "WARN"@),
{
    law_verdict_meaning(checks);
    law_names_tell_verdicts_apart(verdict_of(checks), Verdict::Fit);
    law_names_tell_verdicts_apart(verdict_of(checks), Verdict::Observations);
    law_names_tell_verdicts_apart(verdict_of(checks), Verdict::Unfit);
    law_names_tell_verdicts_apart(verdict_of(checks), Verdict::Incomplete);
    assert(evidence_complete(checks) <==> checks.len() > 0 && forall|i: int|
        0 <= i < checks.len() ==> is_evidence((#[trigger] checks[i]).state));
    if exists|i: int|
        0 <= i < checks.len() && (#[trigger] checks[i]).state != "OK"@ && checks[i].state
            != "INFO"@ && checks[i].state != "WARN"@ {
        let i = choose|i: int|
            0 <= i < checks.len() && (#[trigger] checks[i]).state != "OK"@ && checks[i].state
                != "INFO"@ && checks[i].state != "WARN"@;
        assert(!is_evidence(checks[i].state));
    }
}

/// The count of a state is the number of the checks in that state, and the counts of two
/// lists add up.
pub proof fn law_state_count_counts(
    checks: Seq<CheckView>,
    more: Seq<CheckView>,
    state: Seq<char>,
)
    ensures
        state_count(checks, state) == checks.filter(|c: CheckView| c.state == state).len(),
        state_count(checks + more, state) == state_count(checks, state) + state_count(more, state),
    decreases checks.len() + more.len(),
{
    reveal(Seq::filter);
    if checks.len() > 0 {
        law_state_count_counts(checks.drop_last(), Seq::empty(), state);
    }
    if more.len() > 0 {
        law_state_count_counts(checks, more.drop_last(), state);
        assert((checks + more).drop_last() =~= checks + more.drop_last());
    } else {
        assert(checks + more =~= checks);
    }
}

/// The row of a request without a result names the request's server and environment and
/// holds one check, with the state and the reason given.
pub proof fn law_row_without_a_result(req: RequestView, detail: Seq<char>, state: Seq<char>)
    ensures
        RowView::error(req, detail, state).server == req.server,
        RowView::error(req, detail, state).environment == req.environment,
        RowView::error(req, detail, state).computer.len() == 0,
        RowView::error(req, detail, state).started.len() == 0,
        RowView::error(req, detail, state).finished.len() == 0,
        RowView::error(req, detail, state).checks.len() == 1,
        RowView::error(req, detail, state).checks[0].state == state,
        RowView::error(req, detail, state).checks[0].detail == detail,
        RowView::error(req, detail, state).checks[0].phase == "Ejecucion"@,
        RowView::error(req, detail, state).checks[0].name == "Consulta"@,
{
}

/// A row as texts has every field of the row and every one of its checks, in order.
pub proof fn law_row_as_texts(row: ResultRow, i: int)
    ensures
        row@.server == row.server@,
        row@.computer == row.computer@,
        row@.environment == row.environment@,
        row@.started == row.started@,
        row@.finished == row.finished@,
        row@.checks.len() == row.checks@.len(),
        0 <= i < row.checks@.len() ==> row@.checks[i].phase == row.checks@[i].phase@,
        0 <= i < row.checks@.len() ==> row@.checks[i].name == row.checks@[i].name@,
        0 <= i < row.checks@.len() ==> row@.checks[i].state == row.checks@[i].state@,
        0 <= i < row.checks@.len() ==> row@.checks[i].detail == row.checks@[i].detail@,
{
}

/// A list of rows, or of requests, as texts has each of them in its place.
pub proof fn law_lists_as_texts(rows: Seq<ResultRow>, requests: Seq<Request>, i: int)
    ensures
        rows_view(rows).len() == rows.len(),
        requests_view(requests).len() == requests.len(),
        0 <= i < rows.len() ==> rows_view(rows)[i] == rows[i]@,
        0 <= i < requests.len() ==> requests_view(requests)[i] == requests[i]@,
{
}

/// A request as texts has every field of the request.
pub proof fn law_request_as_texts(req: Request)
    ensures
        req@.server == req.server@,
        req@.local == req.local,
        req@.environment == req.environment@,
        req@.app_folder == req.app_folder@,
        req@.min_system_gb == req.min_system_gb,
        req@.min_install_gb == req.min_install_gb,
        req@.min_temp_gb == req.min_temp_gb,
        req@.backup_margin_gb == req.backup_margin_gb,
        req@.ports == req.ports@,
{
}

/// A fresh request asks this computer, in the environment `DESA`, with the thresholds and
/// ports of an ordinary installation, and keeps the folder it is given.
pub proof fn law_first_request(app_folder: Seq<char>)
    ensures
        RequestView::initial(app_folder).app_folder == app_folder,
        RequestView::initial(app_folder).local,
        RequestView::initial(app_folder).server == "localhost"@,
        RequestView::initial(app_folder).environment == "DESA"@,
        RequestView::initial(app_folder).min_system_gb == 10,
        RequestView::initial(app_folder).min_install_gb == 5,
        RequestView::initial(app_folder).min_temp_gb == 3,
        RequestView::initial(app_folder).backup_margin_gb == 2,
        RequestView::initial(app_folder).ports == seq![1363u16, 1364u16, 1365u16],
{
}

/// The status of a row is read off the states of its checks.
#[verifier::rlimit(60)]
pub proof fn law_status_goes_by_states(row: &ResultRow, verdict: Verdict, status: &'static str)
    requires
        call_ensures(ResultRow::verdict, (row,), verdict),
        call_ensures(ResultRow::status, (row,), status),
    ensures
        status@ == verdict.label(),
        status@ == "NO APTO"@ <==> exists|i: int|
            0 <= i < row.checks@.len() && (#[trigger] row.checks@[i]).state@ == "FAIL"@,
        status@ == "APTO"@ <==> row.checks@.len() > 0 && forall|i: int|
            0 <= i < row.checks@.len() ==> ((#[trigger] row.checks@[i]).state@ == "OK"@
                || row.checks@[i].state@ == "INFO"@),
        status@ == "CON OBSERVACIONES"@ <==> (exists|i: int|
            0 <= i < row.checks@.len() && (#[trigger] row.checks@[i]).state@ == "WARN"@) && forall|
            i: int,
        |
            0 <= i < row.checks@.len() ==> ((#[trigger] row.checks@[i]).state@ == "OK"@
                || row.checks@[i].state@ == "INFO"@ || row.checks@[i].state@ == "WARN"@),
        status@ == "NO APTO"@ || status@ == "APTO"@ || status@ == "CON OBSERVACIONES"@ || status@
            == "INCOMPLETO"@,
{
    let checks = row@.checks;
    law_verdict_named_by_states(checks);
    assert(forall|i: int|
        0 <= i < checks.len() ==> (#[trigger] checks[i]).state == row.checks@[i].state@);
    assert(forall|i: int|
        0 <= i < checks.len() ==> (#[trigger] row.checks@[i]).state@ == checks[i].state);
    if exists|i: int| 0 <= i < checks.len() && (#[trigger] checks[i]).state == "FAIL"@ {
        let i = choose|i: int| 0 <= i < checks.len() && (#[trigger] checks[i]).state == "FAIL"@;
        assert(row.checks@[i].state@ == "FAIL"@);
    }
    if exists|i: int| 0 <= i < checks.len() && (#[trigger] checks[i]).state == "WARN"@ {
        let i = choose|i: int| 0 <= i < checks.len() && (#[trigger] checks[i]).state == "WARN"@;
        assert(row.checks@[i].state@ == "WARN"@);
    }
}

/// Counting a state counts the checks in that state, and the row of a request without a
/// result tells its reason.
pub proof fn law_counts_and_error_rows(
    row: &ResultRow,
    state: &str,
    n: usize,
    req: &Request,
    detail: String,
    error: ResultRow,
)
    requires
        call_ensures(ResultRow::count, (row, state), n),
        call_ensures(ResultRow::error, (req, detail, state), error),
    ensures
        n == row@.checks.filter(|c: CheckView| c.state == state@).len(),
        error.server@ == req.server@,
        error.environment@ == req.environment@,
        error.computer@.len() == 0,
        error.started@.len() == 0,
        error.finished@.len() == 0,
        error.checks@.len() == 1,
        error.checks@[0].state@ == state@,
        error.checks@[0].detail@ == detail@,
        error.checks@[0].phase@ == "Ejecucion"@,
        error.checks@[0].name@ == "Consulta"@,
{
    law_state_count_counts(row@.checks, row@.checks, state@);
    law_row_without_a_result(req@, detail@, state@);
    assert(error@.checks[0] == error.checks@[0]@);
}

/// The request of a fresh window.
pub proof fn law_fresh_request(app_folder: String, r: Request)
    requires
        call_ensures(Request::initial, (app_folder,), r),
    ensures
        r.app_folder@ == app_folder@,
        r.local,
        r.server@ == "localhost"@,
        r.environment@ == "DESA"@,
        r.min_system_gb == 10,
        r.min_install_gb == 5,
        r.min_temp_gb == 3,
        r.backup_margin_gb == 2,
        r.ports@ == seq![1363u16, 1364u16, 1365u16],
{
    law_request_as_texts(r);
}

/// A copy is equal to what it was made of.
pub proof fn law_copies_are_equal(
    row: &ResultRow,
    row_copy: ResultRow,
    req: &Request,
    req_copy: Request,
)
    requires
        call_ensures(ResultRow::clone, (row,), row_copy),
        call_ensures(Request::clone, (req,), req_copy),
    ensures
        row_copy@ == row@,
        req_copy@ == req@,
{
}

/// The name of a verdict, by which the reports tell it.
pub proof fn law_name_of_a_verdict(v: &Verdict, name: &'static str)
    requires
        call_ensures(Verdict::name, (v,), name),
    ensures
        *v == Verdict::Fit ==> name@ == "APTO"@,
        *v == Verdict::Observations ==> name@ == "CON OBSERVACIONES"@,
        *v == Verdict::Unfit ==> name@ == "NO APTO"@,
        *v == Verdict::Incomplete ==> name@ == "INCOMPLETO"@,
{
}

} // verus!

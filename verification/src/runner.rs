//! The execution orchestrator: traverses the corpus group -> sub-group ->
//! test in order, sequentially; for each test announces it, invokes the
//! backend, classifies the outcome, checks the cancellation signal, records
//! the status durably, and reports completion. A backend error for one test
//! never stops the run; only the cancellation signal does, and then every
//! already-recorded result remains valid.

use vstd::prelude::*;
use crate::model::{
    classified, status_for, total_in_group, total_in_groups, total_in_sub, total_in_subs,
    lemma_total_in_groups_take_step, lemma_total_in_subs_take_step, lemma_subs_prefix_bound,
    lemma_total_prefix_bound, BackendResponse, Test, TestGroup, TestGroupRunResults, TestRunInfo,
    TestRunResult, TestStatus, TestSubGroup, TestSubGroupRunResults,
};
use crate::model::{Address, AccountRecord};
use crate::run_state::RunStateEntries;
use crate::cancel::CancellationSignal;
use crate::progress::{events_of, ProgressIndicator, ReporterEvent};
use crate::diff::{compute_state_diff, StateDiff};

verus! {

/// The execution/proving backend under test: hands back, for one
/// backend-ready encoded input, either its post-execution state commitment
/// (with per-account outputs for diagnostics) or a domain error. Nothing is
/// assumed of the response; the orchestrator is correct for every response.
pub trait TestBackend {
    fn execute(&mut self, gen_inputs: &Vec<u8>) -> BackendResponse;
}

/// A replay failure in the reference interpreter; swallowed, the diff is
/// simply omitted.
pub struct ReplayError {
    pub message: String,
}

/// The reference interpreter, used only to explain mismatches: replays a
/// serialized snapshot and hands back its resulting account mapping.
pub trait ReferenceReplayer {
    fn replay(&mut self, snapshot: &Vec<u8>) -> Result<Vec<(Address, AccountRecord)>, ReplayError>;
}

/// The durable backing store behind the run state: any keyed storage whose
/// write survives a crash. The orchestrator hands it every newly recorded
/// entry — after the in-memory record, before the next test may begin — so
/// that a restart observes every completed test. Like the backend, it is an
/// external collaborator: nothing is assumed of it.
pub trait RunStateStore {
    fn persist(&mut self, name: &String, status: &TestStatus);
}

/// A backing store that keeps nothing: runs are not resumable across a
/// restart, everything else is unaffected.
pub struct NoStore {}

impl RunStateStore for NoStore {
    fn persist(&mut self, _name: &String, _status: &TestStatus) {
    }
}

/// A reference replayer that is not available: every replay fails, so every
/// diagnostic diff is omitted and the run is otherwise unaffected.
pub struct NoReplayer {}

impl ReferenceReplayer for NoReplayer {
    fn replay(&mut self, _snapshot: &Vec<u8>) -> Result<
        Vec<(Address, AccountRecord)>,
        ReplayError,
    > {
        Err(ReplayError { message: String::new() })
    }
}

/// The run was cancelled; everything completed before the stop, in corpus
/// order. The aborted test's outcome is discarded, never recorded.
#[derive(Debug)]
pub struct RunAborted {
    pub completed: Vec<TestGroupRunResults>,
}

/// The mapping after recording each result in order, later over earlier.
pub open spec fn recorded_after(
    m: Map<Seq<char>, TestStatus>,
    rs: Seq<TestRunResult>,
) -> Map<Seq<char>, TestStatus>
    decreases rs.len(),
{
    if rs.len() == 0 {
        m
    } else {
        recorded_after(m, rs.drop_last()).insert(rs.last().name@, rs.last().status)
    }
}

/// The store updates that a sequence of results causes, in order.
pub open spec fn log_of(rs: Seq<TestRunResult>) -> Seq<(Seq<char>, TestStatus)> {
    rs.map_values(|r: TestRunResult| (r.name@, r.status))
}

/// `n` reads of an unset cancellation flag.
pub open spec fn falses(n: nat) -> Seq<bool> {
    Seq::new(n, |i: int| false)
}

/// The results are, in order, outcomes of a prefix of `ts`: the names line
/// up one-to-one and every status has the shape classification gives it for
/// that test's expected commitment.
pub open spec fn results_match(rs: Seq<TestRunResult>, ts: Seq<Test>) -> bool {
    &&& rs.len() <= ts.len()
    &&& forall|i: int|
        0 <= i < rs.len() ==> (#[trigger] rs[i]).name == ts[i].name && classified(
            rs[i].status,
            ts[i].info.expected_state_root,
        )
}

/// A sub-group's results mirror a prefix of its sub-group.
pub open spec fn sub_results_match(r: TestSubGroupRunResults, s: TestSubGroup) -> bool {
    r.name == s.name && results_match(r.test_res@, s.tests@)
}

/// A sub-group ran to the end.
pub open spec fn sub_complete(r: TestSubGroupRunResults, s: TestSubGroup) -> bool {
    r.test_res@.len() == s.tests@.len()
}

/// A group's results mirror its group: same name, sub-group names in order,
/// every sub-group but possibly the last complete.
pub open spec fn group_results_match(r: TestGroupRunResults, g: TestGroup) -> bool {
    &&& r.name == g.name
    &&& r.sub_group_res@.len() <= g.sub_groups@.len()
    &&& forall|i: int|
        0 <= i < r.sub_group_res@.len() ==> sub_results_match(
            #[trigger] r.sub_group_res@[i],
            g.sub_groups@[i],
        )
    &&& forall|i: int|
        0 <= i < r.sub_group_res@.len() - 1 ==> sub_complete(
            #[trigger] r.sub_group_res@[i],
            g.sub_groups@[i],
        )
}

/// A group ran to the end.
pub open spec fn group_complete(r: TestGroupRunResults, g: TestGroup) -> bool {
    &&& r.sub_group_res@.len() == g.sub_groups@.len()
    &&& forall|i: int|
        0 <= i < r.sub_group_res@.len() ==> sub_complete(
            #[trigger] r.sub_group_res@[i],
            g.sub_groups@[i],
        )
}

/// The result forest mirrors a prefix of the corpus: group names in order,
/// every group but possibly the last complete.
pub open spec fn groups_results_match(rs: Seq<TestGroupRunResults>, gs: Seq<TestGroup>) -> bool {
    &&& rs.len() <= gs.len()
    &&& forall|i: int|
        0 <= i < rs.len() ==> group_results_match(#[trigger] rs[i], gs[i])
    &&& forall|i: int|
        0 <= i < rs.len() - 1 ==> group_complete(#[trigger] rs[i], gs[i])
}

/// The whole corpus ran to the end.
pub open spec fn groups_complete(rs: Seq<TestGroupRunResults>, gs: Seq<TestGroup>) -> bool {
    &&& rs.len() == gs.len()
    &&& forall|i: int|
        0 <= i < rs.len() ==> group_complete(#[trigger] rs[i], gs[i])
}

/// All test outcomes in a sequence of sub-group results, in order.
pub open spec fn flat_subs(rs: Seq<TestSubGroupRunResults>) -> Seq<TestRunResult>
    decreases rs.len(),
{
    if rs.len() == 0 {
        Seq::empty()
    } else {
        flat_subs(rs.drop_last()) + rs.last().test_res@
    }
}

/// All test outcomes in a result forest, in order.
pub open spec fn flat_groups(rs: Seq<TestGroupRunResults>) -> Seq<TestRunResult>
    decreases rs.len(),
{
    if rs.len() == 0 {
        Seq::empty()
    } else {
        flat_groups(rs.drop_last()) + flat_subs(rs.last().sub_group_res@)
    }
}

/// Recording distributes over concatenation.
pub proof fn lemma_recorded_after_concat(
    m: Map<Seq<char>, TestStatus>,
    a: Seq<TestRunResult>,
    b: Seq<TestRunResult>,
)
    ensures
        recorded_after(m, a + b) == recorded_after(recorded_after(m, a), b),
    decreases b.len(),
{
    if b.len() == 0 {
        assert(a + b =~= a);
    } else {
        lemma_recorded_after_concat(m, a, b.drop_last());
        assert((a + b).drop_last() =~= a + b.drop_last());
        assert((a + b).last() == b.last());
    }
}

/// The reporter event stream distributes over concatenation.
pub proof fn lemma_events_of_concat(a: Seq<TestRunResult>, b: Seq<TestRunResult>)
    ensures
        events_of(a + b) == events_of(a) + events_of(b),
    decreases b.len(),
{
    if b.len() == 0 {
        assert(a + b =~= a);
        assert(events_of(a) + events_of(b) =~= events_of(a));
    } else {
        lemma_events_of_concat(a, b.drop_last());
        assert((a + b).drop_last() =~= a + b.drop_last());
        assert((a + b).last() == b.last());
        assert(events_of(a + b) =~= events_of(a) + events_of(b));
    }
}

/// Run one test: announce it, execute, classify; then either stop (signal
/// set: nothing recorded, nothing completed) or record the status and count
/// the completion. On a mismatch with an available snapshot, the reference
/// interpreter is consulted for a diagnostic diff; the diff never affects
/// the recorded status.
pub fn run_test<B: TestBackend, R: ReferenceReplayer, S: RunStateStore>(
    test: &Test,
    p_indicator: &mut ProgressIndicator,
    persistent_test_state: &mut RunStateEntries,
    store: &mut S,
    process_aborted: &mut CancellationSignal,
    backend: &mut B,
    replayer: &mut R,
) -> (res: Option<TestRunResult>)
    requires
        old(persistent_test_state).wf(),
        old(p_indicator).curr_test < u64::MAX,
    ensures
        final(persistent_test_state).wf(),
        final(p_indicator).num_tests == old(p_indicator).num_tests,
        match res {
            Option::Some(r) => {
                &&& r.name == test.name
                &&& classified(r.status, test.info.expected_state_root)
                &&& final(persistent_test_state)@ == old(persistent_test_state)@.insert(
                    test.name@,
                    r.status,
                )
                &&& final(persistent_test_state).write_log() == old(
                    persistent_test_state,
                ).write_log().push((test.name@, r.status))
                &&& final(p_indicator).events@ == old(p_indicator).events@ + seq![
                    ReporterEvent::Announce(test.name),
                    ReporterEvent::CompleteOne,
                ]
                &&& final(p_indicator).curr_test == old(p_indicator).curr_test + 1
                &&& final(process_aborted).reads() == old(process_aborted).reads().push(false)
            },
            Option::None => {
                &&& final(persistent_test_state)@ == old(persistent_test_state)@
                &&& final(persistent_test_state).write_log() == old(
                    persistent_test_state,
                ).write_log()
                &&& final(p_indicator).events@ == old(p_indicator).events@.push(
                    ReporterEvent::Announce(test.name),
                )
                &&& final(p_indicator).curr_test == old(p_indicator).curr_test
                &&& final(process_aborted).reads() == old(process_aborted).reads().push(true)
            },
        },
{
    p_indicator.set_current_test_name(&test.name);
    let (status, _diag) = run_test_and_get_test_result(&test.info, backend, replayer);

    if process_aborted.is_set() {
        // Stop running more tests; this test's outcome is discarded.
        return None;
    }

    let recorded = status.duplicate();
    persistent_test_state.update_test_state(&test.name, recorded);
    store.persist(&test.name, &status);
    p_indicator.notify_test_completed();

    proof {
        assert(p_indicator.events@ =~= old(p_indicator).events@ + seq![
            ReporterEvent::Announce(test.name),
            ReporterEvent::CompleteOne,
        ]);
    }
    Some(TestRunResult { name: test.name.clone(), status })
}

/// Run a test against the backend and classify what happens. The returned
/// diff, when present, explains a state mismatch and is purely diagnostic:
/// it is produced only when the status is a mismatch and a
/// reference-interpreter snapshot is available, and a replay failure
/// silently degrades to no diff.
pub fn run_test_and_get_test_result<B: TestBackend, R: ReferenceReplayer>(
    test: &TestRunInfo,
    backend: &mut B,
    replayer: &mut R,
) -> (res: (TestStatus, Option<StateDiff>))
    ensures
        classified(res.0, test.expected_state_root),
        (exists|resp: BackendResponse| res.0 == status_for(resp, test.expected_state_root)),
        res.1 is Some ==> res.0 is IncorrectAccountFinalState && test.snapshot is Some,
        (!(res.0 is IncorrectAccountFinalState) || test.snapshot is None) ==> res.1 is None,
{
    let resp = backend.execute(&test.gen_inputs);
    let status = crate::model::classify(&resp, &test.expected_state_root);
    proof {
        crate::model::lemma_status_for_classified(resp, test.expected_state_root);
    }
    let diag: Option<StateDiff> = match (&status, &resp, &test.snapshot) {
        (
            TestStatus::IncorrectAccountFinalState(_),
            BackendResponse::Evaluated { state_root: _, accounts },
            Option::Some(snapshot),
        ) => {
            match replayer.replay(snapshot) {
                Result::Ok(reference_accounts) => {
                    Some(compute_state_diff(&reference_accounts, accounts))
                },
                Result::Err(_) => None,
            }
        },
        _ => None,
    };
    (status, diag)
}

/// Run every test of one sub-group in order, stopping at the first
/// checkpoint where the cancellation signal is observed set.
pub fn run_test_sub_group<B: TestBackend, R: ReferenceReplayer, S: RunStateStore>(
    sub_group: &TestSubGroup,
    p_indicator: &mut ProgressIndicator,
    persistent_test_state: &mut RunStateEntries,
    store: &mut S,
    process_aborted: &mut CancellationSignal,
    backend: &mut B,
    replayer: &mut R,
) -> (res: (TestSubGroupRunResults, bool))
    requires
        old(persistent_test_state).wf(),
        old(p_indicator).curr_test + total_in_sub(*sub_group) <= u64::MAX,
    ensures
        final(persistent_test_state).wf(),
        final(p_indicator).num_tests == old(p_indicator).num_tests,
        sub_results_match(res.0, *sub_group),
        !res.1 ==> sub_complete(res.0, *sub_group),
        res.1 ==> res.0.test_res@.len() < sub_group.tests@.len(),
        final(persistent_test_state)@ == recorded_after(
            old(persistent_test_state)@,
            res.0.test_res@,
        ),
        final(persistent_test_state).write_log() == old(persistent_test_state).write_log()
            + log_of(res.0.test_res@),
        final(p_indicator).curr_test == old(p_indicator).curr_test + res.0.test_res@.len(),
        final(p_indicator).events@ == old(p_indicator).events@ + events_of(res.0.test_res@) + (
        if res.1 {
            seq![
                ReporterEvent::Announce(sub_group.tests@[res.0.test_res@.len() as int].name),
            ]
        } else {
            Seq::<ReporterEvent>::empty()
        }),
        final(process_aborted).reads() == old(process_aborted).reads() + falses(
            res.0.test_res@.len(),
        ) + (if res.1 {
            seq![true]
        } else {
            Seq::<bool>::empty()
        }),
{
    let mut test_res: Vec<TestRunResult> = Vec::new();
    let mut i: usize = 0;
    proof {
        assert(old(p_indicator).events@ + events_of(test_res@) =~= old(p_indicator).events@);
        assert(old(process_aborted).reads() + falses(0) =~= old(process_aborted).reads());
        assert(old(persistent_test_state).write_log() + log_of(test_res@) =~= old(
            persistent_test_state,
        ).write_log());
    }
    while i < sub_group.tests.len()
        invariant
            i <= sub_group.tests@.len(),
            test_res@.len() == i,
            results_match(test_res@, sub_group.tests@),
            persistent_test_state.wf(),
            persistent_test_state@ == recorded_after(old(persistent_test_state)@, test_res@),
            persistent_test_state.write_log() == old(persistent_test_state).write_log() + log_of(
                test_res@,
            ),
            p_indicator.events@ == old(p_indicator).events@ + events_of(test_res@),
            p_indicator.curr_test == old(p_indicator).curr_test + i,
            p_indicator.num_tests == old(p_indicator).num_tests,
            process_aborted.reads() == old(process_aborted).reads() + falses(i as nat),
            old(p_indicator).curr_test + total_in_sub(*sub_group) <= u64::MAX,
        decreases sub_group.tests@.len() - i,
    {
        let test = &sub_group.tests[i];
        let outcome = run_test(
            test,
            p_indicator,
            persistent_test_state,
            store,
            process_aborted,
            backend,
            replayer,
        );
        match outcome {
            Option::Some(r) => {
                proof {
                    assert(test_res@.push(r).drop_last() =~= test_res@);
                    assert(log_of(test_res@.push(r)) =~= log_of(test_res@).push(
                        (r.name@, r.status),
                    ));
                    assert(old(persistent_test_state).write_log() + log_of(test_res@.push(r)) =~= (
                    old(persistent_test_state).write_log() + log_of(test_res@)).push(
                        (test.name@, r.status),
                    ));
                    assert(events_of(test_res@.push(r)) =~= events_of(test_res@) + seq![
                        ReporterEvent::Announce(r.name),
                        ReporterEvent::CompleteOne,
                    ]);
                    assert(old(p_indicator).events@ + events_of(test_res@.push(r)) =~= old(
                        p_indicator,
                    ).events@ + events_of(test_res@) + seq![
                        ReporterEvent::Announce(test.name),
                        ReporterEvent::CompleteOne,
                    ]);
                    assert(old(process_aborted).reads() + falses((i + 1) as nat) =~= (old(
                        process_aborted,
                    ).reads() + falses(i as nat)).push(false));
                }
                test_res.push(r);
                i += 1;
            },
            Option::None => {
                let partial = TestSubGroupRunResults { name: sub_group.name.clone(), test_res };
                proof {
                    assert(old(process_aborted).reads() + falses(i as nat) + seq![true] =~= (old(
                        process_aborted,
                    ).reads() + falses(i as nat)).push(true));
                    assert(old(p_indicator).events@ + events_of(partial.test_res@) + seq![
                        ReporterEvent::Announce(sub_group.tests@[i as int].name),
                    ] =~= (old(p_indicator).events@ + events_of(partial.test_res@)).push(
                        ReporterEvent::Announce(test.name),
                    ));
                }
                return (partial, true);
            },
        }
    }
    let done = TestSubGroupRunResults { name: sub_group.name.clone(), test_res };
    proof {
        assert(old(p_indicator).events@ + events_of(done.test_res@) + Seq::<
            ReporterEvent,
        >::empty() =~= old(p_indicator).events@ + events_of(done.test_res@));
        assert(old(process_aborted).reads() + falses(done.test_res@.len()) + Seq::<
            bool,
        >::empty() =~= old(process_aborted).reads() + falses(done.test_res@.len()));
    }
    (done, false)
}

/// Run every sub-group of one group in order, stopping on cancellation.
pub fn run_test_group<B: TestBackend, R: ReferenceReplayer, S: RunStateStore>(
    group: &TestGroup,
    p_indicator: &mut ProgressIndicator,
    persistent_test_state: &mut RunStateEntries,
    store: &mut S,
    process_aborted: &mut CancellationSignal,
    backend: &mut B,
    replayer: &mut R,
) -> (res: (TestGroupRunResults, bool))
    requires
        old(persistent_test_state).wf(),
        old(p_indicator).curr_test + total_in_group(*group) <= u64::MAX,
    ensures
        final(persistent_test_state).wf(),
        final(p_indicator).num_tests == old(p_indicator).num_tests,
        group_results_match(res.0, *group),
        !res.1 ==> group_complete(res.0, *group),
        final(persistent_test_state)@ == recorded_after(
            old(persistent_test_state)@,
            flat_subs(res.0.sub_group_res@),
        ),
        final(persistent_test_state).write_log() == old(persistent_test_state).write_log()
            + log_of(flat_subs(res.0.sub_group_res@)),
        final(p_indicator).curr_test == old(p_indicator).curr_test + flat_subs(
            res.0.sub_group_res@,
        ).len(),
        res.1 ==> exists|n: String|
            final(p_indicator).events@ == old(p_indicator).events@ + events_of(
                flat_subs(res.0.sub_group_res@),
            ) + seq![ReporterEvent::Announce(n)],
        !res.1 ==> final(p_indicator).events@ == old(p_indicator).events@ + events_of(
            flat_subs(res.0.sub_group_res@),
        ),
        final(process_aborted).reads() == old(process_aborted).reads() + falses(
            flat_subs(res.0.sub_group_res@).len(),
        ) + (if res.1 {
            seq![true]
        } else {
            Seq::<bool>::empty()
        }),
        res.1 ==> flat_subs(res.0.sub_group_res@).len() < total_in_group(*group),
        !res.1 ==> flat_subs(res.0.sub_group_res@).len() == total_in_group(*group),
{
    let mut sub_group_res: Vec<TestSubGroupRunResults> = Vec::new();
    let mut i: usize = 0;
    proof {
        assert(flat_subs(sub_group_res@) =~= Seq::<TestRunResult>::empty());
        assert(group.sub_groups@.take(0) =~= Seq::<TestSubGroup>::empty());
        assert(old(p_indicator).events@ + events_of(flat_subs(sub_group_res@)) =~= old(
            p_indicator,
        ).events@);
        assert(old(process_aborted).reads() + falses(0) =~= old(process_aborted).reads());
        assert(old(persistent_test_state).write_log() + log_of(flat_subs(sub_group_res@)) =~= old(
            persistent_test_state,
        ).write_log());
    }
    while i < group.sub_groups.len()
        invariant
            i <= group.sub_groups@.len(),
            sub_group_res@.len() == i,
            forall|j: int|
                0 <= j < i ==> sub_results_match(
                    #[trigger] sub_group_res@[j],
                    group.sub_groups@[j],
                ) && sub_complete(sub_group_res@[j], group.sub_groups@[j]),
            flat_subs(sub_group_res@).len() == total_in_subs(group.sub_groups@.take(i as int)),
            persistent_test_state.wf(),
            persistent_test_state@ == recorded_after(
                old(persistent_test_state)@,
                flat_subs(sub_group_res@),
            ),
            persistent_test_state.write_log() == old(persistent_test_state).write_log() + log_of(
                flat_subs(sub_group_res@),
            ),
            p_indicator.events@ == old(p_indicator).events@ + events_of(flat_subs(sub_group_res@)),
            p_indicator.curr_test == old(p_indicator).curr_test + flat_subs(sub_group_res@).len(),
            p_indicator.num_tests == old(p_indicator).num_tests,
            process_aborted.reads() == old(process_aborted).reads() + falses(
                flat_subs(sub_group_res@).len(),
            ),
            old(p_indicator).curr_test + total_in_group(*group) <= u64::MAX,
        decreases group.sub_groups@.len() - i,
    {
        proof {
            lemma_total_in_subs_take_step(group.sub_groups@, i as int);
            lemma_subs_prefix_bound(group.sub_groups@, i as int + 1);
        }
        let sub = &group.sub_groups[i];
        let (sub_res, aborted) = run_test_sub_group(
            sub,
            p_indicator,
            persistent_test_state,
            store,
            process_aborted,
            backend,
            replayer,
        );
        let ghost prev_seq = sub_group_res@;
        let ghost prev_flat = flat_subs(sub_group_res@);
        sub_group_res.push(sub_res);
        proof {
            assert(sub_group_res@.drop_last() =~= prev_seq);
            assert(flat_subs(sub_group_res@) == flat_subs(sub_group_res@.drop_last())
                + sub_group_res@.last().test_res@);
            assert(flat_subs(sub_group_res@) == prev_flat + sub_res.test_res@);
            lemma_recorded_after_concat(
                old(persistent_test_state)@,
                prev_flat,
                sub_res.test_res@,
            );
            lemma_events_of_concat(prev_flat, sub_res.test_res@);
            assert(log_of(prev_flat + sub_res.test_res@) =~= log_of(prev_flat) + log_of(
                sub_res.test_res@,
            ));
            assert(old(persistent_test_state).write_log() + log_of(flat_subs(sub_group_res@)) =~= (
            old(persistent_test_state).write_log() + log_of(prev_flat)) + log_of(
                sub_res.test_res@,
            ));
            assert(old(p_indicator).events@ + events_of(flat_subs(sub_group_res@)) =~= (old(
                p_indicator,
            ).events@ + events_of(prev_flat)) + events_of(sub_res.test_res@));
            assert(falses(flat_subs(sub_group_res@).len()) =~= falses(prev_flat.len()) + falses(
                sub_res.test_res@.len(),
            ));
            assert(old(process_aborted).reads() + falses(flat_subs(sub_group_res@).len()) =~= (old(
                process_aborted,
            ).reads() + falses(prev_flat.len())) + falses(sub_res.test_res@.len()));
        }
        if aborted {
            let partial = TestGroupRunResults { name: group.name.clone(), sub_group_res };
            proof {
                assert(old(process_aborted).reads() + falses(flat_subs(partial.sub_group_res@).len())
                    + seq![true] =~= (old(process_aborted).reads() + falses(
                    flat_subs(partial.sub_group_res@).len(),
                )).push(true));
                assert(old(p_indicator).events@ + events_of(flat_subs(partial.sub_group_res@))
                    + seq![
                    ReporterEvent::Announce(sub.tests@[sub_res.test_res@.len() as int].name),
                ] =~= (old(p_indicator).events@ + events_of(flat_subs(partial.sub_group_res@))).push(
                    ReporterEvent::Announce(sub.tests@[sub_res.test_res@.len() as int].name),
                ));
            }
            return (partial, true);
        }
        i += 1;
    }
    proof {
        assert(group.sub_groups@.take(group.sub_groups@.len() as int) =~= group.sub_groups@);
        assert(old(process_aborted).reads() + falses(flat_subs(sub_group_res@).len()) + Seq::<
            bool,
        >::empty() =~= old(process_aborted).reads() + falses(flat_subs(sub_group_res@).len()));
    }
    (TestGroupRunResults { name: group.name.clone(), sub_group_res }, false)
}

/// Run the whole corpus: size the progress reporter up front, then walk
/// group -> sub-group -> test in order. Completed with a full mirror of the
/// corpus, or aborted at a cancellation checkpoint with everything finished
/// so far — already recorded and still valid.
pub fn run_tests<B: TestBackend, R: ReferenceReplayer, S: RunStateStore>(
    parsed_tests: &Vec<TestGroup>,
    simple_progress_indicator: bool,
    persistent_test_state: &mut RunStateEntries,
    store: &mut S,
    process_aborted: &mut CancellationSignal,
    backend: &mut B,
    replayer: &mut R,
) -> (res: Result<Vec<TestGroupRunResults>, RunAborted>)
    requires
        old(persistent_test_state).wf(),
        total_in_groups(parsed_tests@) <= u64::MAX,
    ensures
        final(persistent_test_state).wf(),
        match res {
            Result::Ok(rs) => {
                &&& groups_results_match(rs@, parsed_tests@)
                &&& groups_complete(rs@, parsed_tests@)
                &&& flat_groups(rs@).len() == total_in_groups(parsed_tests@)
                &&& final(persistent_test_state)@ == recorded_after(
                    old(persistent_test_state)@,
                    flat_groups(rs@),
                )
                &&& final(persistent_test_state).write_log() == old(
                    persistent_test_state,
                ).write_log() + log_of(flat_groups(rs@))
                &&& final(process_aborted).reads() == old(process_aborted).reads() + falses(
                    flat_groups(rs@).len(),
                )
            },
            Result::Err(a) => {
                &&& groups_results_match(a.completed@, parsed_tests@)
                &&& flat_groups(a.completed@).len() < total_in_groups(parsed_tests@)
                &&& final(persistent_test_state)@ == recorded_after(
                    old(persistent_test_state)@,
                    flat_groups(a.completed@),
                )
                &&& final(persistent_test_state).write_log() == old(
                    persistent_test_state,
                ).write_log() + log_of(flat_groups(a.completed@))
                &&& final(process_aborted).reads() == old(process_aborted).reads() + falses(
                    flat_groups(a.completed@).len(),
                ).push(true)
            },
        },
{
    let num_tests = crate::model::num_tests_in_groups(parsed_tests);
    let mut p_indicator = ProgressIndicator::create(num_tests, simple_progress_indicator);

    let mut results: Vec<TestGroupRunResults> = Vec::new();
    let mut i: usize = 0;
    proof {
        assert(flat_groups(results@) =~= Seq::<TestRunResult>::empty());
        assert(parsed_tests@.take(0) =~= Seq::<TestGroup>::empty());
        assert(old(process_aborted).reads() + falses(0) =~= old(process_aborted).reads());
        assert(old(persistent_test_state).write_log() + log_of(flat_groups(results@)) =~= old(
            persistent_test_state,
        ).write_log());
    }
    while i < parsed_tests.len()
        invariant
            i <= parsed_tests@.len(),
            results@.len() == i,
            forall|j: int|
                0 <= j < i ==> group_results_match(#[trigger] results@[j], parsed_tests@[j])
                    && group_complete(results@[j], parsed_tests@[j]),
            flat_groups(results@).len() == total_in_groups(parsed_tests@.take(i as int)),
            persistent_test_state.wf(),
            persistent_test_state@ == recorded_after(
                old(persistent_test_state)@,
                flat_groups(results@),
            ),
            persistent_test_state.write_log() == old(persistent_test_state).write_log() + log_of(
                flat_groups(results@),
            ),
            p_indicator.curr_test == flat_groups(results@).len(),
            process_aborted.reads() == old(process_aborted).reads() + falses(
                flat_groups(results@).len(),
            ),
            total_in_groups(parsed_tests@) <= u64::MAX,
        decreases parsed_tests@.len() - i,
    {
        proof {
            lemma_total_in_groups_take_step(parsed_tests@, i as int);
            lemma_total_prefix_bound(parsed_tests@, i as int + 1);
        }
        let group = &parsed_tests[i];
        let (group_res, aborted) = run_test_group(
            group,
            &mut p_indicator,
            persistent_test_state,
            store,
            process_aborted,
            backend,
            replayer,
        );
        let ghost prev_seq = results@;
        let ghost prev_flat = flat_groups(results@);
        results.push(group_res);
        proof {
            assert(results@.drop_last() =~= prev_seq);
            assert(flat_groups(results@) == flat_groups(results@.drop_last()) + flat_subs(
                results@.last().sub_group_res@,
            ));
            assert(flat_groups(results@) == prev_flat + flat_subs(
                results@.last().sub_group_res@,
            ));
            lemma_recorded_after_concat(
                old(persistent_test_state)@,
                prev_flat,
                flat_subs(results@.last().sub_group_res@),
            );
            assert(log_of(prev_flat + flat_subs(results@.last().sub_group_res@)) =~= log_of(
                prev_flat,
            ) + log_of(flat_subs(results@.last().sub_group_res@)));
            assert(old(persistent_test_state).write_log() + log_of(flat_groups(results@)) =~= (old(
                persistent_test_state,
            ).write_log() + log_of(prev_flat)) + log_of(
                flat_subs(results@.last().sub_group_res@),
            ));
            assert(falses(flat_groups(results@).len()) =~= falses(prev_flat.len()) + falses(
                flat_subs(results@.last().sub_group_res@).len(),
            ));
            assert(old(process_aborted).reads() + falses(flat_groups(results@).len()) =~= (old(
                process_aborted,
            ).reads() + falses(prev_flat.len())) + falses(
                flat_subs(results@.last().sub_group_res@).len(),
            ));
        }
        if aborted {
            proof {
                assert(old(process_aborted).reads() + falses(flat_groups(results@).len()).push(
                    true,
                ) =~= (old(process_aborted).reads() + falses(flat_groups(results@).len())).push(
                    true,
                ));
            }
            return Err(RunAborted { completed: results });
        }
        i += 1;
    }
    proof {
        assert(parsed_tests@.take(parsed_tests@.len() as int) =~= parsed_tests@);
    }
    Ok(results)
}

} // verus!

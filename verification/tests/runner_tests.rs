use evm_test_runner::cancel::CancellationSignal;
use evm_test_runner::diff::{compute_state_diff, AccountDiffKind};
use evm_test_runner::model::{
    classify, num_tests_in_groups, AccountRecord, Address, BackendResponse, Bytes32, Test,
    TestGroup, TestRunInfo, TestStatus, TestSubGroup, TrieComparisonResult,
};
use evm_test_runner::progress::ProgressIndicator;
use evm_test_runner::run_state::RunStateEntries;
use evm_test_runner::persist::{decode_entry, encode_entry};
use evm_test_runner::runner::{
    run_test_and_get_test_result, run_tests, NoReplayer, NoStore, ReferenceReplayer, ReplayError,
    RunStateStore, TestBackend,
};

fn b32(x: u8) -> Bytes32 {
    let mut bytes = [0u8; 32];
    bytes[0] = x;
    Bytes32 { bytes }
}

fn addr(x: u8) -> Address {
    let mut bytes = [0u8; 20];
    bytes[0] = x;
    Address { bytes }
}

fn record(balance: u8, nonce: u64) -> AccountRecord {
    AccountRecord {
        balance: b32(balance),
        nonce,
        code_hash: b32(0),
        storage: Vec::new(),
    }
}

fn test_vector(name: &str, expected: Bytes32, snapshot: Option<Vec<u8>>) -> Test {
    Test {
        name: name.to_string(),
        info: TestRunInfo {
            gen_inputs: vec![0u8],
            expected_state_root: expected,
            snapshot,
        },
    }
}

/// A backend scripted with one response per test, in order.
struct ScriptedBackend {
    roots: Vec<Result<Bytes32, String>>,
    calls: usize,
    cancel_on_call: Option<(usize, CancellationSignal)>,
}

impl TestBackend for ScriptedBackend {
    fn execute(&mut self, _gen_inputs: &Vec<u8>) -> BackendResponse {
        let i = self.calls;
        self.calls += 1;
        if let Some((k, signal)) = &self.cancel_on_call {
            if i == *k {
                signal.set();
            }
        }
        match &self.roots[i] {
            Ok(root) => BackendResponse::Evaluated {
                state_root: Bytes32 { bytes: root.bytes },
                accounts: Vec::new(),
            },
            Err(msg) => BackendResponse::EvmError(msg.clone()),
        }
    }
}

/// Records every persisted entry, in order, as the durable store would.
struct RecordingStore {
    log: Vec<(String, String)>,
}

impl RunStateStore for RecordingStore {
    fn persist(&mut self, name: &String, status: &TestStatus) {
        self.log.push((name.clone(), status.render()));
    }
}

struct ScriptedReplayer {
    accounts: Vec<(Address, AccountRecord)>,
}

impl ReferenceReplayer for ScriptedReplayer {
    fn replay(&mut self, _snapshot: &Vec<u8>) -> Result<Vec<(Address, AccountRecord)>, ReplayError> {
        let mut out = Vec::new();
        for (a, r) in &self.accounts {
            out.push((
                Address { bytes: a.bytes },
                AccountRecord {
                    balance: r.balance,
                    nonce: r.nonce,
                    code_hash: r.code_hash,
                    storage: r.storage.clone(),
                },
            ));
        }
        Ok(out)
    }
}

#[test]
fn classify_equal_roots_passes() {
    let resp = BackendResponse::Evaluated { state_root: b32(1), accounts: Vec::new() };
    let status = classify(&resp, &b32(1));
    assert!(status.passed());
}

#[test]
fn classify_unequal_roots_reports_difference_and_placeholders() {
    let resp = BackendResponse::Evaluated { state_root: b32(3), accounts: Vec::new() };
    let status = classify(&resp, &b32(2));
    match status {
        TestStatus::IncorrectAccountFinalState(d) => {
            match d.state {
                TrieComparisonResult::Difference(actual, expected) => {
                    assert_eq!(actual.bytes[0], 3);
                    assert_eq!(expected.bytes[0], 2);
                }
                _ => panic!("state comparison must be a difference"),
            }
            assert!(matches!(d.receipt, TrieComparisonResult::Correct));
            assert!(matches!(d.transaction, TrieComparisonResult::Correct));
        }
        _ => panic!("expected a state mismatch"),
    }
}

#[test]
fn classify_domain_error_is_recorded_not_fatal() {
    let resp = BackendResponse::EvmError("invalid txn".to_string());
    let status = classify(&resp, &b32(1));
    match status {
        TestStatus::EvmErr(msg) => assert_eq!(msg, "invalid txn"),
        _ => panic!("expected a backend error status"),
    }
}

#[test]
fn num_tests_counts_whole_corpus() {
    let corpus = vec![
        TestGroup {
            name: "g1".to_string(),
            sub_groups: vec![
                TestSubGroup {
                    name: "s1".to_string(),
                    tests: vec![test_vector("a", b32(1), None), test_vector("b", b32(1), None)],
                },
                TestSubGroup { name: "s2".to_string(), tests: vec![test_vector("c", b32(1), None)] },
            ],
        },
        TestGroup { name: "g2".to_string(), sub_groups: Vec::new() },
    ];
    assert_eq!(num_tests_in_groups(&corpus), 3);
}

#[test]
fn example_scenario_two_tests_one_mismatch() {
    // One group "frontier" -> one subgroup "create" -> T1 (expected H1,
    // backend returns H1) and T2 (expected H2, backend returns H3).
    let corpus = vec![TestGroup {
        name: "frontier".to_string(),
        sub_groups: vec![TestSubGroup {
            name: "create".to_string(),
            tests: vec![test_vector("T1", b32(1), None), test_vector("T2", b32(2), None)],
        }],
    }];
    let mut backend = ScriptedBackend {
        roots: vec![Ok(b32(1)), Ok(b32(3))],
        calls: 0,
        cancel_on_call: None,
    };
    let mut state = RunStateEntries::new();
    let mut store = RecordingStore { log: Vec::new() };
    let mut cancel = CancellationSignal::new();
    let mut replayer = NoReplayer {};
    let res = run_tests(&corpus, true, &mut state, &mut store, &mut cancel, &mut backend, &mut replayer);
    let groups = res.expect("run must complete");
    assert_eq!(groups.len(), 1);
    assert_eq!(groups[0].name, "frontier");
    assert_eq!(groups[0].sub_group_res.len(), 1);
    assert_eq!(groups[0].sub_group_res[0].name, "create");
    let tests = &groups[0].sub_group_res[0].test_res;
    assert_eq!(tests.len(), 2);
    assert_eq!(tests[0].name, "T1");
    assert!(tests[0].status.passed());
    assert_eq!(tests[1].name, "T2");
    match &tests[1].status {
        TestStatus::IncorrectAccountFinalState(d) => match &d.state {
            TrieComparisonResult::Difference(actual, expected) => {
                assert_eq!(actual.bytes[0], 3);
                assert_eq!(expected.bytes[0], 2);
            }
            _ => panic!("state comparison must be a difference"),
        },
        _ => panic!("T2 must be a state mismatch"),
    }
    assert_eq!(state.len(), 2);
    assert!(state.get(&"T1".to_string()).expect("T1 recorded").passed());
    assert!(!state.get(&"T2".to_string()).expect("T2 recorded").passed());
    // The durable store saw exactly one entry per completed test, in order.
    assert_eq!(store.log.len(), 2);
    assert_eq!(store.log[0].0, "T1");
    assert_eq!(store.log[0].1, "Passed");
    assert_eq!(store.log[1].0, "T2");
    assert!(store.log[1].1.starts_with("Expected trie hash mismatch: "));
}

#[test]
fn cancellation_before_first_test_records_nothing() {
    let corpus = vec![TestGroup {
        name: "g".to_string(),
        sub_groups: vec![TestSubGroup {
            name: "s".to_string(),
            tests: vec![test_vector("t1", b32(1), None), test_vector("t2", b32(1), None)],
        }],
    }];
    let mut backend = ScriptedBackend { roots: vec![Ok(b32(1)), Ok(b32(1))], calls: 0, cancel_on_call: None };
    let mut state = RunStateEntries::new();
    let mut store = RecordingStore { log: Vec::new() };
    let mut cancel = CancellationSignal::new();
    cancel.set();
    let mut replayer = NoReplayer {};
    let res = run_tests(&corpus, true, &mut state, &mut store, &mut cancel, &mut backend, &mut replayer);
    let aborted = res.err().expect("run must abort");
    assert_eq!(state.len(), 0);
    // The partially traversed path is present, with no completed outcome.
    assert_eq!(aborted.completed.len(), 1);
    assert_eq!(aborted.completed[0].sub_group_res.len(), 1);
    assert_eq!(aborted.completed[0].sub_group_res[0].test_res.len(), 0);
    // The first test ran (announced and executed) but its outcome was
    // discarded, and no further test started.
    assert_eq!(backend.calls, 1);
    assert_eq!(store.log.len(), 0);
}

#[test]
fn cancellation_after_k_tests_keeps_exactly_k_outcomes() {
    let corpus = vec![TestGroup {
        name: "g".to_string(),
        sub_groups: vec![TestSubGroup {
            name: "s".to_string(),
            tests: vec![
                test_vector("t1", b32(1), None),
                test_vector("t2", b32(1), None),
                test_vector("t3", b32(1), None),
            ],
        }],
    }];
    let cancel = CancellationSignal::new();
    // The signal is set while test 2 is executing: test 1's outcome stays,
    // test 2's is discarded, test 3 never starts.
    let mut backend = ScriptedBackend {
        roots: vec![Ok(b32(1)), Ok(b32(1)), Ok(b32(1))],
        calls: 0,
        cancel_on_call: Some((1, cancel.handle())),
    };
    let mut state = RunStateEntries::new();
    let mut store = RecordingStore { log: Vec::new() };
    let mut run_handle = cancel.handle();
    let mut replayer = NoReplayer {};
    let res = run_tests(&corpus, true, &mut state, &mut store, &mut run_handle, &mut backend, &mut replayer);
    let aborted = res.err().expect("run must abort");
    assert_eq!(state.len(), 1);
    assert!(state.get(&"t1".to_string()).expect("t1 recorded").passed());
    assert!(state.get(&"t2".to_string()).is_none());
    let tests = &aborted.completed[0].sub_group_res[0].test_res;
    assert_eq!(tests.len(), 1);
    assert_eq!(tests[0].name, "t1");
    assert_eq!(backend.calls, 2);
    // Only t1 was handed to the durable store; the aborted t2 was not.
    assert_eq!(store.log.len(), 1);
    assert_eq!(store.log[0].0, "t1");
}

#[test]
fn rerun_overwrites_corpus_entries_and_keeps_foreign_ones() {
    let corpus = vec![TestGroup {
        name: "g".to_string(),
        sub_groups: vec![TestSubGroup {
            name: "s".to_string(),
            tests: vec![test_vector("t1", b32(1), None)],
        }],
    }];
    let preload = vec![
        ("t1".to_string(), TestStatus::EvmErr("old failure".to_string())),
        ("gone-from-corpus".to_string(), TestStatus::Passed),
    ];
    let mut state = RunStateEntries::from_entries(preload);
    assert_eq!(state.len(), 2);
    let mut backend = ScriptedBackend { roots: vec![Ok(b32(1))], calls: 0, cancel_on_call: None };
    let mut store = RecordingStore { log: Vec::new() };
    let mut cancel = CancellationSignal::new();
    let mut replayer = NoReplayer {};
    run_tests(&corpus, true, &mut state, &mut store, &mut cancel, &mut backend, &mut replayer)
        .expect("run must complete");
    assert_eq!(state.len(), 2);
    assert!(state.get(&"t1".to_string()).expect("t1 re-recorded").passed());
    assert!(state.get(&"gone-from-corpus".to_string()).expect("foreign entry kept").passed());
}

#[test]
fn diff_produced_only_on_mismatch_with_snapshot() {
    let mut replayer = ScriptedReplayer { accounts: vec![(addr(1), record(5, 1))] };

    // Mismatch with a snapshot: the diff is produced.
    let info = TestRunInfo {
        gen_inputs: vec![0u8],
        expected_state_root: b32(2),
        snapshot: Some(vec![1u8]),
    };
    let mut backend = ScriptedBackend { roots: vec![Ok(b32(9))], calls: 0, cancel_on_call: None };
    let (status, diag) = run_test_and_get_test_result(&info, &mut backend, &mut replayer);
    assert!(matches!(status, TestStatus::IncorrectAccountFinalState(_)));
    let diag = diag.expect("diff expected on mismatch with snapshot");
    assert_eq!(diag.entries.len(), 1);
    assert!(matches!(diag.entries[0].kind, AccountDiffKind::MissingInBackend));

    // Mismatch without a snapshot: no diff.
    let info = TestRunInfo { gen_inputs: vec![0u8], expected_state_root: b32(2), snapshot: None };
    let mut backend = ScriptedBackend { roots: vec![Ok(b32(9))], calls: 0, cancel_on_call: None };
    let (status, diag) = run_test_and_get_test_result(&info, &mut backend, &mut replayer);
    assert!(matches!(status, TestStatus::IncorrectAccountFinalState(_)));
    assert!(diag.is_none());

    // Match: no diff even with a snapshot.
    let info = TestRunInfo {
        gen_inputs: vec![0u8],
        expected_state_root: b32(9),
        snapshot: Some(vec![1u8]),
    };
    let mut backend = ScriptedBackend { roots: vec![Ok(b32(9))], calls: 0, cancel_on_call: None };
    let (status, diag) = run_test_and_get_test_result(&info, &mut backend, &mut replayer);
    assert!(status.passed());
    assert!(diag.is_none());

    // Replay failure: degrades silently to no diff, status unchanged.
    let info = TestRunInfo {
        gen_inputs: vec![0u8],
        expected_state_root: b32(2),
        snapshot: Some(vec![1u8]),
    };
    let mut backend = ScriptedBackend { roots: vec![Ok(b32(9))], calls: 0, cancel_on_call: None };
    let mut failing = NoReplayer {};
    let (status, diag) = run_test_and_get_test_result(&info, &mut backend, &mut failing);
    assert!(matches!(status, TestStatus::IncorrectAccountFinalState(_)));
    assert!(diag.is_none());
}

#[test]
fn state_diff_compares_by_address_and_fields() {
    // Equal sets: empty diff.
    let a = vec![(addr(1), record(5, 1)), (addr(2), record(7, 0))];
    let b = vec![(addr(2), record(7, 0)), (addr(1), record(5, 1))];
    assert_eq!(compute_state_diff(&a, &b).entries.len(), 0);

    // One missing on each side, one field mismatch.
    let reference = vec![(addr(1), record(5, 1)), (addr(3), record(1, 0))];
    let backend = vec![(addr(1), record(6, 1)), (addr(4), record(2, 0))];
    let d = compute_state_diff(&reference, &backend);
    assert_eq!(d.entries.len(), 3);
    for e in &d.entries {
        match (e.address.bytes[0], &e.kind) {
            (1, AccountDiffKind::Mismatch) => {}
            (3, AccountDiffKind::MissingInBackend) => {}
            (4, AccountDiffKind::MissingInReference) => {}
            _ => panic!("unexpected diff entry"),
        }
    }
}

#[test]
fn storage_slots_compared_as_a_mapping() {
    let mut left = record(5, 1);
    left.storage = vec![(b32(1), b32(10)), (b32(2), b32(20))];
    let mut right = record(5, 1);
    right.storage = vec![(b32(2), b32(20)), (b32(1), b32(10))];
    let reference = vec![(addr(1), left)];
    let backend = vec![(addr(1), right)];
    // Same mapping, different listing order: no divergence.
    assert_eq!(compute_state_diff(&reference, &backend).entries.len(), 0);

    let mut changed = record(5, 1);
    changed.storage = vec![(b32(2), b32(21)), (b32(1), b32(10))];
    let backend = vec![(addr(1), changed)];
    let d = compute_state_diff(&reference, &backend);
    assert_eq!(d.entries.len(), 1);
    assert!(matches!(d.entries[0].kind, AccountDiffKind::Mismatch));
}

#[test]
fn run_state_len_counts_unique_names() {
    let mut state = RunStateEntries::new();
    state.update_test_state(&"a".to_string(), TestStatus::Passed);
    state.update_test_state(&"b".to_string(), TestStatus::EvmErr("x".to_string()));
    state.update_test_state(&"a".to_string(), TestStatus::Passed);
    assert_eq!(state.len(), 2);
}

#[test]
fn progress_indicator_counts_completions() {
    let mut p = ProgressIndicator::create(2, true);
    p.set_current_test_name(&"t1".to_string());
    p.notify_test_completed();
    p.set_current_test_name(&"t2".to_string());
    p.notify_test_completed();
    assert_eq!(p.curr_test, 2);
    assert_eq!(p.num_tests, 2);
}

#[test]
fn status_render_matches_fixed_text() {
    assert_eq!(TestStatus::Passed.render(), "Passed");
    assert_eq!(
        TestStatus::EvmErr("invalid txn".to_string()).render(),
        "Evm error: invalid txn"
    );
    let status = classify(
        &BackendResponse::Evaluated { state_root: b32(3), accounts: Vec::new() },
        &b32(2),
    );
    let hex3 = format!("03{}", "00".repeat(31));
    let hex2 = format!("02{}", "00".repeat(31));
    let expected = format!(
        "Expected trie hash mismatch: State: Difference (Actual: 0x{}, Expected: 0x{}), \
         Receipt: Correct, Transaction: Correct",
        hex3, hex2
    );
    assert_eq!(status.render(), expected);
}

#[test]
fn hex_rendering_covers_all_nibbles() {
    let mut bytes = [0u8; 32];
    bytes[0] = 0x01;
    bytes[1] = 0x23;
    bytes[2] = 0x45;
    bytes[3] = 0x67;
    bytes[4] = 0x89;
    bytes[5] = 0xab;
    bytes[6] = 0xcd;
    bytes[7] = 0xef;
    bytes[31] = 0xff;
    let h = Bytes32 { bytes }.render_hex();
    assert_eq!(h.len(), 64);
    assert!(h.starts_with("0123456789abcdef"));
    assert!(h.ends_with("ff"));
}

#[test]
fn entry_codec_round_trips_every_variant() {
    let cases = vec![
        ("plain".to_string(), TestStatus::Passed),
        (
            "errored".to_string(),
            TestStatus::EvmErr("stack underflow at pc 7".to_string()),
        ),
        (
            "mismatched".to_string(),
            classify(
                &BackendResponse::Evaluated { state_root: b32(9), accounts: Vec::new() },
                &b32(4),
            ),
        ),
    ];
    for (name, status) in cases {
        let line = encode_entry(&name, &status);
        let (back_name, back_status) =
            decode_entry(&line).expect("an encoded entry must decode");
        assert_eq!(back_name, name);
        assert_eq!(back_status.render(), status.render());
        assert_eq!(encode_entry(&back_name, &back_status), line);
    }
}

#[test]
fn decode_rejects_malformed_lines() {
    assert!(decode_entry(&"no tab at all".to_string()).is_none());
    assert!(decode_entry(&"name\tunknown-tag".to_string()).is_none());
    assert!(decode_entry(&"name\tstate-mismatch\tnot-hex\tcorrect\tcorrect".to_string()).is_none());
    assert!(decode_entry(&String::new()).is_none());
    // A well-formed line decodes.
    assert!(decode_entry(&"name\tpassed".to_string()).is_some());
    assert!(decode_entry(&"name\tevm-err\tsome message".to_string()).is_some());
}

#[test]
fn fancy_reporter_runs_the_same_corpus() {
    // Same run as the line reporter, through the live-bar reporter: the
    // recorded outcomes and the persisted entries must be identical.
    let corpus = vec![TestGroup {
        name: "g".to_string(),
        sub_groups: vec![TestSubGroup {
            name: "s".to_string(),
            tests: vec![test_vector("t1", b32(1), None), test_vector("t2", b32(2), None)],
        }],
    }];
    let mut backend = ScriptedBackend {
        roots: vec![Ok(b32(1)), Ok(b32(7))],
        calls: 0,
        cancel_on_call: None,
    };
    let mut state = RunStateEntries::new();
    let mut store = RecordingStore { log: Vec::new() };
    let mut cancel = CancellationSignal::new();
    let mut replayer = NoReplayer {};
    let groups = run_tests(&corpus, false, &mut state, &mut store, &mut cancel, &mut backend, &mut replayer)
        .expect("run must complete");
    assert_eq!(groups[0].sub_group_res[0].test_res.len(), 2);
    assert_eq!(state.len(), 2);
    assert_eq!(store.log.len(), 2);
    assert!(state.get(&"t1".to_string()).expect("t1 recorded").passed());
    assert!(!state.get(&"t2".to_string()).expect("t2 recorded").passed());
}

#[test]
fn decoder_is_complete_for_encodable_entries() {
    // A message may contain the separator and even newlines: the name is
    // the only field the format restricts.
    let awkward = TestStatus::EvmErr("first line\nsecond\tcolumn".to_string());
    let line = encode_entry(&"vector-7".to_string(), &awkward);
    let (name, status) = decode_entry(&line).expect("every encodable entry decodes");
    assert_eq!(name, "vector-7");
    assert_eq!(status.render(), awkward.render());

    // A name containing a tab collides with the separator: such an entry
    // is not encodable, and the decoder refuses the ambiguous line.
    let line = encode_entry(&"bad\tname".to_string(), &TestStatus::Passed);
    assert!(decode_entry(&line).is_none());
}

#[test]
fn run_without_durable_store_still_records_in_memory() {
    let corpus = vec![TestGroup {
        name: "g".to_string(),
        sub_groups: vec![TestSubGroup {
            name: "s".to_string(),
            tests: vec![test_vector("t1", b32(1), None)],
        }],
    }];
    let mut backend = ScriptedBackend { roots: vec![Ok(b32(1))], calls: 0, cancel_on_call: None };
    let mut state = RunStateEntries::new();
    let mut store = NoStore {};
    let mut cancel = CancellationSignal::new();
    let mut replayer = NoReplayer {};
    run_tests(&corpus, true, &mut state, &mut store, &mut cancel, &mut backend, &mut replayer)
        .expect("run must complete");
    assert_eq!(state.len(), 1);
}

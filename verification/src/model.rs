//! Data model: test corpus hierarchy, per-test statuses, run result trees,
//! backend responses, and the pure status classification.

use vstd::prelude::*;

verus! {

/// A 32-byte word: a state commitment (trie root hash), a balance,
/// or a storage slot/value.
#[derive(Clone, Copy, Debug)]
pub struct Bytes32 {
    pub bytes: [u8; 32],
}

/// A 20-byte account address.
#[derive(Clone, Copy, Debug)]
pub struct Address {
    pub bytes: [u8; 20],
}

impl Bytes32 {
    pub open spec fn eq_spec(self, other: Bytes32) -> bool {
        self.bytes@ == other.bytes@
    }

    /// Bit-exact equality of two 32-byte words.
    pub fn eq_value(&self, other: &Bytes32) -> (r: bool)
        ensures
            r == self.eq_spec(*other),
    {
        let mut i: usize = 0;
        while i < 32
            invariant
                i <= 32,
                forall|j: int| 0 <= j < i ==> self.bytes@[j] == other.bytes@[j],
            decreases 32 - i,
        {
            if self.bytes[i] != other.bytes[i] {
                return false;
            }
            i += 1;
        }
        proof {
            assert(self.bytes@ =~= other.bytes@);
        }
        true
    }
}

impl Address {
    pub open spec fn eq_spec(self, other: Address) -> bool {
        self.bytes@ == other.bytes@
    }

    /// Bit-exact equality of two addresses.
    pub fn eq_value(&self, other: &Address) -> (r: bool)
        ensures
            r == self.eq_spec(*other),
    {
        let mut i: usize = 0;
        while i < 20
            invariant
                i <= 20,
                forall|j: int| 0 <= j < i ==> self.bytes@[j] == other.bytes@[j],
            decreases 20 - i,
        {
            if self.bytes[i] != other.bytes[i] {
                return false;
            }
            i += 1;
        }
        proof {
            assert(self.bytes@ =~= other.bytes@);
        }
        true
    }
}

/// Everything needed to run one test vector: the backend-ready execution
/// input (already encoded for the backend), the expected post-state
/// commitment, and an optional serialized reference-interpreter snapshot
/// usable to replay the vector for diagnostics.
pub struct TestRunInfo {
    pub gen_inputs: Vec<u8>,
    pub expected_state_root: Bytes32,
    pub snapshot: Option<Vec<u8>>,
}

/// A single named test vector.
pub struct Test {
    pub name: String,
    pub info: TestRunInfo,
}

/// A named collection of tests.
pub struct TestSubGroup {
    pub name: String,
    pub tests: Vec<Test>,
}

/// A named collection of sub-groups; the top level of the corpus hierarchy.
pub struct TestGroup {
    pub name: String,
    pub sub_groups: Vec<TestSubGroup>,
}

/// The result of comparing one trie root the backend produced with the one
/// the test expects.
#[derive(Debug)]
pub enum TrieComparisonResult {
    Correct,
    Difference(Bytes32, Bytes32),
}

impl TrieComparisonResult {
    /// An equal copy of this comparison result.
    pub fn duplicate(&self) -> (r: TrieComparisonResult)
        ensures
            r == *self,
    {
        match self {
            TrieComparisonResult::Correct => TrieComparisonResult::Correct,
            TrieComparisonResult::Difference(a, e) => TrieComparisonResult::Difference(*a, *e),
        }
    }
}

/// Which of the three final trie commitments diverged. All three are
/// evaluated independently; more than one may differ.
#[derive(Debug)]
pub struct TrieFinalStateDiff {
    pub state: TrieComparisonResult,
    pub receipt: TrieComparisonResult,
    pub transaction: TrieComparisonResult,
}

/// The recorded outcome of one test. Exactly one variant holds; no partial
/// status is ever recorded.
#[derive(Debug)]
pub enum TestStatus {
    Passed,
    EvmErr(String),
    IncorrectAccountFinalState(TrieFinalStateDiff),
}

impl TestStatus {
    /// An equal copy of this status; unlike a derived clone, the copy is
    /// known to be the same value.
    pub fn duplicate(&self) -> (r: TestStatus)
        ensures
            r == *self,
    {
        match self {
            TestStatus::Passed => TestStatus::Passed,
            TestStatus::EvmErr(msg) => TestStatus::EvmErr(msg.clone()),
            TestStatus::IncorrectAccountFinalState(d) => {
                TestStatus::IncorrectAccountFinalState(
                    TrieFinalStateDiff {
                        state: d.state.duplicate(),
                        receipt: d.receipt.duplicate(),
                        transaction: d.transaction.duplicate(),
                    },
                )
            },
        }
    }

    /// Whether this status records a pass.
    pub fn passed(&self) -> (r: bool)
        ensures
            r == (self is Passed),
    {
        matches!(self, TestStatus::Passed)
    }
}

/// What the backend reported for one test: either its post-execution state
/// commitment together with its per-account outputs, or a domain error
/// (e.g. an invalid transaction).
pub enum BackendResponse {
    Evaluated { state_root: Bytes32, accounts: Vec<(Address, AccountRecord)> },
    EvmError(String),
}

/// A normalized post-execution account record, used only for diagnostics.
pub struct AccountRecord {
    pub balance: Bytes32,
    pub nonce: u64,
    pub code_hash: Bytes32,
    pub storage: Vec<(Bytes32, Bytes32)>,
}

/// The status that classifying `resp` against `expected` must yield:
/// a domain error is recorded as `EvmErr`; an equal state commitment is a
/// pass; an unequal one is a mismatch whose state field carries
/// `Difference(actual, expected)` while the receipt and transaction fields
/// stay `Correct` until the backend surfaces those commitments.
pub open spec fn status_for(resp: BackendResponse, expected: Bytes32) -> TestStatus {
    match resp {
        BackendResponse::EvmError(msg) => TestStatus::EvmErr(msg),
        BackendResponse::Evaluated { state_root, accounts } => {
            if state_root.eq_spec(expected) {
                TestStatus::Passed
            } else {
                TestStatus::IncorrectAccountFinalState(
                    TrieFinalStateDiff {
                        state: TrieComparisonResult::Difference(state_root, expected),
                        receipt: TrieComparisonResult::Correct,
                        transaction: TrieComparisonResult::Correct,
                    },
                )
            }
        },
    }
}

/// A status has the shape classification gives it for `expected`: a
/// mismatch always compares against the test's own expected commitment,
/// differs from it, and carries `Correct` placeholders elsewhere.
pub open spec fn classified(s: TestStatus, expected: Bytes32) -> bool {
    match s {
        TestStatus::Passed => true,
        TestStatus::EvmErr(_) => true,
        TestStatus::IncorrectAccountFinalState(d) => {
            &&& d.receipt is Correct
            &&& d.transaction is Correct
            &&& match d.state {
                TrieComparisonResult::Difference(actual, exp) => {
                    exp.eq_spec(expected) && !actual.eq_spec(expected)
                },
                TrieComparisonResult::Correct => false,
            }
        },
    }
}

/// Classification is pure: `(backend response, expected commitment) ->
/// status`, with no other inputs.
pub fn classify(resp: &BackendResponse, expected: &Bytes32) -> (s: TestStatus)
    ensures
        s == status_for(*resp, *expected),
{
    match resp {
        BackendResponse::EvmError(msg) => TestStatus::EvmErr(msg.clone()),
        BackendResponse::Evaluated { state_root, accounts: _ } => {
            if state_root.eq_value(expected) {
                TestStatus::Passed
            } else {
                TestStatus::IncorrectAccountFinalState(
                    TrieFinalStateDiff {
                        state: TrieComparisonResult::Difference(*state_root, *expected),
                        receipt: TrieComparisonResult::Correct,
                        transaction: TrieComparisonResult::Correct,
                    },
                )
            }
        },
    }
}

/// Every status classification can produce satisfies `classified`.
pub proof fn lemma_status_for_classified(resp: BackendResponse, expected: Bytes32)
    ensures
        classified(status_for(resp, expected), expected),
{
}

/// The outcome of one test, as reported back up the result tree.
#[derive(Debug)]
pub struct TestRunResult {
    pub name: String,
    pub status: TestStatus,
}

/// Per-sub-group results, mirroring the input sub-group.
#[derive(Debug)]
pub struct TestSubGroupRunResults {
    pub name: String,
    pub test_res: Vec<TestRunResult>,
}

/// Per-group results, mirroring the input group.
#[derive(Debug)]
pub struct TestGroupRunResults {
    pub name: String,
    pub sub_group_res: Vec<TestSubGroupRunResults>,
}

/// Number of tests in one sub-group.
pub open spec fn total_in_sub(s: TestSubGroup) -> nat {
    s.tests@.len()
}

/// Number of tests in a sequence of sub-groups.
pub open spec fn total_in_subs(ss: Seq<TestSubGroup>) -> nat
    decreases ss.len(),
{
    if ss.len() == 0 {
        0
    } else {
        total_in_subs(ss.drop_last()) + total_in_sub(ss.last())
    }
}

/// Number of tests in one group.
pub open spec fn total_in_group(g: TestGroup) -> nat {
    total_in_subs(g.sub_groups@)
}

/// Number of tests in a whole corpus.
pub open spec fn total_in_groups(gs: Seq<TestGroup>) -> nat
    decreases gs.len(),
{
    if gs.len() == 0 {
        0
    } else {
        total_in_groups(gs.drop_last()) + total_in_group(gs.last())
    }
}

pub proof fn lemma_total_in_subs_take_step(ss: Seq<TestSubGroup>, i: int)
    requires
        0 <= i < ss.len(),
    ensures
        total_in_subs(ss.take(i + 1)) == total_in_subs(ss.take(i)) + total_in_sub(ss[i]),
{
    assert(ss.take(i + 1).drop_last() =~= ss.take(i));
    assert(ss.take(i + 1).last() == ss[i]);
}

pub proof fn lemma_total_in_groups_take_step(gs: Seq<TestGroup>, i: int)
    requires
        0 <= i < gs.len(),
    ensures
        total_in_groups(gs.take(i + 1)) == total_in_groups(gs.take(i)) + total_in_group(gs[i]),
{
    assert(gs.take(i + 1).drop_last() =~= gs.take(i));
    assert(gs.take(i + 1).last() == gs[i]);
}

/// Total number of tests across the whole corpus, computed up front for
/// progress-bar sizing.
pub fn num_tests_in_groups(groups: &Vec<TestGroup>) -> (n: u64)
    requires
        total_in_groups(groups@) <= u64::MAX,
    ensures
        n == total_in_groups(groups@),
{
    let mut n: u64 = 0;
    let mut i: usize = 0;
    proof {
        assert(groups@.take(0) =~= Seq::<TestGroup>::empty());
    }
    while i < groups.len()
        invariant
            i <= groups@.len(),
            n == total_in_groups(groups@.take(i as int)),
            total_in_groups(groups@) <= u64::MAX,
        decreases groups@.len() - i,
    {
        proof {
            lemma_total_in_groups_take_step(groups@, i as int);
            lemma_total_prefix_bound(groups@, i as int + 1);
        }
        let g = &groups[i];
        let mut m: u64 = 0;
        let mut j: usize = 0;
        proof {
            assert(g.sub_groups@.take(0) =~= Seq::<TestSubGroup>::empty());
        }
        while j < g.sub_groups.len()
            invariant
                j <= g.sub_groups@.len(),
                m == total_in_subs(g.sub_groups@.take(j as int)),
                total_in_groups(groups@.take(i as int)) + total_in_group(*g) <= u64::MAX,
                n == total_in_groups(groups@.take(i as int)),
                g == &groups@[i as int],
                i < groups@.len(),
                total_in_groups(groups@) <= u64::MAX,
            decreases g.sub_groups@.len() - j,
        {
            proof {
                lemma_total_in_subs_take_step(g.sub_groups@, j as int);
                lemma_subs_prefix_bound(g.sub_groups@, j as int + 1);
            }
            m = m + g.sub_groups[j].tests.len() as u64;
            j += 1;
        }
        proof {
            assert(g.sub_groups@.take(g.sub_groups@.len() as int) =~= g.sub_groups@);
            lemma_total_in_groups_take_step(groups@, i as int);
        }
        n = n + m;
        i += 1;
    }
    proof {
        assert(groups@.take(groups@.len() as int) =~= groups@);
    }
    n
}

/// A prefix of a sub-group sequence never counts more tests than the whole.
pub proof fn lemma_subs_prefix_bound(ss: Seq<TestSubGroup>, i: int)
    requires
        0 <= i <= ss.len(),
    ensures
        total_in_subs(ss.take(i)) <= total_in_subs(ss),
    decreases ss.len() - i,
{
    if i < ss.len() {
        lemma_total_in_subs_take_step(ss, i);
        lemma_subs_prefix_bound(ss, i + 1);
    } else {
        assert(ss.take(i) =~= ss);
    }
}

/// A prefix of the corpus never counts more tests than the whole.
pub proof fn lemma_total_prefix_bound(gs: Seq<TestGroup>, i: int)
    requires
        0 <= i <= gs.len(),
    ensures
        total_in_groups(gs.take(i)) <= total_in_groups(gs),
    decreases gs.len() - i,
{
    if i < gs.len() {
        lemma_total_in_groups_take_step(gs, i);
        lemma_total_prefix_bound(gs, i + 1);
    } else {
        assert(gs.take(i) =~= gs);
    }
}

} // verus!

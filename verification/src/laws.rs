//! Laws relating the orchestrator's contracts: what the recorded run state
//! and the reporter event stream look like for any sequence of per-test
//! outcomes a run produces.

use vstd::prelude::*;
use crate::model::{Test, TestGroup, TestRunResult, TestStatus, TestSubGroup};
use crate::progress::{events_of, ReporterEvent};
use crate::runner::{
    flat_groups, flat_subs, group_complete, group_results_match, groups_results_match,
    recorded_after, results_match, sub_complete, sub_results_match,
};

verus! {

/// All tests of a sequence of sub-groups, in traversal order.
pub open spec fn flat_sub_tests(ss: Seq<TestSubGroup>) -> Seq<Test>
    decreases ss.len(),
{
    if ss.len() == 0 {
        Seq::empty()
    } else {
        flat_sub_tests(ss.drop_last()) + ss.last().tests@
    }
}

/// All tests of a corpus, in traversal order.
pub open spec fn flat_corpus_tests(gs: Seq<TestGroup>) -> Seq<Test>
    decreases gs.len(),
{
    if gs.len() == 0 {
        Seq::empty()
    } else {
        flat_corpus_tests(gs.drop_last()) + flat_sub_tests(gs.last().sub_groups@)
    }
}

/// The corpus invariant: test names are unique across the whole run.
pub open spec fn corpus_names_unique(gs: Seq<TestGroup>) -> bool {
    forall|i: int, j: int|
        0 <= i < j < flat_corpus_tests(gs).len() ==> flat_corpus_tests(gs)[i].name@
            != flat_corpus_tests(gs)[j].name@
}

/// The names of the tests a result sequence covers.
pub open spec fn result_names(rs: Seq<TestRunResult>) -> Set<Seq<char>> {
    Set::new(|k: Seq<char>| exists|i: int| 0 <= i < rs.len() && rs[i].name@ == k)
}

/// Recording a run's results adds exactly the names of the tests that ran
/// to the store's domain: no entry for a test that was not reached.
pub proof fn lemma_recorded_domain(m: Map<Seq<char>, TestStatus>, rs: Seq<TestRunResult>)
    ensures
        recorded_after(m, rs).dom() =~= m.dom() + result_names(rs),
    decreases rs.len(),
{
    if rs.len() == 0 {
        assert(result_names(rs) =~= Set::<Seq<char>>::empty());
    } else {
        lemma_recorded_domain(m, rs.drop_last());
        assert forall|k: Seq<char>| result_names(rs).contains(k) implies result_names(
            rs.drop_last(),
        ).contains(k) || k == rs.last().name@ by {
            let i = choose|i: int| 0 <= i < rs.len() && rs[i].name@ == k;
            if i < rs.len() - 1 {
                assert(rs.drop_last()[i].name@ == k);
            }
        }
        assert forall|k: Seq<char>|
            result_names(rs.drop_last()).contains(k) implies result_names(rs).contains(k) by {
            let i = choose|i: int| 0 <= i < rs.drop_last().len() && rs.drop_last()[i].name@ == k;
            assert(rs[i].name@ == k);
        }
        assert(result_names(rs).contains(rs.last().name@));
    }
}

/// After a run that started from an empty store, the store holds exactly
/// one entry per test that actually executed before any abort.
pub proof fn lemma_one_entry_per_executed_test(rs: Seq<TestRunResult>)
    requires
        forall|i: int, j: int| 0 <= i < j < rs.len() ==> rs[i].name@ != rs[j].name@,
    ensures
        recorded_after(Map::<Seq<char>, TestStatus>::empty(), rs).dom().finite(),
        recorded_after(Map::<Seq<char>, TestStatus>::empty(), rs).dom().len() == rs.len(),
    decreases rs.len(),
{
    if rs.len() > 0 {
        lemma_one_entry_per_executed_test(rs.drop_last());
        lemma_recorded_domain(Map::<Seq<char>, TestStatus>::empty(), rs.drop_last());
        let prev = recorded_after(Map::<Seq<char>, TestStatus>::empty(), rs.drop_last());
        assert(!result_names(rs.drop_last()).contains(rs.last().name@));
        assert(!prev.dom().contains(rs.last().name@));
    }
}

/// Idempotence of re-running: recording a result sequence overwrites
/// exactly the entries of the tests that ran again; an entry whose name is
/// not among them — e.g. for a test outside the corpus — is left untouched.
pub proof fn lemma_rerun_leaves_foreign_entries(
    m: Map<Seq<char>, TestStatus>,
    rs: Seq<TestRunResult>,
    k: Seq<char>,
)
    requires
        forall|i: int| 0 <= i < rs.len() ==> rs[i].name@ != k,
    ensures
        recorded_after(m, rs).dom().contains(k) == m.dom().contains(k),
        m.dom().contains(k) ==> recorded_after(m, rs)[k] == m[k],
    decreases rs.len(),
{
    if rs.len() > 0 {
        lemma_rerun_leaves_foreign_entries(m, rs.drop_last(), k);
    }
}

/// Idempotence of re-running: a test that ran again ends up recorded with
/// the status of its (latest) run, whatever the store held before.
pub proof fn lemma_rerun_overwrites_executed(
    m: Map<Seq<char>, TestStatus>,
    rs: Seq<TestRunResult>,
    i: int,
)
    requires
        forall|p: int, q: int| 0 <= p < q < rs.len() ==> rs[p].name@ != rs[q].name@,
        0 <= i < rs.len(),
    ensures
        recorded_after(m, rs).dom().contains(rs[i].name@),
        recorded_after(m, rs)[rs[i].name@] == rs[i].status,
    decreases rs.len(),
{
    if i == rs.len() - 1 {
    } else {
        lemma_rerun_overwrites_executed(m, rs.drop_last(), i);
        assert(rs.drop_last()[i] == rs[i]);
        assert(rs.last().name@ != rs[i].name@);
    }
}

proof fn lemma_flat_sub_tests_concat(a: Seq<TestSubGroup>, b: Seq<TestSubGroup>)
    ensures
        flat_sub_tests(a + b) == flat_sub_tests(a) + flat_sub_tests(b),
    decreases b.len(),
{
    if b.len() == 0 {
        assert(a + b =~= a);
        assert(flat_sub_tests(a) + flat_sub_tests(b) =~= flat_sub_tests(a));
    } else {
        lemma_flat_sub_tests_concat(a, b.drop_last());
        assert((a + b).drop_last() =~= a + b.drop_last());
        assert((a + b).last() == b.last());
        assert(flat_sub_tests(a + b) =~= flat_sub_tests(a) + flat_sub_tests(b));
    }
}

proof fn lemma_flat_corpus_tests_concat(a: Seq<TestGroup>, b: Seq<TestGroup>)
    ensures
        flat_corpus_tests(a + b) == flat_corpus_tests(a) + flat_corpus_tests(b),
    decreases b.len(),
{
    if b.len() == 0 {
        assert(a + b =~= a);
        assert(flat_corpus_tests(a) + flat_corpus_tests(b) =~= flat_corpus_tests(a));
    } else {
        lemma_flat_corpus_tests_concat(a, b.drop_last());
        assert((a + b).drop_last() =~= a + b.drop_last());
        assert((a + b).last() == b.last());
        assert(flat_corpus_tests(a + b) =~= flat_corpus_tests(a) + flat_corpus_tests(b));
    }
}

/// A prefix of the sub-groups contributes a prefix of the flattened tests.
proof fn lemma_flat_sub_tests_prefix(ss: Seq<TestSubGroup>, m: int)
    requires
        0 <= m <= ss.len(),
    ensures
        flat_sub_tests(ss.take(m)).len() <= flat_sub_tests(ss).len(),
        forall|k: int|
            0 <= k < flat_sub_tests(ss.take(m)).len() ==> #[trigger] flat_sub_tests(ss.take(m))[k]
                == flat_sub_tests(ss)[k],
{
    lemma_flat_sub_tests_concat(ss.take(m), ss.skip(m));
    assert(ss.take(m) + ss.skip(m) =~= ss);
}

/// A prefix of the corpus contributes a prefix of the flattened tests.
proof fn lemma_flat_corpus_tests_prefix(gs: Seq<TestGroup>, m: int)
    requires
        0 <= m <= gs.len(),
    ensures
        flat_corpus_tests(gs.take(m)).len() <= flat_corpus_tests(gs).len(),
        forall|k: int|
            0 <= k < flat_corpus_tests(gs.take(m)).len() ==> #[trigger] flat_corpus_tests(
                gs.take(m),
            )[k] == flat_corpus_tests(gs)[k],
{
    lemma_flat_corpus_tests_concat(gs.take(m), gs.skip(m));
    assert(gs.take(m) + gs.skip(m) =~= gs);
}

/// The outcomes a sub-group result sequence holds line up, name for name,
/// with the corpus tests of the same sub-groups.
proof fn lemma_flat_subs_names(rs: Seq<crate::model::TestSubGroupRunResults>, ss: Seq<TestSubGroup>)
    requires
        rs.len() <= ss.len(),
        forall|i: int| 0 <= i < rs.len() ==> sub_results_match(#[trigger] rs[i], ss[i]),
        forall|i: int| 0 <= i < rs.len() - 1 ==> sub_complete(#[trigger] rs[i], ss[i]),
    ensures
        flat_subs(rs).len() <= flat_sub_tests(ss.take(rs.len() as int)).len(),
        forall|k: int|
            0 <= k < flat_subs(rs).len() ==> (#[trigger] flat_subs(rs)[k]).name == flat_sub_tests(
                ss.take(rs.len() as int),
            )[k].name,
        (forall|i: int| 0 <= i < rs.len() ==> sub_complete(#[trigger] rs[i], ss[i]))
            ==> flat_subs(rs).len() == flat_sub_tests(ss.take(rs.len() as int)).len(),
    decreases rs.len(),
{
    if rs.len() == 0 {
        assert(ss.take(0) =~= Seq::<TestSubGroup>::empty());
    } else {
        let n = rs.len() as int;
        let rsp = rs.drop_last();
        assert forall|i: int| 0 <= i < rsp.len() implies sub_results_match(
            #[trigger] rsp[i],
            ss[i],
        ) && sub_complete(rsp[i], ss[i]) by {
            assert(rsp[i] == rs[i]);
        }
        lemma_flat_subs_names(rsp, ss);
        assert(ss.take(n).drop_last() =~= ss.take(n - 1));
        assert(ss.take(n).last() == ss[n - 1]);
        assert(ss.take(n - 1) == ss.take(rsp.len() as int));
        let off = flat_subs(rsp).len();
        assert(off == flat_sub_tests(ss.take(n - 1)).len());
        assert(flat_subs(rs) == flat_subs(rsp) + rs.last().test_res@);
        assert(flat_sub_tests(ss.take(n)) == flat_sub_tests(ss.take(n - 1)) + ss[n - 1].tests@);
        assert(sub_results_match(rs[n - 1], ss[n - 1]));
        assert(results_match(rs.last().test_res@, ss[n - 1].tests@));
        assert forall|k: int| 0 <= k < flat_subs(rs).len() implies (#[trigger] flat_subs(
            rs,
        )[k]).name == flat_sub_tests(ss.take(n))[k].name by {
            if k < off {
                assert(flat_subs(rs)[k] == flat_subs(rsp)[k]);
                assert(flat_sub_tests(ss.take(n))[k] == flat_sub_tests(ss.take(n - 1))[k]);
            } else {
                assert(flat_subs(rs)[k] == rs.last().test_res@[k - off]);
                assert(flat_sub_tests(ss.take(n))[k] == ss[n - 1].tests@[k - off]);
                assert(rs.last().test_res@[k - off].name == ss[n - 1].tests@[k - off].name);
            }
        }
    }
}

/// The outcomes a result forest holds line up, name for name, with the
/// corpus tests in traversal order.
proof fn lemma_flat_groups_names(rs: Seq<crate::model::TestGroupRunResults>, gs: Seq<TestGroup>)
    requires
        rs.len() <= gs.len(),
        forall|i: int| 0 <= i < rs.len() ==> group_results_match(#[trigger] rs[i], gs[i]),
        forall|i: int| 0 <= i < rs.len() - 1 ==> group_complete(#[trigger] rs[i], gs[i]),
    ensures
        flat_groups(rs).len() <= flat_corpus_tests(gs.take(rs.len() as int)).len(),
        forall|k: int|
            0 <= k < flat_groups(rs).len() ==> (#[trigger] flat_groups(rs)[k]).name
                == flat_corpus_tests(gs.take(rs.len() as int))[k].name,
    decreases rs.len(),
{
    if rs.len() == 0 {
        assert(gs.take(0) =~= Seq::<TestGroup>::empty());
    } else {
        let n = rs.len() as int;
        let rsp = rs.drop_last();
        assert forall|i: int| 0 <= i < rsp.len() implies group_results_match(
            #[trigger] rsp[i],
            gs[i],
        ) && group_complete(rsp[i], gs[i]) by {
            assert(rsp[i] == rs[i]);
        }
        lemma_flat_groups_names(rsp, gs);
        assert(gs.take(n).drop_last() =~= gs.take(n - 1));
        assert(gs.take(n).last() == gs[n - 1]);
        assert(gs.take(n - 1) == gs.take(rsp.len() as int));
        let off = flat_groups(rsp).len();

        // Every completed group covers exactly its corpus tests, so the
        // prefix lengths agree.
        assert forall|i: int| 0 <= i < rsp.len() implies flat_subs(
            (#[trigger] rsp[i]).sub_group_res@,
        ).len() == flat_sub_tests(gs[i].sub_groups@).len() by {
            assert(group_results_match(rs[i], gs[i]) && group_complete(rs[i], gs[i]));
            lemma_flat_subs_names(rs[i].sub_group_res@, gs[i].sub_groups@);
            assert(gs[i].sub_groups@.take(rs[i].sub_group_res@.len() as int) =~= gs[i].sub_groups@);
        }
        lemma_flat_groups_len_eq(rsp, gs);
        assert(off == flat_corpus_tests(gs.take(n - 1)).len());

        assert(flat_groups(rs) == flat_groups(rsp) + flat_subs(rs.last().sub_group_res@));
        assert(flat_corpus_tests(gs.take(n)) == flat_corpus_tests(gs.take(n - 1)) + flat_sub_tests(
            gs[n - 1].sub_groups@,
        ));

        // The last group's outcomes line up with a prefix of its tests.
        assert(group_results_match(rs[n - 1], gs[n - 1]));
        let last_subs = rs.last().sub_group_res@;
        lemma_flat_subs_names(last_subs, gs[n - 1].sub_groups@);
        lemma_flat_sub_tests_prefix(gs[n - 1].sub_groups@, last_subs.len() as int);

        assert forall|k: int| 0 <= k < flat_groups(rs).len() implies (#[trigger] flat_groups(
            rs,
        )[k]).name == flat_corpus_tests(gs.take(n))[k].name by {
            if k < off {
                assert(flat_groups(rs)[k] == flat_groups(rsp)[k]);
                assert(flat_corpus_tests(gs.take(n))[k] == flat_corpus_tests(gs.take(n - 1))[k]);
            } else {
                assert(flat_groups(rs)[k] == flat_subs(last_subs)[k - off]);
                assert(flat_corpus_tests(gs.take(n))[k] == flat_sub_tests(
                    gs[n - 1].sub_groups@,
                )[k - off]);
                assert(flat_subs(last_subs)[k - off].name == flat_sub_tests(
                    gs[n - 1].sub_groups@.take(last_subs.len() as int),
                )[k - off].name);
                assert(flat_sub_tests(gs[n - 1].sub_groups@.take(last_subs.len() as int))[k - off]
                    == flat_sub_tests(gs[n - 1].sub_groups@)[k - off]);
            }
        }
    }
}

/// When each listed group covers exactly as many outcomes as its corpus
/// group has tests, the flattened lengths agree.
proof fn lemma_flat_groups_len_eq(rs: Seq<crate::model::TestGroupRunResults>, gs: Seq<TestGroup>)
    requires
        rs.len() <= gs.len(),
        forall|i: int|
            0 <= i < rs.len() ==> flat_subs((#[trigger] rs[i]).sub_group_res@).len()
                == flat_sub_tests(gs[i].sub_groups@).len(),
    ensures
        flat_groups(rs).len() == flat_corpus_tests(gs.take(rs.len() as int)).len(),
    decreases rs.len(),
{
    if rs.len() == 0 {
        assert(gs.take(0) =~= Seq::<TestGroup>::empty());
    } else {
        let n = rs.len() as int;
        let rsp = rs.drop_last();
        assert forall|i: int| 0 <= i < rsp.len() implies flat_subs(
            (#[trigger] rsp[i]).sub_group_res@,
        ).len() == flat_sub_tests(gs[i].sub_groups@).len() by {
            assert(rsp[i] == rs[i]);
        }
        lemma_flat_groups_len_eq(rsp, gs);
        assert(gs.take(n).drop_last() =~= gs.take(n - 1));
        assert(gs.take(n).last() == gs[n - 1]);
        assert(gs.take(n - 1) == gs.take(rsp.len() as int));
    }
}

/// Over a corpus whose test names are unique within the run — the data
/// model's invariant — the recorded outcomes' names are pairwise distinct,
/// whether the run completed or was aborted.
pub proof fn lemma_run_result_names_unique(
    rs: Seq<crate::model::TestGroupRunResults>,
    gs: Seq<TestGroup>,
)
    requires
        corpus_names_unique(gs),
        groups_results_match(rs, gs),
    ensures
        forall|i: int, j: int|
            0 <= i < j < flat_groups(rs).len() ==> (#[trigger] flat_groups(rs)[i]).name@ != (
            #[trigger] flat_groups(rs)[j]).name@,
{
    lemma_flat_groups_names(rs, gs);
    lemma_flat_corpus_tests_prefix(gs, rs.len() as int);
    assert forall|i: int, j: int|
        0 <= i < j < flat_groups(rs).len() implies (#[trigger] flat_groups(rs)[i]).name@ != (
    #[trigger] flat_groups(rs)[j]).name@ by {
        assert(flat_groups(rs)[i].name == flat_corpus_tests(gs.take(rs.len() as int))[i].name);
        assert(flat_groups(rs)[j].name == flat_corpus_tests(gs.take(rs.len() as int))[j].name);
        assert(flat_corpus_tests(gs.take(rs.len() as int))[i] == flat_corpus_tests(gs)[i]);
        assert(flat_corpus_tests(gs.take(rs.len() as int))[j] == flat_corpus_tests(gs)[j]);
    }
}

/// A run from an empty store over a corpus with unique test names leaves
/// exactly one entry per executed test: the store's length counts the tests
/// that ran to completion before any abort.
pub proof fn lemma_store_counts_executed(
    rs: Seq<crate::model::TestGroupRunResults>,
    gs: Seq<TestGroup>,
)
    requires
        corpus_names_unique(gs),
        groups_results_match(rs, gs),
    ensures
        recorded_after(Map::<Seq<char>, TestStatus>::empty(), flat_groups(rs)).dom().finite(),
        recorded_after(Map::<Seq<char>, TestStatus>::empty(), flat_groups(rs)).dom().len()
            == flat_groups(rs).len(),
{
    lemma_run_result_names_unique(rs, gs);
    lemma_one_entry_per_executed_test(flat_groups(rs));
}

/// Re-running over a corpus with unique test names overwrites each executed
/// test's entry with the status of the latest run, whatever the store held
/// before.
pub proof fn lemma_store_overwrites_executed(
    m: Map<Seq<char>, TestStatus>,
    rs: Seq<crate::model::TestGroupRunResults>,
    gs: Seq<TestGroup>,
    i: int,
)
    requires
        corpus_names_unique(gs),
        groups_results_match(rs, gs),
        0 <= i < flat_groups(rs).len(),
    ensures
        recorded_after(m, flat_groups(rs)).dom().contains(flat_groups(rs)[i].name@),
        recorded_after(m, flat_groups(rs))[flat_groups(rs)[i].name@] == flat_groups(rs)[i].status,
{
    lemma_run_result_names_unique(rs, gs);
    lemma_rerun_overwrites_executed(m, flat_groups(rs), i);
}

/// The reporter sees exactly one announcement and one completion per test
/// that ran to completion, in strict alternation, one pair per test, in
/// corpus order.
pub proof fn lemma_events_alternate(rs: Seq<TestRunResult>)
    ensures
        events_of(rs).len() == 2 * rs.len(),
        forall|i: int|
            0 <= i < rs.len() ==> events_of(rs)[2 * i] == ReporterEvent::Announce(
                (#[trigger] rs[i]).name,
            ) && events_of(rs)[2 * i + 1] == ReporterEvent::CompleteOne,
    decreases rs.len(),
{
    if rs.len() > 0 {
        lemma_events_alternate(rs.drop_last());
        assert forall|i: int|
            0 <= i < rs.len() implies events_of(rs)[2 * i] == ReporterEvent::Announce(rs[i].name)
            && events_of(rs)[2 * i + 1] == ReporterEvent::CompleteOne by {
            if i < rs.len() - 1 {
                assert(rs.drop_last()[i] == rs[i]);
                assert(events_of(rs)[2 * i] == events_of(rs.drop_last())[2 * i]);
                assert(events_of(rs)[2 * i + 1] == events_of(rs.drop_last())[2 * i + 1]);
            }
        }
    }
}

} // verus!

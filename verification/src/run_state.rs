//! In-memory model of the durable run state: a mapping from test name to the
//! most recently recorded status, mutated one entry per completed test. A
//! ghost write log records every update in order, so callers can state that
//! statuses are recorded exactly once per completed test, in corpus order.

use vstd::prelude::*;
use crate::model::TestStatus;

verus! {

/// The durable mapping from test name to last observed outcome. Entries are
/// keyed by test name, unique within a run; an in-flight test is absent, not
/// pending.
pub struct RunStateEntries {
    entries: Vec<(String, TestStatus)>,
    write_log: Ghost<Seq<(Seq<char>, TestStatus)>>,
}

/// The mapping an association list denotes; a later entry overrides an
/// earlier one with the same name.
pub open spec fn assoc_map(es: Seq<(String, TestStatus)>) -> Map<Seq<char>, TestStatus>
    decreases es.len(),
{
    if es.len() == 0 {
        Map::empty()
    } else {
        assoc_map(es.drop_last()).insert(es.last().0@, es.last().1)
    }
}

impl RunStateEntries {
    /// The mapping this store holds.
    pub closed spec fn view(&self) -> Map<Seq<char>, TestStatus> {
        assoc_map(self.entries@)
    }

    /// Every update made to this store since it was created or loaded, in
    /// order.
    pub closed spec fn write_log(&self) -> Seq<(Seq<char>, TestStatus)> {
        self.write_log@
    }

    /// The names on record are pairwise distinct.
    pub closed spec fn wf(&self) -> bool {
        forall|i: int, j: int|
            0 <= i < j < self.entries@.len() ==> self.entries@[i].0@ != self.entries@[j].0@
    }

    /// An empty run state, for a fresh run.
    pub fn new() -> (s: RunStateEntries)
        ensures
            s@ == Map::<Seq<char>, TestStatus>::empty(),
            s.write_log() == Seq::<(Seq<char>, TestStatus)>::empty(),
            s.wf(),
    {
        RunStateEntries { entries: Vec::new(), write_log: Ghost(Seq::empty()) }
    }

    /// A run state loaded from durable storage. Later duplicates of a name
    /// override earlier ones.
    pub fn from_entries(entries: Vec<(String, TestStatus)>) -> (s: RunStateEntries)
        ensures
            s@ == assoc_map(entries@),
            s.write_log() == Seq::<(Seq<char>, TestStatus)>::empty(),
            s.wf(),
    {
        let mut s = RunStateEntries { entries: Vec::new(), write_log: Ghost(Seq::empty()) };
        let mut i: usize = 0;
        proof {
            assert(entries@.take(0) =~= Seq::<(String, TestStatus)>::empty());
        }
        while i < entries.len()
            invariant
                i <= entries@.len(),
                s@ == assoc_map(entries@.take(i as int)),
                s.write_log@ == Seq::<(Seq<char>, TestStatus)>::empty(),
                s.wf(),
            decreases entries@.len() - i,
        {
            let e = &entries[i];
            let name = e.0.clone();
            let status = e.1.duplicate();
            proof {
                assert(entries@.take(i + 1).drop_last() =~= entries@.take(i as int));
                assert(entries@.take(i + 1).last() == entries@[i as int]);
            }
            s.set_entry(name, status);
            s.write_log = Ghost(Seq::empty());
            i += 1;
        }
        proof {
            assert(entries@.take(entries@.len() as int) =~= entries@);
        }
        s
    }

    /// How many tests have a recorded outcome.
    pub fn len(&self) -> (n: usize)
        requires
            self.wf(),
        ensures
            n == self@.dom().len(),
    {
        proof {
            lemma_assoc_map_len(self.entries@);
        }
        self.entries.len()
    }

    /// The status recorded for `name`, if that test has completed.
    pub fn get(&self, name: &String) -> (r: Option<&TestStatus>)
        requires
            self.wf(),
        ensures
            match r {
                Option::Some(s) => self@.dom().contains(name@) && *s == self@[name@],
                Option::None => !self@.dom().contains(name@),
            },
    {
        let mut i: usize = 0;
        while i < self.entries.len()
            invariant
                i <= self.entries@.len(),
                forall|j: int| 0 <= j < i ==> self.entries@[j].0@ != name@,
                self.wf(),
            decreases self.entries@.len() - i,
        {
            if self.entries[i].0.eq(name) {
                proof {
                    lemma_assoc_map_hit(self.entries@, i as int);
                }
                return Some(&self.entries[i].1);
            }
            i += 1;
        }
        proof {
            lemma_assoc_map_absent(self.entries@, name@);
        }
        None
    }

    /// Record the outcome of one completed test, overriding any earlier
    /// outcome recorded under the same name.
    pub fn update_test_state(&mut self, name: &String, status: TestStatus)
        requires
            old(self).wf(),
        ensures
            final(self).wf(),
            final(self)@ == old(self)@.insert(name@, status),
            final(self).write_log() == old(self).write_log().push((name@, status)),
    {
        let logged: Ghost<Seq<(Seq<char>, TestStatus)>> = Ghost(
            self.write_log@.push((name@, status)),
        );
        self.set_entry(name.clone(), status);
        self.write_log = logged;
    }

    /// Record `(name, status)`, keeping names distinct; does not touch the
    /// write log.
    fn set_entry(&mut self, name: String, status: TestStatus)
        requires
            old(self).wf(),
        ensures
            final(self).wf(),
            final(self)@ == old(self)@.insert(name@, status),
            final(self).write_log@ == old(self).write_log@,
    {
        let mut i: usize = 0;
        while i < self.entries.len()
            invariant
                i <= self.entries@.len(),
                forall|j: int| 0 <= j < i ==> self.entries@[j].0@ != name@,
                self.entries@ == old(self).entries@,
                self.write_log@ == old(self).write_log@,
                old(self).wf(),
            decreases self.entries@.len() - i,
        {
            if self.entries[i].0.eq(&name) {
                proof {
                    lemma_assoc_map_set(self.entries@, i as int, (name, status));
                }
                self.entries.set(i, (name, status));
                return ;
            }
            i += 1;
        }
        proof {
            lemma_assoc_map_absent(self.entries@, name@);
        }
        self.entries.push((name, status));
        proof {
            assert(self.entries@.drop_last() =~= old(self).entries@);
        }
    }
}

/// Overwriting the entry whose name matches, when names are distinct, is
/// `insert` on the denoted map.
proof fn lemma_assoc_map_set(es: Seq<(String, TestStatus)>, i: int, e: (String, TestStatus))
    requires
        0 <= i < es.len(),
        es[i].0@ == e.0@,
        forall|p: int, q: int| 0 <= p < q < es.len() ==> es[p].0@ != es[q].0@,
    ensures
        assoc_map(es.update(i, e)) == assoc_map(es).insert(e.0@, e.1),
    decreases es.len(),
{
    if i == es.len() - 1 {
        assert(es.update(i, e).drop_last() =~= es.drop_last());
        assert(assoc_map(es.update(i, e)) =~= assoc_map(es).insert(e.0@, e.1));
    } else {
        lemma_assoc_map_set(es.drop_last(), i, e);
        assert(es.update(i, e).drop_last() =~= es.drop_last().update(i, e));
        lemma_assoc_map_key_absent_in_prefix(es, e.0@, i);
        assert(assoc_map(es.update(i, e)) =~= assoc_map(es).insert(e.0@, e.1));
    }
}

/// In a distinct-name list, the last entry's name differs from entry `i`'s
/// name when `i` is not last; helper fact for reordering inserts.
proof fn lemma_assoc_map_key_absent_in_prefix(es: Seq<(String, TestStatus)>, k: Seq<char>, i: int)
    requires
        0 <= i < es.len() - 1,
        es[i].0@ == k,
        forall|p: int, q: int| 0 <= p < q < es.len() ==> es[p].0@ != es[q].0@,
    ensures
        es.last().0@ != k,
{
}

/// With distinct names, the entry at `i` gives its name's mapped status.
proof fn lemma_assoc_map_hit(es: Seq<(String, TestStatus)>, i: int)
    requires
        0 <= i < es.len(),
        forall|p: int, q: int| 0 <= p < q < es.len() ==> es[p].0@ != es[q].0@,
    ensures
        assoc_map(es).dom().contains(es[i].0@),
        assoc_map(es)[es[i].0@] == es[i].1,
    decreases es.len(),
{
    if i < es.len() - 1 {
        lemma_assoc_map_hit(es.drop_last(), i);
        assert(es.last().0@ != es[i].0@);
    }
}

/// A name that appears nowhere in the list is not in the denoted map.
proof fn lemma_assoc_map_absent(es: Seq<(String, TestStatus)>, k: Seq<char>)
    requires
        forall|j: int| 0 <= j < es.len() ==> es[j].0@ != k,
    ensures
        !assoc_map(es).dom().contains(k),
    decreases es.len(),
{
    if es.len() > 0 {
        lemma_assoc_map_absent(es.drop_last(), k);
    }
}

/// With distinct names, the denoted map has exactly one key per entry.
proof fn lemma_assoc_map_len(es: Seq<(String, TestStatus)>)
    requires
        forall|p: int, q: int| 0 <= p < q < es.len() ==> es[p].0@ != es[q].0@,
    ensures
        assoc_map(es).dom().len() == es.len(),
        assoc_map(es).dom().finite(),
    decreases es.len(),
{
    if es.len() > 0 {
        lemma_assoc_map_len(es.drop_last());
        lemma_assoc_map_absent(es.drop_last(), es.last().0@);
    }
}

} // verus!

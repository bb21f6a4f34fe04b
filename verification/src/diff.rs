//! Cross-engine account diffing, used only for diagnostics: the backend's
//! reported post-execution accounts and the reference interpreter's are both
//! treated as mappings from address to a normalized record
//! `{balance, nonce, code hash, storage}`, and compared by symmetric
//! difference of the addresses plus per-field inequality on the
//! intersection.

use vstd::prelude::*;
use crate::model::{Address, AccountRecord, Bytes32};

verus! {

/// First matching value for storage slot `k`, scanning from the front.
pub open spec fn slot_lookup(s: Seq<(Bytes32, Bytes32)>, k: Seq<u8>) -> Option<Bytes32>
    decreases s.len(),
{
    if s.len() == 0 {
        None
    } else if s[0].0.bytes@ == k {
        Some(s[0].1)
    } else {
        slot_lookup(s.drop_first(), k)
    }
}

/// First matching record for address `k`, scanning from the front.
pub open spec fn acct_lookup(s: Seq<(Address, AccountRecord)>, k: Seq<u8>) -> Option<
    AccountRecord,
>
    decreases s.len(),
{
    if s.len() == 0 {
        None
    } else if s[0].0.bytes@ == k {
        Some(s[0].1)
    } else {
        acct_lookup(s.drop_first(), k)
    }
}

/// Two optional storage values agree bit-exactly.
pub open spec fn opt_value_eq(x: Option<Bytes32>, y: Option<Bytes32>) -> bool {
    match (x, y) {
        (Option::None, Option::None) => true,
        (Option::Some(a), Option::Some(b)) => a.bytes@ == b.bytes@,
        _ => false,
    }
}

/// Two storage tables denote the same slot-to-value mapping.
pub open spec fn storage_equiv(a: Seq<(Bytes32, Bytes32)>, b: Seq<(Bytes32, Bytes32)>) -> bool {
    forall|k: Seq<u8>| opt_value_eq(slot_lookup(a, k), slot_lookup(b, k))
}

/// Two account records agree on balance, nonce, code hash, and every
/// storage slot.
pub open spec fn record_same(a: AccountRecord, b: AccountRecord) -> bool {
    &&& a.balance.eq_spec(b.balance)
    &&& a.nonce == b.nonce
    &&& a.code_hash.eq_spec(b.code_hash)
    &&& storage_equiv(a.storage@, b.storage@)
}

/// How one account differs between the reference interpreter and the
/// backend.
pub enum AccountDiffKind {
    /// The reference interpreter produced the account; the backend did not.
    MissingInBackend,
    /// The backend produced the account; the reference interpreter did not.
    MissingInReference,
    /// Both produced it, with different contents.
    Mismatch,
}

/// One divergent account.
pub struct AccountDiff {
    pub address: Address,
    pub kind: AccountDiffKind,
}

/// The per-account diagnostic diff between the reference interpreter's
/// account set and the backend's.
pub struct StateDiff {
    pub entries: Vec<AccountDiff>,
}

/// What `kind` must mean for address `k`, given the two account sets.
pub open spec fn diff_entry_sound(
    e: AccountDiff,
    reference: Seq<(Address, AccountRecord)>,
    backend: Seq<(Address, AccountRecord)>,
) -> bool {
    match e.kind {
        AccountDiffKind::MissingInBackend => {
            acct_lookup(reference, e.address.bytes@) is Some && acct_lookup(
                backend,
                e.address.bytes@,
            ) is None
        },
        AccountDiffKind::MissingInReference => {
            acct_lookup(reference, e.address.bytes@) is None && acct_lookup(
                backend,
                e.address.bytes@,
            ) is Some
        },
        AccountDiffKind::Mismatch => {
            match (acct_lookup(reference, e.address.bytes@), acct_lookup(
                backend,
                e.address.bytes@,
            )) {
                (Option::Some(r), Option::Some(b)) => !record_same(r, b),
                _ => false,
            }
        },
    }
}

/// Address `k` diverges between the two sets.
pub open spec fn divergent(
    reference: Seq<(Address, AccountRecord)>,
    backend: Seq<(Address, AccountRecord)>,
    k: Seq<u8>,
) -> bool {
    match (acct_lookup(reference, k), acct_lookup(backend, k)) {
        (Option::None, Option::None) => false,
        (Option::Some(r), Option::Some(b)) => !record_same(r, b),
        _ => true,
    }
}

/// A non-matching scan prefix keeps the lookup of later entries.
proof fn lemma_slot_lookup_skip(s: Seq<(Bytes32, Bytes32)>, i: int, k: Seq<u8>)
    requires
        0 <= i < s.len(),
        s[i].0.bytes@ != k,
    ensures
        slot_lookup(s.skip(i), k) == slot_lookup(s.skip(i + 1), k),
{
    assert(s.skip(i).drop_first() =~= s.skip(i + 1));
    assert(s.skip(i)[0] == s[i]);
}

proof fn lemma_slot_lookup_hit(s: Seq<(Bytes32, Bytes32)>, i: int)
    requires
        0 <= i < s.len(),
        forall|j: int| 0 <= j < i ==> s[j].0.bytes@ != s[i].0.bytes@,
    ensures
        slot_lookup(s, s[i].0.bytes@) == Some::<Bytes32>(s[i].1),
    decreases i,
{
    if i == 0 {
        assert(s[0].0.bytes@ == s[i].0.bytes@);
    } else {
        assert(s.drop_first() =~= s.skip(1));
        lemma_slot_lookup_hit(s.drop_first(), i - 1);
    }
}

/// If a key has a value, some entry carries that key.
proof fn lemma_slot_lookup_some_key(s: Seq<(Bytes32, Bytes32)>, k: Seq<u8>)
    requires
        slot_lookup(s, k) is Some,
    ensures
        exists|i: int| 0 <= i < s.len() && s[i].0.bytes@ == k,
    decreases s.len(),
{
    if s.len() > 0 && s[0].0.bytes@ != k {
        lemma_slot_lookup_some_key(s.drop_first(), k);
        let j = choose|j: int| 0 <= j < s.drop_first().len() && s.drop_first()[j].0.bytes@ == k;
        assert(s[j + 1].0.bytes@ == k);
    }
}

/// Find the first value stored under slot `k`.
fn find_slot(v: &Vec<(Bytes32, Bytes32)>, k: &Bytes32) -> (r: Option<Bytes32>)
    ensures
        r == slot_lookup(v@, k.bytes@),
{
    let mut i: usize = 0;
    proof {
        assert(v@.skip(0) =~= v@);
    }
    while i < v.len()
        invariant
            i <= v@.len(),
            slot_lookup(v@, k.bytes@) == slot_lookup(v@.skip(i as int), k.bytes@),
        decreases v@.len() - i,
    {
        if v[i].0.eq_value(k) {
            proof {
                assert(v@.skip(i as int)[0] == v@[i as int]);
            }
            return Some(v[i].1);
        }
        proof {
            lemma_slot_lookup_skip(v@, i as int, k.bytes@);
        }
        i += 1;
    }
    None
}

/// Decide whether two storage tables denote the same mapping.
fn storage_eq(a: &Vec<(Bytes32, Bytes32)>, b: &Vec<(Bytes32, Bytes32)>) -> (r: bool)
    ensures
        r == storage_equiv(a@, b@),
{
    let mut i: usize = 0;
    while i < a.len()
        invariant
            i <= a@.len(),
            forall|j: int|
                0 <= j < i ==> opt_value_eq(
                    slot_lookup(a@, a@[j].0.bytes@),
                    slot_lookup(b@, a@[j].0.bytes@),
                ),
        decreases a@.len() - i,
    {
        let k = a[i].0;
        let x = find_slot(a, &k);
        let y = find_slot(b, &k);
        let same = match (x, y) {
            (Option::None, Option::None) => true,
            (Option::Some(xa), Option::Some(yb)) => xa.eq_value(&yb),
            _ => false,
        };
        if !same {
            proof {
                assert(!opt_value_eq(slot_lookup(a@, k.bytes@), slot_lookup(b@, k.bytes@)));
            }
            return false;
        }
        i += 1;
    }
    let mut i: usize = 0;
    while i < b.len()
        invariant
            i <= b@.len(),
            forall|j: int|
                0 <= j < a@.len() ==> opt_value_eq(
                    slot_lookup(a@, a@[j].0.bytes@),
                    slot_lookup(b@, a@[j].0.bytes@),
                ),
            forall|j: int|
                0 <= j < i ==> opt_value_eq(
                    slot_lookup(a@, b@[j].0.bytes@),
                    slot_lookup(b@, b@[j].0.bytes@),
                ),
        decreases b@.len() - i,
    {
        let k = b[i].0;
        let x = find_slot(a, &k);
        let y = find_slot(b, &k);
        let same = match (x, y) {
            (Option::None, Option::None) => true,
            (Option::Some(xa), Option::Some(yb)) => xa.eq_value(&yb),
            _ => false,
        };
        if !same {
            return false;
        }
        i += 1;
    }
    proof {
        assert forall|k: Seq<u8>| opt_value_eq(slot_lookup(a@, k), slot_lookup(b@, k)) by {
            if slot_lookup(a@, k) is Some {
                lemma_slot_lookup_some_key(a@, k);
                let j = choose|j: int| 0 <= j < a@.len() && a@[j].0.bytes@ == k;
                assert(opt_value_eq(slot_lookup(a@, a@[j].0.bytes@), slot_lookup(b@, a@[j].0.bytes@)));
            } else if slot_lookup(b@, k) is Some {
                lemma_slot_lookup_some_key(b@, k);
                let j = choose|j: int| 0 <= j < b@.len() && b@[j].0.bytes@ == k;
                assert(opt_value_eq(slot_lookup(a@, b@[j].0.bytes@), slot_lookup(b@, b@[j].0.bytes@)));
            }
        }
    }
    true
}

/// Compare two account records field by field.
fn record_eq(a: &AccountRecord, b: &AccountRecord) -> (r: bool)
    ensures
        r == record_same(*a, *b),
{
    a.balance.eq_value(&b.balance) && a.nonce == b.nonce && a.code_hash.eq_value(&b.code_hash)
        && storage_eq(&a.storage, &b.storage)
}

proof fn lemma_acct_lookup_skip(s: Seq<(Address, AccountRecord)>, i: int, k: Seq<u8>)
    requires
        0 <= i < s.len(),
        s[i].0.bytes@ != k,
    ensures
        acct_lookup(s.skip(i), k) == acct_lookup(s.skip(i + 1), k),
{
    assert(s.skip(i).drop_first() =~= s.skip(i + 1));
    assert(s.skip(i)[0] == s[i]);
}

/// If an address has a record, some entry carries that address.
proof fn lemma_acct_lookup_some_key(s: Seq<(Address, AccountRecord)>, k: Seq<u8>)
    requires
        acct_lookup(s, k) is Some,
    ensures
        exists|i: int| 0 <= i < s.len() && s[i].0.bytes@ == k,
    decreases s.len(),
{
    if s.len() > 0 && s[0].0.bytes@ != k {
        lemma_acct_lookup_some_key(s.drop_first(), k);
        let j = choose|j: int|
            0 <= j < s.drop_first().len() && s.drop_first()[j].0.bytes@ == k;
        assert(s[j + 1].0.bytes@ == k);
    }
}

/// Find the first record for address `k`; the index returned points at it.
fn find_account<'a>(v: &'a Vec<(Address, AccountRecord)>, k: &Address) -> (r: Option<
    &'a AccountRecord,
>)
    ensures
        match r {
            Option::Some(rec) => acct_lookup(v@, k.bytes@) == Some(*rec),
            Option::None => acct_lookup(v@, k.bytes@) is None,
        },
{
    let mut i: usize = 0;
    proof {
        assert(v@.skip(0) =~= v@);
    }
    while i < v.len()
        invariant
            i <= v@.len(),
            acct_lookup(v@, k.bytes@) == acct_lookup(v@.skip(i as int), k.bytes@),
        decreases v@.len() - i,
    {
        if v[i].0.eq_value(k) {
            proof {
                assert(v@.skip(i as int)[0] == v@[i as int]);
            }
            return Some(&v[i].1);
        }
        proof {
            lemma_acct_lookup_skip(v@, i as int, k.bytes@);
        }
        i += 1;
    }
    None
}

/// Some listed entry carries address `k`.
pub open spec fn covers(es: Seq<AccountDiff>, k: Seq<u8>) -> bool {
    exists|i: int| 0 <= i < es.len() && es[i].address.bytes@ == k
}

/// A longer entry list covers everything a prefix covers.
proof fn lemma_covers_push(es: Seq<AccountDiff>, e: AccountDiff, k: Seq<u8>)
    requires
        covers(es, k),
    ensures
        covers(es.push(e), k),
{
    let i = choose|i: int| 0 <= i < es.len() && es[i].address.bytes@ == k;
    assert(es.push(e)[i].address.bytes@ == k);
}

/// Compute the per-account diagnostic diff. Every entry is sound for its
/// address, every address on which the two account sets diverge has an
/// entry, and an empty diff means the two sets agree everywhere.
pub fn compute_state_diff(
    reference: &Vec<(Address, AccountRecord)>,
    backend: &Vec<(Address, AccountRecord)>,
) -> (d: StateDiff)
    ensures
        forall|i: int|
            0 <= i < d.entries@.len() ==> diff_entry_sound(#[trigger] d.entries@[i], reference@, backend@),
        forall|k: Seq<u8>| divergent(reference@, backend@, k) ==> covers(d.entries@, k),
        (d.entries@.len() == 0) <==> (forall|k: Seq<u8>| !divergent(reference@, backend@, k)),
{
    let mut entries: Vec<AccountDiff> = Vec::new();
    let mut i: usize = 0;
    while i < reference.len()
        invariant
            i <= reference@.len(),
            forall|e: int|
                0 <= e < entries@.len() ==> diff_entry_sound(
                    #[trigger] entries@[e],
                    reference@,
                    backend@,
                ),
            forall|j: int|
                0 <= j < i ==> !divergent(reference@, backend@, (#[trigger] reference@[j]).0.bytes@)
                    || covers(entries@, reference@[j].0.bytes@),
        decreases reference@.len() - i,
    {
        let k = reference[i].0;
        let here = find_account(reference, &k);
        let there = find_account(backend, &k);
        let ghost before = entries@;
        match (here, there) {
            (Option::Some(r), Option::Some(b)) => {
                if !record_eq(r, b) {
                    entries.push(AccountDiff { address: k, kind: AccountDiffKind::Mismatch });
                }
            },
            (Option::Some(_), Option::None) => {
                entries.push(AccountDiff { address: k, kind: AccountDiffKind::MissingInBackend });
            },
            _ => {
                proof {
                    lemma_acct_lookup_hit_exists(reference@, i as int, k.bytes@);
                }
            },
        }
        proof {
            if entries@.len() > before.len() {
                assert(entries@[before.len() as int].address.bytes@ == k.bytes@);
                assert(covers(entries@, k.bytes@));
                assert forall|j: int|
                    0 <= j < i && covers(before, (#[trigger] reference@[j]).0.bytes@) implies covers(
                    entries@,
                    reference@[j].0.bytes@,
                ) by {
                    lemma_covers_push(before, entries@.last(), reference@[j].0.bytes@);
                    assert(before.push(entries@.last()) =~= entries@);
                }
            }
        }
        i += 1;
    }
    let mut i: usize = 0;
    while i < backend.len()
        invariant
            i <= backend@.len(),
            forall|e: int|
                0 <= e < entries@.len() ==> diff_entry_sound(
                    #[trigger] entries@[e],
                    reference@,
                    backend@,
                ),
            forall|j: int|
                0 <= j < reference@.len() ==> !divergent(
                    reference@,
                    backend@,
                    (#[trigger] reference@[j]).0.bytes@,
                ) || covers(entries@, reference@[j].0.bytes@),
            forall|j: int|
                0 <= j < i ==> !divergent(reference@, backend@, (#[trigger] backend@[j]).0.bytes@)
                    || covers(entries@, backend@[j].0.bytes@),
        decreases backend@.len() - i,
    {
        let k = backend[i].0;
        let here = find_account(reference, &k);
        let there = find_account(backend, &k);
        let ghost before = entries@;
        match (here, there) {
            (Option::None, Option::Some(_)) => {
                entries.push(
                    AccountDiff { address: k, kind: AccountDiffKind::MissingInReference },
                );
            },
            (Option::None, Option::None) => {
                proof {
                    lemma_acct_lookup_hit_exists(backend@, i as int, k.bytes@);
                }
            },
            _ => {
                proof {
                    lemma_acct_lookup_some_key(reference@, k.bytes@);
                    let j = choose|j: int|
                        0 <= j < reference@.len() && reference@[j].0.bytes@ == k.bytes@;
                    assert(!divergent(reference@, backend@, reference@[j].0.bytes@) || covers(
                        entries@,
                        reference@[j].0.bytes@,
                    ));
                }
            },
        }
        proof {
            if entries@.len() > before.len() {
                assert(entries@[before.len() as int].address.bytes@ == k.bytes@);
                assert(covers(entries@, k.bytes@));
                assert forall|j: int|
                    0 <= j < reference@.len() && covers(
                        before,
                        (#[trigger] reference@[j]).0.bytes@,
                    ) implies covers(entries@, reference@[j].0.bytes@) by {
                    lemma_covers_push(before, entries@.last(), reference@[j].0.bytes@);
                    assert(before.push(entries@.last()) =~= entries@);
                }
                assert forall|j: int|
                    0 <= j < backend@.len() && covers(
                        before,
                        (#[trigger] backend@[j]).0.bytes@,
                    ) implies covers(entries@, backend@[j].0.bytes@) by {
                    lemma_covers_push(before, entries@.last(), backend@[j].0.bytes@);
                    assert(before.push(entries@.last()) =~= entries@);
                }
            }
        }
        i += 1;
    }
    proof {
        assert forall|k: Seq<u8>| divergent(reference@, backend@, k) implies covers(
            entries@,
            k,
        ) by {
            if acct_lookup(reference@, k) is Some {
                lemma_acct_lookup_some_key(reference@, k);
                let j = choose|j: int| 0 <= j < reference@.len() && reference@[j].0.bytes@ == k;
                assert(!divergent(reference@, backend@, reference@[j].0.bytes@) || covers(
                    entries@,
                    reference@[j].0.bytes@,
                ));
            } else if acct_lookup(backend@, k) is Some {
                lemma_acct_lookup_some_key(backend@, k);
                let j = choose|j: int| 0 <= j < backend@.len() && backend@[j].0.bytes@ == k;
                assert(!divergent(reference@, backend@, backend@[j].0.bytes@) || covers(
                    entries@,
                    backend@[j].0.bytes@,
                ));
            }
        }
        if entries@.len() > 0 {
            let e = entries@[0];
            assert(diff_entry_sound(e, reference@, backend@));
            assert(divergent(reference@, backend@, e.address.bytes@));
        } else {
            assert forall|k: Seq<u8>| !divergent(reference@, backend@, k) by {
                if divergent(reference@, backend@, k) {
                    assert(covers(entries@, k));
                }
            }
        }
    }
    StateDiff { entries }
}

/// An address listed in the table is found by lookup.
proof fn lemma_acct_lookup_hit_exists(s: Seq<(Address, AccountRecord)>, i: int, k: Seq<u8>)
    requires
        0 <= i < s.len(),
        s[i].0.bytes@ == k,
    ensures
        acct_lookup(s, k) is Some,
    decreases i,
{
    if s[0].0.bytes@ != k {
        assert(s.drop_first() =~= s.skip(1));
        lemma_acct_lookup_hit_exists(s.drop_first(), i - 1, k);
    }
}

} // verus!

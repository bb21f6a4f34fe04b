//! The textual entry format behind the durable run state: one entry is
//! `name TAB tag [TAB payload...]`, carrying the full status — a domain
//! error keeps its message, a state mismatch keeps all three trie
//! comparisons with their hashes. The text is fixed exactly by `entry_line`,
//! and decoding is complete: every entry whose name is free of tabs (the one
//! character the format reserves for separating the name) decodes back from
//! its line. Framing entries — e.g. length-prefixing them in a file — is the
//! store's business, so a message may contain any character.

use vstd::prelude::*;
use vstd::string::StrSliceExecFns;
use vstd::string::StringExecFns;
use crate::model::{Bytes32, TestStatus, TrieComparisonResult, TrieFinalStateDiff};
use crate::render::{hex_digit_text, hex_text};

verus! {

/// The encoded text of one trie comparison: `correct`, or the two hashes in
/// hex separated by a colon.
pub open spec fn comparison_code(c: TrieComparisonResult) -> Seq<char> {
    match c {
        TrieComparisonResult::Correct => "correct"@,
        TrieComparisonResult::Difference(actual, expected) => hex_text(actual.bytes@) + ":"@
            + hex_text(expected.bytes@),
    }
}

/// The three comparison codes of a mismatch, tab-separated.
pub open spec fn codes_text(d: TrieFinalStateDiff) -> Seq<char> {
    comparison_code(d.state) + "\t"@ + comparison_code(d.receipt) + "\t"@ + comparison_code(
        d.transaction,
    )
}

/// The status part of an encoded entry.
pub open spec fn payload_text(s: TestStatus) -> Seq<char> {
    match s {
        TestStatus::Passed => "passed"@,
        TestStatus::EvmErr(msg) => "evm-err\t"@ + msg@,
        TestStatus::IncorrectAccountFinalState(d) => "state-mismatch\t"@ + codes_text(d),
    }
}

/// The encoded line for one run-state entry.
pub open spec fn entry_line(name: Seq<char>, s: TestStatus) -> Seq<char> {
    name + "\t"@ + payload_text(s)
}

/// No tab anywhere: the one shape a test name must have to be encodable.
pub open spec fn tab_free(s: Seq<char>) -> bool {
    forall|i: int| 0 <= i < s.len() ==> s[i] != '\t'
}

fn append_comparison(r: &mut String, c: &TrieComparisonResult)
    ensures
        final(r)@ == old(r)@ + comparison_code(*c),
{
    match c {
        TrieComparisonResult::Correct => {
            r.append("correct");
        },
        TrieComparisonResult::Difference(actual, expected) => {
            let a = actual.render_hex();
            r.append(a.as_str());
            r.append(":");
            let e = expected.render_hex();
            r.append(e.as_str());
            proof {
                assert(r@ =~= old(r)@ + comparison_code(*c));
            }
        },
    }
}

/// Encode one entry as its line; the text is exactly `entry_line`.
pub fn encode_entry(name: &String, status: &TestStatus) -> (r: String)
    ensures
        r@ == entry_line(name@, *status),
{
    let mut r = name.clone();
    r.append("\t");
    match status {
        TestStatus::Passed => {
            r.append("passed");
        },
        TestStatus::EvmErr(msg) => {
            r.append("evm-err\t");
            r.append(msg.as_str());
        },
        TestStatus::IncorrectAccountFinalState(d) => {
            r.append("state-mismatch\t");
            append_comparison(&mut r, &d.state);
            r.append("\t");
            append_comparison(&mut r, &d.receipt);
            r.append("\t");
            append_comparison(&mut r, &d.transaction);
        },
    }
    proof {
        assert(r@ =~= entry_line(name@, *status));
    }
    r
}

/// Every hex digit is one character, and never a separator.
proof fn lemma_hex_digit_shape(v: int)
    ensures
        hex_digit_text(v).len() == 1,
        hex_digit_text(v)[0] != '\t',
{
    reveal_strlit("0");
    reveal_strlit("1");
    reveal_strlit("2");
    reveal_strlit("3");
    reveal_strlit("4");
    reveal_strlit("5");
    reveal_strlit("6");
    reveal_strlit("7");
    reveal_strlit("8");
    reveal_strlit("9");
    reveal_strlit("a");
    reveal_strlit("b");
    reveal_strlit("c");
    reveal_strlit("d");
    reveal_strlit("e");
    reveal_strlit("f");
}

/// Hex text is two characters per byte.
proof fn lemma_hex_text_len(bs: Seq<u8>)
    ensures
        hex_text(bs).len() == 2 * bs.len(),
    decreases bs.len(),
{
    if bs.len() > 0 {
        lemma_hex_text_len(bs.drop_last());
        lemma_hex_digit_shape((bs.last() >> 4) as int);
        lemma_hex_digit_shape((bs.last() & 15) as int);
    }
}

/// The two hex characters of byte `k`, by position.
proof fn lemma_hex_text_index(bs: Seq<u8>, k: int)
    requires
        0 <= k < bs.len(),
    ensures
        hex_text(bs)[2 * k] == hex_digit_text((bs[k] >> 4) as int)[0],
        hex_text(bs)[2 * k + 1] == hex_digit_text((bs[k] & 15) as int)[0],
    decreases bs.len(),
{
    lemma_hex_text_len(bs);
    lemma_hex_text_len(bs.drop_last());
    lemma_hex_digit_shape((bs.last() >> 4) as int);
    lemma_hex_digit_shape((bs.last() & 15) as int);
    if k < bs.len() - 1 {
        lemma_hex_text_index(bs.drop_last(), k);
        assert(bs.drop_last()[k] == bs[k]);
    }
}

/// Hex text never contains the separator.
proof fn lemma_hex_text_tab_free(bs: Seq<u8>)
    ensures
        tab_free(hex_text(bs)),
{
    lemma_hex_text_len(bs);
    assert forall|m: int| 0 <= m < hex_text(bs).len() implies hex_text(bs)[m] != '\t' by {
        let k = m / 2;
        vstd::arithmetic::div_mod::lemma_fundamental_div_mod(m, 2);
        lemma_hex_text_index(bs, k);
        lemma_hex_digit_shape((bs[k] >> 4) as int);
        lemma_hex_digit_shape((bs[k] & 15) as int);
    }
}

/// A comparison code never contains the separator.
proof fn lemma_comparison_code_tab_free(c: TrieComparisonResult)
    ensures
        tab_free(comparison_code(c)),
{
    reveal_strlit("correct");
    reveal_strlit(":");
    match c {
        TrieComparisonResult::Correct => {},
        TrieComparisonResult::Difference(actual, expected) => {
            lemma_hex_text_tab_free(actual.bytes@);
            lemma_hex_text_tab_free(expected.bytes@);
            lemma_hex_text_len(actual.bytes@);
            lemma_hex_text_len(expected.bytes@);
            assert forall|i: int|
                0 <= i < comparison_code(c).len() implies comparison_code(c)[i] != '\t' by {
                let a = hex_text(actual.bytes@);
                let e = hex_text(expected.bytes@);
                if i < a.len() {
                    assert(comparison_code(c)[i] == a[i]);
                } else if i == a.len() {
                    assert(comparison_code(c)[i] == ":"@[0]);
                } else {
                    assert(comparison_code(c)[i] == e[i - a.len() - 1]);
                }
            }
        },
    }
}

/// In `a + TAB + b` with `a` tab-free, the first tab sits exactly after
/// `a`, and the two pieces around it are `a` and `b`.
proof fn lemma_first_tab_split(u: Seq<char>, a: Seq<char>, b: Seq<char>, i: int)
    requires
        u == a + "\t"@ + b,
        tab_free(a),
        0 <= i < u.len(),
        u[i] == '\t',
        forall|j: int| 0 <= j < i ==> u[j] != '\t',
    ensures
        i == a.len(),
        u.subrange(0, i) == a,
        u.subrange(i + 1, u.len() as int) == b,
{
    reveal_strlit("\t");
    assert(u[a.len() as int] == '\t');
    if i < a.len() {
        assert(u[i] == a[i]);
        assert(false);
    }
    if i > a.len() {
        assert(false);
    }
    assert(u.subrange(0, i) =~= a);
    assert(u.subrange(i + 1, u.len() as int) =~= b);
}

/// Index of the first tab character, if any.
fn scan_first_tab(s: &str) -> (r: Option<usize>)
    ensures
        match r {
            Option::Some(i) => i < s@.len() && s@[i as int] == '\t' && forall|j: int|
                0 <= j < i ==> s@[j] != '\t',
            Option::None => tab_free(s@),
        },
{
    let len = s.unicode_len();
    let mut i: usize = 0;
    while i < len
        invariant
            i <= len,
            len == s@.len(),
            forall|j: int| 0 <= j < i ==> s@[j] != '\t',
        decreases len - i,
    {
        if s.get_char(i) == '\t' {
            return Some(i);
        }
        i += 1;
    }
    None
}

/// The value of one hex digit character.
fn nibble_char(c: char) -> (r: Option<u8>)
    ensures
        r matches Some(v) ==> v < 16 && hex_digit_text(v as int)[0] == c,
        r is None ==> forall|v: int| 0 <= v < 16 ==> hex_digit_text(v)[0] != c,
{
    proof {
        lemma_hex_digit_shape(0);
        reveal_strlit("0");
        reveal_strlit("1");
        reveal_strlit("2");
        reveal_strlit("3");
        reveal_strlit("4");
        reveal_strlit("5");
        reveal_strlit("6");
        reveal_strlit("7");
        reveal_strlit("8");
        reveal_strlit("9");
        reveal_strlit("a");
        reveal_strlit("b");
        reveal_strlit("c");
        reveal_strlit("d");
        reveal_strlit("e");
        reveal_strlit("f");
    }
    match c {
        '0' => Some(0),
        '1' => Some(1),
        '2' => Some(2),
        '3' => Some(3),
        '4' => Some(4),
        '5' => Some(5),
        '6' => Some(6),
        '7' => Some(7),
        '8' => Some(8),
        '9' => Some(9),
        'a' => Some(10),
        'b' => Some(11),
        'c' => Some(12),
        'd' => Some(13),
        'e' => Some(14),
        'f' => Some(15),
        _ => None,
    }
}

/// Parse exactly 64 hex digits into a 32-byte word; succeeds on exactly the
/// hex texts of 32-byte words.
fn parse_hex_32(s: &str) -> (r: Option<Bytes32>)
    ensures
        r matches Some(b) ==> s@ == hex_text(b.bytes@),
        r is None ==> forall|bs: Seq<u8>| bs.len() == 32 ==> s@ != hex_text(bs),
{
    let len = s.unicode_len();
    if len != 64 {
        proof {
            assert forall|bs: Seq<u8>| bs.len() == 32 implies s@ != hex_text(bs) by {
                lemma_hex_text_len(bs);
            }
        }
        return None;
    }
    let mut arr = [0u8; 32];
    let mut j: usize = 0;
    while j < 32
        invariant
            j <= 32,
            s@.len() == 64,
            arr@.len() == 32,
            forall|k: int|
                0 <= k < j ==> s@[2 * k] == hex_digit_text(((#[trigger] arr@[k]) >> 4) as int)[0]
                    && s@[2 * k + 1] == hex_digit_text((arr@[k] & 15) as int)[0],
        decreases 32 - j,
    {
        let c_hi = s.get_char(2 * j);
        let c_lo = s.get_char(2 * j + 1);
        let hi = nibble_char(c_hi);
        let lo = nibble_char(c_lo);
        match (hi, lo) {
            (Option::Some(h), Option::Some(l)) => {
                let v = h * 16 + l;
                proof {
                    assert((h < 16 && l < 16 && v == h * 16 + l) ==> ((v >> 4) == h && (v & 15)
                        == l)) by (bit_vector);
                }
                arr[j] = v;
            },
            _ => {
                proof {
                    assert forall|bs: Seq<u8>| bs.len() == 32 implies s@ != hex_text(bs) by {
                        if s@ == hex_text(bs) {
                            lemma_hex_text_index(bs, j as int);
                            let bv: u8 = bs[j as int];
                            assert((bv >> 4) < 16 && (bv & 15) < 16) by (bit_vector);
                        }
                    }
                }
                return None;
            },
        }
        j += 1;
    }
    let b = Bytes32 { bytes: arr };
    proof {
        lemma_hex_text_len(arr@);
        assert forall|m: int| 0 <= m < 64 implies s@[m] == hex_text(arr@)[m] by {
            let k = m / 2;
            vstd::arithmetic::div_mod::lemma_fundamental_div_mod(m, 2);
            lemma_hex_text_index(arr@, k);
        }
        assert(s@ =~= hex_text(arr@));
    }
    Some(b)
}

/// Parse one encoded trie comparison; succeeds on exactly the comparison
/// codes.
fn parse_comparison(s: &str) -> (r: Option<TrieComparisonResult>)
    ensures
        r matches Some(c) ==> s@ == comparison_code(c),
        r is None ==> forall|c: TrieComparisonResult| s@ != comparison_code(c),
{
    proof {
        reveal_strlit("correct");
        reveal_strlit(":");
    }
    if s.to_owned().eq(&"correct".to_owned()) {
        return Some(TrieComparisonResult::Correct);
    }
    let len = s.unicode_len();
    if len != 129 {
        proof {
            assert forall|c: TrieComparisonResult| s@ != comparison_code(c) by {
                if s@ == comparison_code(c) {
                    match c {
                        TrieComparisonResult::Correct => {},
                        TrieComparisonResult::Difference(actual, expected) => {
                            lemma_hex_text_len(actual.bytes@);
                            lemma_hex_text_len(expected.bytes@);
                        },
                    }
                }
            }
        }
        return None;
    }
    if s.get_char(64) != ':' {
        proof {
            assert forall|c: TrieComparisonResult| s@ != comparison_code(c) by {
                if s@ == comparison_code(c) {
                    match c {
                        TrieComparisonResult::Correct => {},
                        TrieComparisonResult::Difference(actual, expected) => {
                            lemma_hex_text_len(actual.bytes@);
                            assert(s@[64] == ":"@[0]);
                        },
                    }
                }
            }
        }
        return None;
    }
    let hex_a = s.substring_char(0, 64);
    let hex_e = s.substring_char(65, 129);
    let pa = parse_hex_32(hex_a);
    let pe = parse_hex_32(hex_e);
    match (pa, pe) {
        (Option::Some(actual), Option::Some(expected)) => {
            proof {
                assert(s@ =~= comparison_code(TrieComparisonResult::Difference(actual, expected)));
            }
            Some(TrieComparisonResult::Difference(actual, expected))
        },
        _ => {
            proof {
                assert forall|c: TrieComparisonResult| s@ != comparison_code(c) by {
                    if s@ == comparison_code(c) {
                        match c {
                            TrieComparisonResult::Correct => {},
                            TrieComparisonResult::Difference(actual, expected) => {
                                lemma_hex_text_len(actual.bytes@);
                                lemma_hex_text_len(expected.bytes@);
                                assert(hex_a@ =~= hex_text(actual.bytes@));
                                assert(hex_e@ =~= hex_text(expected.bytes@));
                            },
                        }
                    }
                }
            }
            None
        },
    }
}

/// Parse the three tab-separated comparison codes of a mismatch; succeeds
/// on exactly the `codes_text` of some mismatch.
fn parse_codes(codes: &str) -> (r: Option<TrieFinalStateDiff>)
    ensures
        r matches Some(d) ==> codes@ == codes_text(d),
        r is None ==> forall|d: TrieFinalStateDiff| codes@ != codes_text(d),
{
    let clen = codes.unicode_len();
    let t1 = match scan_first_tab(codes) {
        Option::Some(i) => i,
        Option::None => {
            proof {
                reveal_strlit("\t");
                assert forall|d: TrieFinalStateDiff| codes@ != codes_text(d) by {
                    if codes@ == codes_text(d) {
                        let a = comparison_code(d.state);
                        assert(codes@[a.len() as int] == '\t');
                    }
                }
            }
            return None;
        },
    };
    let c1 = codes.substring_char(0, t1);
    let rest1 = codes.substring_char(t1 + 1, clen);
    proof {
        reveal_strlit("\t");
        assert(codes@ =~= c1@ + "\t"@ + rest1@);
    }
    let r1len = rest1.unicode_len();
    let t2 = match scan_first_tab(rest1) {
        Option::Some(i) => i,
        Option::None => {
            proof {
                reveal_strlit("\t");
                assert forall|d: TrieFinalStateDiff| codes@ != codes_text(d) by {
                    if codes@ == codes_text(d) {
                        lemma_comparison_code_tab_free(d.state);
                        assert(codes@ =~= comparison_code(d.state) + "\t"@ + (comparison_code(
                            d.receipt,
                        ) + "\t"@ + comparison_code(d.transaction)));
                        lemma_first_tab_split(
                            codes@,
                            comparison_code(d.state),
                            comparison_code(d.receipt) + "\t"@ + comparison_code(d.transaction),
                            t1 as int,
                        );
                        let b = comparison_code(d.receipt);
                        assert(rest1@[b.len() as int] == '\t');
                    }
                }
            }
            return None;
        },
    };
    let c2 = rest1.substring_char(0, t2);
    let c3 = rest1.substring_char(t2 + 1, r1len);
    proof {
        reveal_strlit("\t");
        assert(rest1@ =~= c2@ + "\t"@ + c3@);
    }
    let p1 = parse_comparison(c1);
    let p2 = parse_comparison(c2);
    let p3 = parse_comparison(c3);
    match (p1, p2, p3) {
        (Option::Some(state), Option::Some(receipt), Option::Some(transaction)) => {
            let d = TrieFinalStateDiff { state, receipt, transaction };
            proof {
                assert(codes@ =~= codes_text(d));
            }
            Some(d)
        },
        _ => {
            proof {
                reveal_strlit("\t");
                assert forall|d: TrieFinalStateDiff| codes@ != codes_text(d) by {
                    if codes@ == codes_text(d) {
                        lemma_comparison_code_tab_free(d.state);
                        lemma_comparison_code_tab_free(d.receipt);
                        assert(codes@ =~= comparison_code(d.state) + "\t"@ + (comparison_code(
                            d.receipt,
                        ) + "\t"@ + comparison_code(d.transaction)));
                        lemma_first_tab_split(
                            codes@,
                            comparison_code(d.state),
                            comparison_code(d.receipt) + "\t"@ + comparison_code(d.transaction),
                            t1 as int,
                        );
                        lemma_first_tab_split(
                            rest1@,
                            comparison_code(d.receipt),
                            comparison_code(d.transaction),
                            t2 as int,
                        );
                        assert(c1@ == comparison_code(d.state));
                        assert(c2@ == comparison_code(d.receipt));
                        assert(c3@ == comparison_code(d.transaction));
                    }
                }
            }
            None
        },
    }
}

/// Parse the status part of an entry; succeeds on exactly the payload
/// texts.
fn parse_status(rest: &str) -> (r: Option<TestStatus>)
    ensures
        r matches Some(s) ==> rest@ == payload_text(s),
        r is None ==> forall|s: TestStatus| rest@ != payload_text(s),
{
    proof {
        reveal_strlit("passed");
        reveal_strlit("evm-err\t");
        reveal_strlit("state-mismatch\t");
    }
    let rlen = rest.unicode_len();
    if rest.to_owned().eq(&"passed".to_owned()) {
        return Some(TestStatus::Passed);
    }
    let mut err_prefix = false;
    if rlen >= 8 {
        err_prefix = rest.substring_char(0, 8).to_owned().eq(&"evm-err\t".to_owned());
    }
    if err_prefix {
        let msg = rest.substring_char(8, rlen).to_owned();
        let s = TestStatus::EvmErr(msg);
        proof {
            assert(rest@ =~= payload_text(s));
        }
        return Some(s);
    }
    let mut mismatch_prefix = false;
    if rlen >= 15 {
        mismatch_prefix = rest.substring_char(0, 15).to_owned().eq(
            &"state-mismatch\t".to_owned(),
        );
    }
    if mismatch_prefix {
        let codes = rest.substring_char(15, rlen);
        match parse_codes(codes) {
            Option::Some(d) => {
                let s = TestStatus::IncorrectAccountFinalState(d);
                proof {
                    assert(rest@ =~= payload_text(s));
                }
                return Some(s);
            },
            Option::None => {
                proof {
                    assert forall|s: TestStatus| rest@ != payload_text(s) by {
                        if rest@ == payload_text(s) {
                            match s {
                                TestStatus::Passed => {
                                    assert(rest@[0] == "state-mismatch\t"@[0]);
                                    assert(rest@[0] == "passed"@[0]);
                                },
                                TestStatus::EvmErr(_) => {
                                    assert(rest@[0] == "state-mismatch\t"@[0]);
                                    assert(rest@[0] == "evm-err\t"@[0]);
                                },
                                TestStatus::IncorrectAccountFinalState(d) => {
                                    assert(codes@ =~= codes_text(d));
                                },
                            }
                        }
                    }
                }
                return None;
            },
        }
    }
    proof {
        assert forall|s: TestStatus| rest@ != payload_text(s) by {
            if rest@ == payload_text(s) {
                match s {
                    TestStatus::Passed => {},
                    TestStatus::EvmErr(_) => {
                        assert(rest@.len() >= 8);
                        assert(rest@.subrange(0, 8) =~= "evm-err\t"@);
                    },
                    TestStatus::IncorrectAccountFinalState(_) => {
                        assert(rest@.len() >= 15);
                        assert(rest@.subrange(0, 15) =~= "state-mismatch\t"@);
                    },
                }
            }
        }
    }
    None
}

/// Decode one entry back from its line. Decoding is sound — a returned
/// entry re-encodes to exactly the given line — and complete: a `None`
/// means no entry with a tab-free name encodes to the line (a tab inside a
/// name would collide with the separator, so such names are not encodable).
pub fn decode_entry(line: &String) -> (r: Option<(String, TestStatus)>)
    ensures
        r matches Some(p) ==> line@ == entry_line(p.0@, p.1),
        r is None ==> forall|n: Seq<char>, s: TestStatus|
            tab_free(n) ==> line@ != entry_line(n, s),
{
    let s = line.as_str();
    let len = s.unicode_len();
    let tab = match scan_first_tab(s) {
        Option::Some(i) => i,
        Option::None => {
            proof {
                reveal_strlit("\t");
                assert forall|n: Seq<char>, st: TestStatus| tab_free(n) implies line@ != entry_line(
                    n,
                    st,
                ) by {
                    if line@ == entry_line(n, st) {
                        assert(line@[n.len() as int] == '\t');
                    }
                }
            }
            return None;
        },
    };
    let name = s.substring_char(0, tab).to_owned();
    let rest = s.substring_char(tab + 1, len);
    proof {
        reveal_strlit("\t");
        assert(line@ =~= name@ + "\t"@ + rest@);
    }
    match parse_status(rest) {
        Option::Some(status) => {
            proof {
                assert(line@ =~= entry_line(name@, status));
            }
            Some((name, status))
        },
        Option::None => {
            proof {
                assert forall|n: Seq<char>, st: TestStatus| tab_free(n) implies line@ != entry_line(
                    n,
                    st,
                ) by {
                    if line@ == entry_line(n, st) {
                        lemma_first_tab_split(line@, n, payload_text(st), tab as int);
                        assert(rest@ == payload_text(st));
                    }
                }
            }
            None
        },
    }
}

} // verus!

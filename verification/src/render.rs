//! User-visible text for statuses and trie comparisons: the substitute for
//! `Display`, with the rendered text fixed exactly by spec functions.
//! Hashes are rendered as full lower-case hex.

use vstd::prelude::*;
use vstd::string::StringExecFns;
use crate::model::{Bytes32, TestStatus, TrieComparisonResult, TrieFinalStateDiff};

verus! {

/// The text of one hex digit, for a nibble value below 16.
pub open spec fn hex_digit_text(n: int) -> Seq<char> {
    if n == 0 {
        "0"@
    } else if n == 1 {
        "1"@
    } else if n == 2 {
        "2"@
    } else if n == 3 {
        "3"@
    } else if n == 4 {
        "4"@
    } else if n == 5 {
        "5"@
    } else if n == 6 {
        "6"@
    } else if n == 7 {
        "7"@
    } else if n == 8 {
        "8"@
    } else if n == 9 {
        "9"@
    } else if n == 10 {
        "a"@
    } else if n == 11 {
        "b"@
    } else if n == 12 {
        "c"@
    } else if n == 13 {
        "d"@
    } else if n == 14 {
        "e"@
    } else {
        "f"@
    }
}

/// Two hex digits for one byte, high nibble first.
pub open spec fn hex_byte_text(b: u8) -> Seq<char> {
    hex_digit_text((b >> 4) as int) + hex_digit_text((b & 0x0f) as int)
}

/// Lower-case hex of a byte sequence, two digits per byte, in order.
pub open spec fn hex_text(bs: Seq<u8>) -> Seq<char>
    decreases bs.len(),
{
    if bs.len() == 0 {
        Seq::empty()
    } else {
        hex_text(bs.drop_last()) + hex_byte_text(bs.last())
    }
}

fn hex_digit_str(n: u8) -> (r: &'static str)
    requires
        n < 16,
    ensures
        r@ == hex_digit_text(n as int),
{
    match n {
        0 => "0",
        1 => "1",
        2 => "2",
        3 => "3",
        4 => "4",
        5 => "5",
        6 => "6",
        7 => "7",
        8 => "8",
        9 => "9",
        10 => "a",
        11 => "b",
        12 => "c",
        13 => "d",
        14 => "e",
        _ => "f",
    }
}

fn push_hex_byte(s: &mut String, b: u8)
    ensures
        final(s)@ == old(s)@ + hex_byte_text(b),
{
    proof {
        assert((b >> 4) < 16 && (b & 0x0f) < 16) by (bit_vector);
    }
    s.append(hex_digit_str(b >> 4));
    s.append(hex_digit_str(b & 0x0f));
    proof {
        assert(s@ =~= old(s)@ + hex_byte_text(b));
    }
}

impl Bytes32 {
    /// This word as full lower-case hex, two digits per byte.
    pub fn render_hex(&self) -> (r: String)
        ensures
            r@ == hex_text(self.bytes@),
    {
        let mut r = String::new();
        let mut i: usize = 0;
        proof {
            assert(self.bytes@.take(0) =~= Seq::<u8>::empty());
        }
        while i < 32
            invariant
                i <= 32,
                r@ == hex_text(self.bytes@.take(i as int)),
            decreases 32 - i,
        {
            proof {
                assert(self.bytes@.take(i + 1).drop_last() =~= self.bytes@.take(i as int));
                assert(self.bytes@.take(i + 1).last() == self.bytes@[i as int]);
            }
            push_hex_byte(&mut r, self.bytes[i]);
            i += 1;
        }
        proof {
            assert(self.bytes@.take(32) =~= self.bytes@);
        }
        r
    }
}

/// The text of one trie comparison.
pub open spec fn trie_comparison_text(c: TrieComparisonResult) -> Seq<char> {
    match c {
        TrieComparisonResult::Correct => "Correct"@,
        TrieComparisonResult::Difference(actual, expected) => "Difference (Actual: 0x"@
            + hex_text(actual.bytes@) + ", Expected: 0x"@ + hex_text(expected.bytes@) + ")"@,
    }
}

/// The text of a final-state trie diff.
pub open spec fn trie_diff_text(d: TrieFinalStateDiff) -> Seq<char> {
    "State: "@ + trie_comparison_text(d.state) + ", Receipt: "@ + trie_comparison_text(d.receipt)
        + ", Transaction: "@ + trie_comparison_text(d.transaction)
}

/// The text of a test's recorded status.
pub open spec fn status_text(s: TestStatus) -> Seq<char> {
    match s {
        TestStatus::Passed => "Passed"@,
        TestStatus::EvmErr(msg) => "Evm error: "@ + msg@,
        TestStatus::IncorrectAccountFinalState(d) => "Expected trie hash mismatch: "@
            + trie_diff_text(d),
    }
}

impl TrieComparisonResult {
    /// This comparison's user-visible text.
    pub fn render(&self) -> (r: String)
        ensures
            r@ == trie_comparison_text(*self),
    {
        match self {
            TrieComparisonResult::Correct => "Correct".to_owned(),
            TrieComparisonResult::Difference(actual, expected) => {
                let mut r = "Difference (Actual: 0x".to_owned();
                let a = actual.render_hex();
                r.append(a.as_str());
                r.append(", Expected: 0x");
                let e = expected.render_hex();
                r.append(e.as_str());
                r.append(")");
                proof {
                    assert(r@ =~= trie_comparison_text(*self));
                }
                r
            },
        }
    }
}

impl TrieFinalStateDiff {
    /// This diff's user-visible text.
    pub fn render(&self) -> (r: String)
        ensures
            r@ == trie_diff_text(*self),
    {
        let mut r = "State: ".to_owned();
        let state = self.state.render();
        r.append(state.as_str());
        r.append(", Receipt: ");
        let receipt = self.receipt.render();
        r.append(receipt.as_str());
        r.append(", Transaction: ");
        let transaction = self.transaction.render();
        r.append(transaction.as_str());
        proof {
            assert(r@ =~= trie_diff_text(*self));
        }
        r
    }
}

impl TestStatus {
    /// This status's user-visible text.
    pub fn render(&self) -> (r: String)
        ensures
            r@ == status_text(*self),
    {
        match self {
            TestStatus::Passed => "Passed".to_owned(),
            TestStatus::EvmErr(msg) => {
                let mut r = "Evm error: ".to_owned();
                r.append(msg.as_str());
                r
            },
            TestStatus::IncorrectAccountFinalState(d) => {
                let mut r = "Expected trie hash mismatch: ".to_owned();
                let diff = d.render();
                r.append(diff.as_str());
                r
            },
        }
    }
}

} // verus!

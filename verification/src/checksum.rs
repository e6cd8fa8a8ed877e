//! The checksum of IP headers.

use crate::bytes::{be16, be16_at, lemma_be16_roundtrip, overlay, read_be16};
use vstd::prelude::*;

verus! {

/// The sum of the first `k` 16-bit words of `s`.
pub open spec fn word_sum(s: Seq<u8>, k: nat) -> nat
    decreases k,
{
    if k == 0 {
        0
    } else {
        word_sum(s, (k - 1) as nat) + be16_at(s, 2 * (k - 1)) as nat
    }
}

/// The 16-bit number that adding the carries back in until none is left makes
/// of `total`: zero for zero, and otherwise the number from 1 to 65535 that
/// leaves the same remainder by 65535.
pub open spec fn carried(total: nat) -> nat {
    if total == 0 {
        0
    } else {
        ((total - 1) % 65535 + 1) as nat
    }
}

/// The checksum for a sum of words.
pub open spec fn checksum_of(total: nat) -> u16 {
    (65535 - carried(total)) as u16
}

/// A sum of words stays below the number of words times 65536.
pub proof fn lemma_word_sum_bound(s: Seq<u8>, k: nat)
    ensures
        word_sum(s, k) <= 65535 * k,
    decreases k,
{
    if k > 0 {
        lemma_word_sum_bound(s, (k - 1) as nat);
    }
}

/// A sum of words never shrinks as words are added.
pub proof fn lemma_word_sum_monotonic(s: Seq<u8>, j: nat, k: nat)
    requires
        j <= k,
    ensures
        word_sum(s, j) <= word_sum(s, k),
    decreases k,
{
    if j < k {
        lemma_word_sum_monotonic(s, j, (k - 1) as nat);
    }
}

/// The checksum for a sum of words.
pub fn fold(total: u32) -> (r: u16)
    ensures
        r == checksum_of(total as nat),
{
    let mut sum = total;
    while sum / 0x1_0000 != 0
        invariant
            carried(sum as nat) == carried(total as nat),
        decreases sum,
    {
        let high = sum / 0x1_0000;
        let low = sum % 0x1_0000;
        proof {
            assert((low + high - 1 + 65535 * high) % 65535 == (low + high - 1) % 65535);
            assert(sum - 1 == low + high - 1 + 65535 * high);
        }
        sum = low + high;
    }
    assert(carried(sum as nat) == sum);
    (65535 - sum) as u16
}

/// The sum of the whole words of `data`; a last single byte is left out.
pub fn sum_words(data: &[u8]) -> (r: u32)
    requires
        word_sum(data@, data@.len() / 2) <= u32::MAX,
    ensures
        r == word_sum(data@, data@.len() / 2),
{
    let size = data.len();
    let n = size / 2;
    let mut sum: u32 = 0;
    let mut i: usize = 0;
    while i < n
        invariant
            i <= n,
            size == data@.len(),
            n == size / 2,
            sum == word_sum(data@, i as nat),
            word_sum(data@, n as nat) <= u32::MAX,
        decreases n - i,
    {
        proof {
            lemma_word_sum_monotonic(data@, (i + 1) as nat, n as nat);
        }
        sum = sum + read_be16(data, 2 * i) as u32;
        i = i + 1;
    }
    sum
}

proof fn lemma_word_sum_replace(s: Seq<u8>, at: int, w: u16, k: nat)
    requires
        0 <= at,
        2 * at + 2 <= s.len(),
        2 * k <= s.len(),
        be16_at(s, 2 * at) == 0,
    ensures
        word_sum(overlay(s, 2 * at, be16(w)), k) == word_sum(s, k) + (if at < k {
            w as nat
        } else {
            0
        }),
    decreases k,
{
    if k > 0 {
        lemma_word_sum_replace(s, at, w, (k - 1) as nat);
        let t = overlay(s, 2 * at, be16(w));
        let p = 2 * (k - 1);
        lemma_be16_roundtrip(w);
        if k - 1 == at {
            assert(t[p] == be16(w)[0] && t[p + 1] == be16(w)[1]);
        } else {
            assert(t[p] == s[p] && t[p + 1] == s[p + 1]);
        }
    }
}

/// Words of which one holds the checksum of the others, in a place that was
/// zero when the checksum was taken, have the checksum zero.
pub proof fn lemma_checksum_verifies(s: Seq<u8>, at: int, k: nat)
    requires
        0 <= at < k,
        2 * k <= s.len(),
        be16_at(s, 2 * at) == 0,
    ensures
        checksum_of(
            word_sum(overlay(s, 2 * at, be16(checksum_of(word_sum(s, k)))), k),
        ) == 0,
{
    let total = word_sum(s, k);
    let c = checksum_of(total);
    lemma_word_sum_replace(s, at, c, k);
    if total > 0 {
        let q = (total - 1) / 65535;
        assert(total - 1 == 65535 * q + (total - 1) % 65535);
        assert(total + c == 65535 * q + 65535);
        assert((65535 * q + 65534) % 65535 == 65534);
    }
}

/// The sum of a header's ten words.
pub open spec fn header_total(h: Seq<u8>) -> int {
    256 * (h[0] + h[2] + h[4] + h[6] + h[8] + h[10] + h[12] + h[14] + h[16] + h[18]) + (h[1] + h[3]
        + h[5] + h[7] + h[9] + h[11] + h[13] + h[15] + h[17] + h[19])
}

/// Each word adds the value of its two bytes.
pub proof fn lemma_word_sum_adds(s: Seq<u8>, k: nat)
    requires
        2 * k + 2 <= s.len(),
    ensures
        word_sum(s, 0) == 0,
        word_sum(s, k + 1) == word_sum(s, k) + 256 * s[2 * (k as int)] + s[2 * (k as int) + 1],
{
}

/// The sum of a header of twenty bytes is that of its words.
pub proof fn lemma_header_sum(h: Seq<u8>)
    requires
        h.len() == 20,
    ensures
        word_sum(h, 10) == header_total(h),
{
    reveal_with_fuel(word_sum, 11);
}

/// A checksum is what is missing from a sum to a multiple of 65535; for a sum of
/// zero it is the largest.
pub proof fn lemma_checksum_completes(total: nat)
    ensures
        (total + checksum_of(total)) % 65535 == 0,
        total > 0 ==> checksum_of(total) < 65535,
        total == 0 ==> checksum_of(total) == 65535,
{
    if total > 0 {
        let q = (total - 1) / 65535;
        assert(total - 1 == 65535 * q + (total - 1) % 65535);
        assert(total + checksum_of(total) == 65535 * (q + 1));
        assert((65535 * (q + 1)) % 65535 == 0);
    }
}

} // verus!

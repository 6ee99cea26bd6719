//! Byte-level helpers shared by the block codec and the WAL: the wrapping
//! 32-bit checksum fold, byte-slice copying and comparison, and decimal
//! rendering of counters.

use vstd::prelude::*;

verus! {

/// The 32-bit wrapping sum of a byte sequence: the checksum primitive of the
/// block codec and of WAL entry payloads.
pub open spec fn sum_bytes(s: Seq<u8>) -> u32
    decreases s.len(),
{
    if s.len() == 0 {
        0u32
    } else {
        vstd::wrapping::u32_specs::wrapping_add(sum_bytes(s.drop_last()), s.last() as u32)
    }
}

/// Folding one more byte extends the wrapping sum.
pub proof fn lemma_sum_bytes_push(s: Seq<u8>, b: u8)
    ensures
        sum_bytes(s.push(b)) == vstd::wrapping::u32_specs::wrapping_add(sum_bytes(s), b as u32),
{
    assert(s.push(b).drop_last() =~= s);
}

/// Computes the wrapping byte sum of a slice.
pub fn wrapping_sum(data: &[u8]) -> (r: u32)
    ensures
        r == sum_bytes(data@),
{
    let mut acc: u32 = 0;
    let mut i: usize = 0;
    while i < data.len()
        invariant
            0 <= i <= data@.len(),
            acc == sum_bytes(data@.take(i as int)),
        decreases data@.len() - i,
    {
        proof {
            assert(data@.take(i + 1).drop_last() =~= data@.take(i as int));
            assert(data@.take(i + 1).last() == data@[i as int]);
        }
        acc = acc.wrapping_add(data[i] as u32);
        i = i + 1;
    }
    proof {
        assert(data@.take(data@.len() as int) =~= data@);
    }
    acc
}

/// Appends all bytes of `src` to `out`.
pub fn push_bytes(out: &mut Vec<u8>, src: &[u8])
    ensures
        final(out)@ == old(out)@ + src@,
{
    let mut i: usize = 0;
    while i < src.len()
        invariant
            0 <= i <= src@.len(),
            out@ == old(out)@ + src@.take(i as int),
        decreases src@.len() - i,
    {
        out.push(src[i]);
        proof {
            assert(old(out)@ + src@.take(i + 1) =~= (old(out)@ + src@.take(i as int)).push(
                src@[i as int],
            ));
        }
        i = i + 1;
    }
    proof {
        assert(src@.take(src@.len() as int) =~= src@);
    }
}

/// Compares two byte slices for equality of contents.
pub fn bytes_equal(a: &[u8], b: &[u8]) -> (r: bool)
    ensures
        r == (a@ == b@),
{
    if a.len() != b.len() {
        return false;
    }
    let mut i: usize = 0;
    while i < a.len()
        invariant
            0 <= i <= a@.len(),
            a@.len() == b@.len(),
            forall|j: int| 0 <= j < i ==> a@[j] == b@[j],
        decreases a@.len() - i,
    {
        if a[i] != b[i] {
            return false;
        }
        i = i + 1;
    }
    proof {
        assert(a@ =~= b@);
    }
    true
}

/// The ASCII decimal digits of a counter, most significant first.
pub open spec fn spec_decimal(n: u64) -> Seq<u8>
    decreases n,
{
    if n < 10 {
        seq![(48 + n) as u8]
    } else {
        spec_decimal(n / 10).push((48 + (n % 10)) as u8)
    }
}

/// Ten to the given power.
pub open spec fn spec_pow10(k: nat) -> int
    decreases k,
{
    if k == 0 {
        1
    } else {
        10 * spec_pow10((k - 1) as nat)
    }
}

/// A counter below ten to the `k` renders in at most `k` digits.
pub proof fn lemma_decimal_len_bounded(n: u64, k: nat)
    requires
        1 <= k,
        n < spec_pow10(k),
    ensures
        1 <= spec_decimal(n).len() <= k,
    decreases k,
{
    if n >= 10 {
        assert(spec_pow10(k) == 10 * spec_pow10((k - 1) as nat));
        assert(spec_pow10(0) == 1);
        assert(spec_pow10(1) == 10);
        lemma_decimal_len_bounded(n / 10, (k - 1) as nat);
    }
}

/// Every counter renders in at most twenty digits, each an ASCII digit.
pub proof fn lemma_decimal_shape(n: u64)
    ensures
        1 <= spec_decimal(n).len() <= 20,
        forall|j: int| 0 <= j < spec_decimal(n).len() ==> 48 <= #[trigger] spec_decimal(n)[j]
            <= 57,
    decreases n,
{
    assert(spec_pow10(0) == 1);
    assert(spec_pow10(1) == 10);
    assert(spec_pow10(2) == 100);
    assert(spec_pow10(3) == 1000);
    assert(spec_pow10(4) == 10000);
    assert(spec_pow10(5) == 100000);
    assert(spec_pow10(6) == 1000000);
    assert(spec_pow10(7) == 10000000);
    assert(spec_pow10(8) == 100000000);
    assert(spec_pow10(9) == 1000000000);
    assert(spec_pow10(10) == 10000000000);
    assert(spec_pow10(11) == 100000000000);
    assert(spec_pow10(12) == 1000000000000);
    assert(spec_pow10(13) == 10000000000000);
    assert(spec_pow10(14) == 100000000000000);
    assert(spec_pow10(15) == 1000000000000000);
    assert(spec_pow10(16) == 10000000000000000);
    assert(spec_pow10(17) == 100000000000000000);
    assert(spec_pow10(18) == 1000000000000000000);
    assert(spec_pow10(19) == 10000000000000000000);
    assert(spec_pow10(20) == 100000000000000000000);
    lemma_decimal_len_bounded(n, 20);
    if n >= 10 {
        lemma_decimal_shape(n / 10);
        assert forall|j: int| 0 <= j < spec_decimal(n).len() implies 48 <= #[trigger] spec_decimal(
            n,
        )[j] <= 57 by {
            if j < spec_decimal(n).len() - 1 {
                assert(spec_decimal(n)[j] == spec_decimal(n / 10)[j]);
            }
        }
    }
}

/// Renders a counter as its ASCII decimal digits, most significant first.
pub fn u64_to_decimal(n: u64) -> (r: Vec<u8>)
    ensures
        r@ == spec_decimal(n),
        0 < r@.len() <= 20,
        forall|j: int| 0 <= j < r@.len() ==> 48 <= #[trigger] r@[j] <= 57,
{
    let mut rev: Vec<u8> = Vec::new();
    let mut m: u64 = n;
    let ghost mut tail: Seq<u8> = Seq::empty();
    proof {
        assert(spec_decimal(n) =~= spec_decimal(n) + tail);
    }
    while m >= 10
        invariant
            spec_decimal(n) == spec_decimal(m) + tail,
            tail.len() == rev@.len(),
            forall|j: int| 0 <= j < rev@.len() ==> #[trigger] rev@[j] == tail[tail.len() - 1 - j],
        decreases m,
    {
        let ghost pre_tail = tail;
        let d: u8 = 48 + ((m % 10) as u8);
        rev.push(d);
        proof {
            tail = seq![d] + pre_tail;
            assert(spec_decimal(m) == spec_decimal(m / 10).push(d));
            assert(spec_decimal(m / 10) + tail =~= spec_decimal(m) + pre_tail);
            assert forall|j: int| 0 <= j < rev@.len() implies #[trigger] rev@[j] == tail[tail.len()
                - 1 - j] by {
                if j < rev@.len() - 1 {
                    assert(tail[tail.len() - 1 - j] == pre_tail[pre_tail.len() - 1 - j]);
                }
            }
        }
        m = m / 10;
    }
    let ghost pre_tail = tail;
    let d: u8 = 48 + (m as u8);
    rev.push(d);
    proof {
        tail = seq![d] + pre_tail;
        assert(spec_decimal(m) =~= seq![d]);
        assert(spec_decimal(n) =~= tail);
        assert forall|j: int| 0 <= j < rev@.len() implies #[trigger] rev@[j] == tail[tail.len() - 1
            - j] by {
            if j < rev@.len() - 1 {
                assert(tail[tail.len() - 1 - j] == pre_tail[pre_tail.len() - 1 - j]);
            }
        }
    }
    let mut out: Vec<u8> = Vec::new();
    let mut i: usize = rev.len();
    while i > 0
        invariant
            i <= rev@.len(),
            tail.len() == rev@.len(),
            out@.len() == rev@.len() - i,
            forall|j: int| 0 <= j < rev@.len() ==> #[trigger] rev@[j] == tail[tail.len() - 1 - j],
            forall|j: int| 0 <= j < out@.len() ==> #[trigger] out@[j] == tail[j],
        decreases i,
    {
        i = i - 1;
        out.push(rev[i]);
    }
    proof {
        assert(out@ =~= tail);
        lemma_decimal_shape(n);
    }
    out
}

} // verus!

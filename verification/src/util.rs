//! Small text utilities consumed by the front ends.

use vstd::prelude::*;
use vstd::string::StringSliceAdditionalSpecFns;

verus! {

/// The running brace balance contribution of one byte. Braces are ASCII,
/// so counting bytes and counting characters agree on any UTF-8 text.
pub open spec fn spec_brace_delta(b: u8) -> int {
    if b == 0x7B {
        1
    } else if b == 0x7D {
        -1
    } else {
        0
    }
}

/// The brace balance of a byte sequence.
pub open spec fn spec_brace_count(s: Seq<u8>) -> int
    decreases s.len(),
{
    if s.len() == 0 {
        0
    } else {
        spec_brace_count(s.drop_last()) + spec_brace_delta(s.last())
    }
}

/// Whether no prefix of the text closes more braces than it has opened.
pub open spec fn spec_braces_nonneg(s: Seq<u8>) -> bool {
    forall|k: int| 0 <= k <= s.len() ==> spec_brace_count(#[trigger] s.take(k)) >= 0
}

/// A shallow JSON shape check: the text starts with `{`, ends with `}`,
/// never closes a brace it has not opened, and balances out at zero.
pub fn is_valid_json(json_str: &str) -> (r: bool)
    ensures
        r == ({
            let bytes = json_str.spec_bytes();
            &&& bytes.len() > 0
            &&& bytes[0] == 0x7B
            &&& bytes[bytes.len() - 1] == 0x7D
            &&& spec_braces_nonneg(bytes)
            &&& spec_brace_count(bytes) == 0
        }),
{
    let bytes = json_str.as_bytes();
    if bytes.len() == 0 {
        return false;
    }
    if bytes[0] != 0x7B || bytes[bytes.len() - 1] != 0x7D {
        return false;
    }
    let mut count: usize = 0;
    let mut i: usize = 0;
    while i < bytes.len()
        invariant
            0 <= i <= bytes@.len(),
            bytes@ == json_str.spec_bytes(),
            count <= i,
            count == spec_brace_count(bytes@.take(i as int)),
            forall|k: int| 0 <= k <= i ==> spec_brace_count(#[trigger] bytes@.take(k)) >= 0,
        decreases bytes@.len() - i,
    {
        proof {
            assert(bytes@.take(i + 1).drop_last() =~= bytes@.take(i as int));
            assert(bytes@.take(i + 1).last() == bytes@[i as int]);
        }
        let b = bytes[i];
        if b == 0x7B {
            count = count + 1;
        } else if b == 0x7D {
            if count == 0 {
                proof {
                    assert(spec_brace_count(bytes@.take(i + 1)) == -1);
                }
                return false;
            }
            count = count - 1;
        }
        i = i + 1;
    }
    proof {
        assert(bytes@.take(bytes@.len() as int) =~= bytes@);
    }
    count == 0
}

} // verus!

use vstd::prelude::*;
use vstd::slice::{slice_subrange, slice_to_vec};
use vstd::utf8::{decode_utf8, valid_utf8};

verus! {

/// The integer a byte sequence denotes when read big-endian.
pub open spec fn be_value(s: Seq<u8>) -> int
    decreases s.len(),
{
    if s.len() == 0 {
        0
    } else {
        be_value(s.drop_last()) * 256 + s.last()
    }
}

/// The index of the first zero byte, or the length if there is none:
/// the bytes before it form the null-terminated prefix.
pub open spec fn null_prefix_len(s: Seq<u8>) -> int
    decreases s.len(),
{
    if s.len() == 0 {
        0
    } else if s[0] == 0 {
        0
    } else {
        1 + null_prefix_len(s.skip(1))
    }
}

pub proof fn lemma_null_prefix_len_from_scan(s: Seq<u8>, i: int)
    requires
        0 <= i <= s.len(),
        forall|j: int| 0 <= j < i ==> s[j] != 0,
        i == s.len() || s[i] == 0,
    ensures
        null_prefix_len(s) == i,
    decreases i,
{
    if i > 0 {
        assert(s[0] != 0);
        lemma_null_prefix_len_from_scan(s.skip(1), i - 1);
    }
}

pub proof fn lemma_null_prefix_len_bounds(s: Seq<u8>)
    ensures
        0 <= null_prefix_len(s) <= s.len(),
        forall|j: int| 0 <= j < null_prefix_len(s) ==> s[j] != 0,
        null_prefix_len(s) < s.len() ==> s[null_prefix_len(s)] == 0,
    decreases s.len(),
{
    if s.len() > 0 && s[0] != 0 {
        lemma_null_prefix_len_bounds(s.skip(1));
        let n = null_prefix_len(s);
        assert forall|j: int| 0 <= j < n implies s[j] != 0 by {
            if j > 0 {
                assert(s.skip(1)[j - 1] != 0);
            }
        }
        if n < s.len() {
            assert(s.skip(1)[n - 1] == 0);
        }
    }
}

pub proof fn lemma_be_value_nonneg(s: Seq<u8>)
    ensures
        be_value(s) >= 0,
    decreases s.len(),
{
    if s.len() > 0 {
        lemma_be_value_nonneg(s.drop_last());
    }
}

pub proof fn lemma_be_value_4(s: Seq<u8>)
    requires
        s.len() == 4,
    ensures
        be_value(s) == s[0] * 0x1000000 + s[1] * 0x10000 + s[2] * 0x100 + s[3],
{
    reveal_with_fuel(be_value, 5);
    let s3 = s.drop_last();
    let s2 = s3.drop_last();
    let s1 = s2.drop_last();
    let s0 = s1.drop_last();
    assert(s0.len() == 0);
    assert(be_value(s1) == s[0]);
    assert(be_value(s2) == s[0] * 256 + s[1]);
    assert(be_value(s3) == (s[0] * 256 + s[1]) * 256 + s[2]);
}

pub proof fn lemma_be_value_2(s: Seq<u8>)
    requires
        s.len() == 2,
    ensures
        be_value(s) == s[0] * 0x100 + s[1],
{
    reveal_with_fuel(be_value, 3);
    let s1 = s.drop_last();
    let s0 = s1.drop_last();
    assert(s0.len() == 0);
    assert(be_value(s1) == s[0]);
}

/// Relies on String::from_utf8: it succeeds exactly on valid UTF-8 input
/// and decodes the bytes to the characters they encode.
#[verifier::external_body]
pub fn utf8_to_string(bytes: Vec<u8>) -> (r: Option<String>)
    ensures
        r is Some <==> valid_utf8(bytes@),
        r is Some ==> r.unwrap()@ == decode_utf8(bytes@),
{
    match String::from_utf8(bytes) {
        Ok(s) => Some(s),
        Err(_) => None,
    }
}

pub fn read_be_u32(input: &[u8]) -> (r: u32)
    requires
        input@.len() >= 4,
    ensures
        r == be_value(input@.take(4)),
{
    let r = (input[0] as u32) * 0x1000000 + (input[1] as u32) * 0x10000 + (input[2] as u32) * 0x100
        + (input[3] as u32);
    proof {
        lemma_be_value_4(input@.take(4));
    }
    r
}

pub fn read_be_u16(input: &[u8]) -> (r: u16)
    requires
        input@.len() >= 2,
    ensures
        r == be_value(input@.take(2)),
{
    let r = (input[0] as u16) * 0x100 + (input[1] as u16);
    proof {
        lemma_be_value_2(input@.take(2));
    }
    r
}

pub fn read_be_u32_mut(input: &mut &[u8]) -> (r: u32)
    requires
        old(input)@.len() >= 4,
    ensures
        r == be_value(old(input)@.take(4)),
        final(input)@ == old(input)@.skip(4),
{
    let r = read_be_u32(*input);
    *input = slice_subrange(*input, 4, input.len());
    proof {
        assert(input@ =~= old(input)@.skip(4));
    }
    r
}

pub fn read_str_mut(input: &mut &[u8], num_bytes: usize) -> (r: String)
    requires
        old(input)@.len() >= num_bytes,
        valid_utf8(old(input)@.take(num_bytes as int)),
    ensures
        r@ == decode_utf8(old(input)@.take(num_bytes as int)),
        final(input)@ == old(input)@.skip(num_bytes as int),
{
    let bytes = slice_to_vec(slice_subrange(*input, 0, num_bytes));
    proof {
        assert(bytes@ =~= old(input)@.take(num_bytes as int));
    }
    *input = slice_subrange(*input, num_bytes, input.len());
    proof {
        assert(input@ =~= old(input)@.skip(num_bytes as int));
    }
    utf8_to_string(bytes).unwrap()
}

pub fn read_until_null(input: &[u8]) -> (r: Vec<u8>)
    ensures
        r@ == input@.take(null_prefix_len(input@)),
{
    let mut i: usize = 0;
    while i < input.len() && input[i] != 0
        invariant
            0 <= i <= input@.len(),
            forall|j: int| 0 <= j < i ==> input@[j] != 0,
        decreases input@.len() - i,
    {
        i += 1;
    }
    proof {
        lemma_null_prefix_len_from_scan(input@, i as int);
    }
    let r = slice_to_vec(slice_subrange(input, 0, i));
    proof {
        assert(r@ =~= input@.take(i as int));
    }
    r
}

} // verus!

//! Byte framing for the solver's BLAKE3 identities.
use vstd::prelude::*;
use vstd::arithmetic::div_mod::*;
use vstd::arithmetic::power::*;

verus! {

/// The BLAKE3 digest (32 bytes, default mode) of a byte string.
pub uninterp spec fn blake3_digest(data: Seq<u8>) -> Seq<u8>;

/// Calls `blake3::hash` on the whole input.  The contract says only that
/// the result is the BLAKE3 digest of exactly the bytes handed in; the
/// digest itself is left unnamed beyond [`blake3_digest`].
#[verifier::external_body]
pub fn blake3_hash(data: &[u8]) -> (r: [u8; 32])
    ensures
        r@ == blake3_digest(data@),
{
    *blake3::hash(data).as_bytes()
}

/// Little-endian encoding of `value` in `width` bytes.
pub open spec fn le_bytes(value: nat, width: nat) -> Seq<u8> {
    Seq::new(width, |i: int| ((value as int / pow(256, i as nat)) % 256) as u8)
}

/// Appends the little-endian bytes of `value` (`width` bytes, at most 8).
pub fn push_le(out: &mut Vec<u8>, value: u64, width: usize)
    requires
        width <= 8,
    ensures
        final(out)@ == old(out)@ + le_bytes(value as nat, width as nat),
{
    let ghost start = out@;
    let mut rest: u64 = value;
    proof {
        lemma_pow0(256);
    }
    assert(out@ =~= start + le_bytes(value as nat, 0));
    let mut i: usize = 0;
    while i < width
        invariant
            i <= width <= 8,
            rest as int == value as int / pow(256, i as nat),
            out@ == start + le_bytes(value as nat, i as nat),
        decreases width - i,
    {
        proof {
            lemma_pow_positive(256, i as nat);
            lemma_div_denominator(value as int, pow(256, i as nat), 256);
            reveal(pow);
            assert(pow(256, (i + 1) as nat) == pow(256, i as nat) * 256) by {
                lemma_pow_adds(256, i as nat, 1);
                lemma_pow1(256);
            }
        }
        out.push((rest % 256) as u8);
        rest = rest / 256;
        assert(out@ =~= start + le_bytes(value as nat, (i + 1) as nat));
        i = i + 1;
    }
}

/// Appends every byte of `bytes`.
pub fn push_all(out: &mut Vec<u8>, bytes: &[u8])
    ensures
        final(out)@ == old(out)@ + bytes@,
{
    let ghost start = out@;
    let mut i: usize = 0;
    while i < bytes.len()
        invariant
            i <= bytes@.len(),
            out@ == start + bytes@.subrange(0, i as int),
        decreases bytes@.len() - i,
    {
        out.push(bytes[i]);
        assert(out@ =~= start + bytes@.subrange(0, i + 1));
        i = i + 1;
    }
    assert(bytes@.subrange(0, bytes@.len() as int) =~= bytes@);
}

/// Lowercase hexadecimal digit for a nibble.
pub open spec fn hex_digit(nibble: int) -> char {
    if nibble < 10 {
        (nibble + 48) as char
    } else {
        (nibble + 87) as char
    }
}

/// Lowercase hexadecimal rendering of a byte string, two digits per byte,
/// high nibble first.
pub open spec fn hex_lower(bytes: Seq<u8>) -> Seq<char> {
    Seq::new(
        2 * bytes.len(),
        |i: int|
            if i % 2 == 0 {
                hex_digit(bytes[i / 2] as int / 16)
            } else {
                hex_digit(bytes[i / 2] as int % 16)
            },
    )
}

fn hex_char(nibble: u8) -> (c: char)
    requires
        nibble < 16,
    ensures
        c == hex_digit(nibble as int),
{
    if nibble < 10 {
        (nibble + 48) as char
    } else {
        (nibble + 87) as char
    }
}

/// Renders bytes as lowercase hexadecimal.
pub fn to_hex_lower(bytes: &[u8]) -> (r: String)
    ensures
        r@ == hex_lower(bytes@),
{
    let mut out: Vec<char> = Vec::new();
    let mut i: usize = 0;
    while i < bytes.len()
        invariant
            i <= bytes@.len(),
            out@ =~= hex_lower(bytes@.subrange(0, i as int)),
        decreases bytes@.len() - i,
    {
        let b = bytes[i];
        out.push(hex_char(b / 16));
        out.push(hex_char(b % 16));
        proof {
            let next = bytes@.subrange(0, i + 1);
            assert forall|k: int| 0 <= k < 2 * (i + 1) implies #[trigger] out@[k] == hex_lower(
                next,
            )[k] by {
                if k < 2 * i {
                    assert(next[k / 2] == bytes@.subrange(0, i as int)[k / 2]);
                } else {
                    assert(k / 2 == i);
                }
            }
        }
        i = i + 1;
    }
    assert(bytes@.subrange(0, bytes@.len() as int) =~= bytes@);
    chars_to_string(&out)
}

/// Collects characters into a `String` (std's `String::from_iter`).
#[verifier::external_body]
fn chars_to_string(chars: &Vec<char>) -> (r: String)
    ensures
        r@ == chars@,
{
    chars.iter().collect()
}

} // verus!

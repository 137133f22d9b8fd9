//! Lowercase hex encoding of byte strings, as ASCII bytes, with an
//! injectivity lemma.
//!
//! The multi-recipient envelope tags each stanza with the hex form of the
//! recipient's public key; telling "wrong recipient" apart from "corrupt
//! ciphertext" rests on two distinct keys never sharing a hex form.

use vstd::prelude::*;

verus! {

/// The ASCII code of the lowercase hex digit for a value below 16.
pub open spec fn hex_digit(n: u8) -> u8
    recommends n < 16,
{
    if n < 10 {
        (0x30 + n) as u8
    } else if n < 16 {
        (0x57 + n) as u8
    } else {
        0x30
    }
}

/// The two hex digits of one byte, high nibble first.
pub open spec fn hex_byte(b: u8) -> Seq<u8> {
    seq![hex_digit(b / 16), hex_digit(b % 16)]
}

/// The lowercase hex form of a byte string, as ASCII bytes.
pub open spec fn hex_of(bytes: Seq<u8>) -> Seq<u8>
    decreases bytes.len(),
{
    if bytes.len() == 0 {
        Seq::empty()
    } else {
        hex_byte(bytes[0]) + hex_of(bytes.skip(1))
    }
}

pub proof fn lemma_hex_of_len(bytes: Seq<u8>)
    ensures hex_of(bytes).len() == 2 * bytes.len(),
    decreases bytes.len(),
{
    if bytes.len() > 0 {
        lemma_hex_of_len(bytes.skip(1));
    }
}

/// The digits of byte `i` stand at positions `2 * i` and `2 * i + 1`.
pub proof fn lemma_hex_of_index(bytes: Seq<u8>, i: int)
    requires 0 <= i < bytes.len(),
    ensures
        hex_of(bytes).len() == 2 * bytes.len(),
        hex_of(bytes)[2 * i] == hex_digit(bytes[i] / 16),
        hex_of(bytes)[2 * i + 1] == hex_digit(bytes[i] % 16),
    decreases bytes.len(),
{
    lemma_hex_of_len(bytes);
    lemma_hex_of_len(bytes.skip(1));
    if i > 0 {
        lemma_hex_of_index(bytes.skip(1), i - 1);
    }
}

proof fn lemma_hex_digit_injective(a: u8, b: u8)
    requires a < 16, b < 16, hex_digit(a) == hex_digit(b),
    ensures a == b,
{
}

/// Two byte strings with the same hex form are equal.
pub proof fn lemma_hex_of_injective(a: Seq<u8>, b: Seq<u8>)
    requires hex_of(a) == hex_of(b),
    ensures a == b,
{
    lemma_hex_of_len(a);
    lemma_hex_of_len(b);
    assert forall|i: int| 0 <= i < a.len() implies a[i] == b[i] by {
        lemma_hex_of_index(a, i);
        lemma_hex_of_index(b, i);
        lemma_hex_digit_injective((a[i] / 16) as u8, (b[i] / 16) as u8);
        lemma_hex_digit_injective((a[i] % 16) as u8, (b[i] % 16) as u8);
        assert(a[i] == a[i] / 16 * 16 + a[i] % 16) by (nonlinear_arith);
        assert(b[i] == b[i] / 16 * 16 + b[i] % 16) by (nonlinear_arith);
    }
    assert(a =~= b);
}

/// The ASCII code of the lowercase hex digit for a value below 16.
fn hex_digit_ascii(n: u8) -> (r: u8)
    requires n < 16,
    ensures r == hex_digit(n),
{
    if n < 10 {
        0x30 + n
    } else {
        0x57 + n
    }
}

/// Encodes a byte string as lowercase hex ASCII, two digits per byte.
pub fn hex_encode(bytes: &Vec<u8>) -> (r: Vec<u8>)
    ensures r@ == hex_of(bytes@),
{
    let mut out: Vec<u8> = Vec::new();
    let mut i: usize = 0;
    while i < bytes.len()
        invariant
            i <= bytes.len(),
            out@ == hex_of(bytes@.take(i as int)),
        decreases bytes.len() - i,
    {
        let b = bytes[i];
        out.push(hex_digit_ascii(b / 16));
        out.push(hex_digit_ascii(b % 16));
        proof {
            let pre = bytes@.take(i as int);
            let post = bytes@.take(i + 1int);
            lemma_hex_of_snoc(pre, bytes@[i as int]);
            assert(post =~= pre.push(bytes@[i as int]));
        }
        i += 1;
    }
    proof {
        assert(bytes@.take(bytes@.len() as int) =~= bytes@);
    }
    out
}

/// Appending one byte appends its two digits.
proof fn lemma_hex_of_snoc(bytes: Seq<u8>, b: u8)
    ensures hex_of(bytes.push(b)) == hex_of(bytes) + hex_byte(b),
    decreases bytes.len(),
{
    if bytes.len() == 0 {
        let p = bytes.push(b);
        assert(p.len() == 1);
        assert(p[0] == b);
        assert(p.skip(1) =~= Seq::<u8>::empty());
        assert(hex_of(p) == hex_byte(p[0]) + hex_of(p.skip(1)));
        assert(hex_of(p.skip(1)) == Seq::<u8>::empty());
        assert(hex_byte(b) + Seq::<u8>::empty() =~= hex_byte(b));
        assert(hex_of(bytes) + hex_byte(b) =~= hex_byte(b));
    } else {
        lemma_hex_of_snoc(bytes.skip(1), b);
        assert(bytes.push(b).skip(1) =~= bytes.skip(1).push(b));
        assert(hex_of(bytes.push(b)) =~= hex_byte(bytes[0]) + (hex_of(bytes.skip(1)) + hex_byte(b)));
        assert(hex_of(bytes) + hex_byte(b) =~= hex_byte(bytes[0]) + (hex_of(bytes.skip(1)) + hex_byte(b)));
    }
}

} // verus!

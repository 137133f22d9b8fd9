//! The persistence wire format: little-endian numbers, length-delimited
//! byte strings, and magic-header framing.
//!
//! Every encoder has a parser that is proved to be its exact inverse; the
//! document codecs build on these pieces.

use vstd::prelude::*;
use crate::errors::ArkError;

verus! {

/// The four little-endian bytes of a 32-bit number.
pub open spec fn enc_u32(v: u32) -> Seq<u8> {
    seq![
        (v % 256) as u8,
        ((v / 256) % 256) as u8,
        ((v / 65536) % 256) as u8,
        ((v / 16777216) % 256) as u8,
    ]
}

/// The 32-bit number four little-endian bytes carry.
pub open spec fn dec_u32(s: Seq<u8>) -> u32
    recommends s.len() == 4,
{
    (s[0] + s[1] * 256 + s[2] * 65536 + s[3] * 16777216) as u32
}

/// The eight little-endian bytes of a 64-bit number.
pub open spec fn enc_u64(v: u64) -> Seq<u8> {
    enc_u32((v % 4294967296) as u32) + enc_u32((v / 4294967296) as u32)
}

/// The 64-bit number eight little-endian bytes carry.
pub open spec fn dec_u64(s: Seq<u8>) -> u64
    recommends s.len() == 8,
{
    (dec_u32(s.subrange(0, 4)) + dec_u32(s.subrange(4, 8)) * 4294967296) as u64
}

/// The byte decomposition of a 32-bit number, derived once and shared by
/// the encoder and parser proofs.
proof fn lemma_u32_decompose(v: u32)
    ensures
        v == v % 256 + ((v / 256) % 256) * 256 + ((v / 65536) % 256) * 65536
            + ((v / 16777216) % 256) * 16777216,
{
    let vi = v as int;
    vstd::arithmetic::div_mod::lemma_fundamental_div_mod(vi, 256);
    vstd::arithmetic::div_mod::lemma_div_denominator(vi, 256, 256);
    vstd::arithmetic::div_mod::lemma_fundamental_div_mod(vi / 256, 256);
    vstd::arithmetic::div_mod::lemma_div_denominator(vi, 65536, 256);
    vstd::arithmetic::div_mod::lemma_fundamental_div_mod(vi / 65536, 256);
    vstd::arithmetic::div_mod::lemma_multiply_divide_lt(vi, 16777216, 256);
    vstd::arithmetic::div_mod::lemma_small_mod((vi / 16777216) as nat, 256);
}

pub proof fn lemma_u32_roundtrip(v: u32)
    ensures dec_u32(enc_u32(v)) == v,
{
    lemma_u32_decompose(v);
}

/// Four bytes determine the number they are the little-endian form of.
proof fn lemma_le32_parts(v: u32, b0: u32, b1: u32, b2: u32, b3: u32)
    requires
        b0 < 256, b1 < 256, b2 < 256, b3 < 256,
        v == b0 + b1 * 256 + b2 * 65536 + b3 * 16777216,
    ensures
        v % 256 == b0,
        (v / 256) % 256 == b1,
        (v / 65536) % 256 == b2,
        (v / 16777216) % 256 == b3,
{
    let vi = v as int;
    let q1: int = b1 + b2 * 256 + b3 * 65536;
    let q2: int = b2 + b3 * 256;
    vstd::arithmetic::div_mod::lemma_fundamental_div_mod_converse(vi, 256, q1, b0 as int);
    vstd::arithmetic::div_mod::lemma_fundamental_div_mod_converse(q1, 256, q2, b1 as int);
    vstd::arithmetic::div_mod::lemma_div_denominator(vi, 256, 256);
    vstd::arithmetic::div_mod::lemma_fundamental_div_mod_converse(q2, 256, b3 as int, b2 as int);
    vstd::arithmetic::div_mod::lemma_div_denominator(vi, 65536, 256);
    vstd::arithmetic::div_mod::lemma_small_mod(b3 as nat, 256);
}

pub proof fn lemma_u64_roundtrip(v: u64)
    ensures dec_u64(enc_u64(v)) == v,
{
    let lo = (v % 4294967296) as u32;
    let hi = (v / 4294967296) as u32;
    assert(enc_u64(v).subrange(0, 4) =~= enc_u32(lo));
    assert(enc_u64(v).subrange(4, 8) =~= enc_u32(hi));
    lemma_u32_roundtrip(lo);
    lemma_u32_roundtrip(hi);
    vstd::arithmetic::div_mod::lemma_fundamental_div_mod(v as int, 4294967296);
}

/// A length-delimited byte string: four length bytes, then the bytes.
pub open spec fn enc_bytes(b: Seq<u8>) -> Seq<u8>
    recommends b.len() < 4294967296,
{
    enc_u32(b.len() as u32) + b
}

/// An optional byte string: a presence byte, then the string if present.
pub open spec fn enc_opt_bytes(o: Option<Seq<u8>>) -> Seq<u8> {
    match o {
        Option::None => seq![0u8],
        Option::Some(b) => seq![1u8] + enc_bytes(b),
    }
}

/// A boolean as one byte.
pub open spec fn enc_bool(b: bool) -> Seq<u8> {
    if b { seq![1u8] } else { seq![0u8] }
}

/// Appends the little-endian bytes of a 32-bit number.
pub fn push_u32(out: &mut Vec<u8>, v: u32)
    ensures final(out)@ == old(out)@ + enc_u32(v),
{
    out.push((v % 256) as u8);
    out.push(((v / 256) % 256) as u8);
    out.push(((v / 65536) % 256) as u8);
    out.push(((v / 16777216) % 256) as u8);
    proof {
        assert(out@ =~= old(out)@ + enc_u32(v));
    }
}

/// Appends the little-endian bytes of a 64-bit number.
pub fn push_u64(out: &mut Vec<u8>, v: u64)
    ensures final(out)@ == old(out)@ + enc_u64(v),
{
    push_u32(out, (v % 4294967296) as u32);
    push_u32(out, (v / 4294967296) as u32);
    proof {
        assert(out@ =~= old(out)@ + enc_u64(v));
    }
}

/// Appends a byte string raw, without a length.
pub fn push_raw(out: &mut Vec<u8>, data: &Vec<u8>)
    ensures final(out)@ == old(out)@ + data@,
{
    let mut i: usize = 0;
    while i < data.len()
        invariant i <= data@.len(), out@ == old(out)@ + data@.take(i as int),
        decreases data@.len() - i,
    {
        out.push(data[i]);
        proof {
            assert(data@.take(i + 1int) =~= data@.take(i as int).push(data@[i as int]));
            assert(out@ =~= old(out)@ + data@.take(i + 1int));
        }
        i += 1;
    }
    proof { assert(data@.take(data@.len() as int) =~= data@); }
}

/// Appends a length-delimited byte string.
pub fn push_bytes(out: &mut Vec<u8>, data: &Vec<u8>)
    requires data@.len() < 4294967296,
    ensures final(out)@ == old(out)@ + enc_bytes(data@),
{
    push_u32(out, data.len() as u32);
    push_raw(out, data);
    proof { assert(out@ =~= old(out)@ + enc_bytes(data@)); }
}

/// Appends an optional length-delimited byte string.
pub fn push_opt_bytes(out: &mut Vec<u8>, data: &Option<Vec<u8>>)
    requires
        match data {
            Option::Some(b) => b@.len() < 4294967296,
            Option::None => true,
        },
    ensures
        final(out)@ == old(out)@ + enc_opt_bytes(
            match data {
                Option::Some(b) => Option::Some(b@),
                Option::None => Option::None,
            },
        ),
{
    match data {
        None => {
            out.push(0);
            proof { assert(out@ =~= old(out)@ + enc_opt_bytes(Option::None)); }
        }
        Some(b) => {
            out.push(1);
            push_bytes(out, b);
            proof { assert(out@ =~= old(out)@ + enc_opt_bytes(Option::Some(b@))); }
        }
    }
}

/// Appends a boolean as one byte.
pub fn push_bool(out: &mut Vec<u8>, b: bool)
    ensures final(out)@ == old(out)@ + enc_bool(b),
{
    out.push(if b { 1 } else { 0 });
    proof { assert(out@ =~= old(out)@ + enc_bool(b)); }
}

/// A cursor over a byte string being parsed.
pub struct Reader<'a> {
    buf: &'a Vec<u8>,
    pos: usize,
}

impl<'a> Reader<'a> {
    /// The bytes being parsed.
    pub closed spec fn buf_spec(&self) -> Seq<u8> {
        self.buf@
    }

    /// How many bytes are consumed.
    pub closed spec fn pos_spec(&self) -> int {
        self.pos as int
    }

    #[verifier::type_invariant]
    spec fn wf(self) -> bool {
        self.pos <= self.buf@.len()
    }

    /// Starts reading a byte string from its beginning.
    pub fn new(buf: &'a Vec<u8>) -> (r: Self)
        ensures r.buf_spec() == buf@, r.pos_spec() == 0,
    {
        Reader { buf, pos: 0 }
    }

    /// The cursor position.
    pub fn pos(&self) -> (r: usize)
        ensures r == self.pos_spec(), r <= self.buf_spec().len(),
    {
        proof { use_type_invariant(self); }
        self.pos
    }

    /// Whether every byte has been consumed.
    pub fn at_end(&self) -> (r: bool)
        ensures r == (self.pos_spec() == self.buf_spec().len()),
    {
        proof { use_type_invariant(self); }
        self.pos == self.buf.len()
    }

    /// Reads one byte.
    pub fn read_u8(&mut self) -> (r: Option<u8>)
        ensures
            old(self).buf_spec() == final(self).buf_spec(),
            match r {
                Some(v) => final(self).pos_spec() == old(self).pos_spec() + 1
                    && old(self).pos_spec() + 1 <= final(self).buf_spec().len()
                    && seq![v] == final(self).buf_spec().subrange(old(self).pos_spec(), final(self).pos_spec())
                    && p_u8(final(self).buf_spec(), old(self).pos_spec())
                        == Some((v, final(self).pos_spec())),
                None => final(self).pos_spec() == old(self).pos_spec()
                    && p_u8(final(self).buf_spec(), old(self).pos_spec()) is None,
            },
    {
        proof { use_type_invariant(&*self); }
        if self.pos < self.buf.len() {
            let v = self.buf[self.pos];
            self.pos += 1;
            proof {
                assert(seq![v] =~= self.buf_spec().subrange(self.pos_spec() - 1, self.pos_spec()));
            }
            Some(v)
        } else {
            None
        }
    }

    /// Reads a 32-bit little-endian number.
    pub fn read_u32(&mut self) -> (r: Option<u32>)
        ensures
            old(self).buf_spec() == final(self).buf_spec(),
            match r {
                Some(v) => final(self).pos_spec() == old(self).pos_spec() + 4
                    && old(self).pos_spec() + 4 <= final(self).buf_spec().len()
                    && enc_u32(v) == final(self).buf_spec().subrange(old(self).pos_spec(), final(self).pos_spec())
                    && p_u32(final(self).buf_spec(), old(self).pos_spec())
                        == Some((v, final(self).pos_spec())),
                None => final(self).pos_spec() == old(self).pos_spec()
                    && p_u32(final(self).buf_spec(), old(self).pos_spec()) is None,
            },
    {
        proof { use_type_invariant(&*self); }
        if self.buf.len() - self.pos >= 4 {
            let b0 = self.buf[self.pos] as u32;
            let b1 = self.buf[self.pos + 1] as u32;
            let b2 = self.buf[self.pos + 2] as u32;
            let b3 = self.buf[self.pos + 3] as u32;
            let v: u32 = b0 + b1 * 256 + b2 * 65536 + (b3 * 16777216);
            self.pos += 4;
            proof {
                let s = self.buf_spec().subrange(self.pos_spec() - 4, self.pos_spec());
                lemma_le32_parts(v, b0, b1, b2, b3);
                assert(enc_u32(v) =~= s);
                lemma_u32_roundtrip(v);
            }
            Some(v)
        } else {
            None
        }
    }

    /// Reads a 64-bit little-endian number.
    pub fn read_u64(&mut self) -> (r: Option<u64>)
        ensures
            old(self).buf_spec() == final(self).buf_spec(),
            match r {
                Some(v) => final(self).pos_spec() == old(self).pos_spec() + 8
                    && old(self).pos_spec() + 8 <= final(self).buf_spec().len()
                    && enc_u64(v) == final(self).buf_spec().subrange(old(self).pos_spec(), final(self).pos_spec())
                    && p_u64(final(self).buf_spec(), old(self).pos_spec())
                        == Some((v, final(self).pos_spec())),
                None => final(self).pos_spec() == old(self).pos_spec()
                    && p_u64(final(self).buf_spec(), old(self).pos_spec()) is None,
            },
    {
        proof { use_type_invariant(&*self); }
        if self.buf.len() - self.pos >= 8 {
            let ghost start = self.pos_spec();
            let lo = match self.read_u32() {
                Some(v) => v,
                None => { proof { assert(false); } unreached() }
            };
            let hi = match self.read_u32() {
                Some(v) => v,
                None => { proof { assert(false); } unreached() }
            };
            let v: u64 = lo as u64 + (hi as u64) * 4294967296;
            proof {
                vstd::arithmetic::div_mod::lemma_fundamental_div_mod_converse(
                    v as int, 4294967296, hi as int, lo as int);
                assert(enc_u64(v) =~= self.buf_spec().subrange(start, self.pos_spec()));
                lemma_u64_roundtrip(v);
            }
            Some(v)
        } else {
            None
        }
    }

    /// Reads `n` raw bytes.
    pub fn read_raw(&mut self, n: usize) -> (r: Option<Vec<u8>>)
        ensures
            old(self).buf_spec() == final(self).buf_spec(),
            match r {
                Some(v) => final(self).pos_spec() == old(self).pos_spec() + n
                    && old(self).pos_spec() + n <= final(self).buf_spec().len()
                    && v@ == final(self).buf_spec().subrange(old(self).pos_spec(), final(self).pos_spec())
                    && v@.len() == n
                    && p_raw(final(self).buf_spec(), old(self).pos_spec(), n as int)
                        == Some((v@, final(self).pos_spec())),
                None => final(self).pos_spec() == old(self).pos_spec()
                    && p_raw(final(self).buf_spec(), old(self).pos_spec(), n as int) is None,
            },
    {
        proof { use_type_invariant(&*self); }
        if self.buf.len() - self.pos >= n {
            let mut out: Vec<u8> = Vec::new();
            let mut i: usize = 0;
            while i < n
                invariant
                    i <= n,
                    self.pos + n <= self.buf@.len(),
                    self.pos + n <= usize::MAX,
                    out@ == self.buf@.subrange(self.pos as int, self.pos + i as int),
                decreases n - i,
            {
                out.push(self.buf[self.pos + i]);
                proof {
                    assert(out@ =~= self.buf@.subrange(self.pos as int, self.pos + i + 1int));
                }
                i += 1;
            }
            self.pos += n;
            Some(out)
        } else {
            None
        }
    }

    /// Reads a length-delimited byte string.
    pub fn read_bytes(&mut self) -> (r: Option<Vec<u8>>)
        ensures
            old(self).buf_spec() == final(self).buf_spec(),
            match r {
                Some(v) => old(self).pos_spec() <= final(self).pos_spec() <= final(self).buf_spec().len()
                    && enc_bytes(v@) == final(self).buf_spec().subrange(old(self).pos_spec(), final(self).pos_spec())
                    && v@.len() < 4294967296
                    && p_bytes(final(self).buf_spec(), old(self).pos_spec())
                        == Some((v@, final(self).pos_spec())),
                None => p_bytes(final(self).buf_spec(), old(self).pos_spec()) is None,
            },
    {
        let ghost start = self.pos_spec();
        let n = match self.read_u32() {
            Some(v) => v,
            None => { return None; }
        };
        let data = match self.read_raw(n as usize) {
            Some(v) => v,
            None => { return None; }
        };
        proof {
            let whole = self.buf_spec().subrange(start, self.pos_spec());
            assert(whole =~= self.buf_spec().subrange(start, start + 4)
                + self.buf_spec().subrange(start + 4, self.pos_spec()));
            assert(enc_bytes(data@) =~= whole);
            lemma_u32_roundtrip(n);
        }
        Some(data)
    }

    /// Reads an optional length-delimited byte string.
    pub fn read_opt_bytes(&mut self) -> (r: Option<Option<Vec<u8>>>)
        ensures
            old(self).buf_spec() == final(self).buf_spec(),
            match r {
                Some(v) => old(self).pos_spec() <= final(self).pos_spec() <= final(self).buf_spec().len()
                    && enc_opt_bytes(
                        match v {
                            Option::Some(b) => Option::Some(b@),
                            Option::None => Option::None,
                        },
                    ) == final(self).buf_spec().subrange(old(self).pos_spec(), final(self).pos_spec())
                    && p_opt_bytes(final(self).buf_spec(), old(self).pos_spec())
                        == Some((
                            match v {
                                Option::Some(b) => Option::Some(b@),
                                Option::None => Option::None::<Seq<u8>>,
                            },
                            final(self).pos_spec(),
                        )),
                None => p_opt_bytes(final(self).buf_spec(), old(self).pos_spec()) is None,
            },
    {
        let ghost start = self.pos_spec();
        let flag = match self.read_u8() {
            Some(v) => v,
            None => { return None; }
        };
        proof {
            assert(self.buf_spec().subrange(start, start + 1)[0] == flag);
            assert(self.buf_spec()[start] == flag);
            assert(p_u8(self.buf_spec(), start) == Some((flag, start + 1)));
        }
        if flag == 0 {
            proof {
                assert(enc_opt_bytes(Option::None)
                    =~= self.buf_spec().subrange(start, self.pos_spec()));
            }
            Some(None)
        } else if flag == 1 {
            let data = match self.read_bytes() {
                Some(v) => v,
                None => { return None; }
            };
            proof {
                let whole = self.buf_spec().subrange(start, self.pos_spec());
                assert(whole =~= self.buf_spec().subrange(start, start + 1)
                    + self.buf_spec().subrange(start + 1, self.pos_spec()));
                assert(enc_opt_bytes(Option::Some(data@)) =~= whole);
            }
            Some(Some(data))
        } else {
            None
        }
    }

    /// Reads a boolean byte.
    pub fn read_bool(&mut self) -> (r: Option<bool>)
        ensures
            old(self).buf_spec() == final(self).buf_spec(),
            match r {
                Some(v) => old(self).pos_spec() <= final(self).pos_spec() <= final(self).buf_spec().len()
                    && enc_bool(v) == final(self).buf_spec().subrange(old(self).pos_spec(), final(self).pos_spec())
                    && p_bool(final(self).buf_spec(), old(self).pos_spec())
                        == Some((v, final(self).pos_spec())),
                None => p_bool(final(self).buf_spec(), old(self).pos_spec()) is None,
            },
    {
        let ghost start = self.pos_spec();
        let flag = match self.read_u8() {
            Some(v) => v,
            None => { return None; }
        };
        proof {
            assert(self.buf_spec().subrange(start, start + 1)[0] == flag);
            assert(self.buf_spec()[start] == flag);
            assert(p_u8(self.buf_spec(), start) == Some((flag, start + 1)));
        }
        if flag == 0 {
            proof { assert(enc_bool(false) =~= self.buf_spec().subrange(self.pos_spec() - 1, self.pos_spec())); }
            Some(false)
        } else if flag == 1 {
            proof { assert(enc_bool(true) =~= self.buf_spec().subrange(self.pos_spec() - 1, self.pos_spec())); }
            Some(true)
        } else {
            None
        }
    }
}

/// A document under a magic header: the header bytes, then the payload.
pub open spec fn framed(magic: Seq<u8>, payload: Seq<u8>) -> Seq<u8> {
    magic + payload
}

/// Splitting a framed document: the payload when the header matches,
/// nothing when the data is short or the header differs.
pub open spec fn unframe(magic: Seq<u8>, data: Seq<u8>) -> Option<Seq<u8>> {
    if data.len() >= magic.len() && data.take(magic.len() as int) == magic {
        Option::Some(data.skip(magic.len() as int))
    } else {
        Option::None
    }
}

/// Framing then unframing gives the payload back.
pub proof fn lemma_frame_roundtrip(magic: Seq<u8>, payload: Seq<u8>)
    ensures unframe(magic, framed(magic, payload)) == Some(payload),
{
    assert(framed(magic, payload).take(magic.len() as int) =~= magic);
    assert(framed(magic, payload).skip(magic.len() as int) =~= payload);
}

/// Serializes a payload by prepending a fixed magic header.
pub fn serialize_with_header(magic: &Vec<u8>, payload: &Vec<u8>) -> (r: Vec<u8>)
    ensures r@ == framed(magic@, payload@),
{
    let mut out: Vec<u8> = Vec::new();
    push_raw(&mut out, magic);
    push_raw(&mut out, payload);
    proof { assert(out@ =~= framed(magic@, payload@)); }
    out
}

/// Strips and verifies the magic header: the payload exactly when the data
/// is long enough and the header matches, `BadEncoding` otherwise.
pub fn deserialize_with_header(magic: &Vec<u8>, data: &Vec<u8>) -> (r: Result<Vec<u8>, ArkError>)
    ensures
        match r {
            Ok(p) => unframe(magic@, data@) == Some(p@),
            Err(e) => e == ArkError::BadEncoding && unframe(magic@, data@) is None,
        },
{
    if data.len() < magic.len() {
        return Err(ArkError::BadEncoding);
    }
    let mut i: usize = 0;
    while i < magic.len()
        invariant
            i <= magic@.len(),
            magic@.len() <= data@.len(),
            forall|j: int| 0 <= j < i ==> data@[j] == magic@[j],
        decreases magic@.len() - i,
    {
        if data[i] != magic[i] {
            proof {
                assert(data@.take(magic@.len() as int)[i as int] != magic@[i as int]);
            }
            return Err(ArkError::BadEncoding);
        }
        i += 1;
    }
    proof { assert(data@.take(magic@.len() as int) =~= magic@); }
    let mut out: Vec<u8> = Vec::new();
    let mut j: usize = magic.len();
    while j < data.len()
        invariant
            magic@.len() <= j <= data@.len(),
            out@ == data@.subrange(magic@.len() as int, j as int),
        decreases data@.len() - j,
    {
        out.push(data[j]);
        proof { assert(out@ =~= data@.subrange(magic@.len() as int, j + 1int)); }
        j += 1;
    }
    proof { assert(out@ =~= data@.skip(magic@.len() as int)); }
    Ok(out)
}

/// Concatenation splits at the boundary: the middle piece of three parts.
pub proof fn lemma_concat_mid(pre: Seq<u8>, mid: Seq<u8>, post: Seq<u8>)
    ensures
        (pre + mid + post).subrange(pre.len() as int, pre.len() + mid.len() as int) == mid,
        (pre + mid + post).len() == pre.len() + mid.len() + post.len(),
{
    assert((pre + mid + post).subrange(pre.len() as int, pre.len() + mid.len() as int) =~= mid);
}

/// What reading one byte at a position yields.
pub open spec fn p_u8(d: Seq<u8>, pos: int) -> Option<(u8, int)> {
    if 0 <= pos && pos + 1 <= d.len() {
        Option::Some((d[pos], pos + 1))
    } else {
        Option::None
    }
}

/// What reading a 32-bit little-endian number at a position yields.
pub open spec fn p_u32(d: Seq<u8>, pos: int) -> Option<(u32, int)> {
    if 0 <= pos && pos + 4 <= d.len() {
        Option::Some((dec_u32(d.subrange(pos, pos + 4)), pos + 4))
    } else {
        Option::None
    }
}

/// What reading a 64-bit little-endian number at a position yields.
pub open spec fn p_u64(d: Seq<u8>, pos: int) -> Option<(u64, int)> {
    if 0 <= pos && pos + 8 <= d.len() {
        Option::Some((dec_u64(d.subrange(pos, pos + 8)), pos + 8))
    } else {
        Option::None
    }
}

/// What reading `n` raw bytes at a position yields.
pub open spec fn p_raw(d: Seq<u8>, pos: int, n: int) -> Option<(Seq<u8>, int)> {
    if 0 <= pos && 0 <= n && pos + n <= d.len() {
        Option::Some((d.subrange(pos, pos + n), pos + n))
    } else {
        Option::None
    }
}

/// What reading a length-delimited byte string at a position yields.
pub open spec fn p_bytes(d: Seq<u8>, pos: int) -> Option<(Seq<u8>, int)> {
    match p_u32(d, pos) {
        Option::None => Option::None,
        Option::Some((n, p2)) => p_raw(d, p2, n as int),
    }
}

/// What reading an optional byte string at a position yields.
pub open spec fn p_opt_bytes(d: Seq<u8>, pos: int) -> Option<(Option<Seq<u8>>, int)> {
    match p_u8(d, pos) {
        Option::None => Option::None,
        Option::Some((flag, p2)) => {
            if flag == 0 {
                Option::Some((Option::None, p2))
            } else if flag == 1 {
                match p_bytes(d, p2) {
                    Option::None => Option::None,
                    Option::Some((b, p3)) => Option::Some((Option::Some(b), p3)),
                }
            } else {
                Option::None
            }
        }
    }
}

/// What reading a boolean byte at a position yields.
pub open spec fn p_bool(d: Seq<u8>, pos: int) -> Option<(bool, int)> {
    match p_u8(d, pos) {
        Option::None => Option::None,
        Option::Some((flag, p2)) => {
            if flag == 0 {
                Option::Some((false, p2))
            } else if flag == 1 {
                Option::Some((true, p2))
            } else {
                Option::None
            }
        }
    }
}

/// Parsing finds a number placed at its position.
pub proof fn lemma_p_u32_at(d: Seq<u8>, pos: int, v: u32)
    requires
        0 <= pos,
        pos + 4 <= d.len(),
        d.subrange(pos, pos + 4) == enc_u32(v),
    ensures
        p_u32(d, pos) == Some((v, pos + 4)),
{
    lemma_u32_roundtrip(v);
}

/// Parsing finds a number placed at its position.
pub proof fn lemma_p_u64_at(d: Seq<u8>, pos: int, v: u64)
    requires
        0 <= pos,
        pos + 8 <= d.len(),
        d.subrange(pos, pos + 8) == enc_u64(v),
    ensures
        p_u64(d, pos) == Some((v, pos + 8)),
{
    lemma_u64_roundtrip(v);
}

/// Parsing finds a byte string placed at its position.
pub proof fn lemma_p_bytes_at(d: Seq<u8>, pos: int, b: Seq<u8>)
    requires
        0 <= pos,
        b.len() < 4294967296,
        pos + 4 + b.len() as int <= d.len(),
        d.subrange(pos, pos + 4 + b.len() as int) == enc_bytes(b),
    ensures
        p_bytes(d, pos) == Some((b, pos + 4 + b.len() as int)),
{
    assert(d.subrange(pos, pos + 4) =~= enc_bytes(b).subrange(0, 4));
    assert(enc_bytes(b).subrange(0, 4) =~= enc_u32(b.len() as u32));
    lemma_p_u32_at(d, pos, b.len() as u32);
    assert(d.subrange(pos + 4, pos + 4 + b.len() as int)
        =~= enc_bytes(b).subrange(4, 4 + b.len() as int));
    assert(enc_bytes(b).subrange(4, 4 + b.len() as int) =~= b);
}

/// Parsing finds an optional byte string placed at its position.
pub proof fn lemma_p_opt_bytes_at(d: Seq<u8>, pos: int, o: Option<Seq<u8>>)
    requires
        0 <= pos,
        (match o {
            Option::Some(b) => b.len() < 4294967296,
            Option::None => true,
        }),
        pos + enc_opt_bytes(o).len() as int <= d.len(),
        d.subrange(pos, pos + enc_opt_bytes(o).len() as int) == enc_opt_bytes(o),
    ensures
        p_opt_bytes(d, pos) == Some((o, pos + enc_opt_bytes(o).len() as int)),
{
    match o {
        Option::None => {
            assert(d[pos] == enc_opt_bytes(o)[0]);
        }
        Option::Some(b) => {
            assert(d[pos] == enc_opt_bytes(o)[0]);
            assert(d[pos] == 1);
            assert(d.subrange(pos + 1, pos + 5 + b.len() as int)
                =~= enc_opt_bytes(o).subrange(1, 5 + b.len() as int));
            assert(enc_opt_bytes(o).subrange(1, 5 + b.len() as int) =~= enc_bytes(b));
            lemma_p_bytes_at(d, pos + 1, b);
        }
    }
}

/// Parsing finds a boolean placed at its position.
pub proof fn lemma_p_bool_at(d: Seq<u8>, pos: int, b: bool)
    requires
        0 <= pos,
        pos + 1 <= d.len(),
        d.subrange(pos, pos + 1) == enc_bool(b),
    ensures
        p_bool(d, pos) == Some((b, pos + 1)),
{
    assert(d[pos] == enc_bool(b)[0]);
}


/// Splits a known concatenation at its boundary: each half stands at its
/// own subrange.
pub proof fn lemma_split_at(d: Seq<u8>, pos: int, end: int, a: Seq<u8>, b: Seq<u8>)
    requires
        0 <= pos <= end <= d.len(),
        d.subrange(pos, end) == a + b,
    ensures
        end - pos == a.len() + b.len(),
        d.subrange(pos, pos + a.len() as int) == a,
        d.subrange(pos + a.len() as int, end) == b,
{
    let s = d.subrange(pos, end);
    assert(s.len() == a.len() + b.len());
    assert forall|i: int| 0 <= i < a.len() implies d.subrange(pos, pos + a.len() as int)[i] == a[i] by {
        assert(s[i] == d[pos + i]);
        assert(s[i] == (a + b)[i]);
    }
    assert(d.subrange(pos, pos + a.len() as int) =~= a);
    assert forall|i: int| 0 <= i < b.len() implies d.subrange(pos + a.len() as int, end)[i] == b[i] by {
        assert(s[a.len() + i] == d[pos + a.len() + i]);
        assert(s[a.len() + i] == (a + b)[a.len() + i]);
    }
    assert(d.subrange(pos + a.len() as int, end) =~= b);
}


/// A left-folded append of eight segments onto a base equals the base
/// followed by the right-nested concatenation.
#[verifier::rlimit(100)]
#[verifier::spinoff_prover]
pub proof fn lemma_concat_base8(
    base: Seq<u8>,
    s1: Seq<u8>, s2: Seq<u8>, s3: Seq<u8>, s4: Seq<u8>,
    s5: Seq<u8>, s6: Seq<u8>, s7: Seq<u8>, s8: Seq<u8>,
)
    ensures
        ((((((((base + s1) + s2) + s3) + s4) + s5) + s6) + s7) + s8)
            == base + (s1 + (s2 + (s3 + (s4 + (s5 + (s6 + (s7 + s8))))))),
{
    assert(((((((((base + s1) + s2) + s3) + s4) + s5) + s6) + s7) + s8)
        =~= base + (s1 + (s2 + (s3 + (s4 + (s5 + (s6 + (s7 + s8))))))));
}

/// A left-folded append of ten segments onto a base equals the base
/// followed by the right-nested concatenation.
#[verifier::rlimit(100)]
#[verifier::spinoff_prover]
pub proof fn lemma_concat_base10(
    base: Seq<u8>,
    s1: Seq<u8>, s2: Seq<u8>, s3: Seq<u8>, s4: Seq<u8>, s5: Seq<u8>,
    s6: Seq<u8>, s7: Seq<u8>, s8: Seq<u8>, s9: Seq<u8>, s10: Seq<u8>,
)
    ensures
        ((((((((((base + s1) + s2) + s3) + s4) + s5) + s6) + s7) + s8) + s9) + s10)
            == base + (s1 + (s2 + (s3 + (s4 + (s5 + (s6 + (s7 + (s8 + (s9 + s10))))))))),
{
    assert(((((((((((base + s1) + s2) + s3) + s4) + s5) + s6) + s7) + s8) + s9) + s10)
        =~= base + (s1 + (s2 + (s3 + (s4 + (s5 + (s6 + (s7 + (s8 + (s9 + s10))))))))));
}

} // verus!

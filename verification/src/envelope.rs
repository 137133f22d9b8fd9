//! The multi-recipient envelope.
//!
//! A fresh 32-byte file key seals the payload under an authenticated
//! cipher; one header stanza per recipient carries the file key encrypted
//! to that recipient, tagged with the hex form of the recipient's public
//! key.  Opening tries the stanzas in order: a reader whose key matches no
//! stanza learns `WrongRecipient`, one whose stanza is corrupt learns
//! `CryptoFailure`, and corrupting one stanza does not doom the others.

use vstd::prelude::*;
use crate::aeadx::{aead_decrypt_bytes, aead_encrypt_bytes, aead_open};
use crate::bls::{bls_decrypt, bls_decrypt_spec, bls_encrypt, bls_pk_of, bls_pk_ok, bls_public_key, bls_sk_ok};
use crate::errors::ArkError;
use crate::hexs::{hex_encode, hex_of, lemma_hex_of_injective};
use crate::keys::fill_zero;
use crate::rnd::random_bytes32;
use crate::wire::{Reader, enc_bytes, enc_u32, lemma_p_bytes_at, lemma_split_at,
    p_bytes, p_u32, push_bytes, push_raw, push_u32};

verus! {

/// One envelope header entry: the file key encrypted to one recipient,
/// tagged with the recipient's hex public key.
pub struct Stanza {
    pk_hex: Vec<u8>,
    body: Vec<u8>,
}

impl Stanza {
    /// The hex tag naming the recipient, as ASCII bytes.
    pub closed spec fn hex_spec(&self) -> Seq<u8> {
        self.pk_hex@
    }

    /// The encrypted file key.
    pub closed spec fn body_spec(&self) -> Seq<u8> {
        self.body@
    }

    /// Reassembles a stanza from its wire parts.
    pub fn from_parts(pk_hex: Vec<u8>, body: Vec<u8>) -> (r: Self)
        ensures r.hex_spec() == pk_hex@, r.body_spec() == body@,
    {
        Stanza { pk_hex, body }
    }

    /// The hex tag naming the recipient.
    pub fn hex_tag(&self) -> (r: &Vec<u8>)
        ensures r@ == self.hex_spec(),
    {
        &self.pk_hex
    }

    /// The encrypted file key.
    pub fn body(&self) -> (r: &Vec<u8>)
        ensures r@ == self.body_spec(),
    {
        &self.body
    }
}

/// A sealed multi-recipient message: header stanzas plus the payload.
pub struct Envelope {
    stanzas: Vec<Stanza>,
    payload: Vec<u8>,
}

/// What opening one matching stanza yields: the file key must decrypt, be
/// 32 bytes, and open the payload.
pub closed spec fn spec_open_stanza(st: Stanza, payload: Seq<u8>, sk: Seq<u8>) -> Result<Seq<u8>, ArkError> {
    match bls_decrypt_spec(sk, st.body@) {
        Option::None => Err(ArkError::CryptoFailure),
        Option::Some(fk) => {
            if fk.len() != 32 || payload.len() < 16 {
                Err(ArkError::CryptoFailure)
            } else {
                match aead_open(fk, payload) {
                    Option::Some(pt) => Ok(pt),
                    Option::None => Err(ArkError::CryptoFailure),
                }
            }
        }
    }
}

/// What opening the envelope with a secret key yields: the first stanza
/// whose tag is the key's hex public key decides; no matching tag is
/// `WrongRecipient`.
pub closed spec fn spec_open(stanzas: Seq<Stanza>, payload: Seq<u8>, sk: Seq<u8>) -> Result<Seq<u8>, ArkError>
    decreases stanzas.len(),
{
    if stanzas.len() == 0 {
        Err(ArkError::WrongRecipient)
    } else if stanzas[0].pk_hex@ == hex_of(bls_pk_of(sk)) {
        spec_open_stanza(stanzas[0], payload, sk)
    } else {
        spec_open(stanzas.skip(1), payload, sk)
    }
}

/// The views of a list of recipient public keys.
pub open spec fn pk_views(recipients: Seq<Vec<u8>>) -> Seq<Seq<u8>> {
    recipients.map_values(|v: Vec<u8>| v@)
}

impl Envelope {
    /// What opening this envelope with a secret key yields.
    pub closed spec fn opens_to(&self, sk: Seq<u8>) -> Result<Seq<u8>, ArkError> {
        spec_open(self.stanzas@, self.payload@, sk)
    }

    /// The stanzas, as a sequence.
    pub closed spec fn stanzas_spec(&self) -> Seq<Stanza> {
        self.stanzas@
    }

    /// The hex tags of the stanzas, in order.
    pub closed spec fn tags_spec(&self) -> Seq<Seq<u8>> {
        self.stanzas@.map_values(|st: Stanza| st.pk_hex@)
    }

    /// The sealed payload.
    pub closed spec fn payload_spec(&self) -> Seq<u8> {
        self.payload@
    }

    /// Reassembles an envelope from its wire parts.
    pub fn from_parts(stanzas: Vec<Stanza>, payload: Vec<u8>) -> (r: Self)
        ensures
            r.stanzas_spec() == stanzas@,
            r.payload_spec() == payload@,
            forall|sk: Seq<u8>| #[trigger] r.opens_to(sk) == spec_open(stanzas@, payload@, sk),
    {
        Envelope { stanzas, payload }
    }

    /// The stanzas, in order.
    pub fn stanzas(&self) -> (r: &Vec<Stanza>)
        ensures
            r@ == self.stanzas_spec(),
            r@.len() == self.tags_spec().len(),
            forall|i: int| 0 <= i < r@.len() ==> (#[trigger] r@[i]).hex_spec() == self.tags_spec()[i],
    {
        &self.stanzas
    }

    /// The sealed payload.
    pub fn payload(&self) -> (r: &Vec<u8>)
        ensures r@ == self.payload_spec(),
    {
        &self.payload
    }

    /// Seals a plaintext to a set of recipients.  Every key whose public
    /// half is a recipient opens the envelope to exactly the plaintext;
    /// every other key is told `WrongRecipient`.
    pub fn seal(recipients: &Vec<Vec<u8>>, plaintext: &Vec<u8>) -> (r: Envelope)
        requires
            forall|i: int| 0 <= i < recipients@.len() ==> bls_pk_ok(#[trigger] recipients@[i]@),
        ensures
            r.tags_spec().len() == recipients@.len(),
            forall|i: int| 0 <= i < recipients@.len()
                ==> r.tags_spec()[i] == hex_of(#[trigger] recipients@[i]@),
            forall|sk: Seq<u8>| #[trigger] r.opens_to(sk) == (
                if pk_views(recipients@).contains(bls_pk_of(sk)) {
                    Ok::<Seq<u8>, ArkError>(plaintext@)
                } else {
                    Err::<Seq<u8>, ArkError>(ArkError::WrongRecipient)
                }
            ),
    {
        let mut file_key = random_bytes32();
        let payload = aead_encrypt_bytes(&file_key, plaintext);
        let mut stanzas: Vec<Stanza> = Vec::new();
        let mut i: usize = 0;
        while i < recipients.len()
            invariant
                i <= recipients@.len(),
                file_key@.len() == 32,
                forall|j: int| 0 <= j < recipients@.len() ==> bls_pk_ok(#[trigger] recipients@[j]@),
                stanzas@.len() == i,
                forall|j: int| 0 <= j < i as int
                    ==> (#[trigger] stanzas@[j]).pk_hex@ == hex_of(recipients@[j]@),
                forall|j: int, t: Seq<u8>| 0 <= j < i as int && bls_pk_of(t) == recipients@[j]@
                    ==> #[trigger] bls_decrypt_spec(t, stanzas@[j].body@) == Some(file_key@),
            decreases recipients@.len() - i,
        {
            let pk = &recipients[i];
            let body = bls_encrypt(pk, &file_key);
            let pk_hex = hex_encode(pk);
            stanzas.push(Stanza { pk_hex, body });
            i += 1;
        }
        let ghost fk = file_key@;
        fill_zero(&mut file_key);
        let env = Envelope { stanzas, payload };
        proof {
            assert forall|sk: Seq<u8>| #[trigger] env.opens_to(sk) == (
                if pk_views(recipients@).contains(bls_pk_of(sk)) {
                    Ok::<Seq<u8>, ArkError>(plaintext@)
                } else {
                    Err::<Seq<u8>, ArkError>(ArkError::WrongRecipient)
                }
            ) by {
                lemma_open_sealed(env.stanzas@, pk_views(recipients@), fk, env.payload@, plaintext@, sk);
            }
            assert forall|i: int| 0 <= i < recipients@.len()
                implies env.tags_spec()[i] == hex_of(#[trigger] recipients@[i]@) by {
                assert(env.tags_spec()[i] == env.stanzas@[i].pk_hex@);
            }
        }
        env
    }

    /// Opens the envelope with a secret key, returning exactly what the
    /// model says: the plaintext for a recipient key, `WrongRecipient` for
    /// a key outside the recipient set, `CryptoFailure` for a corrupt
    /// matching stanza or payload.
    pub fn open(&self, sk: &Vec<u8>) -> (r: Result<Vec<u8>, ArkError>)
        requires
            bls_sk_ok(sk@),
        ensures
            match r {
                Ok(p) => self.opens_to(sk@) == Ok::<Seq<u8>, ArkError>(p@),
                Err(e) => self.opens_to(sk@) == Err::<Seq<u8>, ArkError>(e),
            },
    {
        let pk = bls_public_key(sk);
        let my_hex = hex_encode(&pk);
        let n = self.stanzas.len();
        let mut i: usize = 0;
        while i < n
            invariant
                bls_sk_ok(sk@),
                my_hex@ == hex_of(bls_pk_of(sk@)),
                n == self.stanzas@.len(),
                i <= n,
                forall|j: int| 0 <= j < i as int
                    ==> (#[trigger] self.stanzas@[j]).pk_hex@ != hex_of(bls_pk_of(sk@)),
            decreases n - i,
        {
            if crate::keys::eq_bytes(&self.stanzas[i].pk_hex, &my_hex) {
                proof {
                    lemma_spec_open_reaches(self.stanzas@, self.payload@, sk@, i as int);
                }
                let body = &self.stanzas[i].body;
                match bls_decrypt(sk, body) {
                    None => {
                        return Err(ArkError::CryptoFailure);
                    }
                    Some(mut fk) => {
                        if fk.len() != 32 || self.payload.len() < 16 {
                            fill_zero(&mut fk);
                            return Err(ArkError::CryptoFailure);
                        }
                        let out = aead_decrypt_bytes(&fk, &self.payload);
                        fill_zero(&mut fk);
                        match out {
                            Some(pt) => {
                                return Ok(pt);
                            }
                            None => {
                                return Err(ArkError::CryptoFailure);
                            }
                        }
                    }
                }
            }
            i += 1;
        }
        proof {
            lemma_spec_open_reaches(self.stanzas@, self.payload@, sk@, n as int);
        }
        Err(ArkError::WrongRecipient)
    }
}

/// When no stanza before `i` matches the key, opening starts at `i`.
proof fn lemma_spec_open_skip(stanzas: Seq<Stanza>, payload: Seq<u8>, sk: Seq<u8>, i: int)
    requires
        0 <= i <= stanzas.len(),
        forall|j: int| 0 <= j < i ==> (#[trigger] stanzas[j]).pk_hex@ != hex_of(bls_pk_of(sk)),
    ensures
        spec_open(stanzas, payload, sk) == spec_open(stanzas.skip(i), payload, sk),
    decreases i,
{
    if i > 0 {
        assert(stanzas[0].pk_hex@ != hex_of(bls_pk_of(sk)));
        lemma_spec_open_skip(stanzas.skip(1), payload, sk, i - 1);
        assert(stanzas.skip(1).skip(i - 1) =~= stanzas.skip(i));
    } else {
        assert(stanzas.skip(0) =~= stanzas);
    }
}

/// Unfolds the model at the first matching stanza (or at the end).
proof fn lemma_spec_open_reaches(stanzas: Seq<Stanza>, payload: Seq<u8>, sk: Seq<u8>, i: int)
    requires
        0 <= i <= stanzas.len(),
        forall|j: int| 0 <= j < i ==> (#[trigger] stanzas[j]).pk_hex@ != hex_of(bls_pk_of(sk)),
    ensures
        i < stanzas.len() && stanzas[i].pk_hex@ == hex_of(bls_pk_of(sk))
            ==> spec_open(stanzas, payload, sk) == spec_open_stanza(stanzas[i], payload, sk),
        i == stanzas.len()
            ==> spec_open(stanzas, payload, sk) == Err::<Seq<u8>, ArkError>(ArkError::WrongRecipient),
{
    lemma_spec_open_skip(stanzas, payload, sk, i);
    if i < stanzas.len() {
        assert(stanzas.skip(i)[0] == stanzas[i]);
    } else {
        assert(stanzas.skip(i).len() == 0);
    }
}

/// Opening a well-sealed envelope: a recipient key recovers the plaintext,
/// any other key is told `WrongRecipient`.
proof fn lemma_open_sealed(
    stanzas: Seq<Stanza>,
    pks: Seq<Seq<u8>>,
    fk: Seq<u8>,
    payload: Seq<u8>,
    pt: Seq<u8>,
    sk: Seq<u8>,
)
    requires
        stanzas.len() == pks.len(),
        forall|j: int| 0 <= j < stanzas.len() ==> (#[trigger] stanzas[j]).pk_hex@ == hex_of(pks[j]),
        forall|j: int, t: Seq<u8>| 0 <= j < stanzas.len() && bls_pk_of(t) == pks[j]
            ==> #[trigger] bls_decrypt_spec(t, stanzas[j].body@) == Some(fk),
        fk.len() == 32,
        payload.len() >= 16,
        aead_open(fk, payload) == Some(pt),
    ensures
        spec_open(stanzas, payload, sk) == (
            if pks.contains(bls_pk_of(sk)) {
                Ok::<Seq<u8>, ArkError>(pt)
            } else {
                Err::<Seq<u8>, ArkError>(ArkError::WrongRecipient)
            }
        ),
    decreases stanzas.len(),
{
    if stanzas.len() == 0 {
        assert(!pks.contains(bls_pk_of(sk)));
    } else if stanzas[0].pk_hex@ == hex_of(bls_pk_of(sk)) {
        lemma_hex_of_injective(pks[0], bls_pk_of(sk));
        assert(pks[0] == bls_pk_of(sk));
        assert(pks.contains(bls_pk_of(sk)));
        assert(bls_decrypt_spec(sk, stanzas[0].body@) == Some(fk));
        assert(spec_open_stanza(stanzas[0], payload, sk) == Ok::<Seq<u8>, ArkError>(pt));
    } else {
        assert(pks[0] != bls_pk_of(sk));
        lemma_open_sealed(stanzas.skip(1), pks.skip(1), fk, payload, pt, sk);
        assert(pks.contains(bls_pk_of(sk)) == pks.skip(1).contains(bls_pk_of(sk))) by {
            if pks.skip(1).contains(bls_pk_of(sk)) {
                let w = choose|w: int| 0 <= w < pks.skip(1).len()
                    && pks.skip(1)[w] == bls_pk_of(sk);
                assert(pks[w + 1] == bls_pk_of(sk));
            } else if pks.contains(bls_pk_of(sk)) {
                let w = choose|w: int| 0 <= w < pks.len() && pks[w] == bls_pk_of(sk);
                assert(w != 0);
                assert(pks.skip(1)[w - 1] == bls_pk_of(sk));
            }
        }
    }
}

/// The literal `blsttc` naming the recipient scheme, carried by every
/// stanza on the wire.
pub open spec fn stanza_scheme() -> Seq<u8> {
    seq![0x62u8, 0x6cu8, 0x73u8, 0x74u8, 0x74u8, 0x63u8]
}

/// The literal `blsttc` naming the recipient scheme.
pub fn stanza_scheme_bytes() -> (r: Vec<u8>)
    ensures r@ == stanza_scheme(),
{
    let out: Vec<u8> = vec![0x62u8, 0x6cu8, 0x73u8, 0x74u8, 0x74u8, 0x63u8];
    proof { assert(out@ =~= stanza_scheme()); }
    out
}

/// The wire form of the stanza list: each stanza's scheme literal, tag
/// and body, length delimited, in order.
pub closed spec fn env_stanzas_bytes(sts: Seq<Stanza>) -> Seq<u8>
    decreases sts.len(),
{
    if sts.len() == 0 {
        Seq::empty()
    } else {
        (enc_bytes(stanza_scheme()) + (enc_bytes(sts[0].pk_hex@) + enc_bytes(sts[0].body@)))
            + env_stanzas_bytes(sts.skip(1))
    }
}

/// The wire form of an envelope: the stanza count, the stanzas, then the
/// payload to the end.
pub closed spec fn env_bytes(sts: Seq<Stanza>, payload: Seq<u8>) -> Seq<u8> {
    enc_u32(sts.len() as u32) + env_stanzas_bytes(sts) + payload
}

/// Whether an envelope's parts fit the wire format's length fields.
pub closed spec fn env_fits(sts: Seq<Stanza>) -> bool {
    sts.len() < 4294967296
        && forall|i: int| 0 <= i < sts.len()
            ==> (#[trigger] sts[i]).pk_hex@.len() < 4294967296
                && sts[i].body@.len() < 4294967296
}

/// Appending one stanza appends its wire form.
proof fn lemma_env_stanzas_snoc(sts: Seq<Stanza>, st: Stanza)
    ensures
        env_stanzas_bytes(sts.push(st)) == env_stanzas_bytes(sts)
            + (enc_bytes(stanza_scheme()) + (enc_bytes(st.pk_hex@) + enc_bytes(st.body@))),
    decreases sts.len(),
{
    if sts.len() == 0 {
        let p = sts.push(st);
        assert(p.len() == 1);
        assert(p[0] == st);
        assert(p.skip(1) =~= Seq::<Stanza>::empty());
        assert(env_stanzas_bytes(p)
            == (enc_bytes(stanza_scheme()) + (enc_bytes(p[0].pk_hex@) + enc_bytes(p[0].body@)))
                + env_stanzas_bytes(p.skip(1)));
        assert(env_stanzas_bytes(p.skip(1)) == Seq::<u8>::empty());
        assert(env_stanzas_bytes(p) =~= env_stanzas_bytes(sts)
            + (enc_bytes(stanza_scheme()) + (enc_bytes(st.pk_hex@) + enc_bytes(st.body@))));
    } else {
        lemma_env_stanzas_snoc(sts.skip(1), st);
        assert(sts.push(st).skip(1) =~= sts.skip(1).push(st));
        assert(env_stanzas_bytes(sts.push(st)) =~= env_stanzas_bytes(sts)
            + (enc_bytes(stanza_scheme()) + (enc_bytes(st.pk_hex@) + enc_bytes(st.body@))));
    }
}

impl Envelope {
    /// Serializes the envelope: the stanza count, each stanza's tag and
    /// body, then the payload to the end.
    pub fn to_bytes(&self) -> (r: Vec<u8>)
        requires env_fits(self.stanzas_spec()),
        ensures r@ == env_bytes(self.stanzas_spec(), self.payload_spec()),
    {
        let mut out: Vec<u8> = Vec::new();
        push_u32(&mut out, self.stanzas.len() as u32);
        let ghost base = out@;
        let mut i: usize = 0;
        while i < self.stanzas.len()
            invariant
                i <= self.stanzas@.len(),
                env_fits(self.stanzas@),
                base == enc_u32(self.stanzas@.len() as u32),
                out@ == base + env_stanzas_bytes(self.stanzas@.take(i as int)),
            decreases self.stanzas@.len() - i,
        {
            let scheme = stanza_scheme_bytes();
            push_bytes(&mut out, &scheme);
            push_bytes(&mut out, &self.stanzas[i].pk_hex);
            push_bytes(&mut out, &self.stanzas[i].body);
            proof {
                let sts = self.stanzas@;
                lemma_env_stanzas_snoc(sts.take(i as int), sts[i as int]);
                assert(sts.take(i + 1int) =~= sts.take(i as int).push(sts[i as int]));
                assert(out@ =~= base + env_stanzas_bytes(sts.take(i + 1int)));
            }
            i += 1;
        }
        proof {
            assert(self.stanzas@.take(self.stanzas@.len() as int) =~= self.stanzas@);
        }
        push_raw(&mut out, &self.payload);
        proof {
            assert(out@ =~= env_bytes(self.stanzas_spec(), self.payload_spec()));
        }
        out
    }
}

/// What parsing one stanza yields: the scheme literal, then the tag and
/// body, length delimited.  A stanza of another scheme is refused.
pub open spec fn p_stanza(d: Seq<u8>, pos: int) -> Option<((Seq<u8>, Seq<u8>), int)> {
    match p_bytes(d, pos) {
        Option::None => Option::None,
        Option::Some((scheme, p1)) => if scheme != stanza_scheme() {
            Option::None
        } else {
            match p_bytes(d, p1) {
                Option::None => Option::None,
                Option::Some((hex, p2)) => match p_bytes(d, p2) {
                    Option::None => Option::None,
                    Option::Some((body, p3)) => Option::Some(((hex, body), p3)),
                },
            }
        },
    }
}

/// What parsing `n` stanzas yields.
pub open spec fn p_stanza_list(d: Seq<u8>, pos: int, n: int) -> Option<(Seq<(Seq<u8>, Seq<u8>)>, int)>
    decreases n,
{
    if n <= 0 {
        Option::Some((Seq::empty(), pos))
    } else {
        match p_stanza(d, pos) {
            Option::None => Option::None,
            Option::Some((st, p2)) => match p_stanza_list(d, p2, n - 1) {
                Option::None => Option::None,
                Option::Some((sts, p3)) => Option::Some((seq![st] + sts, p3)),
            },
        }
    }
}

/// What parsing an envelope's bytes yields: the stanza count, that many
/// stanzas, and the payload running to the end.
pub open spec fn parse_envelope(d: Seq<u8>) -> Option<(Seq<(Seq<u8>, Seq<u8>)>, Seq<u8>)> {
    match p_u32(d, 0) {
        Option::None => Option::None,
        Option::Some((n, p1)) => match p_stanza_list(d, p1, n as int) {
            Option::None => Option::None,
            Option::Some((sts, p2)) => Option::Some((sts, d.subrange(p2, d.len() as int))),
        },
    }
}

/// The tag-and-body views of a stanza sequence.
pub closed spec fn stanza_views(sts: Seq<Stanza>) -> Seq<(Seq<u8>, Seq<u8>)> {
    sts.map_values(|st: Stanza| (st.pk_hex@, st.body@))
}

/// Parsing finds a stanza placed at its position.
proof fn lemma_p_stanza_at(d: Seq<u8>, pos: int, st: (Seq<u8>, Seq<u8>))
    requires
        0 <= pos,
        st.0.len() < 4294967296,
        st.1.len() < 4294967296,
        pos + 18 + st.0.len() + st.1.len() <= d.len(),
        d.subrange(pos, pos + 18 + st.0.len() + st.1.len())
            == enc_bytes(stanza_scheme()) + (enc_bytes(st.0) + enc_bytes(st.1)),
    ensures
        p_stanza(d, pos) == Some((st, pos + 18 + st.0.len() + st.1.len())),
{
    let end = pos + 18 + st.0.len() + st.1.len();
    lemma_split_at(d, pos, end, enc_bytes(stanza_scheme()), enc_bytes(st.0) + enc_bytes(st.1));
    lemma_p_bytes_at(d, pos, stanza_scheme());
    lemma_split_at(d, pos + 10, end, enc_bytes(st.0), enc_bytes(st.1));
    lemma_p_bytes_at(d, pos + 10, st.0);
    lemma_p_bytes_at(d, pos + 14 + st.0.len() as int, st.1);
}

/// The wire length of a stanza sequence.
pub closed spec fn env_stanzas_len(sts: Seq<Stanza>) -> int
    decreases sts.len(),
{
    if sts.len() == 0 {
        0
    } else {
        18 + sts[0].pk_hex@.len() + sts[0].body@.len() + env_stanzas_len(sts.skip(1))
    }
}

proof fn lemma_env_stanzas_len(sts: Seq<Stanza>)
    ensures env_stanzas_bytes(sts).len() == env_stanzas_len(sts), env_stanzas_len(sts) >= 0,
    decreases sts.len(),
{
    if sts.len() > 0 {
        lemma_env_stanzas_len(sts.skip(1));
    }
}

/// Parsing finds a stanza list placed at its position.
proof fn lemma_p_stanza_list_at(d: Seq<u8>, pos: int, sts: Seq<Stanza>)
    requires
        0 <= pos,
        env_fits(sts),
        pos + env_stanzas_bytes(sts).len() <= d.len(),
        d.subrange(pos, pos + env_stanzas_bytes(sts).len() as int) == env_stanzas_bytes(sts),
    ensures
        p_stanza_list(d, pos, sts.len() as int)
            == Some((stanza_views(sts), pos + env_stanzas_bytes(sts).len() as int)),
    decreases sts.len(),
{
    lemma_env_stanzas_len(sts);
    if sts.len() == 0 {
        assert(stanza_views(sts) =~= Seq::<(Seq<u8>, Seq<u8>)>::empty());
    } else {
        lemma_env_stanzas_len(sts.skip(1));
        let l = env_stanzas_bytes(sts).len() as int;
        let l0 = 18 + sts[0].pk_hex@.len() + sts[0].body@.len();
        lemma_split_at(d, pos, pos + l,
            enc_bytes(stanza_scheme()) + (enc_bytes(sts[0].pk_hex@) + enc_bytes(sts[0].body@)),
            env_stanzas_bytes(sts.skip(1)));
        lemma_p_stanza_at(d, pos, (sts[0].pk_hex@, sts[0].body@));
        lemma_p_stanza_list_at(d, pos + l0, sts.skip(1));
        assert(seq![(sts[0].pk_hex@, sts[0].body@)] + stanza_views(sts.skip(1))
            =~= stanza_views(sts));
    }
}

/// Round trip: parsing a serialized envelope gives the stanzas and the
/// payload back.
pub proof fn lemma_envelope_roundtrip(sts: Seq<Stanza>, payload: Seq<u8>)
    requires env_fits(sts),
    ensures parse_envelope(env_bytes(sts, payload)) == Some((stanza_views(sts), payload)),
{
    let d = env_bytes(sts, payload);
    lemma_env_stanzas_len(sts);
    assert(d =~= enc_u32(sts.len() as u32) + (env_stanzas_bytes(sts) + payload));
    assert(d.subrange(0, d.len() as int) =~= d);
    lemma_split_at(d, 0, d.len() as int, enc_u32(sts.len() as u32),
        env_stanzas_bytes(sts) + payload);
    crate::wire::lemma_p_u32_at(d, 0, sts.len() as u32);
    lemma_split_at(d, 4, d.len() as int, env_stanzas_bytes(sts), payload);
    lemma_p_stanza_list_at(d, 4, sts);
    assert(d.subrange(4 + env_stanzas_bytes(sts).len() as int, d.len() as int) =~= payload);
}

impl Envelope {
    /// Deserializes an envelope: succeeds exactly on bytes the wire
    /// grammar accepts, giving back exactly the stanzas and payload the
    /// bytes spell.
    #[verifier::rlimit(100)]
    #[verifier::spinoff_prover]
    #[verifier::loop_isolation(false)]
    pub fn from_bytes(data: &Vec<u8>) -> (r: Result<Envelope, ArkError>)
        ensures
            match r {
                Ok(env) => parse_envelope(data@)
                    == Some((stanza_views(env.stanzas_spec()), env.payload_spec())),
                Err(e) => e == ArkError::BadEncoding && parse_envelope(data@) is None,
            },
    {
        let ghost d = data@;
        let mut reader = Reader::new(data);
        let n = match reader.read_u32() {
            Some(v) => v,
            None => { return Err(ArkError::BadEncoding); }
        };
        let ghost start = reader.pos_spec();
        let mut stanzas: Vec<Stanza> = Vec::new();
        let mut i: usize = 0;
        while i < n as usize
            invariant
                i <= n,
                reader.buf_spec() == d,
                start == 4,
                p_u32(d, 0) == Some((n, 4int)),
                stanzas@.len() == i,
                ({
                    match p_stanza_list(d, reader.pos_spec(), n as int - i as int) {
                        Option::None => p_stanza_list(d, start, n as int) is None,
                        Option::Some((xs, p)) => p_stanza_list(d, start, n as int)
                            == Some((stanza_views(stanzas@) + xs, p)),
                    }
                }),
            decreases n - i,
        {
            let ghost pre_views = stanza_views(stanzas@);
            let ghost cur = reader.pos_spec();
            let ghost rem = n as int - i as int;
            let scheme = match reader.read_bytes() {
                Some(b) => b,
                None => {
                    proof {
                        assert(p_stanza(d, cur) is None);
                        assert(p_stanza_list(d, cur, rem) is None);
                    }
                    return Err(ArkError::BadEncoding);
                }
            };
            let scheme_lit = stanza_scheme_bytes();
            if !crate::keys::eq_bytes(&scheme, &scheme_lit) {
                proof {
                    assert(p_stanza(d, cur) is None);
                    assert(p_stanza_list(d, cur, rem) is None);
                }
                return Err(ArkError::BadEncoding);
            }
            let pk_hex = match reader.read_bytes() {
                Some(b) => b,
                None => {
                    proof {
                        assert(p_stanza(d, cur) is None);
                        assert(p_stanza_list(d, cur, rem) is None);
                    }
                    return Err(ArkError::BadEncoding);
                }
            };
            let body = match reader.read_bytes() {
                Some(b) => b,
                None => {
                    proof {
                        assert(p_stanza(d, cur) is None);
                        assert(p_stanza_list(d, cur, rem) is None);
                    }
                    return Err(ArkError::BadEncoding);
                }
            };
            stanzas.push(Stanza { pk_hex, body });
            proof {
                let sv = (pk_hex@, body@);
                assert(p_stanza(d, cur) == Some((sv, reader.pos_spec())));
                assert(stanza_views(stanzas@) =~= pre_views.push(sv));
                match p_stanza_list(d, reader.pos_spec(), rem - 1) {
                    Option::None => {}
                    Option::Some((xs, p)) => {
                        assert(pre_views + (seq![sv] + xs) =~= stanza_views(stanzas@) + xs);
                    }
                }
            }
            i += 1;
        }
        proof {
            assert(stanza_views(stanzas@) + Seq::<(Seq<u8>, Seq<u8>)>::empty()
                =~= stanza_views(stanzas@));
        }
        let remaining = data.len() - reader.pos();
        let payload = match reader.read_raw(remaining) {
            Some(p) => p,
            None => {
                proof { assert(false); }
                unreached()
            }
        };
        let env = Envelope { stanzas, payload };
        proof {
            assert(parse_envelope(d)
                == Some((stanza_views(env.stanzas@), env.payload@)));
        }
        Ok(env)
    }
}


} // verus!
